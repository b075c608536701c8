//! Expression nodes of the syntax tree, and their parenthesized form.
use vstd::prelude::*;
use crate::token::{Literal, Token};

verus! {

/// An expression; each node owns its children.
#[derive(Debug)]
pub enum Expr {
    /// Condition, then-branch, else-branch, and the `?` token.
    Ternary(Box<Expr>, Box<Expr>, Box<Expr>, Token),
    Binary(Box<Expr>, Token, Box<Expr>),
    Grouping(Box<Expr>),
    LiteralExpr(Option<Literal>),
    Unary(Token, Box<Expr>),
    Variable(Token),
    Assign { name: Token, value: Box<Expr> },
}

/// A visitor that turns a node into a value of type `T`.
pub trait Visitor<T> {
    fn visit(&self) -> T;
}

impl Expr {
    /// The parenthesized prefix form of an expression.
    pub open spec fn show(self) -> Seq<char>
        decreases self,
    {
        match self {
            Expr::Ternary(c, t, e, _) => "(ternary "@ + c.show() + " "@ + t.show() + " "@ + e.show()
                + ")"@,
            Expr::Binary(l, op, r) => "("@ + op.lexeme@ + " "@ + l.show() + " "@ + r.show() + ")"@,
            Expr::Grouping(e) => "(group "@ + e.show() + ")"@,
            Expr::Unary(op, r) => "("@ + op.lexeme@ + " "@ + r.show() + ")"@,
            Expr::LiteralExpr(lit) => match lit {
                Some(l) => l@.text(),
                None => "None"@,
            },
            Expr::Variable(v) => "("@ + v.lexeme@ + ")"@,
            Expr::Assign { name, value } => "("@ + name.lexeme@ + " "@ + value.show() + ")"@,
        }
    }

    /// Writes the expression in parenthesized prefix form.
    pub fn visit_string(&self) -> (r: String)
        ensures
            r@ == self.show(),
        decreases self,
    {
        match self {
            Expr::Ternary(c, t, e, _) => {
                let mut s = String::from_str("(ternary ");
                s.append(c.visit_string().as_str());
                s.append(" ");
                s.append(t.visit_string().as_str());
                s.append(" ");
                s.append(e.visit_string().as_str());
                s.append(")");
                s
            },
            Expr::Binary(l, op, r) => {
                let mut s = String::from_str("(");
                s.append(op.lexeme.as_str());
                s.append(" ");
                s.append(l.visit_string().as_str());
                s.append(" ");
                s.append(r.visit_string().as_str());
                s.append(")");
                s
            },
            Expr::Grouping(e) => {
                let mut s = String::from_str("(group ");
                s.append(e.visit_string().as_str());
                s.append(")");
                s
            },
            Expr::Unary(op, r) => {
                let mut s = String::from_str("(");
                s.append(op.lexeme.as_str());
                s.append(" ");
                s.append(r.visit_string().as_str());
                s.append(")");
                s
            },
            Expr::LiteralExpr(lit) => match lit {
                Some(l) => l.to_string(),
                None => String::from_str("None"),
            },
            Expr::Variable(v) => {
                let mut s = String::from_str("(");
                s.append(v.lexeme.as_str());
                s.append(")");
                s
            },
            Expr::Assign { name, value } => {
                let mut s = String::from_str("(");
                s.append(name.lexeme.as_str());
                s.append(" ");
                s.append(value.visit_string().as_str());
                s.append(")");
                s
            },
        }
    }
}

impl Visitor<String> for Expr {
    fn visit(&self) -> String {
        self.visit_string()
    }
}

} // verus!
