//! Printing expressions: prefix form and reverse Polish notation.
use vstd::prelude::*;
use crate::expr::Expr;

verus! {

/// Reverse Polish notation: operands first, then the operator.
pub trait RPN {
    spec fn rpn(&self) -> Seq<char>;

    fn print_rpn(&self) -> (r: String)
        ensures
            r@ == self.rpn(),
    ;
}

/// Reverse Polish form of an expression.
pub open spec fn expr_rpn(e: Expr) -> Seq<char>
    decreases e,
{
    match e {
        Expr::Binary(l, op, r) => expr_rpn(*l) + " "@ + expr_rpn(*r) + " "@ + op.lexeme@,
        Expr::Grouping(inner) => expr_rpn(*inner) + " "@,
        Expr::LiteralExpr(lit) => match lit {
            Some(l) => l@.text(),
            None => "None"@,
        },
        Expr::Unary(op, r) => expr_rpn(*r) + " "@ + op.lexeme@,
        Expr::Ternary(c, t, f, _) => expr_rpn(*c) + " "@ + expr_rpn(*t) + " "@ + expr_rpn(*f) + " "@
            + "ternary"@,
        Expr::Variable(v) => v.lexeme@,
        Expr::Assign { name, value } => expr_rpn(*value) + " "@ + name.lexeme@,
    }
}

fn rpn_of(e: &Expr) -> (r: String)
    ensures
        r@ == expr_rpn(*e),
    decreases e,
{
    match e {
        Expr::Binary(l, op, r) => {
            let mut s = rpn_of(l);
            s.append(" ");
            s.append(rpn_of(r).as_str());
            s.append(" ");
            s.append(op.lexeme.as_str());
            s
        },
        Expr::Grouping(inner) => {
            let mut s = rpn_of(inner);
            s.append(" ");
            s
        },
        Expr::LiteralExpr(lit) => match lit {
            Some(l) => l.to_string(),
            None => String::from_str("None"),
        },
        Expr::Unary(op, r) => {
            let mut s = rpn_of(r);
            s.append(" ");
            s.append(op.lexeme.as_str());
            s
        },
        Expr::Ternary(c, t, f, _) => {
            let mut s = rpn_of(c);
            s.append(" ");
            s.append(rpn_of(t).as_str());
            s.append(" ");
            s.append(rpn_of(f).as_str());
            s.append(" ");
            s.append("ternary");
            s
        },
        Expr::Variable(v) => v.lexeme.clone(),
        Expr::Assign { name, value } => {
            let mut s = rpn_of(value);
            s.append(" ");
            s.append(name.lexeme.as_str());
            s
        },
    }
}

impl RPN for Expr {
    open spec fn rpn(&self) -> Seq<char> {
        expr_rpn(*self)
    }

    fn print_rpn(&self) -> (r: String) {
        rpn_of(self)
    }
}

impl Expr {
    /// The parenthesized prefix form.
    pub fn print(&self) -> (r: String)
        ensures
            r@ == self.show(),
    {
        self.visit_string()
    }
}

} // verus!
