//! Recursive-descent parser from tokens to statements and expressions.
//!
//! Every parsing function is a function of the token sequence and a
//! position: the parser keeps no cursor, so parsing the same tokens always
//! gives the same tree.
use vstd::prelude::*;
use crate::error::{Error, ErrorV};
use crate::expr::Expr;
use crate::stmt::{lemma_block_view, stmts_seq_view, Stmt, StmtV};
use crate::token::{Literal, Token, TokenType};

verus! {

/// A parsed expression and the position after it, or an error and the
/// position where it was found.
pub type ExprOutcome = Result<(Expr, int), (ErrorV, int)>;

pub type StmtOutcome = Result<(StmtV, int), (ErrorV, int)>;

pub type StmtsOutcome = Result<(Seq<StmtV>, int), (ErrorV, int)>;

/// Position `p` holds no more tokens to parse.
pub open spec fn at_end(toks: Seq<Token>, p: int) -> bool {
    p < 0 || p >= toks.len() || toks[p].token_type == TokenType::EOF
}

/// Position `p` holds a token of kind `k`.
pub open spec fn check(toks: Seq<Token>, p: int, k: TokenType) -> bool {
    !at_end(toks, p) && toks[p].token_type == k
}

/// A syntax error at position `p`.
pub open spec fn error_at(toks: Seq<Token>, p: int, message: Seq<char>) -> (ErrorV, int) {
    (
        ErrorV::CompileTime {
            token: if 0 <= p < toks.len() {
                Some(toks[p]@)
            } else {
                None
            },
            message,
        },
        p,
    )
}

/// The operators of the binary levels: 1 multiplication, 2 addition,
/// 3 comparison, 4 equality.
pub open spec fn level_op(lvl: nat, k: TokenType) -> bool {
    if lvl <= 1 {
        k == TokenType::SLASH || k == TokenType::STAR
    } else if lvl == 2 {
        k == TokenType::MINUS || k == TokenType::PLUS
    } else if lvl == 3 {
        k == TokenType::GREATER || k == TokenType::GREATER_EQUAL || k == TokenType::LESS || k
            == TokenType::LESS_EQUAL
    } else {
        k == TokenType::EQUAL_EQUAL || k == TokenType::BANG_EQUAL
    }
}

/// `expression := assignment`
pub open spec fn expression(toks: Seq<Token>, p: int) -> ExprOutcome
    decreases toks.len() - p, 16nat,
{
    assignment(toks, p)
}

/// `assignment := comma ( "=" assignment )?`, the left side a variable.
pub open spec fn assignment(toks: Seq<Token>, p: int) -> ExprOutcome
    decreases toks.len() - p, 15nat,
{
    match comma(toks, p) {
        Ok((lhs, q)) => {
            if check(toks, q, TokenType::EQUAL) && p <= q {
                match assignment(toks, q + 1) {
                    Ok((value, r)) => match lhs {
                        Expr::Variable(name) => Ok((Expr::Assign { name, value: Box::new(value) }, r)),
                        _ => Err(error_at(toks, q, "Invalid assignment target"@)),
                    },
                    Err(e) => Err(e),
                }
            } else {
                Ok((lhs, q))
            }
        },
        Err(e) => Err(e),
    }
}

/// `comma := ternary ( "," ternary )*`, left-associative.
pub open spec fn comma(toks: Seq<Token>, p: int) -> ExprOutcome
    decreases toks.len() - p, 14nat,
{
    match ternary(toks, p) {
        Ok((left, q)) => if p <= q <= toks.len() {
            comma_tail(toks, left, q)
        } else {
            Ok((left, q))
        },
        Err(e) => Err(e),
    }
}

pub open spec fn comma_tail(toks: Seq<Token>, left: Expr, q: int) -> ExprOutcome
    decreases toks.len() - q, 13nat,
{
    if check(toks, q, TokenType::COMMA) {
        match ternary(toks, q + 1) {
            Ok((right, r)) => if q < r <= toks.len() {
                comma_tail(toks, Expr::Binary(Box::new(left), toks[q], Box::new(right)), r)
            } else {
                Ok((left, q))
            },
            Err(e) => Err(e),
        }
    } else {
        Ok((left, q))
    }
}

/// `ternary := equality ( "?" ternary ":" ternary )?`
pub open spec fn ternary(toks: Seq<Token>, p: int) -> ExprOutcome
    decreases toks.len() - p, 12nat,
{
    match binary(toks, 4, p) {
        Ok((cond, q)) => {
            if check(toks, q, TokenType::QUESTION) && p <= q {
                match ternary(toks, q + 1) {
                    Ok((first, r)) => {
                        if check(toks, r, TokenType::COLON) && q < r {
                            match ternary(toks, r + 1) {
                                Ok((second, t)) => Ok(
                                    (
                                        Expr::Ternary(
                                            Box::new(cond),
                                            Box::new(first),
                                            Box::new(second),
                                            toks[q],
                                        ),
                                        t,
                                    ),
                                ),
                                Err(e) => Err(e),
                            }
                        } else {
                            Err(error_at(toks, r, "Expect ':' in ternary expression"@))
                        }
                    },
                    Err(e) => Err(e),
                }
            } else {
                Ok((cond, q))
            }
        },
        Err(e) => Err(e),
    }
}

/// A left-associative binary level: its operands are of the level below
/// (`unary` below level 1).
pub open spec fn binary(toks: Seq<Token>, lvl: nat, p: int) -> ExprOutcome
    decreases toks.len() - p, 2 * lvl + 3,
{
    let first = if lvl <= 1 {
        unary(toks, p)
    } else {
        binary(toks, (lvl - 1) as nat, p)
    };
    match first {
        Ok((left, q)) => if p <= q <= toks.len() {
            binary_tail(toks, lvl, left, q)
        } else {
            Ok((left, q))
        },
        Err(e) => Err(e),
    }
}

pub open spec fn binary_tail(toks: Seq<Token>, lvl: nat, left: Expr, q: int) -> ExprOutcome
    decreases toks.len() - q, 2 * lvl + 2,
{
    if !at_end(toks, q) && level_op(lvl, toks[q].token_type) {
        let right = if lvl <= 1 {
            unary(toks, q + 1)
        } else {
            binary(toks, (lvl - 1) as nat, q + 1)
        };
        match right {
            Ok((r, t)) => if q < t <= toks.len() {
                binary_tail(toks, lvl, Expr::Binary(Box::new(left), toks[q], Box::new(r)), t)
            } else {
                Ok((left, q))
            },
            Err(e) => Err(e),
        }
    } else {
        Ok((left, q))
    }
}

/// `unary := ( "!" | "-" ) unary | primary`
pub open spec fn unary(toks: Seq<Token>, p: int) -> ExprOutcome
    decreases toks.len() - p, 1nat,
{
    if check(toks, p, TokenType::BANG) || check(toks, p, TokenType::MINUS) {
        match unary(toks, p + 1) {
            Ok((right, q)) => Ok((Expr::Unary(toks[p], Box::new(right)), q)),
            Err(e) => Err(e),
        }
    } else {
        primary(toks, p)
    }
}

/// Literals, variables and parenthesized expressions.
pub open spec fn primary(toks: Seq<Token>, p: int) -> ExprOutcome
    decreases toks.len() - p, 0nat,
{
    if check(toks, p, TokenType::FALSE) {
        Ok((Expr::LiteralExpr(Some(Literal::Bool(false))), p + 1))
    } else if check(toks, p, TokenType::TRUE) {
        Ok((Expr::LiteralExpr(Some(Literal::Bool(true))), p + 1))
    } else if check(toks, p, TokenType::NIL) {
        Ok((Expr::LiteralExpr(Some(Literal::Nil)), p + 1))
    } else if check(toks, p, TokenType::NUMBER) || check(toks, p, TokenType::STRING) {
        Ok((Expr::LiteralExpr(toks[p].literal), p + 1))
    } else if check(toks, p, TokenType::IDENTIFIER) {
        Ok((Expr::Variable(toks[p]), p + 1))
    } else if check(toks, p, TokenType::LEFT_PAREN) {
        match expression(toks, p + 1) {
            Ok((e, q)) => if check(toks, q, TokenType::RIGHT_PAREN) {
                Ok((Expr::Grouping(Box::new(e)), q + 1))
            } else {
                Err(error_at(toks, q, "Expect ')' after expression"@))
            },
            Err(e) => Err(e),
        }
    } else {
        Err(error_at(toks, p, "Unable to resolve token here"@))
    }
}

/// `declaration := "var" var_declaration | statement`
pub open spec fn declaration(toks: Seq<Token>, p: int) -> StmtOutcome
    decreases toks.len() - p, 20nat,
{
    if check(toks, p, TokenType::VAR) {
        var_declaration(toks, p + 1)
    } else {
        statement(toks, p)
    }
}

/// `var_declaration := IDENTIFIER ( "=" expression )? ";"`
pub open spec fn var_declaration(toks: Seq<Token>, p: int) -> StmtOutcome
    decreases toks.len() - p, 18nat,
{
    if check(toks, p, TokenType::IDENTIFIER) {
        if check(toks, p + 1, TokenType::EQUAL) {
            match expression(toks, p + 2) {
                Ok((e, q)) => end_var(toks, toks[p], Some(e), q),
                Err(e) => Err(e),
            }
        } else {
            end_var(toks, toks[p], None, p + 1)
        }
    } else {
        Err(error_at(toks, p, "Expect variable name"@))
    }
}

pub open spec fn end_var(toks: Seq<Token>, name: Token, init: Option<Expr>, q: int) -> StmtOutcome {
    if check(toks, q, TokenType::SEMICOLON) {
        Ok((StmtV::Var(name, init), q + 1))
    } else {
        Err(error_at(toks, q, "Expect ';' after variable declaration"@))
    }
}

/// A statement that must end with `;`.
pub open spec fn end_statement(toks: Seq<Token>, s: StmtV, q: int) -> StmtOutcome {
    if check(toks, q, TokenType::SEMICOLON) {
        Ok((s, q + 1))
    } else {
        Err(error_at(toks, q, "Expect ';' after expression"@))
    }
}

/// `statement := "print" expression ";" | "{" block | expression ";"`
pub open spec fn statement(toks: Seq<Token>, p: int) -> StmtOutcome
    decreases toks.len() - p, 19nat,
{
    if check(toks, p, TokenType::PRINT) {
        match expression(toks, p + 1) {
            Ok((e, q)) => end_statement(toks, StmtV::Print(e), q),
            Err(e) => Err(e),
        }
    } else if check(toks, p, TokenType::LEFT_BRACE) {
        match block_items(toks, p + 1) {
            Ok((ss, q)) => Ok((StmtV::Block(ss), q)),
            Err(e) => Err(e),
        }
    } else {
        match expression(toks, p) {
            Ok((e, q)) => end_statement(toks, StmtV::Expression(e), q),
            Err(e) => Err(e),
        }
    }
}

/// `block := declaration* "}"`
pub open spec fn block_items(toks: Seq<Token>, p: int) -> StmtsOutcome
    decreases toks.len() - p, 21nat,
{
    if check(toks, p, TokenType::RIGHT_BRACE) {
        Ok((Seq::empty(), p + 1))
    } else if at_end(toks, p) {
        Err(error_at(toks, p, "Expect '}' after block"@))
    } else {
        match declaration(toks, p) {
            Ok((s, q)) => if p < q <= toks.len() {
                match block_items(toks, q) {
                    Ok((ss, r)) => Ok((seq![s] + ss, r)),
                    Err(e) => Err(e),
                }
            } else {
                Ok((seq![s], q))
            },
            Err(e) => Err(e),
        }
    }
}

/// Keywords that begin a statement.
pub open spec fn starts_statement(k: TokenType) -> bool {
    k == TokenType::CLASS || k == TokenType::FUN || k == TokenType::VAR || k == TokenType::FOR || k
        == TokenType::IF || k == TokenType::WHILE || k == TokenType::PRINT || k == TokenType::RETURN
}

/// Skips to the next statement boundary: just after a `;`, or before a
/// keyword that begins a statement.
pub open spec fn sync_from(toks: Seq<Token>, i: int) -> int
    decreases toks.len() - i,
{
    if at_end(toks, i) || (i >= 1 && toks[i - 1].token_type == TokenType::SEMICOLON)
        || starts_statement(toks[i].token_type) {
        i
    } else {
        sync_from(toks, i + 1)
    }
}

/// Where parsing resumes after an error found at `at`: one token on, then
/// to the next statement boundary.
pub open spec fn synchronize(toks: Seq<Token>, at: int) -> int {
    if at_end(toks, at) {
        at
    } else {
        sync_from(toks, at + 1)
    }
}

/// The statements of a program from position `p` on, and the syntax errors
/// met; after each error parsing resumes at the next statement boundary
/// and the failed statement is dropped.
pub open spec fn program(toks: Seq<Token>, p: int) -> (Seq<StmtV>, Seq<ErrorV>)
    decreases toks.len() - p,
{
    if at_end(toks, p) {
        (Seq::empty(), Seq::empty())
    } else {
        match declaration(toks, p) {
            Ok((s, q)) => if p < q <= toks.len() {
                let (ss, es) = program(toks, q);
                (seq![s] + ss, es)
            } else {
                (seq![s], Seq::empty())
            },
            Err((e, at)) => {
                let r = synchronize(toks, at);
                if p < r <= toks.len() {
                    let (ss, es) = program(toks, r);
                    (ss, seq![e] + es)
                } else {
                    (Seq::empty(), seq![e])
                }
            },
        }
    }
}

/// What `Parser::parse` gives: the statements, or the first syntax error.
pub open spec fn parse_tokens(toks: Seq<Token>) -> Result<Seq<StmtV>, ErrorV> {
    let (ss, es) = program(toks, 0);
    if es.len() == 0 {
        Ok(ss)
    } else {
        Err(es[0])
    }
}

/// The model of what `Parser::parse` returns.
pub open spec fn parse_outcome(r: Result<Vec<Stmt>, Error>) -> Result<Seq<StmtV>, ErrorV> {
    match r {
        Ok(ss) => Ok(stmts_seq_view(ss@)),
        Err(e) => Err(e@),
    }
}

/// Parsing keeps no state from one run to the next: two parsers given the
/// same tokens produce structurally identical statements, or the same error.
pub proof fn lemma_parse_repeatable(
    a: Parser,
    b: Parser,
    ra: Result<Vec<Stmt>, Error>,
    rb: Result<Vec<Stmt>, Error>,
)
    requires
        a.toks() == b.toks(),
        parse_outcome(ra) == parse_tokens(a.toks()),
        parse_outcome(rb) == parse_tokens(b.toks()),
    ensures
        parse_outcome(ra) == parse_outcome(rb),
{
}

pub open spec fn expr_out(r: Result<(Expr, usize), (Error, usize)>) -> ExprOutcome {
    match r {
        Ok((e, q)) => Ok((e, q as int)),
        Err((e, at)) => Err((e@, at as int)),
    }
}

pub open spec fn stmt_out(r: Result<(Stmt, usize), (Error, usize)>) -> StmtOutcome {
    match r {
        Ok((s, q)) => Ok((s@, q as int)),
        Err((e, at)) => Err((e@, at as int)),
    }
}

/// A successful parse from `p` moves on and stays within the tokens; a
/// failure is found at or after `p`.
pub open spec fn moves_on<T>(r: Result<(T, usize), (Error, usize)>, p: int, len: int) -> bool {
    match r {
        Ok((_, q)) => p < q <= len,
        Err((_, at)) => p <= at <= len,
    }
}

pub open spec fn errors_view(es: Seq<Error>) -> Seq<ErrorV> {
    es.map_values(|e: Error| e@)
}

/// The parser: a sequence of tokens, normally ended by `EOF`.
pub struct Parser {
    tokens: Vec<Token>,
}

impl Parser {
    pub closed spec fn toks(&self) -> Seq<Token> {
        self.tokens@
    }

    pub fn new(tokens: Vec<Token>) -> (r: Self)
        ensures
            r.toks() == tokens@,
    {
        Parser { tokens }
    }

    fn at_end(&self, p: usize) -> (r: bool)
        ensures
            r == at_end(self.toks(), p as int),
            !r ==> p < self.tokens.len(),
    {
        p >= self.tokens.len() || self.tokens[p].token_type == TokenType::EOF
    }

    fn check(&self, p: usize, k: TokenType) -> (r: bool)
        ensures
            r == check(self.toks(), p as int, k),
            r ==> p < self.tokens.len(),
    {
        !self.at_end(p) && self.tokens[p].token_type == k
    }

    fn error(&self, p: usize, message: &str) -> (r: (Error, usize))
        ensures
            (r.0@, r.1 as int) == error_at(self.toks(), p as int, message@),
            r.1 == p,
    {
        let token = if p < self.tokens.len() {
            Some(self.tokens[p].clone())
        } else {
            None
        };
        (Error::CompileTimeError { token, message: String::from_str(message) }, p)
    }

    fn expression(&self, p: usize) -> (r: Result<(Expr, usize), (Error, usize)>)
        requires
            p <= self.toks().len(),
        ensures
            expr_out(r) == expression(self.toks(), p as int),
            moves_on(r, p as int, self.toks().len() as int),
        decreases self.toks().len() - p, 16nat,
    {
        self.assignment(p)
    }

    fn assignment(&self, p: usize) -> (r: Result<(Expr, usize), (Error, usize)>)
        requires
            p <= self.toks().len(),
        ensures
            expr_out(r) == assignment(self.toks(), p as int),
            moves_on(r, p as int, self.toks().len() as int),
        decreases self.toks().len() - p, 15nat,
    {
        let (lhs, q) = self.comma(p)?;
        if self.check(q, TokenType::EQUAL) {
            let (value, r) = self.assignment(q + 1)?;
            match lhs {
                Expr::Variable(name) => Ok((Expr::Assign { name, value: Box::new(value) }, r)),
                _ => Err(self.error(q, "Invalid assignment target")),
            }
        } else {
            Ok((lhs, q))
        }
    }

    fn comma(&self, p: usize) -> (r: Result<(Expr, usize), (Error, usize)>)
        requires
            p <= self.toks().len(),
        ensures
            expr_out(r) == comma(self.toks(), p as int),
            moves_on(r, p as int, self.toks().len() as int),
        decreases self.toks().len() - p, 14nat,
    {
        let (left, q) = self.ternary(p)?;
        self.comma_tail(left, q)
    }

    fn comma_tail(&self, left: Expr, q: usize) -> (r: Result<(Expr, usize), (Error, usize)>)
        requires
            q <= self.toks().len(),
        ensures
            expr_out(r) == comma_tail(self.toks(), left, q as int),
            moves_on(r, q as int - 1, self.toks().len() as int),
        decreases self.toks().len() - q, 13nat,
    {
        if self.check(q, TokenType::COMMA) {
            let (right, r) = self.ternary(q + 1)?;
            let op = self.tokens[q].clone();
            self.comma_tail(Expr::Binary(Box::new(left), op, Box::new(right)), r)
        } else {
            Ok((left, q))
        }
    }

    fn ternary(&self, p: usize) -> (r: Result<(Expr, usize), (Error, usize)>)
        requires
            p <= self.toks().len(),
        ensures
            expr_out(r) == ternary(self.toks(), p as int),
            moves_on(r, p as int, self.toks().len() as int),
        decreases self.toks().len() - p, 12nat,
    {
        let (cond, q) = self.binary(4, p)?;
        if self.check(q, TokenType::QUESTION) {
            let (first, r) = self.ternary(q + 1)?;
            if self.check(r, TokenType::COLON) {
                let (second, t) = self.ternary(r + 1)?;
                let op = self.tokens[q].clone();
                Ok((Expr::Ternary(Box::new(cond), Box::new(first), Box::new(second), op), t))
            } else {
                Err(self.error(r, "Expect ':' in ternary expression"))
            }
        } else {
            Ok((cond, q))
        }
    }

    fn binary(&self, lvl: u8, p: usize) -> (r: Result<(Expr, usize), (Error, usize)>)
        requires
            p <= self.toks().len(),
        ensures
            expr_out(r) == binary(self.toks(), lvl as nat, p as int),
            moves_on(r, p as int, self.toks().len() as int),
        decreases self.toks().len() - p, 2 * lvl + 3,
    {
        let (left, q) = if lvl <= 1 {
            self.unary(p)?
        } else {
            self.binary(lvl - 1, p)?
        };
        self.binary_tail(lvl, left, q)
    }

    fn binary_tail(&self, lvl: u8, left: Expr, q: usize) -> (r: Result<(Expr, usize), (Error, usize)>)
        requires
            q <= self.toks().len(),
        ensures
            expr_out(r) == binary_tail(self.toks(), lvl as nat, left, q as int),
            moves_on(r, q as int - 1, self.toks().len() as int),
        decreases self.toks().len() - q, 2 * lvl + 2,
    {
        if !self.at_end(q) && level_op_exec(lvl, self.tokens[q].token_type) {
            let (right, t) = if lvl <= 1 {
                self.unary(q + 1)?
            } else {
                self.binary(lvl - 1, q + 1)?
            };
            let op = self.tokens[q].clone();
            self.binary_tail(lvl, Expr::Binary(Box::new(left), op, Box::new(right)), t)
        } else {
            Ok((left, q))
        }
    }

    fn unary(&self, p: usize) -> (r: Result<(Expr, usize), (Error, usize)>)
        requires
            p <= self.toks().len(),
        ensures
            expr_out(r) == unary(self.toks(), p as int),
            moves_on(r, p as int, self.toks().len() as int),
        decreases self.toks().len() - p, 1nat,
    {
        if self.check(p, TokenType::BANG) || self.check(p, TokenType::MINUS) {
            let (right, q) = self.unary(p + 1)?;
            Ok((Expr::Unary(self.tokens[p].clone(), Box::new(right)), q))
        } else {
            self.primary(p)
        }
    }

    fn primary(&self, p: usize) -> (r: Result<(Expr, usize), (Error, usize)>)
        requires
            p <= self.toks().len(),
        ensures
            expr_out(r) == primary(self.toks(), p as int),
            moves_on(r, p as int, self.toks().len() as int),
        decreases self.toks().len() - p, 0nat,
    {
        if self.check(p, TokenType::FALSE) {
            Ok((Expr::LiteralExpr(Some(Literal::Bool(false))), p + 1))
        } else if self.check(p, TokenType::TRUE) {
            Ok((Expr::LiteralExpr(Some(Literal::Bool(true))), p + 1))
        } else if self.check(p, TokenType::NIL) {
            Ok((Expr::LiteralExpr(Some(Literal::Nil)), p + 1))
        } else if self.check(p, TokenType::NUMBER) || self.check(p, TokenType::STRING) {
            let lit = match &self.tokens[p].literal {
                Some(l) => Some(l.clone()),
                None => None,
            };
            Ok((Expr::LiteralExpr(lit), p + 1))
        } else if self.check(p, TokenType::IDENTIFIER) {
            Ok((Expr::Variable(self.tokens[p].clone()), p + 1))
        } else if self.check(p, TokenType::LEFT_PAREN) {
            let (e, q) = self.expression(p + 1)?;
            if self.check(q, TokenType::RIGHT_PAREN) {
                Ok((Expr::Grouping(Box::new(e)), q + 1))
            } else {
                Err(self.error(q, "Expect ')' after expression"))
            }
        } else {
            Err(self.error(p, "Unable to resolve token here"))
        }
    }
}

pub fn level_op_exec(lvl: u8, k: TokenType) -> (r: bool)
    ensures
        r == level_op(lvl as nat, k),
{
    if lvl <= 1 {
        k == TokenType::SLASH || k == TokenType::STAR
    } else if lvl == 2 {
        k == TokenType::MINUS || k == TokenType::PLUS
    } else if lvl == 3 {
        k == TokenType::GREATER || k == TokenType::GREATER_EQUAL || k == TokenType::LESS || k
            == TokenType::LESS_EQUAL
    } else {
        k == TokenType::EQUAL_EQUAL || k == TokenType::BANG_EQUAL
    }
}

impl Parser {
    fn declaration(&self, p: usize) -> (r: Result<(Stmt, usize), (Error, usize)>)
        requires
            p <= self.toks().len(),
        ensures
            stmt_out(r) == declaration(self.toks(), p as int),
            moves_on(r, p as int, self.toks().len() as int),
        decreases self.toks().len() - p, 20nat,
    {
        if self.check(p, TokenType::VAR) {
            self.var_declaration(p + 1)
        } else {
            self.statement(p)
        }
    }

    fn var_declaration(&self, p: usize) -> (r: Result<(Stmt, usize), (Error, usize)>)
        requires
            p <= self.toks().len(),
        ensures
            stmt_out(r) == var_declaration(self.toks(), p as int),
            moves_on(r, p as int, self.toks().len() as int),
        decreases self.toks().len() - p, 18nat,
    {
        if self.check(p, TokenType::IDENTIFIER) {
            let name = self.tokens[p].clone();
            let (init, q) = if self.check(p + 1, TokenType::EQUAL) {
                let (e, q) = self.expression(p + 2)?;
                (Some(e), q)
            } else {
                (None, p + 1)
            };
            if self.check(q, TokenType::SEMICOLON) {
                Ok((Stmt::Var(name, init), q + 1))
            } else {
                Err(self.error(q, "Expect ';' after variable declaration"))
            }
        } else {
            Err(self.error(p, "Expect variable name"))
        }
    }

    fn statement(&self, p: usize) -> (r: Result<(Stmt, usize), (Error, usize)>)
        requires
            p <= self.toks().len(),
        ensures
            stmt_out(r) == statement(self.toks(), p as int),
            moves_on(r, p as int, self.toks().len() as int),
        decreases self.toks().len() - p, 19nat,
    {
        if self.check(p, TokenType::LEFT_BRACE) {
            let (ss, q) = self.block(p + 1)?;
            proof {
                lemma_block_view(ss);
            }
            return Ok((Stmt::Block(ss), q));
        }
        let is_print = self.check(p, TokenType::PRINT);
        let start = if is_print {
            p + 1
        } else {
            p
        };
        let (e, q) = self.expression(start)?;
        if self.check(q, TokenType::SEMICOLON) {
            if is_print {
                Ok((Stmt::Print(e), q + 1))
            } else {
                Ok((Stmt::Expression(e), q + 1))
            }
        } else {
            Err(self.error(q, "Expect ';' after expression"))
        }
    }

    /// The declarations of a block up to its `}`.
    fn block(&self, p: usize) -> (r: Result<(Vec<Stmt>, usize), (Error, usize)>)
        requires
            p <= self.toks().len(),
        ensures
            match r {
                Ok((ss, q)) => block_items(self.toks(), p as int) == Ok::<
                    (Seq<StmtV>, int),
                    (ErrorV, int),
                >((stmts_seq_view(ss@), q as int)),
                Err((e, at)) => block_items(self.toks(), p as int) == Err::<
                    (Seq<StmtV>, int),
                    (ErrorV, int),
                >((e@, at as int)),
            },
            moves_on(r, p as int, self.toks().len() as int),
        decreases self.toks().len() - p, 21nat,
    {
        let mut items: Vec<Stmt> = Vec::new();
        let mut q = p;
        while !self.check(q, TokenType::RIGHT_BRACE)
            invariant
                p <= q <= self.toks().len(),
                match block_items(self.toks(), q as int) {
                    Ok((rest, r)) => block_items(self.toks(), p as int) == Ok::<
                        (Seq<StmtV>, int),
                        (ErrorV, int),
                    >((stmts_seq_view(items@) + rest, r)),
                    Err(e) => block_items(self.toks(), p as int) == Err::<
                        (Seq<StmtV>, int),
                        (ErrorV, int),
                    >(e),
                },
            decreases self.toks().len() - q,
        {
            if self.at_end(q) {
                return Err(self.error(q, "Expect '}' after block"));
            }
            let (s, next) = self.declaration(q)?;
            let ghost before = items@;
            proof {
                match block_items(self.toks(), next as int) {
                    Ok((rest, r)) => {
                        assert(stmts_seq_view(before.push(s)) + rest =~= stmts_seq_view(before) + (
                        seq![s@] + rest));
                    },
                    Err(e) => {},
                }
            }
            items.push(s);
            q = next;
        }
        assert(stmts_seq_view(items@) + Seq::<StmtV>::empty() =~= stmts_seq_view(items@));
        Ok((items, q + 1))
    }

    /// Where parsing resumes after an error found at `at`.
    fn synchronize(&self, at: usize) -> (r: usize)
        requires
            at <= self.toks().len(),
        ensures
            r as int == synchronize(self.toks(), at as int),
            at <= r <= self.toks().len(),
            !at_end(self.toks(), at as int) ==> at < r,
    {
        if self.at_end(at) {
            return at;
        }
        let mut i = at + 1;
        while !self.at_end(i) && self.tokens[i - 1].token_type != TokenType::SEMICOLON
            && !starts_statement_exec(self.tokens[i].token_type)
            invariant
                at < i <= self.toks().len(),
                sync_from(self.toks(), i as int) == synchronize(self.toks(), at as int),
            decreases self.toks().len() - i,
        {
            i = i + 1;
        }
        i
    }

    /// Parses all declarations, resuming after each syntax error at the next
    /// statement boundary: the statements that parsed, and the errors met.
    #[verifier::rlimit(50)]
    pub fn parse_all(&self) -> (r: (Vec<Stmt>, Vec<Error>))
        ensures
            (stmts_seq_view(r.0@), errors_view(r.1@)) == program(self.toks(), 0),
    {
        let mut stmts: Vec<Stmt> = Vec::new();
        let mut errors: Vec<Error> = Vec::new();
        let mut p: usize = 0;
        while !self.at_end(p)
            invariant
                p <= self.toks().len(),
                ({
                    let (ss, es) = program(self.toks(), p as int);
                    program(self.toks(), 0) == (stmts_seq_view(stmts@) + ss, errors_view(errors@)
                        + es)
                }),
            decreases self.toks().len() - p,
        {
            let ghost s0 = stmts@;
            let ghost e0 = errors@;
            match self.declaration(p) {
                Ok((s, q)) => {
                    proof {
                        let (ss, es) = program(self.toks(), q as int);
                        assert(stmts_seq_view(s0.push(s)) + ss =~= stmts_seq_view(s0) + (seq![s@]
                            + ss));
                    }
                    stmts.push(s);
                    p = q;
                },
                Err((e, at)) => {
                    let r = self.synchronize(at);
                    proof {
                        let (ss, es) = program(self.toks(), r as int);
                        assert(errors_view(e0.push(e)) + es =~= errors_view(e0) + (seq![e@]
                            + es));
                    }
                    errors.push(e);
                    p = r;
                },
            }
        }
        assert(stmts_seq_view(stmts@) + Seq::<StmtV>::empty() =~= stmts_seq_view(stmts@));
        assert(errors_view(errors@) + Seq::<ErrorV>::empty() =~= errors_view(errors@));
        (stmts, errors)
    }

    /// Parses a program: its statements, or the first syntax error.
    pub fn parse(&self) -> (r: Result<Vec<Stmt>, Error>)
        ensures
            parse_outcome(r) == parse_tokens(self.toks()),
    {
        let (stmts, mut errors) = self.parse_all();
        if errors.len() == 0 {
            Ok(stmts)
        } else {
            Err(errors.remove(0))
        }
    }
}

pub fn starts_statement_exec(k: TokenType) -> (r: bool)
    ensures
        r == starts_statement(k),
{
    k == TokenType::CLASS || k == TokenType::FUN || k == TokenType::VAR || k == TokenType::FOR || k
        == TokenType::IF || k == TokenType::WHILE || k == TokenType::PRINT || k == TokenType::RETURN
}

} // verus!
