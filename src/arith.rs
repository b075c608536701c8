//! Arithmetic in the usual grammar, and what the parser and the evaluator
//! make of it.
//!
//! An `Arith` tree is a sum of terms, a term a product of factors, both
//! left-associative, and a factor a number or a parenthesized sum. Written
//! out as tokens, such a tree parses back to itself, and evaluating it gives
//! the value that usual arithmetic gives.
use vstd::prelude::*;
use crate::environment::EnvV;
use crate::error::ErrorV;
use crate::expr::Expr;
use crate::interpreter::eval;
use crate::number::Rat;
use crate::parser::{
    assignment, at_end, binary, binary_tail, check, comma, comma_tail, expression, level_op,
    primary, ternary, unary,
};
use crate::token::{Literal, Token, TokenType};
use crate::typer::TyperV;

verus! {

/// An arithmetic expression over the tokens it is written with.
pub enum Arith {
    /// A number token.
    Num(Token),
    /// Left operand, operator token, right operand.
    Op(Box<Arith>, Token, Box<Arith>),
    /// Opening parenthesis, inner sum, closing parenthesis.
    Paren(Token, Box<Arith>, Token),
}

pub open spec fn is_add_op(k: TokenType) -> bool {
    k == TokenType::PLUS || k == TokenType::MINUS
}

pub open spec fn is_mul_op(k: TokenType) -> bool {
    k == TokenType::STAR || k == TokenType::SLASH
}

/// 2 for a sum, 1 for a product, 0 for a factor.
pub open spec fn level(a: Arith) -> nat {
    match a {
        Arith::Op(_, t, _) => if is_add_op(t.token_type) {
            2
        } else {
            1
        },
        _ => 0,
    }
}

/// `a` follows the usual grammar at level `lvl` or below: an operator's
/// left operand is of its level or below, its right operand strictly below,
/// and a parenthesis holds a sum.
pub open spec fn well_formed(a: Arith, lvl: nat) -> bool
    decreases a,
{
    match a {
        Arith::Num(t) => t.token_type == TokenType::NUMBER && t.literal matches Some(
            Literal::Number(_),
        ),
        Arith::Op(l, t, r) => {
            &&& is_add_op(t.token_type) || is_mul_op(t.token_type)
            &&& level(a) <= lvl
            &&& well_formed(*l, level(a))
            &&& well_formed(*r, (level(a) - 1) as nat)
        },
        Arith::Paren(o, x, c) => {
            &&& o.token_type == TokenType::LEFT_PAREN
            &&& c.token_type == TokenType::RIGHT_PAREN
            &&& well_formed(*x, 2)
        },
    }
}

/// The tokens an expression is written with.
pub open spec fn render(a: Arith) -> Seq<Token>
    decreases a,
{
    match a {
        Arith::Num(t) => seq![t],
        Arith::Op(l, t, r) => render(*l) + seq![t] + render(*r),
        Arith::Paren(o, x, c) => seq![o] + render(*x) + seq![c],
    }
}

/// The syntax tree that stands for an expression.
pub open spec fn to_expr(a: Arith) -> Expr
    decreases a,
{
    match a {
        Arith::Num(t) => Expr::LiteralExpr(t.literal),
        Arith::Op(l, t, r) => Expr::Binary(Box::new(to_expr(*l)), t, Box::new(to_expr(*r))),
        Arith::Paren(_, x, _) => Expr::Grouping(Box::new(to_expr(*x))),
    }
}

/// An operator of usual arithmetic on two numbers; undefined only for a
/// zero divisor.
pub open spec fn apply(k: TokenType, x: Rat, y: Rat) -> Option<Rat> {
    if k == TokenType::PLUS {
        Some(x.add(y))
    } else if k == TokenType::MINUS {
        Some(x.sub(y))
    } else if k == TokenType::STAR {
        Some(x.mul(y))
    } else if y.is_zero() {
        None
    } else {
        Some(x.div(y))
    }
}

/// The value of an expression in usual arithmetic.
pub open spec fn value(a: Arith) -> Option<Rat>
    decreases a,
{
    match a {
        Arith::Num(t) => match t.literal {
            Some(Literal::Number(n)) => Some(n@),
            _ => None,
        },
        Arith::Op(l, t, r) => match (value(*l), value(*r)) {
            (Some(x), Some(y)) => apply(t.token_type, x, y),
            _ => None,
        },
        Arith::Paren(_, x, _) => value(*x),
    }
}

/// The first operand of the chain of level-`lvl` operators that `a` is.
pub open spec fn chain_start(a: Arith, lvl: nat) -> Arith
    decreases a,
{
    match a {
        Arith::Op(l, t, r) => if level(a) == lvl && lvl > 0 {
            chain_start(*l, lvl)
        } else {
            a
        },
        _ => a,
    }
}

/// `a` is written at position `p` of `toks`.
pub open spec fn written_at(toks: Seq<Token>, p: int, a: Arith) -> bool {
    0 <= p && p + render(a).len() <= toks.len() && toks.subrange(p, p + render(a).len() as int)
        == render(a)
}

/// Position `q` ends a parse at binary level `lvl`.
pub open spec fn ends_level(toks: Seq<Token>, q: int, lvl: nat) -> bool {
    at_end(toks, q) || (!is_mul_op(toks[q].token_type) && (lvl < 2 || !is_add_op(
        toks[q].token_type,
    )))
}

/// Position `q` ends an expression: the end of input, `)` or `;`.
pub open spec fn ends_expression(toks: Seq<Token>, q: int) -> bool {
    at_end(toks, q) || toks[q].token_type == TokenType::RIGHT_PAREN || toks[q].token_type
        == TokenType::SEMICOLON
}

proof fn lemma_render_nonempty(a: Arith)
    ensures
        render(a).len() >= 1,
    decreases a,
{
    match a {
        Arith::Op(l, t, r) => {
            lemma_render_nonempty(*l);
        },
        _ => {},
    }
}

/// Where the parts of an operator or a parenthesis are written.
proof fn lemma_parts(toks: Seq<Token>, p: int, a: Arith)
    requires
        written_at(toks, p, a),
    ensures
        match a {
            Arith::Op(l, t, r) => {
                &&& written_at(toks, p, *l)
                &&& toks[p + render(*l).len()] == t
                &&& written_at(toks, p + render(*l).len() + 1, *r)
                &&& render(a).len() == render(*l).len() + 1 + render(*r).len()
            },
            Arith::Paren(o, x, c) => {
                &&& toks[p] == o
                &&& written_at(toks, p + 1, *x)
                &&& toks[p + 1 + render(*x).len()] == c
                &&& render(a).len() == render(*x).len() + 2
            },
            Arith::Num(t) => toks[p] == t && render(a).len() == 1,
        },
{
    let w = render(a);
    let n = w.len() as int;
    assert(toks.subrange(p, p + n) == w);
    match a {
        Arith::Op(l, t, r) => {
            let ll = render(*l).len() as int;
            let rl = render(*r).len() as int;
            assert(w[ll] == t);
            assert(toks[p + ll] == toks.subrange(p, p + n)[ll]);
            assert(toks.subrange(p, p + ll) =~= w.subrange(0, ll));
            assert(w.subrange(0, ll) =~= render(*l));
            assert(toks.subrange(p + ll + 1, p + ll + 1 + rl) =~= w.subrange(ll + 1, n));
            assert(w.subrange(ll + 1, n) =~= render(*r));
        },
        Arith::Paren(o, x, c) => {
            let xl = render(*x).len() as int;
            assert(toks[p] == toks.subrange(p, p + n)[0]);
            assert(toks[p + 1 + xl] == toks.subrange(p, p + n)[1 + xl]);
            assert(toks.subrange(p + 1, p + 1 + xl) =~= w.subrange(1, 1 + xl));
            assert(w.subrange(1, 1 + xl) =~= render(*x));
        },
        Arith::Num(t) => {
            assert(toks[p] == toks.subrange(p, p + n)[0]);
        },
    }
}

/// The chain start of a level-`lvl` expression is written first, is of the
/// level below, and is followed by an operator of level `lvl` when it is not
/// the whole expression.
proof fn lemma_chain_start(toks: Seq<Token>, p: int, a: Arith, lvl: nat)
    requires
        1 <= lvl <= 2,
        well_formed(a, lvl),
        written_at(toks, p, a),
    ensures
        written_at(toks, p, chain_start(a, lvl)),
        well_formed(chain_start(a, lvl), (lvl - 1) as nat),
        chain_start(a, lvl) != a ==> level_op(
            lvl,
            toks[p + render(chain_start(a, lvl)).len()].token_type,
        ) && !at_end(toks, p + render(chain_start(a, lvl)).len()),
        chain_start(a, lvl) != a ==> render(chain_start(a, lvl)).len() < render(a).len(),
    decreases a,
{
    lemma_parts(toks, p, a);
    match a {
        Arith::Op(l, t, r) => {
            if level(a) == lvl {
                lemma_chain_start(toks, p, *l, lvl);
                lemma_render_nonempty(*r);
                if chain_start(*l, lvl) == *l {
                    assert(toks[p + render(*l).len()] == t);
                }
            } else {
                lemma_wf_lower(a, level(a), (lvl - 1) as nat);
            }
        },
        Arith::Paren(o, x, c) => {},
        Arith::Num(t) => {},
    }
}

proof fn lemma_wf_lower(a: Arith, lvl: nat, to: nat)
    requires
        well_formed(a, lvl),
        level(a) <= to,
    ensures
        well_formed(a, to),
{
}

/// A factor parses as a unary expression.
proof fn lemma_parse_factor(toks: Seq<Token>, p: int, a: Arith)
    requires
        well_formed(a, 0),
        written_at(toks, p, a),
    ensures
        unary(toks, p) == Ok::<(Expr, int), (ErrorV, int)>((to_expr(a), p + render(a).len())),
    decreases render(a).len(), 0nat, 0nat,
{
    lemma_parts(toks, p, a);
    match a {
        Arith::Num(t) => {
            assert(primary(toks, p) == Ok::<(Expr, int), (ErrorV, int)>((to_expr(a), p + 1)));
        },
        Arith::Paren(o, x, c) => {
            let q = p + 1 + render(*x).len();
            lemma_parse_sum(toks, p + 1, *x);
            assert(check(toks, q, TokenType::RIGHT_PAREN));
            assert(primary(toks, p) == Ok::<(Expr, int), (ErrorV, int)>(
                (Expr::Grouping(Box::new(to_expr(*x))), q + 1),
            ));
        },
        Arith::Op(l, t, r) => {},
    }
}

/// An expression of binary level `lvl` parses at that level.
proof fn lemma_parse_level(toks: Seq<Token>, p: int, a: Arith, lvl: nat)
    requires
        1 <= lvl <= 2,
        well_formed(a, lvl),
        written_at(toks, p, a),
        ends_level(toks, p + render(a).len(), lvl),
    ensures
        binary(toks, lvl, p) == Ok::<(Expr, int), (ErrorV, int)>(
            (to_expr(a), p + render(a).len()),
        ),
    decreases render(a).len(), lvl, 1nat,
{
    let m = chain_start(a, lvl);
    lemma_chain_start(toks, p, a, lvl);
    let q = p + render(m).len();
    if lvl == 1 {
        lemma_parse_factor(toks, p, m);
    } else {
        lemma_parse_level(toks, p, m, 1);
    }
    lemma_render_nonempty(m);
    lemma_chain_tail(toks, p, a, lvl);
    let end = p + render(a).len();
    assert(binary_tail(toks, lvl, to_expr(a), end) == Ok::<(Expr, int), (ErrorV, int)>(
        (to_expr(a), end),
    ));
}

/// Parsing the operators of a chain, from its first operand on, ends with
/// the whole chain.
proof fn lemma_chain_tail(toks: Seq<Token>, p: int, a: Arith, lvl: nat)
    requires
        1 <= lvl <= 2,
        well_formed(a, lvl),
        written_at(toks, p, a),
        lvl == 2 ==> ends_level(toks, p + render(a).len(), 1),
    ensures
        binary_tail(
            toks,
            lvl,
            to_expr(chain_start(a, lvl)),
            p + render(chain_start(a, lvl)).len(),
        ) == binary_tail(toks, lvl, to_expr(a), p + render(a).len()),
    decreases render(a).len(), lvl, 0nat,
{
    if chain_start(a, lvl) != a {
        lemma_parts(toks, p, a);
        match a {
            Arith::Op(l, t, r) => {
                lemma_render_nonempty(*r);
                lemma_render_nonempty(*l);
                lemma_chain_tail(toks, p, *l, lvl);
                let q = p + render(*l).len();
                let end = p + render(a).len();
                if lvl == 1 {
                    lemma_parse_factor(toks, q + 1, *r);
                } else {
                    lemma_parse_level(toks, q + 1, *r, 1);
                }
                assert(binary_tail(toks, lvl, to_expr(*l), q) == binary_tail(
                    toks,
                    lvl,
                    Expr::Binary(Box::new(to_expr(*l)), toks[q], Box::new(to_expr(*r))),
                    end,
                ));
            },
            _ => {},
        }
    }
}

/// A sum parses as an expression when `)`, `;` or the end follows it.
proof fn lemma_parse_sum(toks: Seq<Token>, p: int, a: Arith)
    requires
        well_formed(a, 2),
        written_at(toks, p, a),
        ends_expression(toks, p + render(a).len()),
    ensures
        expression(toks, p) == Ok::<(Expr, int), (ErrorV, int)>(
            (to_expr(a), p + render(a).len()),
        ),
    decreases render(a).len(), 3nat, 0nat,
{
    let q = p + render(a).len();
    let e = to_expr(a);
    lemma_parse_level(toks, p, a, 2);
    lemma_render_nonempty(a);
    assert(binary_tail(toks, 3, e, q) == Ok::<(Expr, int), (ErrorV, int)>((e, q)));
    assert(binary(toks, 3, p) == Ok::<(Expr, int), (ErrorV, int)>((e, q)));
    assert(binary_tail(toks, 4, e, q) == Ok::<(Expr, int), (ErrorV, int)>((e, q)));
    assert(binary(toks, 4, p) == Ok::<(Expr, int), (ErrorV, int)>((e, q)));
    assert(ternary(toks, p) == Ok::<(Expr, int), (ErrorV, int)>((e, q)));
    assert(comma_tail(toks, e, q) == Ok::<(Expr, int), (ErrorV, int)>((e, q)));
    assert(comma(toks, p) == Ok::<(Expr, int), (ErrorV, int)>((e, q)));
    assert(assignment(toks, p) == Ok::<(Expr, int), (ErrorV, int)>((e, q)));
}

/// Evaluating the tree of an expression gives its value in usual
/// arithmetic, or an error where that value is undefined, and assigns
/// nothing.
proof fn lemma_eval_arith(a: Arith, lvl: nat, env: EnvV)
    requires
        well_formed(a, lvl),
    ensures
        eval(to_expr(a), env).1 == env,
        match value(a) {
            Some(n) => eval(to_expr(a), env).0 == Ok::<TyperV, ErrorV>(TyperV::Number(n)),
            None => eval(to_expr(a), env).0 is Err,
        },
    decreases a,
{
    match a {
        Arith::Num(t) => {},
        Arith::Op(l, t, r) => {
            lemma_eval_arith(*l, level(a), env);
            lemma_eval_arith(*r, (level(a) - 1) as nat, env);
        },
        Arith::Paren(o, x, c) => {
            lemma_eval_arith(*x, 2, env);
        },
    }
}

/// Written out as tokens and followed by `)`, `;` or the end, an arithmetic
/// expression in the usual grammar parses back to its own tree, with
/// products binding tighter than sums and both grouping to the left; and
/// evaluating that tree, in any scope chain, gives the value of usual
/// arithmetic, or a runtime error where that value is undefined (a zero
/// divisor).
pub proof fn lemma_arith_round_trip(a: Arith, toks: Seq<Token>, env: EnvV)
    requires
        well_formed(a, 2),
        written_at(toks, 0, a),
        ends_expression(toks, render(a).len() as int),
    ensures
        expression(toks, 0) == Ok::<(Expr, int), (ErrorV, int)>(
            (to_expr(a), render(a).len() as int),
        ),
        eval(to_expr(a), env).1 == env,
        match value(a) {
            Some(n) => eval(to_expr(a), env).0 == Ok::<TyperV, ErrorV>(TyperV::Number(n)),
            None => eval(to_expr(a), env).0 is Err,
        },
{
    lemma_parse_sum(toks, 0, a);
    lemma_eval_arith(a, 2, env);
}

} // verus!
