//! Statement nodes of the syntax tree.
use vstd::prelude::*;
use crate::expr::Expr;
use crate::token::Token;

verus! {

/// A statement; a program is a sequence of them.
#[derive(Debug)]
pub enum Stmt {
    Block(Vec<Stmt>),
    Expression(Expr),
    Print(Expr),
    Var(Token, Option<Expr>),
}

/// The model of a statement: a block holds a sequence.
pub enum StmtV {
    Block(Seq<StmtV>),
    Expression(Expr),
    Print(Expr),
    Var(Token, Option<Expr>),
}

pub open spec fn stmt_view(s: Stmt) -> StmtV
    decreases s, 0nat,
{
    match s {
        Stmt::Block(v) => StmtV::Block(stmts_view(v, v.len() as int)),
        Stmt::Expression(e) => StmtV::Expression(e),
        Stmt::Print(e) => StmtV::Print(e),
        Stmt::Var(t, e) => StmtV::Var(t, e),
    }
}

/// The models of the first `n` statements of `v`.
pub open spec fn stmts_view(v: Vec<Stmt>, n: int) -> Seq<StmtV>
    decreases v, n,
{
    if n <= 0 || n > v.len() {
        Seq::empty()
    } else {
        stmts_view(v, n - 1).push(stmt_view(v[n - 1]))
    }
}

pub open spec fn stmts_seq_view(ss: Seq<Stmt>) -> Seq<StmtV> {
    ss.map_values(|s: Stmt| s@)
}

proof fn lemma_stmts_view(v: Vec<Stmt>, n: int)
    requires
        0 <= n <= v.len(),
    ensures
        stmts_view(v, n) == stmts_seq_view(v@.take(n)),
    decreases n,
{
    if n > 0 {
        lemma_stmts_view(v, n - 1);
        assert(v@.take(n) =~= v@.take(n - 1).push(v@[n - 1]));
        assert(stmts_seq_view(v@.take(n)) =~= stmts_seq_view(v@.take(n - 1)).push(stmt_view(v@[n - 1])));
    } else {
        assert(stmts_seq_view(v@.take(n)) =~= Seq::<StmtV>::empty());
    }
}

/// The model of a block is the sequence of the models of its statements.
pub proof fn lemma_block_view(v: Vec<Stmt>)
    ensures
        Stmt::Block(v)@ == StmtV::Block(stmts_seq_view(v@)),
{
    lemma_stmts_view(v, v.len() as int);
    assert(v@.take(v.len() as int) =~= v@);
}

impl View for Stmt {
    type V = StmtV;

    open spec fn view(&self) -> StmtV {
        stmt_view(*self)
    }
}

} // verus!
