//! The tree-walking evaluator: expressions to values, statements to
//! effects on the scope chain and printed lines.
use vstd::prelude::*;
use crate::environment::{
    assign_in, define_in, lemma_assign_reads_back, lemma_define_reads_back, lookup, runtime_error,
    EnvV, Environment,
};
use crate::error::{Error, ErrorV};
use crate::expr::Expr;
use crate::number::Num;
use crate::stmt::{lemma_block_view, stmts_seq_view, Stmt, StmtV};
use crate::token::{bool_text, bool_to_string, Literal, LiteralV, Token, TokenType};
use crate::typer::{Typer, TyperV};

verus! {

/// The number of nodes of an expression.
pub open spec fn size(e: Expr) -> nat
    decreases e,
{
    match e {
        Expr::Ternary(c, t, f, _) => 1 + size(*c) + size(*t) + size(*f),
        Expr::Binary(l, _, r) => 1 + size(*l) + size(*r),
        Expr::Grouping(x) => 1 + size(*x),
        Expr::LiteralExpr(_) => 1,
        Expr::Unary(_, x) => 1 + size(*x),
        Expr::Variable(_) => 1,
        Expr::Assign { value, .. } => 1 + size(*value),
    }
}

pub open spec fn literal_value(l: LiteralV) -> TyperV {
    match l {
        LiteralV::Number(n) => TyperV::Number(n),
        LiteralV::Str(s) => TyperV::Str(s),
        LiteralV::Bool(b) => TyperV::Boolean(b),
        LiteralV::Nil => TyperV::Nil,
    }
}

/// Lexicographic order of strings, by character code.
pub open spec fn seq_less(a: Seq<char>, b: Seq<char>) -> bool
    decreases a.len(),
{
    if a.len() == 0 {
        b.len() > 0
    } else if b.len() == 0 {
        false
    } else if a[0] != b[0] {
        (a[0] as u32) < (b[0] as u32)
    } else {
        seq_less(a.drop_first(), b.drop_first())
    }
}

/// Equality: `Nil` equals only `Nil`; numbers, strings and booleans compare
/// by value; any other pair of types is an error.
pub open spec fn is_equal(l: TyperV, r: TyperV, op: Token) -> Result<bool, ErrorV> {
    match (l, r) {
        (TyperV::Nil, TyperV::Nil) => Ok(true),
        (TyperV::Nil, _) => Ok(false),
        (_, TyperV::Nil) => Ok(false),
        (TyperV::Number(a), TyperV::Number(b)) => Ok(a.same_value(b)),
        (TyperV::Str(a), TyperV::Str(b)) => Ok(a == b),
        (TyperV::Boolean(a), TyperV::Boolean(b)) => Ok(a == b),
        _ => Err(runtime_error(op@, "Mismatched types, cannot compare the two operands"@)),
    }
}

pub open spec fn is_comparison(k: TokenType) -> bool {
    k == TokenType::GREATER || k == TokenType::GREATER_EQUAL || k == TokenType::LESS || k
        == TokenType::LESS_EQUAL
}

/// The outcome of a comparison, from whether left is below right and
/// right below left.
pub open spec fn order(k: TokenType, lr: bool, rl: bool) -> bool {
    if k == TokenType::GREATER {
        rl
    } else if k == TokenType::GREATER_EQUAL {
        !lr
    } else if k == TokenType::LESS {
        lr
    } else {
        !rl
    }
}

/// A binary operator applied to two values.
pub open spec fn binary_op(op: Token, l: TyperV, r: TyperV) -> Result<TyperV, ErrorV> {
    let k = op.token_type;
    if k == TokenType::PLUS {
        match (l, r) {
            (TyperV::Number(a), TyperV::Number(b)) => Ok(TyperV::Number(a.add(b))),
            (TyperV::Str(a), TyperV::Str(b)) => Ok(TyperV::Str(a + b)),
            (TyperV::Str(a), TyperV::Number(b)) => Ok(TyperV::Str(a + b.text())),
            (TyperV::Str(a), TyperV::Boolean(b)) => Ok(TyperV::Str(a + bool_text(b))),
            _ => Err(runtime_error(op@, "Mismatched types. Cannot add the two operands"@)),
        }
    } else if k == TokenType::MINUS {
        match (l, r) {
            (TyperV::Number(a), TyperV::Number(b)) => Ok(TyperV::Number(a.sub(b))),
            _ => Err(runtime_error(op@, "Mismatched types. Cannot subtract the two operands"@)),
        }
    } else if k == TokenType::SLASH {
        match (l, r) {
            (TyperV::Number(a), TyperV::Number(b)) => if b.is_zero() {
                Err(runtime_error(op@, "Divide by zero error. The denominator is equal to zero!"@))
            } else {
                Ok(TyperV::Number(a.div(b)))
            },
            _ => Err(runtime_error(op@, "Mismatched types. Cannot divide the two operands"@)),
        }
    } else if k == TokenType::STAR {
        match (l, r) {
            (TyperV::Number(a), TyperV::Number(b)) => Ok(TyperV::Number(a.mul(b))),
            _ => Err(runtime_error(op@, "Mismatched types. Cannot multiply the two operands"@)),
        }
    } else if is_comparison(k) {
        match (l, r) {
            (TyperV::Number(a), TyperV::Number(b)) => Ok(
                TyperV::Boolean(order(k, a.below(b), b.below(a))),
            ),
            (TyperV::Str(a), TyperV::Str(b)) => Ok(
                TyperV::Boolean(order(k, seq_less(a, b), seq_less(b, a))),
            ),
            _ => Err(runtime_error(op@, "Mismatched types. Cannot compare the two operands"@)),
        }
    } else if k == TokenType::EQUAL_EQUAL {
        match is_equal(l, r, op) {
            Ok(b) => Ok(TyperV::Boolean(b)),
            Err(e) => Err(e),
        }
    } else if k == TokenType::BANG_EQUAL {
        match is_equal(l, r, op) {
            Ok(b) => Ok(TyperV::Boolean(!b)),
            Err(e) => Err(e),
        }
    } else {
        Err(runtime_error(op@, "Cannot fathom the binary operation. Check your code again"@))
    }
}

/// A prefix operator applied to a value.
pub open spec fn unary_op(op: Token, v: TyperV) -> Result<TyperV, ErrorV> {
    if op.token_type == TokenType::BANG {
        Ok(TyperV::Boolean(!v.truthy()))
    } else if op.token_type == TokenType::MINUS {
        match v {
            TyperV::Number(n) => Ok(TyperV::Number(n.neg())),
            _ => Err(
                runtime_error(
                    op@,
                    "Mismatched unary operation. Cannot perform operation on the following."@,
                ),
            ),
        }
    } else {
        Ok(TyperV::Nil)
    }
}

/// The branch that a ternary condition selects.
pub open spec fn choose_branch(op: Token, c: TyperV, t: TyperV, f: TyperV) -> Result<TyperV, ErrorV> {
    match c {
        TyperV::Boolean(b) => Ok(if b {
            t
        } else {
            f
        }),
        TyperV::Nil => Ok(f),
        _ => Err(runtime_error(op@, "ternary operation failed."@)),
    }
}

pub open spec fn missing_literal() -> ErrorV {
    ErrorV::Runtime { token: None, message: "Literal without a value"@ }
}

/// Evaluation of an expression in a scope chain: its value or error, and
/// the chain after the assignments it made. Operands are evaluated left to
/// right, and all three parts of a ternary are evaluated.
pub open spec fn eval(e: Expr, env: EnvV) -> (Result<TyperV, ErrorV>, EnvV)
    decreases e,
{
    match e {
        Expr::LiteralExpr(lit) => match lit {
            Some(l) => (Ok(literal_value(l@)), env),
            None => (Err(missing_literal()), env),
        },
        Expr::Grouping(x) => eval(*x, env),
        Expr::Unary(op, x) => {
            let (r, env1) = eval(*x, env);
            match r {
                Ok(v) => (unary_op(op, v), env1),
                Err(err) => (Err(err), env1),
            }
        },
        Expr::Binary(l, op, r) => {
            let (a, env1) = eval(*l, env);
            match a {
                Err(err) => (Err(err), env1),
                Ok(lv) => {
                    let (b, env2) = eval(*r, env1);
                    match b {
                        Err(err) => (Err(err), env2),
                        Ok(rv) => (binary_op(op, lv, rv), env2),
                    }
                },
            }
        },
        Expr::Ternary(c, t, f, op) => {
            let (a, env1) = eval(*c, env);
            match a {
                Err(err) => (Err(err), env1),
                Ok(cv) => {
                    let (b, env2) = eval(*t, env1);
                    match b {
                        Err(err) => (Err(err), env2),
                        Ok(tv) => {
                            let (d, env3) = eval(*f, env2);
                            match d {
                                Err(err) => (Err(err), env3),
                                Ok(fv) => (choose_branch(op, cv, tv, fv), env3),
                            }
                        },
                    }
                },
            }
        },
        Expr::Variable(name) => (
            match lookup(env, name.lexeme@) {
                Some(v) => Ok(v),
                None => Err(runtime_error(name@, "Undefined variable '"@ + name.lexeme@ + "'."@)),
            },
            env,
        ),
        Expr::Assign { name, value } => {
            let (r, env1) = eval(*value, env);
            match r {
                Err(err) => (Err(err), env1),
                Ok(v) => match assign_in(env1, name.lexeme@, v) {
                    Some(env2) => (Ok(v), env2),
                    None => (Err(runtime_error(name@, "Undefined variable: "@ + name.lexeme@)), env1),
                },
            }
        },
    }
}

pub open spec fn value_out(r: Result<Typer, Error>) -> Result<TyperV, ErrorV> {
    match r {
        Ok(v) => Ok(v@),
        Err(e) => Err(e@),
    }
}

pub open spec fn unit_out(r: Result<(), Error>) -> Result<(), ErrorV> {
    match r {
        Ok(_) => Ok(()),
        Err(e) => Err(e@),
    }
}

/// The chain after leaving a block's frame.
pub open spec fn leave_frame(env: EnvV) -> EnvV {
    if env.len() > 1 {
        env.drop_last()
    } else {
        env
    }
}

/// Execution of a statement: success or the first runtime error, the scope
/// chain after it, and the lines it printed.
pub open spec fn exec_stmt(s: StmtV, env: EnvV) -> (Result<(), ErrorV>, EnvV, Seq<Seq<char>>)
    decreases s, 0nat,
{
    match s {
        StmtV::Expression(e) => {
            let (r, env1) = eval(e, env);
            (
                match r {
                    Ok(_) => Ok(()),
                    Err(err) => Err(err),
                },
                env1,
                Seq::empty(),
            )
        },
        StmtV::Print(e) => {
            let (r, env1) = eval(e, env);
            match r {
                Ok(v) => (Ok(()), env1, seq![v.text()]),
                Err(err) => (Err(err), env1, Seq::empty()),
            }
        },
        StmtV::Var(name, init) => match init {
            None => (Ok(()), env, Seq::empty()),
            Some(e) => {
                let (r, env1) = eval(e, env);
                match r {
                    Ok(v) => (Ok(()), define_in(env1, name.lexeme@, v), Seq::empty()),
                    Err(err) => (Err(err), env1, Seq::empty()),
                }
            },
        },
        StmtV::Block(ss) => {
            let (r, env1, out) = exec_from(ss, 0, env.push(Map::empty()));
            (r, leave_frame(env1), out)
        },
    }
}

/// Execution of the statements `ss[i..]` in order, stopping at the first
/// error.
pub open spec fn exec_from(ss: Seq<StmtV>, i: int, env: EnvV) -> (
    Result<(), ErrorV>,
    EnvV,
    Seq<Seq<char>>,
)
    decreases ss, ss.len() - i,
{
    if i < 0 || i >= ss.len() {
        (Ok(()), env, Seq::empty())
    } else {
        let (r, env1, out1) = exec_stmt(ss[i], env);
        match r {
            Err(err) => (Err(err), env1, out1),
            Ok(_) => {
                let (r2, env2, out2) = exec_from(ss, i + 1, env1);
                (r2, env2, out1 + out2)
            },
        }
    }
}

/// The expression assigns to no variable.
pub open spec fn assigns_nothing(e: Expr) -> bool
    decreases e,
{
    match e {
        Expr::Ternary(c, t, f, _) => assigns_nothing(*c) && assigns_nothing(*t) && assigns_nothing(
            *f,
        ),
        Expr::Binary(l, _, r) => assigns_nothing(*l) && assigns_nothing(*r),
        Expr::Grouping(x) => assigns_nothing(*x),
        Expr::Unary(_, x) => assigns_nothing(*x),
        Expr::Assign { .. } => false,
        _ => true,
    }
}

/// The statement, and every statement nested in it, assigns to no variable.
pub open spec fn stmt_assigns_nothing(s: StmtV) -> bool
    decreases s, 0nat,
{
    match s {
        StmtV::Expression(e) => assigns_nothing(e),
        StmtV::Print(e) => assigns_nothing(e),
        StmtV::Var(_, init) => match init {
            Some(e) => assigns_nothing(e),
            None => true,
        },
        StmtV::Block(ss) => all_assign_nothing(ss, 0),
    }
}

pub open spec fn all_assign_nothing(ss: Seq<StmtV>, i: int) -> bool
    decreases ss, ss.len() - i,
{
    if i < 0 || i >= ss.len() {
        true
    } else {
        stmt_assigns_nothing(ss[i]) && all_assign_nothing(ss, i + 1)
    }
}

/// Evaluation keeps the number of frames; without assignments it changes
/// no frame at all.
pub proof fn lemma_eval_frames(e: Expr, env: EnvV)
    ensures
        eval(e, env).1.len() == env.len(),
        assigns_nothing(e) ==> eval(e, env).1 == env,
    decreases e,
{
    match e {
        Expr::Grouping(x) => lemma_eval_frames(*x, env),
        Expr::Unary(_, x) => lemma_eval_frames(*x, env),
        Expr::Binary(l, _, r) => {
            lemma_eval_frames(*l, env);
            lemma_eval_frames(*r, eval(*l, env).1);
        },
        Expr::Ternary(c, t, f, _) => {
            lemma_eval_frames(*c, env);
            let e1 = eval(*c, env).1;
            lemma_eval_frames(*t, e1);
            lemma_eval_frames(*f, eval(*t, e1).1);
        },
        Expr::Assign { name, value } => {
            lemma_eval_frames(*value, env);
            let (r, env1) = eval(*value, env);
            if let Ok(v) = r {
                lemma_assign_reads_back(env1, name.lexeme@, v);
            }
        },
        _ => {},
    }
}

/// Executing a statement keeps the number of frames of a chain that has
/// one; without assignments it changes no frame but the innermost.
pub proof fn lemma_exec_frames(s: StmtV, env: EnvV)
    requires
        env.len() >= 1,
    ensures
        exec_stmt(s, env).1.len() == env.len(),
        stmt_assigns_nothing(s) ==> exec_stmt(s, env).1.drop_last() == env.drop_last(),
    decreases s, 0nat,
{
    match s {
        StmtV::Expression(e) => lemma_eval_frames(e, env),
        StmtV::Print(e) => lemma_eval_frames(e, env),
        StmtV::Var(name, init) => {
            if let Some(e) = init {
                lemma_eval_frames(e, env);
                let (r, env1) = eval(e, env);
                if let Ok(v) = r {
                    lemma_define_reads_back(env1, name.lexeme@, v);
                }
            }
        },
        StmtV::Block(ss) => {
            let inner = env.push(Map::empty());
            lemma_exec_from_frames(ss, 0, inner);
            let after = exec_from(ss, 0, inner).1;
            if all_assign_nothing(ss, 0) {
                assert(inner.drop_last() =~= env);
                assert(after.drop_last() == env);
            }
        },
    }
}

/// Executing statements in turn keeps the number of frames; without
/// assignments it changes no frame but the innermost.
pub proof fn lemma_exec_from_frames(ss: Seq<StmtV>, i: int, env: EnvV)
    requires
        env.len() >= 1,
    ensures
        exec_from(ss, i, env).1.len() == env.len(),
        all_assign_nothing(ss, i) ==> exec_from(ss, i, env).1.drop_last() == env.drop_last(),
    decreases ss, ss.len() - i,
{
    if 0 <= i < ss.len() {
        lemma_exec_frames(ss[i], env);
        let (r, env1, out1) = exec_stmt(ss[i], env);
        if r is Ok {
            lemma_exec_from_frames(ss, i + 1, env1);
        }
    }
}

/// Declarations in a block stay in the block: after a block whose
/// statements assign nothing, the scope chain is exactly what it was
/// before, whatever the block declared or printed. Assignments are what
/// reach the enclosing frames; a block always leaves as many frames as it
/// found.
pub proof fn lemma_block_does_not_leak(ss: Seq<StmtV>, env: EnvV)
    requires
        env.len() >= 1,
    ensures
        exec_stmt(StmtV::Block(ss), env).1.len() == env.len(),
        all_assign_nothing(ss, 0) ==> exec_stmt(StmtV::Block(ss), env).1 == env,
{
    lemma_exec_frames(StmtV::Block(ss), env);
    let inner = env.push(Map::empty());
    lemma_exec_from_frames(ss, 0, inner);
    assert(inner.drop_last() =~= env);
}

fn rt_error(op: &Token, message: &str) -> (r: Error)
    ensures
        r@ == runtime_error(op@, message@),
{
    Error::RuntimeError { token: Some(op.clone()), message: String::from_str(message) }
}

/// Lexicographic comparison of two strings.
fn str_less(a: &String, b: &String) -> (r: bool)
    ensures
        r == seq_less(a@, b@),
{
    let la = a.as_str().unicode_len();
    let lb = b.as_str().unicode_len();
    let mut i: usize = 0;
    assert(a@.skip(0) =~= a@);
    assert(b@.skip(0) =~= b@);
    while i < la && i < lb
        invariant
            la == a@.len(),
            lb == b@.len(),
            i <= la,
            i <= lb,
            seq_less(a@, b@) == seq_less(a@.skip(i as int), b@.skip(i as int)),
        decreases la - i,
    {
        let ca = a.as_str().get_char(i);
        let cb = b.as_str().get_char(i);
        if ca != cb {
            return (ca as u32) < (cb as u32);
        }
        assert(a@.skip(i as int).drop_first() =~= a@.skip(i + 1));
        assert(b@.skip(i as int).drop_first() =~= b@.skip(i + 1));
        i = i + 1;
    }
    i == la && i < lb
}

/// Equality of two values, as `is_equal` says.
pub fn values_equal(left: &Typer, right: &Typer, ops: &Token) -> (r: Result<bool, Error>)
    ensures
        match (r, is_equal(left@, right@, *ops)) {
            (Ok(a), Ok(b)) => a == b,
            (Err(e), Err(f)) => e@ == f,
            _ => false,
        },
{
    match (left, right) {
        (Typer::Nil, Typer::Nil) => Ok(true),
        (Typer::Nil, _) => Ok(false),
        (_, Typer::Nil) => Ok(false),
        (Typer::Number(a), Typer::Number(b)) => Ok(a.equals(b)),
        (Typer::Str(a), Typer::Str(b)) => Ok(a.eq(b)),
        (Typer::Boolean(a), Typer::Boolean(b)) => Ok(*a == *b),
        _ => Err(rt_error(ops, "Mismatched types, cannot compare the two operands")),
    }
}

/// Truthiness of a value.
pub fn is_truthy(val: &Typer) -> (r: bool)
    ensures
        r == val@.truthy(),
{
    match val {
        Typer::Boolean(b) => *b,
        Typer::Nil => false,
        _ => true,
    }
}

fn order_exec(k: TokenType, lr: bool, rl: bool) -> (r: bool)
    ensures
        r == order(k, lr, rl),
{
    if k == TokenType::GREATER {
        rl
    } else if k == TokenType::GREATER_EQUAL {
        !lr
    } else if k == TokenType::LESS {
        lr
    } else {
        !rl
    }
}

/// A binary operator applied to two evaluated operands.
pub fn apply_binary(ops: &Token, left: Typer, right: Typer) -> (r: Result<Typer, Error>)
    ensures
        value_out(r) == binary_op(*ops, left@, right@),
{
    let k = ops.token_type;
    if k == TokenType::PLUS {
        match (left, right) {
            (Typer::Number(a), Typer::Number(b)) => Ok(Typer::Number(a.add(&b))),
            (Typer::Str(a), Typer::Str(b)) => {
                let mut s = a;
                s.append(b.as_str());
                Ok(Typer::Str(s))
            },
            (Typer::Str(a), Typer::Number(b)) => {
                let mut s = a;
                s.append(b.to_string().as_str());
                Ok(Typer::Str(s))
            },
            (Typer::Str(a), Typer::Boolean(b)) => {
                let mut s = a;
                s.append(bool_to_string(b).as_str());
                Ok(Typer::Str(s))
            },
            _ => Err(rt_error(ops, "Mismatched types. Cannot add the two operands")),
        }
    } else if k == TokenType::MINUS {
        match (left, right) {
            (Typer::Number(a), Typer::Number(b)) => Ok(Typer::Number(a.sub(&b))),
            _ => Err(rt_error(ops, "Mismatched types. Cannot subtract the two operands")),
        }
    } else if k == TokenType::SLASH {
        match (left, right) {
            (Typer::Number(a), Typer::Number(b)) => {
                if b.check_zero() {
                    Err(rt_error(ops, "Divide by zero error. The denominator is equal to zero!"))
                } else {
                    Ok(Typer::Number(a.div(&b)))
                }
            },
            _ => Err(rt_error(ops, "Mismatched types. Cannot divide the two operands")),
        }
    } else if k == TokenType::STAR {
        match (left, right) {
            (Typer::Number(a), Typer::Number(b)) => Ok(Typer::Number(a.mul(&b))),
            _ => Err(rt_error(ops, "Mismatched types. Cannot multiply the two operands")),
        }
    } else if k == TokenType::GREATER || k == TokenType::GREATER_EQUAL || k == TokenType::LESS
        || k == TokenType::LESS_EQUAL {
        match (left, right) {
            (Typer::Number(a), Typer::Number(b)) => Ok(
                Typer::Boolean(order_exec(k, a.less(&b), b.less(&a))),
            ),
            (Typer::Str(a), Typer::Str(b)) => Ok(
                Typer::Boolean(order_exec(k, str_less(&a, &b), str_less(&b, &a))),
            ),
            _ => Err(rt_error(ops, "Mismatched types. Cannot compare the two operands")),
        }
    } else if k == TokenType::EQUAL_EQUAL {
        let b = values_equal(&left, &right, ops)?;
        Ok(Typer::Boolean(b))
    } else if k == TokenType::BANG_EQUAL {
        let b = values_equal(&left, &right, ops)?;
        Ok(Typer::Boolean(!b))
    } else {
        Err(rt_error(ops, "Cannot fathom the binary operation. Check your code again"))
    }
}

/// The operand of `-`, which must be a number.
pub fn check_num_operand(right: &Typer, operation: &Token) -> (r: Result<Num, Error>)
    ensures
        match right@ {
            TyperV::Number(n) => r matches Ok(x) && x@ == n,
            _ => r matches Err(e) && e@ == runtime_error(
                operation@,
                "Mismatched unary operation. Cannot perform operation on the following."@,
            ),
        },
{
    match right {
        Typer::Number(num) => Ok(num.clone()),
        _ => Err(
            rt_error(
                operation,
                "Mismatched unary operation. Cannot perform operation on the following.",
            ),
        ),
    }
}

/// Evaluates an expression in a scope chain.
pub fn evaluate(value: &Expr, env: &mut Environment) -> (r: Result<Typer, Error>)
    ensures
        (value_out(r), final(env)@) == eval(*value, old(env)@),
    decreases size(*value), 2nat,
{
    value.visit(env)
}

impl Expr {
    /// Evaluates this expression, dispatching on its kind.
    pub fn visit(&self, env: &mut Environment) -> (r: Result<Typer, Error>)
        ensures
            (value_out(r), final(env)@) == eval(*self, old(env)@),
        decreases size(*self), 1nat,
    {
        match self {
            Expr::Binary(left, ops, right) => self.visit_binary_expr(left, ops, right, env),
            Expr::Grouping(expr) => self.visit_grouping(expr, env),
            Expr::LiteralExpr(lit) => self.visit_literal(lit),
            Expr::Unary(operator, operand) => self.visit_unary(operator, operand, env),
            Expr::Ternary(condition, first, second, operator) => self.visit_ternary(
                condition,
                first,
                second,
                operator,
                env,
            ),
            Expr::Variable(var) => self.visit_variable(var, env),
            Expr::Assign { name, value } => self.visit_assign(value, name, env),
        }
    }

    pub fn visit_binary_expr(
        &self,
        left: &Expr,
        ops: &Token,
        right: &Expr,
        env: &mut Environment,
    ) -> (r: Result<Typer, Error>)
        ensures
            (value_out(r), final(env)@) == eval(
                Expr::Binary(Box::new(*left), *ops, Box::new(*right)),
                old(env)@,
            ),
        decreases size(*left) + size(*right) + 1, 0nat,
    {
        let l = evaluate(left, env)?;
        let r = evaluate(right, env)?;
        apply_binary(ops, l, r)
    }

    pub fn visit_grouping(&self, expr: &Expr, env: &mut Environment) -> (r: Result<Typer, Error>)
        ensures
            (value_out(r), final(env)@) == eval(Expr::Grouping(Box::new(*expr)), old(env)@),
        decreases size(*expr) + 1, 0nat,
    {
        evaluate(expr, env)
    }

    pub fn visit_literal(&self, lit: &Option<Literal>) -> (r: Result<Typer, Error>)
        ensures
            value_out(r) == eval(Expr::LiteralExpr(*lit), Seq::empty()).0,
    {
        match lit {
            Some(Literal::Bool(b)) => Ok(Typer::Boolean(*b)),
            Some(Literal::Str(s)) => Ok(Typer::Str(s.clone())),
            Some(Literal::Number(n)) => Ok(Typer::Number(n.clone())),
            Some(Literal::Nil) => Ok(Typer::Nil),
            None => Err(
                Error::RuntimeError { token: None, message: String::from_str("Literal without a value") },
            ),
        }
    }

    pub fn visit_unary(&self, operator: &Token, operand: &Expr, env: &mut Environment) -> (r: Result<
        Typer,
        Error,
    >)
        ensures
            (value_out(r), final(env)@) == eval(
                Expr::Unary(*operator, Box::new(*operand)),
                old(env)@,
            ),
        decreases size(*operand) + 1, 0nat,
    {
        let right = evaluate(operand, env)?;
        if operator.token_type == TokenType::BANG {
            Ok(Typer::Boolean(!is_truthy(&right)))
        } else if operator.token_type == TokenType::MINUS {
            let num = check_num_operand(&right, operator)?;
            Ok(Typer::Number(num.neg()))
        } else {
            Ok(Typer::Nil)
        }
    }

    pub fn visit_ternary(
        &self,
        condition: &Expr,
        first: &Expr,
        second: &Expr,
        operator: &Token,
        env: &mut Environment,
    ) -> (r: Result<Typer, Error>)
        ensures
            (value_out(r), final(env)@) == eval(
                Expr::Ternary(
                    Box::new(*condition),
                    Box::new(*first),
                    Box::new(*second),
                    *operator,
                ),
                old(env)@,
            ),
        decreases size(*condition) + size(*first) + size(*second) + 1, 0nat,
    {
        let c = evaluate(condition, env)?;
        let t = evaluate(first, env)?;
        let f = evaluate(second, env)?;
        match c {
            Typer::Boolean(b) => Ok(
                if b {
                    t
                } else {
                    f
                },
            ),
            Typer::Nil => Ok(f),
            _ => Err(rt_error(operator, "ternary operation failed.")),
        }
    }

    pub fn visit_assign(&self, value: &Expr, name: &Token, env: &mut Environment) -> (r: Result<
        Typer,
        Error,
    >)
        ensures
            (value_out(r), final(env)@) == eval(
                Expr::Assign { name: *name, value: Box::new(*value) },
                old(env)@,
            ),
        decreases size(*value) + 1, 0nat,
    {
        let v = evaluate(value, env)?;
        let kept = v.clone();
        env.assign(name, v)?;
        Ok(kept)
    }

    pub fn visit_variable(&self, var: &Token, env: &mut Environment) -> (r: Result<Typer, Error>)
        ensures
            (value_out(r), final(env)@) == eval(Expr::Variable(*var), old(env)@),
    {
        env.get(var)
    }
}

/// The interpreter: the scope chain and the lines printed so far.
pub struct Interpreter {
    pub environment: Environment,
    pub output: Vec<String>,
}

pub open spec fn lines_view(ls: Seq<String>) -> Seq<Seq<char>> {
    ls.map_values(|s: String| s@)
}

impl Interpreter {
    /// The lines printed so far.
    pub open spec fn printed(&self) -> Seq<Seq<char>> {
        lines_view(self.output@)
    }

    pub fn new() -> (r: Self)
        ensures
            r.environment@ == seq![Map::<Seq<char>, TyperV>::empty()],
            r.printed() == Seq::<Seq<char>>::empty(),
    {
        let r = Interpreter { environment: Environment::new_empty_env(), output: Vec::new() };
        assert(r.printed() =~= Seq::<Seq<char>>::empty());
        r
    }

    /// Executes statements in order in the current scope, stopping at the
    /// first runtime error.
    pub fn interpret(&mut self, statements: &Vec<Stmt>) -> (r: Result<(), Error>)
        ensures
            ({
                let (res, env, out) = exec_from(stmts_seq_view(statements@), 0, old(self).environment@);
                unit_out(r) == res && final(self).environment@ == env && final(self).printed() == old(
                    self,
                ).printed() + out
            }),
        decreases statements, 1nat,
    {
        let ghost ss = stmts_seq_view(statements@);
        let ghost start = self.printed();
        let mut i: usize = 0;
        proof {
            let (res, env, out) = exec_from(ss, 0, self.environment@);
            assert(start + out =~= self.printed() + out);
        }
        while i < statements.len()
            invariant
                i <= statements@.len(),
                ss == stmts_seq_view(statements@),
                ({
                    let (res, env, out) = exec_from(ss, i as int, self.environment@);
                    let (res0, env0, out0) = exec_from(ss, 0, old(self).environment@);
                    res0 == res && env0 == env && start + out0 == self.printed() + out
                }),
                start == old(self).printed(),
            decreases statements@.len() - i,
        {
            let ghost before = self.printed();
            let ghost env_before = self.environment@;
            let r = self.execute(&statements[i]);
            proof {
                let (r1, e1, o1) = exec_stmt(ss[i as int], env_before);
                let (r2, e2, o2) = exec_from(ss, i + 1, e1);
                assert(before + (o1 + o2) =~= self.printed() + o2);
            }
            if let Err(e) = r {
                proof {
                    let (r1, e1, o1) = exec_stmt(ss[i as int], env_before);
                    assert(before + o1 =~= self.printed());
                }
                return Err(e);
            }
            i = i + 1;
        }
        assert(self.printed() + Seq::<Seq<char>>::empty() =~= self.printed());
        Ok(())
    }

    /// Executes one statement.
    pub fn execute(&mut self, statement: &Stmt) -> (r: Result<(), Error>)
        ensures
            ({
                let (res, env, out) = exec_stmt(statement@, old(self).environment@);
                unit_out(r) == res && final(self).environment@ == env && final(self).printed() == old(
                    self,
                ).printed() + out
            }),
        decreases statement, 0nat,
    {
        match statement {
            Stmt::Expression(e) => {
                let r = evaluate(e, &mut self.environment);
                assert(self.printed() =~= old(self).printed() + Seq::<Seq<char>>::empty());
                match r {
                    Ok(_) => Ok(()),
                    Err(err) => Err(err),
                }
            },
            Stmt::Print(e) => {
                let r = evaluate(e, &mut self.environment);
                match r {
                    Ok(v) => {
                        let line = v.to_string();
                        self.output.push(line);
                        assert(self.printed() =~= old(self).printed() + seq![v@.text()]);
                        Ok(())
                    },
                    Err(err) => {
                        assert(self.printed() =~= old(self).printed() + Seq::<Seq<char>>::empty());
                        Err(err)
                    },
                }
            },
            Stmt::Var(name, init) => {
                assert(self.printed() =~= old(self).printed() + Seq::<Seq<char>>::empty());
                match init {
                    None => Ok(()),
                    Some(e) => {
                        let v = evaluate(e, &mut self.environment)?;
                        self.environment.define(name.lexeme.clone(), Some(v));
                        Ok(())
                    },
                }
            },
            Stmt::Block(statements) => {
                proof {
                    lemma_block_view(*statements);
                }
                self.environment.push_scope();
                let r = self.interpret(statements);
                self.environment.pop_scope();
                r
            },
        }
    }

    /// Replaces the scope chain.
    pub fn set_environment(&mut self, env: Environment) -> (r: Result<(), Error>)
        ensures
            r is Ok,
            final(self).environment@ == env@,
            final(self).printed() == old(self).printed(),
    {
        self.environment = env;
        Ok(())
    }

    /// A copy of the scope chain.
    pub fn get_environment(&self) -> (r: Environment)
        ensures
            r@ == self.environment@,
    {
        self.environment.copy()
    }

    /// Hands out the lines printed so far and forgets them.
    pub fn take_output(&mut self) -> (r: Vec<String>)
        ensures
            lines_view(r@) == old(self).printed(),
            final(self).printed() == Seq::<Seq<char>>::empty(),
            final(self).environment@ == old(self).environment@,
    {
        let mut out: Vec<String> = Vec::new();
        core::mem::swap(&mut out, &mut self.output);
        assert(self.printed() =~= Seq::<Seq<char>>::empty());
        out
    }
}

impl Stmt {
    /// Executes this statement with an interpreter.
    pub fn visit(&self, interpreter: &mut Interpreter) -> (r: Result<(), Error>)
        ensures
            ({
                let (res, env, out) = exec_stmt(self@, old(interpreter).environment@);
                unit_out(r) == res && final(interpreter).environment@ == env
                    && final(interpreter).printed() == old(interpreter).printed() + out
            }),
    {
        interpreter.execute(self)
    }
}

} // verus!
