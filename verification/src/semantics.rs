//! The reference semantics of expressions: 32-bit wrapping arithmetic,
//! truncated division and remainder, relational operators yielding 0 or 1,
//! and function calls resolved by name in a table of definitions.
//!
//! Both backends are specified against these functions: the interpreter
//! computes them directly, and the compiler's output is proved to run to
//! the same results on the register machine.

use vstd::prelude::*;

use crate::ast::{Expr, FunctionDef, expr_size};

verus! {

/// A run-time evaluation error.  Division by zero ends the current query;
/// an unbound variable is a name-resolution error; the call-depth error
/// models exhaustion of the call stack on mutually recursive definitions.
#[derive(Debug, Clone, Copy, PartialEq, Eq, Structural)]
pub enum EvalErr {
    DivisionByZero,
    UnboundVariable,
    CallDepth,
}

/// What a definition means to the evaluator: its optional parameter name
/// and its body.
pub ghost struct DefSem {
    pub param: Option<Seq<char>>,
    pub body: Expr,
}

/// The semantic content of a parsed definition.
pub open spec fn def_sem_of(d: FunctionDef) -> DefSem {
    DefSem {
        param: match d.parameter {
            Some(p) => Some(p@),
            None => None,
        },
        body: d.body,
    }
}

/// A table of definitions, keyed by function name.
pub type FnTable = Map<Seq<char>, DefSem>;

/// The single binding a function body or query is evaluated under: at most
/// one variable is ever in scope.
pub type Binding = Option<(Seq<char>, i32)>;

/// The binding a definition's parameter gives to a call argument.
pub open spec fn bind_param(param: Option<Seq<char>>, arg: i32) -> Binding {
    match param {
        Some(p) => Some((p, arg)),
        None => None,
    }
}

/// The binary operators of the language.
#[derive(Debug, Clone, Copy, PartialEq, Eq, Structural)]
pub enum BinOp {
    Add,
    Sub,
    Mul,
    Div,
    Rem,
    Eq,
    Neq,
    Gt,
    Lt,
    Gte,
    Lte,
}

/// The operator and operands of a binary node, if `e` is one.
pub open spec fn binop_parts(e: Expr) -> Option<(BinOp, Expr, Expr)> {
    match e {
        Expr::Add(l, r) => Some((BinOp::Add, *l, *r)),
        Expr::Sub(l, r) => Some((BinOp::Sub, *l, *r)),
        Expr::Mul(l, r) => Some((BinOp::Mul, *l, *r)),
        Expr::Div(l, r) => Some((BinOp::Div, *l, *r)),
        Expr::Rem(l, r) => Some((BinOp::Rem, *l, *r)),
        Expr::Eq(l, r) => Some((BinOp::Eq, *l, *r)),
        Expr::Neq(l, r) => Some((BinOp::Neq, *l, *r)),
        Expr::Gt(l, r) => Some((BinOp::Gt, *l, *r)),
        Expr::Lt(l, r) => Some((BinOp::Lt, *l, *r)),
        Expr::Gte(l, r) => Some((BinOp::Gte, *l, *r)),
        Expr::Lte(l, r) => Some((BinOp::Lte, *l, *r)),
        _ => None,
    }
}

/// Truncated 32-bit signed division, wrapping on the one overflowing case.
/// Defined only for a non-zero divisor.
pub open spec fn wrap_div(a: i32, b: i32) -> i32 {
    match a.checked_div(b) {
        Some(q) => q,
        None => i32::MIN,
    }
}

/// Truncated 32-bit signed remainder; the overflowing case leaves 0.
/// Defined only for a non-zero divisor.
pub open spec fn wrap_rem(a: i32, b: i32) -> i32 {
    match a.checked_rem(b) {
        Some(r) => r,
        None => 0,
    }
}

/// One binary operator applied to two evaluated operands.
pub open spec fn apply_binop(op: BinOp, a: i32, b: i32) -> Result<i32, EvalErr> {
    match op {
        BinOp::Add => Result::Ok(a.wrapping_add(b)),
        BinOp::Sub => Result::Ok(a.wrapping_sub(b)),
        BinOp::Mul => Result::Ok(a.wrapping_mul(b)),
        BinOp::Div => if b == 0 {
            Result::Err(EvalErr::DivisionByZero)
        } else {
            Result::Ok(wrap_div(a, b))
        },
        BinOp::Rem => if b == 0 {
            Result::Err(EvalErr::DivisionByZero)
        } else {
            Result::Ok(wrap_rem(a, b))
        },
        BinOp::Eq => Result::Ok(if a == b { 1i32 } else { 0i32 }),
        BinOp::Neq => Result::Ok(if a != b { 1i32 } else { 0i32 }),
        BinOp::Gt => Result::Ok(if a > b { 1i32 } else { 0i32 }),
        BinOp::Lt => Result::Ok(if a < b { 1i32 } else { 0i32 }),
        BinOp::Gte => Result::Ok(if a >= b { 1i32 } else { 0i32 }),
        BinOp::Lte => Result::Ok(if a <= b { 1i32 } else { 0i32 }),
    }
}

/// The value of expression `e` under one optional variable binding, a table
/// of definitions, and a bound on the depth of nested calls.
///
/// Operands evaluate left to right; the first error ends evaluation.
pub open spec fn eval_expr_spec(e: Expr, binding: Binding, defs: FnTable, fuel: nat) -> Result<
    i32,
    EvalErr,
>
    decreases fuel, expr_size(e), 0nat,
{
    match e {
        Expr::Number(n) => Result::Ok(n),
        Expr::Var(v) => match binding {
            Some(b) => if b.0 == v@ {
                Result::Ok(b.1)
            } else {
                Result::Err(EvalErr::UnboundVariable)
            },
            None => Result::Err(EvalErr::UnboundVariable),
        },
        Expr::FunctionCall(name, arg) => match arg {
            Some(a) => match eval_expr_spec(*a, binding, defs, fuel) {
                Result::Ok(v) => call_spec(defs, name@, v, fuel),
                Result::Err(err) => Result::Err(err),
            },
            None => call_spec(defs, name@, 0, fuel),
        },
        Expr::Add(l, r) => eval_binop_spec(BinOp::Add, *l, *r, binding, defs, fuel),
        Expr::Sub(l, r) => eval_binop_spec(BinOp::Sub, *l, *r, binding, defs, fuel),
        Expr::Mul(l, r) => eval_binop_spec(BinOp::Mul, *l, *r, binding, defs, fuel),
        Expr::Div(l, r) => eval_binop_spec(BinOp::Div, *l, *r, binding, defs, fuel),
        Expr::Rem(l, r) => eval_binop_spec(BinOp::Rem, *l, *r, binding, defs, fuel),
        Expr::Eq(l, r) => eval_binop_spec(BinOp::Eq, *l, *r, binding, defs, fuel),
        Expr::Neq(l, r) => eval_binop_spec(BinOp::Neq, *l, *r, binding, defs, fuel),
        Expr::Gt(l, r) => eval_binop_spec(BinOp::Gt, *l, *r, binding, defs, fuel),
        Expr::Lt(l, r) => eval_binop_spec(BinOp::Lt, *l, *r, binding, defs, fuel),
        Expr::Gte(l, r) => eval_binop_spec(BinOp::Gte, *l, *r, binding, defs, fuel),
        Expr::Lte(l, r) => eval_binop_spec(BinOp::Lte, *l, *r, binding, defs, fuel),
    }
}

/// A binary node: left operand, then right operand, then the operator.
pub open spec fn eval_binop_spec(
    op: BinOp,
    l: Expr,
    r: Expr,
    binding: Binding,
    defs: FnTable,
    fuel: nat,
) -> Result<i32, EvalErr>
    decreases fuel, expr_size(l) + expr_size(r), 1nat,
{
    match eval_expr_spec(l, binding, defs, fuel) {
        Result::Ok(a) => match eval_expr_spec(r, binding, defs, fuel) {
            Result::Ok(b) => apply_binop(op, a, b),
            Result::Err(err) => Result::Err(err),
        },
        Result::Err(err) => Result::Err(err),
    }
}

/// A call to the function named `name` with argument `arg`.
///
/// An unknown name yields 0 — the trampoline's unknown-name path — so that
/// deleted or never-defined functions are observationally total.  A known
/// name costs one unit of call depth and evaluates the definition's body
/// with its parameter bound to the argument.
pub open spec fn call_spec(defs: FnTable, name: Seq<char>, arg: i32, fuel: nat) -> Result<
    i32,
    EvalErr,
>
    decreases fuel, 0nat, 0nat,
{
    if !defs.contains_key(name) {
        Result::Ok(0)
    } else if fuel == 0 {
        Result::Err(EvalErr::CallDepth)
    } else {
        let d = defs[name];
        eval_expr_spec(d.body, bind_param(d.param, arg), defs, (fuel - 1) as nat)
    }
}

/// Truncated 32-bit division as executable code; the one overflowing
/// quotient wraps.
pub fn exec_wrap_div(a: i32, b: i32) -> (r: i32)
    requires
        b != 0,
    ensures
        r == wrap_div(a, b),
{
    match a.checked_div(b) {
        Some(q) => q,
        None => i32::MIN,
    }
}

/// Truncated 32-bit remainder as executable code; the overflowing case
/// leaves 0.
pub fn exec_wrap_rem(a: i32, b: i32) -> (r: i32)
    requires
        b != 0,
    ensures
        r == wrap_rem(a, b),
{
    match a.checked_rem(b) {
        Some(r) => r,
        None => 0,
    }
}

/// Relational operators yield exactly 0 or 1, and equality and inequality
/// are complementary on every pair of operands.
pub proof fn lemma_relations_zero_one(op: BinOp, a: i32, b: i32)
    requires
        op == BinOp::Eq || op == BinOp::Neq || op == BinOp::Gt || op == BinOp::Lt || op
            == BinOp::Gte || op == BinOp::Lte,
    ensures
        apply_binop(op, a, b) == Result::<i32, EvalErr>::Ok(1i32) || apply_binop(op, a, b)
            == Result::<i32, EvalErr>::Ok(0i32),
        (apply_binop(BinOp::Eq, a, b) == Result::<i32, EvalErr>::Ok(1i32)) <==> (apply_binop(
            BinOp::Neq,
            a,
            b,
        ) == Result::<i32, EvalErr>::Ok(0i32)),
{
}


/// Redefinition takes effect at the next call: once a definition is
/// installed under a name, the very next call to that name evaluates the
/// new body.  Calls already in flight were resolved against the table as
/// it stood when they began, which is how every caller of a table states
/// its result.
pub proof fn lemma_redefinition_visible(
    defs: FnTable,
    name: Seq<char>,
    d: DefSem,
    arg: i32,
    fuel: nat,
)
    requires
        fuel > 0,
    ensures
        call_spec(defs.insert(name, d), name, arg, fuel) == eval_expr_spec(
            d.body,
            bind_param(d.param, arg),
            defs.insert(name, d),
            (fuel - 1) as nat,
        ),
{
}

/// Deleting a name makes every call to it yield 0, through the
/// trampoline's unknown-name path.
pub proof fn lemma_deleted_name_yields_zero(defs: FnTable, name: Seq<char>, arg: i32, fuel: nat)
    ensures
        call_spec(defs.remove(name), name, arg, fuel) == Result::<i32, EvalErr>::Ok(0),
{
}

} // verus!
