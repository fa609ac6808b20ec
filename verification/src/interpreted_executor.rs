//! The interpreted backend: a direct recursive evaluator over the
//! expression tree.  It computes [`eval_expr_spec`] literally and is the
//! reference the compiled backend is proved against.

use vstd::prelude::*;

use crate::ast::{Expr, FunctionDef, expr_size, vars_seq};
use crate::semantics::{
    BinOp, Binding, DefSem, EvalErr, FnTable, call_spec, def_sem_of, eval_binop_spec,
    eval_expr_spec, exec_wrap_div, exec_wrap_rem,
};
use crate::compiler::CompileError;
use crate::table::{find_index, has_key, keys_unique, lemma_lookup_at, spec_lookup, table_insert,
    table_remove};

verus! {

/// The binding a query is evaluated under: its first used variable, bound
/// to the input value; a closed query binds nothing.
pub open spec fn query_binding(e: Expr, arg: i32) -> Binding {
    if vars_seq(e).len() > 0 {
        Some((vars_seq(e)[0], arg))
    } else {
        None
    }
}

/// The interpreted backend: it keeps the definitions as trees and walks
/// them on every call.
pub struct InterpretedExecutor {
    pub asts: Vec<(String, FunctionDef)>,
}

impl InterpretedExecutor {
    /// The stored definitions carry distinct names.
    pub open spec fn wf(&self) -> bool {
        keys_unique(self.asts@)
    }

    /// The table of definitions this executor evaluates against.
    pub open spec fn fn_table(&self) -> FnTable {
        Map::new(
            |n: Seq<char>| has_key(self.asts@, n),
            |n: Seq<char>| def_sem_of(spec_lookup(self.asts@, n)->Some_0),
        )
    }

    /// A fresh executor with no definitions.
    pub fn new() -> (r: InterpretedExecutor)
        ensures
            r.wf(),
            r.fn_table() =~= Map::<Seq<char>, DefSem>::empty(),
    {
        let r = InterpretedExecutor { asts: Vec::new() };
        proof {
            assert forall|n: Seq<char>| !has_key(r.asts@, n) by {}
            assert(r.fn_table() =~= Map::<Seq<char>, DefSem>::empty());
        }
        r
    }

    /// Stores a definition under its name, replacing any previous one.
    pub fn handle_function_def(&mut self, func_def: FunctionDef) -> (r: Result<(), CompileError>)
        requires
            old(self).wf(),
        ensures
            final(self).wf(),
            r is Ok,
            final(self).fn_table() == old(self).fn_table().insert(
                func_def.name@,
                def_sem_of(func_def),
            ),
    {
        let ghost def = func_def;
        let name = func_def.name.clone();
        let _ = table_insert(&mut self.asts, name, func_def);
        proof {
            assert(self.fn_table() =~= old(self).fn_table().insert(
                def.name@,
                def_sem_of(def),
            )) by {
                assert forall|n: Seq<char>|
                    self.fn_table().dom().contains(n) == old(self).fn_table().insert(
                        def.name@,
                        def_sem_of(def),
                    ).dom().contains(n) by {
                    assert(spec_lookup(self.asts@, n) == (if n == def.name@ {
                        Some(def)
                    } else {
                        spec_lookup(old(self).asts@, n)
                    }));
                }
                assert forall|n: Seq<char>|
                    self.fn_table().dom().contains(n) implies self.fn_table()[n]
                    == old(self).fn_table().insert(def.name@, def_sem_of(def))[n] by {
                    assert(spec_lookup(self.asts@, n) == (if n == def.name@ {
                        Some(def)
                    } else {
                        spec_lookup(old(self).asts@, n)
                    }));
                }
            }
        }
        Result::Ok(())
    }

    /// Removes the named definition; later calls to it return 0.
    pub fn delete(&mut self, name: &String)
        requires
            old(self).wf(),
        ensures
            final(self).wf(),
            final(self).fn_table() == old(self).fn_table().remove(name@),
    {
        table_remove(&mut self.asts, name);
        proof {
            assert(self.fn_table() =~= old(self).fn_table().remove(name@)) by {
                assert forall|n: Seq<char>|
                    self.fn_table().dom().contains(n) == old(self).fn_table().remove(
                        name@,
                    ).dom().contains(n) by {
                    assert(spec_lookup(self.asts@, n) == (if n == name@ {
                        None::<FunctionDef>
                    } else {
                        spec_lookup(old(self).asts@, n)
                    }));
                }
                assert forall|n: Seq<char>|
                    self.fn_table().dom().contains(n) implies self.fn_table()[n]
                    == old(self).fn_table().remove(name@)[n] by {
                    assert(spec_lookup(self.asts@, n) == (if n == name@ {
                        None::<FunctionDef>
                    } else {
                        spec_lookup(old(self).asts@, n)
                    }));
                }
            }
        }
    }
}

/// One evaluation scope: the executor whose definitions are in force and
/// the single variable binding of the body or query being evaluated.
pub struct InterpretationContext<'a> {
    pub executor: &'a InterpretedExecutor,
    pub vars: Vec<(String, i32)>,
}

impl<'a> InterpretationContext<'a> {
    /// The binding this scope provides.
    pub open spec fn binding(&self) -> Binding {
        if self.vars@.len() >= 1 {
            Some((self.vars@[0].0@, self.vars@[0].1))
        } else {
            None
        }
    }

    /// A fresh scope with no variable bound.
    pub fn new(executor: &'a InterpretedExecutor) -> (r: InterpretationContext<'a>)
        ensures
            r.executor == executor,
            r.binding() is None,
            r.vars@.len() == 0,
    {
        InterpretationContext { executor, vars: Vec::new() }
    }

    /// Calls the named function with `arg`: unknown names yield 0, a known
    /// name costs one unit of call depth and evaluates its body with the
    /// declared parameter bound to the argument.
    pub fn run(&self, name: &String, arg: i32, fuel: u64) -> (r: Result<i32, EvalErr>)
        requires
            self.executor.wf(),
        ensures
            r == call_spec(self.executor.fn_table(), name@, arg, fuel as nat),
        decreases fuel, 0nat, 0nat,
    {
        match find_index(&self.executor.asts, name) {
            None => Result::Ok(0),
            Some(i) => {
                proof {
                    lemma_lookup_at(self.executor.asts@, name@, i as int);
                }
                if fuel == 0 {
                    Result::Err(EvalErr::CallDepth)
                } else {
                    let d = &self.executor.asts[i].1;
                    let mut inner = InterpretationContext::new(self.executor);
                    match &d.parameter {
                        Some(p) => {
                            inner.vars.push((p.clone(), arg));
                        },
                        None => {},
                    }
                    proof {
                        let dsem = self.executor.fn_table()[name@];
                        assert(dsem == def_sem_of(self.executor.asts@[i as int].1));
                        assert(inner.binding() == crate::semantics::bind_param(dsem.param, arg));
                    }
                    d.body.eval(&inner, fuel - 1)
                }
            },
        }
    }

    /// Evaluates a query expression on one input: its first used variable,
    /// if any, is bound to the input value.
    pub fn eval(&self, expr: &Expr, arg: i32, fuel: u64) -> (r: Result<i32, EvalErr>)
        requires
            self.executor.wf(),
        ensures
            r == eval_expr_spec(*expr, query_binding(*expr, arg), self.executor.fn_table(),
                fuel as nat),
    {
        let callee_vars = expr.used_variables();
        let mut inner = InterpretationContext::new(self.executor);
        if callee_vars.len() > 0 {
            proof {
                crate::ast::lemma_dedup_first_head(vars_seq(*expr));
                assert(callee_vars@[0]@ == callee_vars.deep_view()[0]);
            }
            let first = callee_vars[0].clone();
            inner.vars.push((first, arg));
        } else {
            proof {
                crate::ast::lemma_dedup_first_head(vars_seq(*expr));
            }
        }
        proof {
            assert(inner.binding() == query_binding(*expr, arg));
        }
        expr.eval(&inner, fuel)
    }
}

/// Evaluates one binary node: left operand, right operand, then the
/// operator, with the first error ending evaluation.
fn eval_binop(
    op: BinOp,
    a: &Expr,
    b: &Expr,
    ctx: &InterpretationContext<'_>,
    fuel: u64,
) -> (r: Result<i32, EvalErr>)
    requires
        ctx.executor.wf(),
    ensures
        r == eval_binop_spec(op, *a, *b, ctx.binding(), ctx.executor.fn_table(), fuel as nat),
    decreases fuel, expr_size(*a) + expr_size(*b), 1nat,
{
    proof {
        crate::compiler::lemma_expr_size_pos(*a);
        crate::compiler::lemma_expr_size_pos(*b);
    }
    let x = match a.eval(ctx, fuel) {
        Result::Ok(v) => v,
        Result::Err(err) => {
            return Result::Err(err);
        },
    };
    let y = match b.eval(ctx, fuel) {
        Result::Ok(v) => v,
        Result::Err(err) => {
            return Result::Err(err);
        },
    };
    match op {
        BinOp::Add => Result::Ok(x.wrapping_add(y)),
        BinOp::Sub => Result::Ok(x.wrapping_sub(y)),
        BinOp::Mul => Result::Ok(x.wrapping_mul(y)),
        BinOp::Div => if y == 0 {
            Result::Err(EvalErr::DivisionByZero)
        } else {
            Result::Ok(exec_wrap_div(x, y))
        },
        BinOp::Rem => if y == 0 {
            Result::Err(EvalErr::DivisionByZero)
        } else {
            Result::Ok(exec_wrap_rem(x, y))
        },
        BinOp::Eq => Result::Ok(if x == y { 1 } else { 0 }),
        BinOp::Neq => Result::Ok(if x != y { 1 } else { 0 }),
        BinOp::Gt => Result::Ok(if x > y { 1 } else { 0 }),
        BinOp::Lt => Result::Ok(if x < y { 1 } else { 0 }),
        BinOp::Gte => Result::Ok(if x >= y { 1 } else { 0 }),
        BinOp::Lte => Result::Ok(if x <= y { 1 } else { 0 }),
    }
}

impl Expr {
    /// Evaluates this expression in the given scope: the reference
    /// semantics, computed directly.
    pub fn eval(&self, ctx: &InterpretationContext<'_>, fuel: u64) -> (r: Result<i32, EvalErr>)
        requires
            ctx.executor.wf(),
        ensures
            r == eval_expr_spec(*self, ctx.binding(), ctx.executor.fn_table(), fuel as nat),
        decreases fuel, expr_size(*self), 2nat,
    {
        match self {
            Expr::Number(n) => Result::Ok(*n),
            Expr::Var(v) => {
                if ctx.vars.len() > 0 && ctx.vars[0].0.eq(v) {
                    Result::Ok(ctx.vars[0].1)
                } else {
                    Result::Err(EvalErr::UnboundVariable)
                }
            },
            Expr::FunctionCall(name, arg_expr) => {
                proof {
                    crate::compiler::lemma_expr_size_pos(*self);
                }
                let arg = match arg_expr {
                    Some(exp) => match exp.eval(ctx, fuel) {
                        Result::Ok(v) => v,
                        Result::Err(err) => {
                            return Result::Err(err);
                        },
                    },
                    None => 0,
                };
                ctx.run(name, arg, fuel)
            },
            Expr::Add(a, b) => eval_binop(BinOp::Add, a, b, ctx, fuel),
            Expr::Sub(a, b) => eval_binop(BinOp::Sub, a, b, ctx, fuel),
            Expr::Mul(a, b) => eval_binop(BinOp::Mul, a, b, ctx, fuel),
            Expr::Div(a, b) => eval_binop(BinOp::Div, a, b, ctx, fuel),
            Expr::Rem(a, b) => eval_binop(BinOp::Rem, a, b, ctx, fuel),
            Expr::Eq(a, b) => eval_binop(BinOp::Eq, a, b, ctx, fuel),
            Expr::Neq(a, b) => eval_binop(BinOp::Neq, a, b, ctx, fuel),
            Expr::Gt(a, b) => eval_binop(BinOp::Gt, a, b, ctx, fuel),
            Expr::Lt(a, b) => eval_binop(BinOp::Lt, a, b, ctx, fuel),
            Expr::Gte(a, b) => eval_binop(BinOp::Gte, a, b, ctx, fuel),
            Expr::Lte(a, b) => eval_binop(BinOp::Lte, a, b, ctx, fuel),
        }
    }
}

} // verus!
