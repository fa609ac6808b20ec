//! The compiler: lowers an expression tree to register-machine code.
//!
//! Register allocation is stack-based and linear: a pool of scratch
//! registers is popped as results need homes, a pool of parameter registers
//! binds the single query or function parameter, and running out of either
//! pool is a compile-time error.  The main theorem is carried by
//! [`compiled_ok`]: the emitted code, run from any well-formed machine
//! state under any table of definitions, computes exactly what the
//! reference semantics assigns to the expression.

use vstd::prelude::*;

use crate::ast::{Expr, expr_size, vars_seq};
use crate::machine::{
    Cond, Instr, MRun, MState, Reg, exec_instr, implements_body, init_state, lemma_run_append,
    lemma_run_one, lemma_run_three, lemma_run_two, prog_result, regs_except, run_code, state_wf,
};
use crate::semantics::{BinOp, DefSem, EvalErr, FnTable, apply_binop, bind_param, call_spec,
    eval_binop_spec, eval_expr_spec};

verus! {

/// A compile-time error: the scratch pool or the parameter pool ran dry,
/// or a variable was not bound to a register.
#[derive(Debug, Clone, Copy, PartialEq, Eq, Structural)]
pub enum CompileError {
    OutOfRegisters,
    OutOfParameterRegisters,
    UnboundVariable,
}

impl CompileError {
    /// The human-readable message for this error.
    pub fn message(&self) -> (r: &'static str)
        ensures
            *self == CompileError::OutOfRegisters ==> r@ == "No more registers available!"@,
            *self == CompileError::OutOfParameterRegisters ==> r@
                == "No more parameter registers available!"@,
            *self == CompileError::UnboundVariable ==> r@ == "Variable was not defined"@,
    {
        match self {
            CompileError::OutOfRegisters => "No more registers available!",
            CompileError::OutOfParameterRegisters => "No more parameter registers available!",
            CompileError::UnboundVariable => "Variable was not defined",
        }
    }
}

/// How many scratch registers compiling `e` pops.  Registers are never
/// returned to the scratch pool during one compilation, so the demand is
/// the number of allocating nodes: every node but a variable reference.
pub open spec fn alloc_count(e: Expr) -> nat
    decreases e,
{
    match e {
        Expr::Number(_) => 1,
        Expr::Var(_) => 0,
        Expr::FunctionCall(_, arg) => match arg {
            Some(a) => 1 + alloc_count(*a),
            None => 1,
        },
        Expr::Add(l, r) => 1 + alloc_count(*l) + alloc_count(*r),
        Expr::Sub(l, r) => 1 + alloc_count(*l) + alloc_count(*r),
        Expr::Mul(l, r) => 1 + alloc_count(*l) + alloc_count(*r),
        Expr::Div(l, r) => 1 + alloc_count(*l) + alloc_count(*r),
        Expr::Rem(l, r) => 1 + alloc_count(*l) + alloc_count(*r),
        Expr::Eq(l, r) => 1 + alloc_count(*l) + alloc_count(*r),
        Expr::Neq(l, r) => 1 + alloc_count(*l) + alloc_count(*r),
        Expr::Gt(l, r) => 1 + alloc_count(*l) + alloc_count(*r),
        Expr::Lt(l, r) => 1 + alloc_count(*l) + alloc_count(*r),
        Expr::Gte(l, r) => 1 + alloc_count(*l) + alloc_count(*r),
        Expr::Lte(l, r) => 1 + alloc_count(*l) + alloc_count(*r),
    }
}

/// Every expression has at least one node.
pub proof fn lemma_expr_size_pos(e: Expr)
    ensures
        expr_size(e) >= 1,
{
}

/// A register that the allocator may hand out: not the accumulator, not
/// the multiply/divide upper half, not the first-argument register.
pub open spec fn scratch_reg(r: Reg) -> bool {
    r != Reg::Rax && r != Reg::Rdx && r != Reg::Rcx
}

/// The compilation context: an instruction buffer, the two register pools,
/// and the variable binding.
pub struct CompilationContext {
    pub code: Vec<Instr>,
    pub available_registers: Vec<Reg>,
    pub available_parameter_registers: Vec<Reg>,
    pub var: Vec<(String, Reg)>,
}

impl CompilationContext {
    /// Well-formedness: the scratch pool holds distinct allocatable
    /// registers; at most one variable is bound, to a register outside
    /// the scratch pool; released registers parked in the parameter pool
    /// are likewise outside the scratch pool.
    pub open spec fn wf(&self) -> bool {
        let pool = self.available_registers@;
        &&& forall|i: int| 0 <= i < pool.len() ==> scratch_reg(#[trigger] pool[i])
        &&& forall|i: int, j: int| 0 <= i < j < pool.len() ==> pool[i] != pool[j]
        &&& self.var@.len() <= 1
        &&& forall|i: int|
            0 <= i < self.var@.len() ==> (#[trigger] self.var@[i].1) != Reg::Rax
                && self.var@[i].1 != Reg::Rdx && !pool.contains(self.var@[i].1)
        &&& forall|i: int|
            0 <= i < self.available_parameter_registers@.len() ==> (
            #[trigger] self.available_parameter_registers@[i]) != Reg::Rax
                && self.available_parameter_registers@[i] != Reg::Rdx && !pool.contains(
                self.available_parameter_registers@[i],
            )
    }

    /// The variable binding, if one is in force: its name and register.
    pub open spec fn binding_of(&self) -> Option<(Seq<char>, Reg)> {
        if self.var@.len() >= 1 {
            Some((self.var@[0].0@, self.var@[0].1))
        } else {
            None
        }
    }

    /// The name of the bound variable, if any.
    pub open spec fn binding_name(&self) -> Option<Seq<char>> {
        match self.binding_of() {
            Some(b) => Some(b.0),
            None => None,
        }
    }
}

/// The evaluation binding that machine state `s` realises for the
/// context's bound variable.
pub open spec fn binding_vals(c: CompilationContext, s: MState) -> Option<(Seq<char>, i32)> {
    match c.binding_of() {
        Some(b) => Some((b.0, s.regs[b.1])),
        None => None,
    }
}

/// Whether `n` is the name the context binds.
pub open spec fn name_bound(c: CompilationContext, n: Seq<char>) -> bool {
    match c.binding_of() {
        Some(b) => b.0 == n,
        None => false,
    }
}

/// Every variable used in `e` is bound in the context.
pub open spec fn vars_bound(e: Expr, c: CompilationContext) -> bool {
    forall|n: Seq<char>| vars_seq(e).contains(n) ==> name_bound(c, n)
}

/// How one compilation step may change the context: the buffer only grows,
/// the scratch pool only shrinks from its end, the binding stays.
pub open spec fn ctx_evolves(pre: CompilationContext, post: CompilationContext) -> bool {
    &&& post.wf()
    &&& post.var@ == pre.var@
    &&& post.code@.len() >= pre.code@.len()
    &&& post.code@.take(pre.code@.len() as int) == pre.code@
    &&& post.available_registers@.len() <= pre.available_registers@.len()
    &&& post.available_registers@ == pre.available_registers@.take(
        post.available_registers@.len() as int,
    )
}

/// The instructions a step appended to the buffer.
pub open spec fn emitted_code(pre: CompilationContext, post: CompilationContext) -> Seq<Instr> {
    post.code@.skip(pre.code@.len() as int)
}

/// The registers a step may have overwritten: the accumulator, the upper
/// half, and every scratch register allocated during the step.
pub open spec fn clobbered(pre: CompilationContext, post: CompilationContext) -> Set<Reg> {
    Set::new(
        |r: Reg|
            r == Reg::Rax || r == Reg::Rdx || (pre.available_registers@.contains(r)
                && !post.available_registers@.contains(r)),
    )
}

/// Running `code` from `s` produces `expected`: on a value, a well-formed
/// next state holding the value in `dst` and touching only `clob`; on an
/// error, a stop with that error.
pub open spec fn run_computes(
    code: Seq<Instr>,
    s: MState,
    defs: FnTable,
    fuel: nat,
    expected: Result<i32, EvalErr>,
    dst: Reg,
    clob: Set<Reg>,
) -> bool {
    match expected {
        Result::Ok(v) => match run_code(code, s, defs, fuel) {
            MRun::Next(s2) => state_wf(s2) && s2.regs[dst] == v && regs_except(s, s2, clob),
            MRun::Stop(_) => false,
        },
        Result::Err(err) => run_code(code, s, defs, fuel) == MRun::Stop(err),
    }
}

/// The compiler's semantic contract for one compiled subexpression: from
/// every well-formed machine state, under every table of definitions and
/// every call depth, the emitted code computes the reference semantics of
/// the expression and leaves the result in the returned register.
pub open spec fn compiled_ok(
    e: Expr,
    pre: CompilationContext,
    post: CompilationContext,
    dst: Reg,
) -> bool {
    forall|s: MState, defs: FnTable, fuel: nat|
        #![trigger run_code(emitted_code(pre, post), s, defs, fuel)]
        state_wf(s) ==> run_computes(
            emitted_code(pre, post),
            s,
            defs,
            fuel,
            eval_expr_spec(e, binding_vals(pre, s), defs, fuel),
            dst,
            clobbered(pre, post),
        )
}

/// What a successful compilation of `e` guarantees: the result register is
/// allocated (off the pool, never the accumulator or upper half), the pool
/// shrank by exactly the expression's register demand, and the emitted
/// code is semantically correct.
pub open spec fn compile_success(
    e: Expr,
    pre: CompilationContext,
    post: CompilationContext,
    dst: Reg,
) -> bool {
    &&& !post.available_registers@.contains(dst)
    &&& dst != Reg::Rax
    &&& dst != Reg::Rdx
    &&& post.available_registers@.len() == pre.available_registers@.len() - alloc_count(e)
    &&& compiled_ok(e, pre, post, dst)
}

/// The error clauses of every compile step: each error comes exactly from
/// its cause.
pub open spec fn compile_failure(e: Expr, pre: CompilationContext, err: CompileError) -> bool {
    ||| err == CompileError::UnboundVariable && !vars_bound(e, pre)
    ||| err == CompileError::OutOfRegisters && alloc_count(e) > pre.available_registers@.len()
}

/// Membership in a concatenation is membership in either part.
proof fn lemma_contains_concat(a: Seq<Seq<char>>, b: Seq<Seq<char>>, x: Seq<char>)
    ensures
        (a + b).contains(x) <==> a.contains(x) || b.contains(x),
{
    if (a + b).contains(x) {
        let i = choose|i: int| 0 <= i < (a + b).len() && (a + b)[i] == x;
        if i < a.len() {
            assert(a[i] == x);
        } else {
            assert(b[i - a.len()] == x);
        }
    }
    if a.contains(x) {
        let i = choose|i: int| 0 <= i < a.len() && a[i] == x;
        assert((a + b)[i] == x);
    }
    if b.contains(x) {
        let i = choose|i: int| 0 <= i < b.len() && b[i] == x;
        assert((a + b)[a.len() + i] == x);
    }
}

/// Binding all the variables of a binary node is binding the variables of
/// both operands.
proof fn lemma_vars_bound_split(e: Expr, l: Expr, r: Expr, c: CompilationContext)
    requires
        vars_seq(e) == vars_seq(l) + vars_seq(r),
    ensures
        vars_bound(e, c) <==> (vars_bound(l, c) && vars_bound(r, c)),
{
    if vars_bound(e, c) {
        assert forall|n: Seq<char>| vars_seq(l).contains(n) implies name_bound(c, n) by {
            lemma_contains_concat(vars_seq(l), vars_seq(r), n);
            assert(vars_seq(e).contains(n));
        }
        assert forall|n: Seq<char>| vars_seq(r).contains(n) implies name_bound(c, n) by {
            lemma_contains_concat(vars_seq(l), vars_seq(r), n);
            assert(vars_seq(e).contains(n));
        }
    }
    if vars_bound(l, c) && vars_bound(r, c) {
        assert forall|n: Seq<char>| vars_seq(e).contains(n) implies name_bound(c, n) by {
            lemma_contains_concat(vars_seq(l), vars_seq(r), n);
        }
    }
}

/// `ctx_evolves` composes, and the emitted code of the composition is the
/// concatenation of the emitted parts.
proof fn lemma_evolves_trans(a: CompilationContext, b: CompilationContext, c: CompilationContext)
    requires
        ctx_evolves(a, b),
        ctx_evolves(b, c),
    ensures
        ctx_evolves(a, c),
        emitted_code(a, c) == emitted_code(a, b) + emitted_code(b, c),
{
    assert(c.code@.take(a.code@.len() as int) =~= a.code@) by {
        assert forall|i: int| 0 <= i < a.code@.len() implies c.code@[i] == a.code@[i] by {
            assert(c.code@.take(b.code@.len() as int)[i] == c.code@[i]);
            assert(b.code@.take(a.code@.len() as int)[i] == b.code@[i]);
        }
    }
    assert(c.available_registers@ =~= a.available_registers@.take(
        c.available_registers@.len() as int,
    )) by {
        assert forall|i: int| 0 <= i < c.available_registers@.len() implies c.available_registers@[i]
            == a.available_registers@[i] by {
            assert(b.available_registers@.take(c.available_registers@.len() as int)[i]
                == b.available_registers@[i]);
            assert(a.available_registers@.take(b.available_registers@.len() as int)[i]
                == a.available_registers@[i]);
        }
    }
    assert(emitted_code(a, c) =~= emitted_code(a, b) + emitted_code(b, c)) by {
        assert forall|i: int| 0 <= i < emitted_code(a, c).len() implies emitted_code(a, c)[i]
            == (emitted_code(a, b) + emitted_code(b, c))[i] by {
            if i < b.code@.len() - a.code@.len() {
                assert(c.code@.take(b.code@.len() as int)[a.code@.len() + i] == c.code@[a.code@.len()
                    + i]);
            }
        }
    }
}

/// Registers clobbered by either part of a composed step are clobbered by
/// the composition.
proof fn lemma_clobber_compose(a: CompilationContext, b: CompilationContext, c: CompilationContext)
    requires
        ctx_evolves(a, b),
        ctx_evolves(b, c),
    ensures
        forall|r: Reg| clobbered(a, b).contains(r) ==> #[trigger] clobbered(a, c).contains(r),
        forall|r: Reg| clobbered(b, c).contains(r) ==> #[trigger] clobbered(a, c).contains(r),
{
    assert forall|r: Reg| clobbered(a, b).contains(r) implies #[trigger] clobbered(a, c).contains(
        r,
    ) by {
        if r != Reg::Rax && r != Reg::Rdx {
            if c.available_registers@.contains(r) {
                let i = choose|i: int|
                    0 <= i < c.available_registers@.len() && c.available_registers@[i] == r;
                assert(b.available_registers@.take(c.available_registers@.len() as int)[i] == r);
                assert(b.available_registers@.contains(r));
            }
        }
    }
    assert forall|r: Reg| clobbered(b, c).contains(r) implies #[trigger] clobbered(a, c).contains(
        r,
    ) by {
        if r != Reg::Rax && r != Reg::Rdx {
            if b.available_registers@.contains(r) {
                let i = choose|i: int|
                    0 <= i < b.available_registers@.len() && b.available_registers@[i] == r;
                assert(a.available_registers@.take(b.available_registers@.len() as int)[i] == r);
                assert(a.available_registers@.contains(r));
            }
            if c.available_registers@.contains(r) {
                let i = choose|i: int|
                    0 <= i < c.available_registers@.len() && c.available_registers@[i] == r;
                assert(b.available_registers@.take(c.available_registers@.len() as int)[i] == r);
            }
        }
    }
}

/// Shrinking the scratch pool to a prefix preserves well-formedness.
proof fn lemma_wf_pool_prefix(c1: CompilationContext, c2: CompilationContext)
    requires
        c1.wf(),
        c2.available_registers@.len() <= c1.available_registers@.len(),
        c2.available_registers@ == c1.available_registers@.take(
            c2.available_registers@.len() as int,
        ),
        c2.var@ == c1.var@,
        c2.available_parameter_registers@ == c1.available_parameter_registers@,
    ensures
        c2.wf(),
{
    let pool1 = c1.available_registers@;
    let pool2 = c2.available_registers@;
    assert forall|i: int| 0 <= i < pool2.len() implies scratch_reg(#[trigger] pool2[i]) by {
        assert(pool2[i] == pool1[i]);
    }
    assert forall|i: int, j: int| 0 <= i < j < pool2.len() implies pool2[i] != pool2[j] by {
        assert(pool2[i] == pool1[i] && pool2[j] == pool1[j]);
    }
    assert forall|i: int| 0 <= i < c2.var@.len() implies (#[trigger] c2.var@[i].1) != Reg::Rax
        && c2.var@[i].1 != Reg::Rdx && !pool2.contains(c2.var@[i].1) by {
        if pool2.contains(c2.var@[i].1) {
            let k = choose|k: int| 0 <= k < pool2.len() && pool2[k] == c2.var@[i].1;
            assert(pool1[k] == c2.var@[i].1);
            assert(pool1.contains(c1.var@[i].1));
        }
    }
    assert forall|i: int| 0 <= i < c2.available_parameter_registers@.len() implies (
    #[trigger] c2.available_parameter_registers@[i]) != Reg::Rax
        && c2.available_parameter_registers@[i] != Reg::Rdx && !pool2.contains(
        c2.available_parameter_registers@[i],
    ) by {
        if pool2.contains(c2.available_parameter_registers@[i]) {
            let k = choose|k: int|
                0 <= k < pool2.len() && pool2[k] == c2.available_parameter_registers@[i];
            assert(pool1[k] == c2.available_parameter_registers@[i]);
            assert(pool1.contains(c1.available_parameter_registers@[i]));
        }
    }
}

/// A context whose binding agrees binds the same variables.
proof fn lemma_vars_bound_same_binding(e: Expr, c1: CompilationContext, c2: CompilationContext)
    requires
        c1.binding_of() == c2.binding_of(),
    ensures
        vars_bound(e, c1) == vars_bound(e, c2),
{
    assert forall|n: Seq<char>| name_bound(c1, n) == name_bound(c2, n) by {}
    if vars_bound(e, c1) {
        assert forall|n: Seq<char>| vars_seq(e).contains(n) implies name_bound(c2, n) by {
            assert(name_bound(c1, n));
        }
    }
    if vars_bound(e, c2) {
        assert forall|n: Seq<char>| vars_seq(e).contains(n) implies name_bound(c1, n) by {
            assert(name_bound(c2, n));
        }
    }
}

/// A register off the scratch pool of an earlier context is off the pool
/// of every later one.
proof fn lemma_off_pool(a: CompilationContext, b: CompilationContext, r: Reg)
    requires
        ctx_evolves(a, b),
        !a.available_registers@.contains(r),
    ensures
        !b.available_registers@.contains(r),
{
    if b.available_registers@.contains(r) {
        let i = choose|i: int|
            0 <= i < b.available_registers@.len() && b.available_registers@[i] == r;
        assert(a.available_registers@.take(b.available_registers@.len() as int)[i] == r);
        assert(a.available_registers@.contains(r));
    }
}

impl CompilationContext {
    /// A fresh context: empty buffer, the full scratch pool B, 8–15, the
    /// single parameter register C, no variable bound.
    pub fn new() -> (r: CompilationContext)
        ensures
            r.wf(),
            r.code@.len() == 0,
            r.var@.len() == 0,
            r.available_registers@ =~= seq![
                Reg::Rbx,
                Reg::R8,
                Reg::R9,
                Reg::R10,
                Reg::R11,
                Reg::R12,
                Reg::R13,
                Reg::R14,
                Reg::R15,
            ],
            r.available_parameter_registers@ =~= seq![Reg::Rcx],
    {
        let ctx = CompilationContext {
            code: Vec::new(),
            available_registers: vec![
                Reg::Rbx,
                Reg::R8,
                Reg::R9,
                Reg::R10,
                Reg::R11,
                Reg::R12,
                Reg::R13,
                Reg::R14,
                Reg::R15,
            ],
            available_parameter_registers: vec![Reg::Rcx],
            var: Vec::new(),
        };
        proof {
            let pool = ctx.available_registers@;
            assert(pool.len() == 9);
            assert forall|i: int| 0 <= i < pool.len() implies scratch_reg(#[trigger] pool[i]) by {
                assert(pool[0] == Reg::Rbx && pool[1] == Reg::R8 && pool[2] == Reg::R9 && pool[3]
                    == Reg::R10 && pool[4] == Reg::R11 && pool[5] == Reg::R12 && pool[6]
                    == Reg::R13 && pool[7] == Reg::R14 && pool[8] == Reg::R15);
            }
            assert forall|i: int, j: int| 0 <= i < j < pool.len() implies pool[i] != pool[j] by {
                assert(pool[0] == Reg::Rbx && pool[1] == Reg::R8 && pool[2] == Reg::R9 && pool[3]
                    == Reg::R10 && pool[4] == Reg::R11 && pool[5] == Reg::R12 && pool[6]
                    == Reg::R13 && pool[7] == Reg::R14 && pool[8] == Reg::R15);
            }
            assert(ctx.available_parameter_registers@[0] == Reg::Rcx);
            assert forall|i: int| 0 <= i < ctx.available_parameter_registers@.len() implies (
            #[trigger] ctx.available_parameter_registers@[i]) != Reg::Rax
                && ctx.available_parameter_registers@[i] != Reg::Rdx && !pool.contains(
                ctx.available_parameter_registers@[i],
            ) by {
                assert(ctx.available_parameter_registers@[i] == Reg::Rcx);
                if pool.contains(Reg::Rcx) {
                    let k = choose|k: int| 0 <= k < pool.len() && pool[k] == Reg::Rcx;
                    assert(scratch_reg(pool[k]));
                }
            }
        }
        ctx
    }

    /// Appends one instruction to the buffer.
    fn emit(&mut self, i: Instr)
        ensures
            final(self).code@ == old(self).code@.push(i),
            final(self).available_registers == old(self).available_registers,
            final(self).available_parameter_registers == old(self).available_parameter_registers,
            final(self).var == old(self).var,
    {
        self.code.push(i);
    }

    /// Pops a scratch register; running out is a compile-time error.
    pub fn next_register(&mut self) -> (res: Result<Reg, CompileError>)
        requires
            old(self).wf(),
        ensures
            final(self).wf(),
            final(self).code == old(self).code,
            final(self).var == old(self).var,
            final(self).available_parameter_registers == old(self).available_parameter_registers,
            match res {
                Result::Ok(r) => old(self).available_registers@.len() > 0 && r == old(self).available_registers@.last() && final(self).available_registers@ == old(self).available_registers@.drop_last() && scratch_reg(r) && !final(self).available_registers@.contains(r),
                Result::Err(err) => err == CompileError::OutOfRegisters && old(self).available_registers@.len() == 0 && final(self).available_registers@ == old(self).available_registers@,
            },
    {
        let ghost prior = *self;
        let ghost pool = self.available_registers@;
        match self.available_registers.pop() {
            Some(r) => {
                proof {
                    assert(pool.last() == r);
                    assert(self.available_registers@ =~= pool.drop_last());
                    assert(pool.drop_last() =~= pool.take(pool.len() - 1));
                    lemma_wf_pool_prefix(prior, *self);
                    if self.available_registers@.contains(r) {
                        let i = choose|i: int|
                            0 <= i < pool.len() - 1 && pool.drop_last()[i] == r;
                        assert(pool[i] == pool[pool.len() - 1]);
                    }
                }
                Result::Ok(r)
            },
            None => Result::Err(CompileError::OutOfRegisters),
        }
    }

    /// Binds a variable to the next parameter register; with the single
    /// calling convention there is one, register C, so a second binding
    /// is a compile-time error.
    pub fn assign_register_to_variable(&mut self, var: String) -> (res: Result<Reg, CompileError>)
        requires
            old(self).wf(),
            old(self).var@.len() == 0,
        ensures
            final(self).wf(),
            final(self).code == old(self).code,
            final(self).available_registers == old(self).available_registers,
            match res {
                Result::Ok(r) => old(self).available_parameter_registers@.len() > 0 && r == old(self).available_parameter_registers@.last() && final(self).available_parameter_registers@ == old(self).available_parameter_registers@.drop_last() && final(self).var@ =~= seq![
                    (var, r),
                ] && final(self).binding_of() == Some((var@, r)) && r != Reg::Rax && r != Reg::Rdx
                    && !final(self).available_registers@.contains(r),
                Result::Err(err) => err == CompileError::OutOfParameterRegisters && old(self).available_parameter_registers@.len() == 0 && final(self).available_parameter_registers@ == old(self).available_parameter_registers@ && final(self).var == old(self).var,
            },
    {
        let ghost prior = *self;
        let ghost params = self.available_parameter_registers@;
        match self.available_parameter_registers.pop() {
            Some(r) => {
                self.var.push((var, r));
                proof {
                    assert(params.last() == r);
                    assert(params[params.len() - 1] == r);
                    assert(r != Reg::Rax && r != Reg::Rdx && !self.available_registers@.contains(
                        r,
                    ));
                    assert(self.available_parameter_registers@ =~= params.drop_last());
                    assert(self.var@ =~= seq![(var, r)]);
                    assert forall|i: int|
                        0 <= i < self.available_parameter_registers@.len() implies (
                    #[trigger] self.available_parameter_registers@[i]) != Reg::Rax
                        && self.available_parameter_registers@[i] != Reg::Rdx
                        && !self.available_registers@.contains(
                        self.available_parameter_registers@[i],
                    ) by {
                        assert(self.available_parameter_registers@[i] == params[i]);
                    }
                    assert forall|i: int| 0 <= i < self.var@.len() implies (
                    #[trigger] self.var@[i].1) != Reg::Rax && self.var@[i].1 != Reg::Rdx
                        && !self.available_registers@.contains(self.var@[i].1) by {
                        assert(self.var@[i] == (var, r));
                    }
                }
                Result::Ok(r)
            },
            None => Result::Err(CompileError::OutOfParameterRegisters),
        }
    }

    /// Returns a result register to the parameter pool, unless it is the
    /// accumulator or the parameter register C.  This overapproximates
    /// availability; the invariant relied on is that a released register
    /// is not live.
    pub fn free_if_possible(&mut self, reg: Reg)
        requires
            old(self).wf(),
            reg != Reg::Rdx,
            !old(self).available_registers@.contains(reg),
        ensures
            final(self).wf(),
            final(self).code == old(self).code,
            final(self).available_registers == old(self).available_registers,
            final(self).var == old(self).var,
    {
        if !(matches!(reg, Reg::Rax) || matches!(reg, Reg::Rcx)) {
            self.available_parameter_registers.push(reg);
        }
    }
}

impl Expr {
    /// Compiles this expression in the given context and returns the
    /// register that will hold its value.
    ///
    /// Compilation succeeds exactly when every variable is bound and the
    /// scratch pool can seat every allocating node; on success the emitted
    /// code computes the reference semantics of the expression
    /// ([`compiled_ok`]).
    pub fn compile(&self, ctx: &mut CompilationContext) -> (res: Result<Reg, CompileError>)
        requires
            old(ctx).wf(),
        ensures
            ctx_evolves(*old(ctx), *final(ctx)),
            res is Ok <==> (vars_bound(*self, *old(ctx)) && alloc_count(*self) <= old(ctx).available_registers@.len()),
            (match res {
                Result::Ok(reg) => compile_success(*self, *old(ctx), *final(ctx), reg),
                Result::Err(err) => compile_failure(*self, *old(ctx), err),
            }),
        decreases expr_size(*self), 1nat,
    {
        match self {
            Expr::Number(n) => compile_number(*n, ctx),
            Expr::Var(v) => compile_var(v, ctx),
            Expr::FunctionCall(name, arg) => compile_function_call(name, arg, ctx, Ghost(*self)),
            Expr::Add(l, r) => compile_binary(BinOp::Add, &**l, &**r, ctx, Ghost(*self)),
            Expr::Sub(l, r) => compile_binary(BinOp::Sub, &**l, &**r, ctx, Ghost(*self)),
            Expr::Mul(l, r) => compile_binary(BinOp::Mul, &**l, &**r, ctx, Ghost(*self)),
            Expr::Div(l, r) => compile_binary(BinOp::Div, &**l, &**r, ctx, Ghost(*self)),
            Expr::Rem(l, r) => compile_binary(BinOp::Rem, &**l, &**r, ctx, Ghost(*self)),
            Expr::Eq(l, r) => compile_binary(BinOp::Eq, &**l, &**r, ctx, Ghost(*self)),
            Expr::Neq(l, r) => compile_binary(BinOp::Neq, &**l, &**r, ctx, Ghost(*self)),
            Expr::Gt(l, r) => compile_binary(BinOp::Gt, &**l, &**r, ctx, Ghost(*self)),
            Expr::Lt(l, r) => compile_binary(BinOp::Lt, &**l, &**r, ctx, Ghost(*self)),
            Expr::Gte(l, r) => compile_binary(BinOp::Gte, &**l, &**r, ctx, Ghost(*self)),
            Expr::Lte(l, r) => compile_binary(BinOp::Lte, &**l, &**r, ctx, Ghost(*self)),
        }
    }
}

/// A literal: load the immediate into a fresh scratch register.
fn compile_number(number: i32, ctx: &mut CompilationContext) -> (res: Result<Reg, CompileError>)
    requires
        old(ctx).wf(),
    ensures
        ctx_evolves(*old(ctx), *final(ctx)),
        res is Ok <==> (vars_bound(Expr::Number(number), *old(ctx)) && alloc_count(
            Expr::Number(number),
        ) <= old(ctx).available_registers@.len()),
        (match res {
            Result::Ok(reg) => compile_success(Expr::Number(number), *old(ctx), *final(ctx), reg),
            Result::Err(err) => compile_failure(Expr::Number(number), *old(ctx), err),
        }),
{
    let ghost pre = *old(ctx);
    let ghost e = Expr::Number(number);
    proof {
        assert(pre.code@.take(pre.code@.len() as int) =~= pre.code@);
        assert(pre.available_registers@ =~= pre.available_registers@.take(
            pre.available_registers@.len() as int,
        ));
    }
    let reg = match ctx.next_register() {
        Result::Ok(r) => r,
        Result::Err(err) => {
            return Result::Err(err);
        },
    };
    ctx.emit(Instr::MovImm(reg, number));
    let ghost post = *ctx;
    proof {
        assert(post.code@.take(pre.code@.len() as int) =~= pre.code@);
        assert(post.available_registers@ =~= pre.available_registers@.take(
            post.available_registers@.len() as int,
        ));
        assert(emitted_code(pre, post) =~= seq![Instr::MovImm(reg, number)]);
        assert(clobbered(pre, post).contains(reg)) by {
            assert(pre.available_registers@[pre.available_registers@.len() - 1] == reg);
        }
        assert forall|s: MState, defs: FnTable, fuel: nat|
            #![trigger run_code(emitted_code(pre, post), s, defs, fuel)]
            state_wf(s) implies run_computes(
            emitted_code(pre, post),
            s,
            defs,
            fuel,
            eval_expr_spec(e, binding_vals(pre, s), defs, fuel),
            reg,
            clobbered(pre, post),
        ) by {
            lemma_run_one(Instr::MovImm(reg, number), s, defs, fuel);
        }
    }
    Result::Ok(reg)
}

/// A variable reference: the register it was bound to; an unbound
/// variable is a compile-time error.
fn compile_var(name: &String, ctx: &mut CompilationContext) -> (res: Result<Reg, CompileError>)
    requires
        old(ctx).wf(),
    ensures
        ctx_evolves(*old(ctx), *final(ctx)),
        res is Ok <==> (vars_bound(Expr::Var(*name), *old(ctx)) && alloc_count(Expr::Var(*name))
            <= old(ctx).available_registers@.len()),
        (match res {
            Result::Ok(reg) => compile_success(Expr::Var(*name), *old(ctx), *final(ctx), reg),
            Result::Err(err) => compile_failure(Expr::Var(*name), *old(ctx), err),
        }),
{
    let ghost pre = *old(ctx);
    let ghost e = Expr::Var(*name);
    proof {
        assert(pre.code@.take(pre.code@.len() as int) =~= pre.code@);
        assert(pre.available_registers@ =~= pre.available_registers@.take(
            pre.available_registers@.len() as int,
        ));
        assert(vars_seq(e)[0] == name@);
        assert(vars_seq(e).contains(name@));
    }
    if ctx.var.len() > 0 && ctx.var[0].0.eq(name) {
        let reg = ctx.var[0].1;
        proof {
            let post = *ctx;
            assert(emitted_code(pre, post) =~= Seq::<Instr>::empty());
            assert forall|n: Seq<char>| vars_seq(e).contains(n) implies name_bound(pre, n) by {
                let i = choose|i: int| 0 <= i < vars_seq(e).len() && vars_seq(e)[i] == n;
                assert(vars_seq(e)[0] == name@);
            }
            assert forall|s: MState, defs: FnTable, fuel: nat|
                #![trigger run_code(emitted_code(pre, post), s, defs, fuel)]
                state_wf(s) implies run_computes(
                emitted_code(pre, post),
                s,
                defs,
                fuel,
                eval_expr_spec(e, binding_vals(pre, s), defs, fuel),
                reg,
                clobbered(pre, post),
            ) by {
                assert(run_code(emitted_code(pre, post), s, defs, fuel) == MRun::Next(s));
            }
        }
        Result::Ok(reg)
    } else {
        proof {
            if vars_bound(e, pre) {
                assert(name_bound(pre, name@));
            }
        }
        Result::Err(CompileError::UnboundVariable)
    }
}

/// A binary node `node`: compile both sides, allocate a fresh result
/// register, emit the operator's pattern, then release the operand
/// registers.
fn compile_binary(
    op: BinOp,
    l: &Expr,
    r: &Expr,
    ctx: &mut CompilationContext,
    Ghost(node): Ghost<Expr>,
) -> (res: Result<Reg, CompileError>)
    requires
        old(ctx).wf(),
        crate::semantics::binop_parts(node) == Some((op, *l, *r)),
    ensures
        ctx_evolves(*old(ctx), *final(ctx)),
        res is Ok <==> (vars_bound(node, *old(ctx)) && alloc_count(node) <= old(ctx).available_registers@.len()),
        (match res {
            Result::Ok(reg) => compile_success(node, *old(ctx), *final(ctx), reg),
            Result::Err(err) => compile_failure(node, *old(ctx), err),
        }),
    decreases expr_size(node), 0nat,
{
    let ghost pre = *old(ctx);
    proof {
        lemma_expr_size_pos(*l);
        lemma_expr_size_pos(*r);
        assert(vars_seq(node) == vars_seq(*l) + vars_seq(*r));
        assert(alloc_count(node) == 1 + alloc_count(*l) + alloc_count(*r));
        assert(expr_size(node) == 1 + expr_size(*l) + expr_size(*r));
        lemma_vars_bound_split(node, *l, *r, pre);
        assert(pre.code@.take(pre.code@.len() as int) =~= pre.code@);
        assert(pre.available_registers@ =~= pre.available_registers@.take(
            pre.available_registers@.len() as int,
        ));
    }
    let rl = match l.compile(ctx) {
        Result::Ok(reg) => reg,
        Result::Err(err) => {
            return Result::Err(err);
        },
    };
    let ghost mid1 = *ctx;
    let rr = match r.compile(ctx) {
        Result::Ok(reg) => reg,
        Result::Err(err) => {
            proof {
                lemma_evolves_trans(pre, mid1, *ctx);
                assert(mid1.binding_of() == pre.binding_of());
                lemma_vars_bound_same_binding(*r, mid1, pre);
            }
            return Result::Err(err);
        },
    };
    let ghost mid2 = *ctx;
    let dst = match ctx.next_register() {
        Result::Ok(reg) => reg,
        Result::Err(err) => {
            proof {
                let post = *ctx;
                assert(post.code@.take(mid2.code@.len() as int) =~= mid2.code@);
                assert(post.available_registers@ =~= mid2.available_registers@.take(
                    post.available_registers@.len() as int,
                ));
                lemma_evolves_trans(pre, mid1, mid2);
                lemma_evolves_trans(pre, mid2, post);
            }
            return Result::Err(err);
        },
    };
    let ghost mid3 = *ctx;
    proof {
        assert(mid3.code@.take(mid2.code@.len() as int) =~= mid2.code@);
        assert(mid3.available_registers@ =~= mid2.available_registers@.take(
            mid3.available_registers@.len() as int,
        ));
        assert(ctx_evolves(mid2, mid3));
    }
    match op {
        BinOp::Add => {
            ctx.emit(Instr::MovReg(dst, rl));
            ctx.emit(Instr::AddReg(dst, rr));
        },
        BinOp::Sub => {
            ctx.emit(Instr::MovReg(dst, rl));
            ctx.emit(Instr::SubReg(dst, rr));
        },
        BinOp::Mul => {
            ctx.emit(Instr::MovReg(Reg::Rax, rl));
            ctx.emit(Instr::MulReg(rr));
            ctx.emit(Instr::MovReg(dst, Reg::Rax));
        },
        BinOp::Div => {
            ctx.emit(Instr::MovReg(Reg::Rax, rl));
            ctx.emit(Instr::DivReg(rr));
            ctx.emit(Instr::MovReg(dst, Reg::Rax));
        },
        BinOp::Rem => {
            ctx.emit(Instr::MovReg(Reg::Rax, rl));
            ctx.emit(Instr::DivReg(rr));
            ctx.emit(Instr::MovReg(dst, Reg::Rdx));
        },
        BinOp::Eq => {
            ctx.emit(Instr::CmpReg(rl, rr));
            ctx.emit(Instr::SetCond(Cond::CondEq));
            ctx.emit(Instr::MovReg(dst, Reg::Rax));
        },
        BinOp::Neq => {
            ctx.emit(Instr::CmpReg(rl, rr));
            ctx.emit(Instr::SetCond(Cond::CondNe));
            ctx.emit(Instr::MovReg(dst, Reg::Rax));
        },
        BinOp::Gt => {
            ctx.emit(Instr::CmpReg(rl, rr));
            ctx.emit(Instr::SetCond(Cond::CondGt));
            ctx.emit(Instr::MovReg(dst, Reg::Rax));
        },
        BinOp::Lt => {
            ctx.emit(Instr::CmpReg(rl, rr));
            ctx.emit(Instr::SetCond(Cond::CondLt));
            ctx.emit(Instr::MovReg(dst, Reg::Rax));
        },
        BinOp::Gte => {
            ctx.emit(Instr::CmpReg(rl, rr));
            ctx.emit(Instr::SetCond(Cond::CondGe));
            ctx.emit(Instr::MovReg(dst, Reg::Rax));
        },
        BinOp::Lte => {
            ctx.emit(Instr::CmpReg(rl, rr));
            ctx.emit(Instr::SetCond(Cond::CondLe));
            ctx.emit(Instr::MovReg(dst, Reg::Rax));
        },
    }
    let ghost mid4 = *ctx;
    let ghost pat = binop_pattern(op, rl, rr, dst);
    proof {
        assert(mid4.code@.take(mid3.code@.len() as int) =~= mid3.code@);
        assert(mid4.available_registers@ =~= mid3.available_registers@.take(
            mid4.available_registers@.len() as int,
        ));
        assert(ctx_evolves(mid3, mid4));
        assert(emitted_code(mid3, mid4) =~= pat);
        lemma_evolves_trans(mid1, mid2, mid3);
        lemma_evolves_trans(mid1, mid3, mid4);
        lemma_evolves_trans(mid2, mid3, mid4);
        lemma_off_pool(mid1, mid4, rl);
        lemma_off_pool(mid2, mid4, rr);
    }
    ctx.free_if_possible(rl);
    ctx.free_if_possible(rr);
    let ghost post = *ctx;
    proof {
        assert(post.code == mid4.code && post.available_registers == mid4.available_registers
            && post.var == mid4.var);
        lemma_evolves_trans(pre, mid1, mid2);
        lemma_evolves_trans(pre, mid2, mid3);
        lemma_evolves_trans(pre, mid3, post);
        lemma_clobber_compose(pre, mid1, post);
        lemma_clobber_compose(mid1, mid2, post);
        assert(clobbered(mid2, mid3).contains(dst)) by {
            assert(mid2.available_registers@[mid2.available_registers@.len() - 1] == dst);
        }
        assert(clobbered(pre, post).contains(dst)) by {
            lemma_clobber_compose(mid2, mid3, post);
            lemma_clobber_compose(pre, mid2, post);
        }
        let em_l = emitted_code(pre, mid1);
        let em_r = emitted_code(mid1, mid2);
        assert(emitted_code(pre, post) =~= em_l + (em_r + pat)) by {
            lemma_evolves_trans(pre, mid1, mid2);
            lemma_evolves_trans(pre, mid2, post);
            assert(emitted_code(mid2, post) =~= pat);
            assert(emitted_code(pre, post) =~= emitted_code(pre, mid2) + emitted_code(mid2, post));
            assert(emitted_code(pre, mid2) =~= em_l + em_r);
        }
        assert(mid1.binding_of() == pre.binding_of());
        lemma_vars_bound_same_binding(*r, mid1, pre);
        assert(!post.available_registers@.contains(dst));
        lemma_compile_binary_semantics(op, *l, *r, node, pre, mid1, mid2, post, rl, rr, dst);
    }
    Result::Ok(dst)
}

/// The instructions that combine two operand registers into `dst` for one
/// binary operator, mirroring the fixed lowering patterns: moves and an
/// arithmetic instruction for add and subtract; the accumulator patterns
/// for multiply, divide and remainder; compare-and-set for the relations.
pub open spec fn binop_pattern(op: BinOp, rl: Reg, rr: Reg, dst: Reg) -> Seq<Instr> {
    match op {
        BinOp::Add => seq![Instr::MovReg(dst, rl), Instr::AddReg(dst, rr)],
        BinOp::Sub => seq![Instr::MovReg(dst, rl), Instr::SubReg(dst, rr)],
        BinOp::Mul => seq![
            Instr::MovReg(Reg::Rax, rl),
            Instr::MulReg(rr),
            Instr::MovReg(dst, Reg::Rax),
        ],
        BinOp::Div => seq![
            Instr::MovReg(Reg::Rax, rl),
            Instr::DivReg(rr),
            Instr::MovReg(dst, Reg::Rax),
        ],
        BinOp::Rem => seq![
            Instr::MovReg(Reg::Rax, rl),
            Instr::DivReg(rr),
            Instr::MovReg(dst, Reg::Rdx),
        ],
        BinOp::Eq => seq![
            Instr::CmpReg(rl, rr),
            Instr::SetCond(Cond::CondEq),
            Instr::MovReg(dst, Reg::Rax),
        ],
        BinOp::Neq => seq![
            Instr::CmpReg(rl, rr),
            Instr::SetCond(Cond::CondNe),
            Instr::MovReg(dst, Reg::Rax),
        ],
        BinOp::Gt => seq![
            Instr::CmpReg(rl, rr),
            Instr::SetCond(Cond::CondGt),
            Instr::MovReg(dst, Reg::Rax),
        ],
        BinOp::Lt => seq![
            Instr::CmpReg(rl, rr),
            Instr::SetCond(Cond::CondLt),
            Instr::MovReg(dst, Reg::Rax),
        ],
        BinOp::Gte => seq![
            Instr::CmpReg(rl, rr),
            Instr::SetCond(Cond::CondGe),
            Instr::MovReg(dst, Reg::Rax),
        ],
        BinOp::Lte => seq![
            Instr::CmpReg(rl, rr),
            Instr::SetCond(Cond::CondLe),
            Instr::MovReg(dst, Reg::Rax),
        ],
    }
}

/// Running a binary-operator pattern from a state holding the operand
/// values computes the operator on them.
#[verifier::rlimit(100)]
proof fn lemma_binop_pattern(
    op: BinOp,
    rl: Reg,
    rr: Reg,
    dst: Reg,
    s: MState,
    defs: FnTable,
    fuel: nat,
)
    requires
        state_wf(s),
        dst != rl,
        dst != rr,
        dst != Reg::Rax,
        dst != Reg::Rdx,
        rl != Reg::Rax,
        rl != Reg::Rdx,
        rr != Reg::Rax,
        rr != Reg::Rdx,
    ensures
        run_computes(
            binop_pattern(op, rl, rr, dst),
            s,
            defs,
            fuel,
            apply_binop(op, s.regs[rl], s.regs[rr]),
            dst,
            Set::new(|r: Reg| r == Reg::Rax || r == Reg::Rdx || r == dst),
        ),
{
    match op {
        BinOp::Add => {
            lemma_run_two(Instr::MovReg(dst, rl), Instr::AddReg(dst, rr), s, defs, fuel);
        },
        BinOp::Sub => {
            lemma_run_two(Instr::MovReg(dst, rl), Instr::SubReg(dst, rr), s, defs, fuel);
        },
        BinOp::Mul => {
            lemma_run_three(
                Instr::MovReg(Reg::Rax, rl),
                Instr::MulReg(rr),
                Instr::MovReg(dst, Reg::Rax),
                s,
                defs,
                fuel,
            );
        },
        BinOp::Div => {
            lemma_run_three(
                Instr::MovReg(Reg::Rax, rl),
                Instr::DivReg(rr),
                Instr::MovReg(dst, Reg::Rax),
                s,
                defs,
                fuel,
            );
        },
        BinOp::Rem => {
            lemma_run_three(
                Instr::MovReg(Reg::Rax, rl),
                Instr::DivReg(rr),
                Instr::MovReg(dst, Reg::Rdx),
                s,
                defs,
                fuel,
            );
        },
        BinOp::Eq => {
            lemma_run_three(
                Instr::CmpReg(rl, rr),
                Instr::SetCond(Cond::CondEq),
                Instr::MovReg(dst, Reg::Rax),
                s,
                defs,
                fuel,
            );
        },
        BinOp::Neq => {
            lemma_run_three(
                Instr::CmpReg(rl, rr),
                Instr::SetCond(Cond::CondNe),
                Instr::MovReg(dst, Reg::Rax),
                s,
                defs,
                fuel,
            );
        },
        BinOp::Gt => {
            lemma_run_three(
                Instr::CmpReg(rl, rr),
                Instr::SetCond(Cond::CondGt),
                Instr::MovReg(dst, Reg::Rax),
                s,
                defs,
                fuel,
            );
        },
        BinOp::Lt => {
            lemma_run_three(
                Instr::CmpReg(rl, rr),
                Instr::SetCond(Cond::CondLt),
                Instr::MovReg(dst, Reg::Rax),
                s,
                defs,
                fuel,
            );
        },
        BinOp::Gte => {
            lemma_run_three(
                Instr::CmpReg(rl, rr),
                Instr::SetCond(Cond::CondGe),
                Instr::MovReg(dst, Reg::Rax),
                s,
                defs,
                fuel,
            );
        },
        BinOp::Lte => {
            lemma_run_three(
                Instr::CmpReg(rl, rr),
                Instr::SetCond(Cond::CondLe),
                Instr::MovReg(dst, Reg::Rax),
                s,
                defs,
                fuel,
            );
        },
    }
}

/// The semantic half of compiling a binary node: if both operand
/// compilations are correct and the operator pattern follows them, the
/// whole emitted stretch computes the node.
proof fn lemma_compile_binary_semantics(
    op: BinOp,
    l: Expr,
    r: Expr,
    node: Expr,
    pre: CompilationContext,
    mid1: CompilationContext,
    mid2: CompilationContext,
    post: CompilationContext,
    rl: Reg,
    rr: Reg,
    dst: Reg,
)
    requires
        crate::semantics::binop_parts(node) == Some((op, l, r)),
        pre.wf(),
        ctx_evolves(pre, mid1),
        ctx_evolves(mid1, mid2),
        ctx_evolves(mid2, post),
        compiled_ok(l, pre, mid1, rl),
        compiled_ok(r, mid1, mid2, rr),
        emitted_code(pre, post) == emitted_code(pre, mid1) + (emitted_code(mid1, mid2)
            + binop_pattern(op, rl, rr, dst)),
        !mid1.available_registers@.contains(rl),
        !mid2.available_registers@.contains(rr),
        rl != Reg::Rax,
        rl != Reg::Rdx,
        rr != Reg::Rax,
        rr != Reg::Rdx,
        dst != rl,
        dst != rr,
        dst != Reg::Rax,
        dst != Reg::Rdx,
        clobbered(pre, post).contains(dst),
    ensures
        compiled_ok(node, pre, post, dst),
{
    lemma_evolves_trans(mid1, mid2, post);
    lemma_clobber_compose(pre, mid1, post);
    lemma_clobber_compose(mid1, mid2, post);
    let em_l = emitted_code(pre, mid1);
    let em_r = emitted_code(mid1, mid2);
    let pat = binop_pattern(op, rl, rr, dst);
    assert forall|s: MState, defs: FnTable, fuel: nat|
        #![trigger run_code(emitted_code(pre, post), s, defs, fuel)]
        state_wf(s) implies run_computes(
        emitted_code(pre, post),
        s,
        defs,
        fuel,
        eval_expr_spec(node, binding_vals(pre, s), defs, fuel),
        dst,
        clobbered(pre, post),
    ) by {
        assert(eval_expr_spec(node, binding_vals(pre, s), defs, fuel) == eval_binop_spec(
            op,
            l,
            r,
            binding_vals(pre, s),
            defs,
            fuel,
        ));
        lemma_run_append(em_l, em_r + pat, s, defs, fuel);
        let mr_l = run_code(em_l, s, defs, fuel);
        let ev_l = eval_expr_spec(l, binding_vals(pre, s), defs, fuel);
        assert(run_computes(em_l, s, defs, fuel, ev_l, rl, clobbered(pre, mid1)));
        match ev_l {
            Result::Err(_) => {},
            Result::Ok(a) => {
                let s1 = mr_l->Next_0;
                assert(binding_vals(mid1, s1) == binding_vals(pre, s)) by {
                    match pre.binding_of() {
                        Some(b) => {
                            assert(!clobbered(pre, mid1).contains(b.1));
                        },
                        None => {},
                    }
                }
                lemma_run_append(em_r, pat, s1, defs, fuel);
                let mr_r = run_code(em_r, s1, defs, fuel);
                let ev_r = eval_expr_spec(r, binding_vals(mid1, s1), defs, fuel);
                assert(run_computes(em_r, s1, defs, fuel, ev_r, rr, clobbered(mid1, mid2)));
                match ev_r {
                    Result::Err(_) => {},
                    Result::Ok(b) => {
                        let s2 = mr_r->Next_0;
                        assert(s2.regs[rl] == a) by {
                            assert(!clobbered(mid1, mid2).contains(rl));
                        }
                        lemma_binop_pattern(op, rl, rr, dst, s2, defs, fuel);
                        assert(run_computes(
                            pat,
                            s2,
                            defs,
                            fuel,
                            apply_binop(op, a, b),
                            dst,
                            Set::new(|q: Reg| q == Reg::Rax || q == Reg::Rdx || q == dst),
                        ));
                        match apply_binop(op, a, b) {
                            Result::Err(_) => {},
                            Result::Ok(v) => {
                                let s3 = run_code(pat, s2, defs, fuel)->Next_0;
                                assert(regs_except(s, s3, clobbered(pre, post))) by {
                                    assert forall|q: Reg|
                                        !clobbered(pre, post).contains(q) implies s3.regs[q]
                                        == s.regs[q] by {
                                        assert(!clobbered(pre, mid1).contains(q));
                                        assert(!clobbered(mid1, mid2).contains(q));
                                        assert(q != Reg::Rax && q != Reg::Rdx && q != dst);
                                        assert(s1.regs[q] == s.regs[q]);
                                        assert(s2.regs[q] == s1.regs[q]);
                                        assert(!Set::new(
                                            |q2: Reg| q2 == Reg::Rax || q2 == Reg::Rdx || q2
                                                == dst,
                                        ).contains(q));
                                        assert(s3.regs[q] == s2.regs[q]);
                                    }
                                }
                            },
                        }
                    },
                }
            },
        }
    }
}

/// A call node: compile the optional argument, allocate the result
/// register, then emit the trampoline-call pattern.  A missing argument
/// passes 0.  The argument register is released after the call.
fn compile_function_call(
    name: &String,
    param: &Option<Box<Expr>>,
    ctx: &mut CompilationContext,
    Ghost(node): Ghost<Expr>,
) -> (res: Result<Reg, CompileError>)
    requires
        old(ctx).wf(),
        node == Expr::FunctionCall(*name, *param),
    ensures
        ctx_evolves(*old(ctx), *final(ctx)),
        res is Ok <==> (vars_bound(node, *old(ctx)) && alloc_count(node) <= old(ctx).available_registers@.len()),
        (match res {
            Result::Ok(reg) => compile_success(node, *old(ctx), *final(ctx), reg),
            Result::Err(err) => compile_failure(node, *old(ctx), err),
        }),
    decreases expr_size(node), 0nat,
{
    let ghost pre = *old(ctx);
    proof {
        assert(pre.code@.take(pre.code@.len() as int) =~= pre.code@);
        assert(pre.available_registers@ =~= pre.available_registers@.take(
            pre.available_registers@.len() as int,
        ));
    }
    match param {
        None => {
            let dst = match ctx.next_register() {
                Result::Ok(reg) => reg,
                Result::Err(err) => {
                    return Result::Err(err);
                },
            };
            ctx.emit(Instr::MovImm(dst, 0));
            ctx.emit(Instr::CallFn(name.clone(), dst));
            ctx.emit(Instr::MovReg(dst, Reg::Rax));
            let ghost post = *ctx;
            proof {
                assert(post.code@.take(pre.code@.len() as int) =~= pre.code@);
                assert(post.available_registers@ =~= pre.available_registers@.take(
                    post.available_registers@.len() as int,
                ));
                assert(emitted_code(pre, post) =~= seq![
                    Instr::MovImm(dst, 0),
                    Instr::CallFn(*name, dst),
                    Instr::MovReg(dst, Reg::Rax),
                ]);
                assert(clobbered(pre, post).contains(dst)) by {
                    assert(pre.available_registers@[pre.available_registers@.len() - 1] == dst);
                }
                assert forall|s: MState, defs: FnTable, fuel: nat|
                    #![trigger run_code(emitted_code(pre, post), s, defs, fuel)]
                    state_wf(s) implies run_computes(
                    emitted_code(pre, post),
                    s,
                    defs,
                    fuel,
                    eval_expr_spec(node, binding_vals(pre, s), defs, fuel),
                    dst,
                    clobbered(pre, post),
                ) by {
                    lemma_run_three(
                        Instr::MovImm(dst, 0),
                        Instr::CallFn(*name, dst),
                        Instr::MovReg(dst, Reg::Rax),
                        s,
                        defs,
                        fuel,
                    );
                }
            }
            Result::Ok(dst)
        },
        Some(a) => {
            proof {
                lemma_expr_size_pos(**a);
            }
            let ra = match a.compile(ctx) {
                Result::Ok(reg) => reg,
                Result::Err(err) => {
                    return Result::Err(err);
                },
            };
            let ghost mid1 = *ctx;
            let dst = match ctx.next_register() {
                Result::Ok(reg) => reg,
                Result::Err(err) => {
                    proof {
                        let post = *ctx;
                        assert(post.code@.take(mid1.code@.len() as int) =~= mid1.code@);
                        assert(post.available_registers@ =~= mid1.available_registers@.take(
                            post.available_registers@.len() as int,
                        ));
                        lemma_evolves_trans(pre, mid1, post);
                    }
                    return Result::Err(err);
                },
            };
            let ghost mid2 = *ctx;
            proof {
                assert(mid2.code@.take(mid1.code@.len() as int) =~= mid1.code@);
                assert(mid2.available_registers@ =~= mid1.available_registers@.take(
                    mid2.available_registers@.len() as int,
                ));
                assert(ctx_evolves(mid1, mid2));
            }
            ctx.emit(Instr::CallFn(name.clone(), ra));
            ctx.emit(Instr::MovReg(dst, Reg::Rax));
            let ghost mid3 = *ctx;
            proof {
                assert(mid3.code@.take(mid2.code@.len() as int) =~= mid2.code@);
                assert(mid3.available_registers@ =~= mid2.available_registers@.take(
                    mid3.available_registers@.len() as int,
                ));
                assert(ctx_evolves(mid2, mid3));
                lemma_evolves_trans(mid1, mid2, mid3);
                lemma_off_pool(mid1, mid3, ra);
            }
            ctx.free_if_possible(ra);
            let ghost post = *ctx;
            proof {
                assert(post.code == mid3.code && post.available_registers
                    == mid3.available_registers && post.var == mid3.var);
                lemma_evolves_trans(pre, mid1, mid2);
                lemma_evolves_trans(pre, mid2, mid3);
                lemma_clobber_compose(pre, mid1, post);
                assert(clobbered(mid1, mid2).contains(dst)) by {
                    assert(mid1.available_registers@[mid1.available_registers@.len() - 1] == dst);
                }
                assert(clobbered(pre, post).contains(dst)) by {
                    lemma_clobber_compose(mid1, mid2, post);
                    lemma_clobber_compose(pre, mid1, post);
                }
                let em_a = emitted_code(pre, mid1);
                let pat = seq![Instr::CallFn(*name, ra), Instr::MovReg(dst, Reg::Rax)];
                assert(emitted_code(pre, post) =~= em_a + pat) by {
                    lemma_evolves_trans(pre, mid1, post);
                    assert(emitted_code(mid1, post) =~= pat);
                    assert(emitted_code(pre, post) =~= emitted_code(pre, mid1) + emitted_code(
                        mid1,
                        post,
                    ));
                }
                assert forall|s: MState, defs: FnTable, fuel: nat|
                    #![trigger run_code(emitted_code(pre, post), s, defs, fuel)]
                    state_wf(s) implies run_computes(
                    emitted_code(pre, post),
                    s,
                    defs,
                    fuel,
                    eval_expr_spec(node, binding_vals(pre, s), defs, fuel),
                    dst,
                    clobbered(pre, post),
                ) by {
                    lemma_run_append(em_a, pat, s, defs, fuel);
                    let ev_a = eval_expr_spec(**a, binding_vals(pre, s), defs, fuel);
                    assert(run_computes(em_a, s, defs, fuel, ev_a, ra, clobbered(pre, mid1)));
                    match ev_a {
                        Result::Err(_) => {},
                        Result::Ok(v) => {
                            let s1 = run_code(em_a, s, defs, fuel)->Next_0;
                            lemma_run_two(
                                Instr::CallFn(*name, ra),
                                Instr::MovReg(dst, Reg::Rax),
                                s1,
                                defs,
                                fuel,
                            );
                            match call_spec(defs, name@, v, fuel) {
                                Result::Err(_) => {},
                                Result::Ok(w) => {
                                    let s2 = run_code(pat, s1, defs, fuel)->Next_0;
                                    assert(regs_except(s, s2, clobbered(pre, post))) by {
                                        assert forall|q: Reg|
                                            !clobbered(pre, post).contains(q) implies s2.regs[q]
                                            == s.regs[q] by {
                                            assert(!clobbered(pre, mid1).contains(q));
                                            assert(q != Reg::Rax && q != Reg::Rdx && q != dst);
                                        }
                                    }
                                },
                            }
                        },
                    }
                }
            }
            Result::Ok(dst)
        },
    }
}

/// A compiled artifact: either the stub that triggers lazy compilation on
/// first call, or finished code together with the definition it was
/// compiled from.  The code of a finished artifact provably computes its
/// source definition ([`runable_wf`]).
pub enum Runable {
    Stub { name: String },
    Code { code: Vec<Instr>, src: Ghost<DefSem> },
}

/// What it means for finished code to implement a definition.
pub open spec fn implements_def(code: Seq<Instr>, d: DefSem) -> bool {
    implements_body(code, d.param, d.body)
}

/// Every finished artifact's code computes its source definition.
pub open spec fn runable_wf(r: Runable) -> bool {
    match r {
        Runable::Stub { .. } => true,
        Runable::Code { code, src } => implements_def(code@, src@),
    }
}

impl Runable {
    /// Wraps finished code and the definition it implements.
    pub fn new(code: Vec<Instr>, Ghost(src): Ghost<DefSem>) -> (r: Runable)
        requires
            implements_def(code@, src),
        ensures
            r == (Runable::Code { code, src: Ghost(src) }),
            runable_wf(r),
    {
        Runable::Code { code, src: Ghost(src) }
    }

    /// The instruction listing of this artifact, for display; a stub shows
    /// no instructions.
    pub fn print(&self) -> (r: Vec<Instr>)
        ensures
            (match self {
                Runable::Code { code, .. } => r@ == code@,
                Runable::Stub { .. } => r@.len() == 0,
            }),
    {
        match self {
            Runable::Code { code, .. } => clone_code(code),
            Runable::Stub { .. } => Vec::new(),
        }
    }
}

/// A copy of an instruction listing, equal element for element.
pub fn clone_code(v: &Vec<Instr>) -> (r: Vec<Instr>)
    ensures
        r@ == v@,
{
    let mut out: Vec<Instr> = Vec::new();
    let mut i: usize = 0;
    while i < v.len()
        invariant
            i <= v.len(),
            out@ =~= v@.take(i as int),
        decreases v.len() - i,
    {
        out.push(v[i].clone());
        assert(out@ =~= v@.take(i as int + 1));
        i += 1;
    }
    assert(v@.take(v.len() as int) =~= v@);
    out
}

impl CompilationContext {
    /// Compiles a whole body or query: the expression's code followed by
    /// the epilogue move of the result into the accumulator.
    ///
    /// On success the artifact's code computes, for every argument, every
    /// table of definitions and every call depth, exactly the reference
    /// semantics of the expression under this context's variable binding.
    pub fn compile(self, expr: &Expr) -> (res: Result<Runable, CompileError>)
        requires
            self.wf(),
            self.code@.len() == 0,
            (match self.binding_of() {
                Some(b) => b.1 == Reg::Rcx,
                None => true,
            }),
        ensures
            res is Ok <==> (vars_bound(*expr, self) && alloc_count(*expr)
                <= self.available_registers@.len()),
            (match res {
                Result::Ok(run) => run matches Runable::Code { .. } && runable_wf(run)
                    && (run->Code_src)@ == (DefSem { param: self.binding_name(), body: *expr }),
                Result::Err(err) => compile_failure(*expr, self, err),
            }),
    {
        let ghost pre = self;
        let mut ctx = self;
        let reg = match expr.compile(&mut ctx) {
            Result::Ok(r) => r,
            Result::Err(err) => {
                return Result::Err(err);
            },
        };
        let ghost mid = ctx;
        ctx.emit(Instr::MovReg(Reg::Rax, reg));
        let ghost post = ctx;
        let ghost src = DefSem { param: pre.binding_name(), body: *expr };
        proof {
            let body_em = emitted_code(pre, mid);
            let epilogue = seq![Instr::MovReg(Reg::Rax, reg)];
            assert(post.code@ =~= body_em + epilogue) by {
                assert(body_em =~= mid.code@);
            }
            assert forall|arg: i32, defs: FnTable, fuel: nat|
                #![trigger prog_result(post.code@, arg, defs, fuel)]
                prog_result(post.code@, arg, defs, fuel) == eval_expr_spec(
                src.body,
                bind_param(src.param, arg),
                defs,
                fuel,
            ) by {
                let s0 = init_state(arg);
                assert(state_wf(s0));
                lemma_run_append(body_em, epilogue, s0, defs, fuel);
                let ev = eval_expr_spec(*expr, binding_vals(pre, s0), defs, fuel);
                assert(run_computes(body_em, s0, defs, fuel, ev, reg, clobbered(pre, mid)));
                assert(binding_vals(pre, s0) == bind_param(src.param, arg));
                match ev {
                    Result::Err(_) => {},
                    Result::Ok(v) => {
                        let s1 = run_code(body_em, s0, defs, fuel)->Next_0;
                        lemma_run_one(Instr::MovReg(Reg::Rax, reg), s1, defs, fuel);
                    },
                }
            }
            assert(implements_def(post.code@, src));
        }
        Result::Ok(Runable::Code { code: ctx.code, src: Ghost(src) })
    }
}


/// Anything that can lower itself into a compilation context.  The one
/// implementor is the expression tree; its inherent `compile` carries the
/// full contract, of which this trait states the context discipline.
pub trait Compilable {
    /// Compiles `self`, returning the register holding its value.
    fn compile(&self, ctx: &mut CompilationContext) -> (res: Result<Reg, CompileError>)
        requires
            old(ctx).wf(),
        ensures
            ctx_evolves(*old(ctx), *final(ctx)),
    ;
}

impl Compilable for Expr {
    fn compile(&self, ctx: &mut CompilationContext) -> (res: Result<Reg, CompileError>) {
        Expr::compile(self, ctx)
    }
}

} // verus!
