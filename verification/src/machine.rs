//! The compilation target: a small register machine modelled on one 64-bit
//! desktop instruction set with one calling convention.
//!
//! The machine has twelve general-purpose registers holding 32-bit values,
//! a comparison-flags cell, and an instruction for calling a function by
//! name through the host trampoline.  `run_code` gives the formal meaning
//! of an instruction sequence; the compiler is proved against it, and the
//! executable virtual machine in the compiled executor implements it.

use vstd::prelude::*;

use crate::semantics::{EvalErr, FnTable, bind_param, call_spec, eval_expr_spec, wrap_div, wrap_rem};
use crate::ast::Expr;

verus! {

/// A machine register.  The accumulator A is `Rax`; the first-argument
/// register C is `Rcx`; `Rdx` is the upper half used by multiply and
/// divide.  The remaining nine are the scratch pool.
#[derive(Debug, Clone, Copy, PartialEq, Eq, Structural)]
pub enum Reg {
    Rax,
    Rbx,
    Rcx,
    Rdx,
    R8,
    R9,
    R10,
    R11,
    R12,
    R13,
    R14,
    R15,
}

/// A condition tested by `SetCond` against the last comparison.
#[derive(Debug, Clone, Copy, PartialEq, Eq, Structural)]
pub enum Cond {
    CondEq,
    CondNe,
    CondGt,
    CondLt,
    CondGe,
    CondLe,
}

/// One machine instruction.
///
/// `MulReg` and `DivReg` use the accumulator implicitly, as the hardware
/// multiply and divide do, and clobber `Rdx`; `DivReg` stands for the
/// sign-extend-then-divide pair and faults on a zero divisor.  `CallFn`
/// stands for the jump-around-name-bytes, save, trampoline-call, restore
/// sequence: it calls the function of that name with the argument taken
/// from the named register, leaves the result in `Rax`, clobbers `Rdx`,
/// and invalidates the comparison flags.
#[derive(Debug)]
pub enum Instr {
    MovImm(Reg, i32),
    MovReg(Reg, Reg),
    AddReg(Reg, Reg),
    SubReg(Reg, Reg),
    MulReg(Reg),
    DivReg(Reg),
    CmpReg(Reg, Reg),
    SetCond(Cond),
    CallFn(String, Reg),
}

impl Clone for Instr {
    /// A clone is equal to the original instruction.
    fn clone(&self) -> (r: Instr)
        ensures
            r == *self,
    {
        match self {
            Instr::MovImm(d, n) => Instr::MovImm(*d, *n),
            Instr::MovReg(d, s) => Instr::MovReg(*d, *s),
            Instr::AddReg(d, s) => Instr::AddReg(*d, *s),
            Instr::SubReg(d, s) => Instr::SubReg(*d, *s),
            Instr::MulReg(s) => Instr::MulReg(*s),
            Instr::DivReg(s) => Instr::DivReg(*s),
            Instr::CmpReg(a, b) => Instr::CmpReg(*a, *b),
            Instr::SetCond(c) => Instr::SetCond(*c),
            Instr::CallFn(name, s) => Instr::CallFn(name.clone(), *s),
        }
    }
}

/// A machine state: the registers and the operands of the last comparison.
#[verifier::ext_equal]
pub ghost struct MState {
    pub regs: Map<Reg, i32>,
    pub flags: Option<(i32, i32)>,
}

/// Every register has a value.
pub open spec fn state_wf(s: MState) -> bool {
    forall|r: Reg| s.regs.dom().contains(r)
}

/// The result of running a piece of code: a next state, or a fault that
/// ends the query.
pub ghost enum MRun {
    Next(MState),
    Stop(EvalErr),
}

/// Whether the last comparison `(a, b)` satisfies `c`.
pub open spec fn cond_holds(c: Cond, a: i32, b: i32) -> bool {
    match c {
        Cond::CondEq => a == b,
        Cond::CondNe => a != b,
        Cond::CondGt => a > b,
        Cond::CondLt => a < b,
        Cond::CondGe => a >= b,
        Cond::CondLe => a <= b,
    }
}

/// The effect of one instruction.  Calls resolve by name at call time
/// against `defs`, which is what makes redefinition visible to code
/// compiled earlier.
pub open spec fn exec_instr(i: Instr, s: MState, defs: FnTable, fuel: nat) -> MRun {
    match i {
        Instr::MovImm(d, n) => MRun::Next(MState { regs: s.regs.insert(d, n), ..s }),
        Instr::MovReg(d, src) => MRun::Next(MState { regs: s.regs.insert(d, s.regs[src]), ..s }),
        Instr::AddReg(d, src) => MRun::Next(
            MState { regs: s.regs.insert(d, s.regs[d].wrapping_add(s.regs[src])), ..s },
        ),
        Instr::SubReg(d, src) => MRun::Next(
            MState { regs: s.regs.insert(d, s.regs[d].wrapping_sub(s.regs[src])), ..s },
        ),
        Instr::MulReg(src) => MRun::Next(
            MState {
                regs: s.regs.insert(Reg::Rax, s.regs[Reg::Rax].wrapping_mul(s.regs[src])).insert(
                    Reg::Rdx,
                    0,
                ),
                ..s
            },
        ),
        Instr::DivReg(src) => if s.regs[src] == 0 {
            MRun::Stop(EvalErr::DivisionByZero)
        } else {
            MRun::Next(
                MState {
                    regs: s.regs.insert(Reg::Rax, wrap_div(s.regs[Reg::Rax], s.regs[src])).insert(
                        Reg::Rdx,
                        wrap_rem(s.regs[Reg::Rax], s.regs[src]),
                    ),
                    ..s
                },
            )
        },
        Instr::CmpReg(a, b) => MRun::Next(
            MState { flags: Some((s.regs[a], s.regs[b])), ..s },
        ),
        Instr::SetCond(c) => MRun::Next(
            MState {
                regs: s.regs.insert(
                    Reg::Rax,
                    match s.flags {
                        Some(f) => if cond_holds(c, f.0, f.1) {
                            1i32
                        } else {
                            0i32
                        },
                        None => 0i32,
                    },
                ),
                ..s
            },
        ),
        Instr::CallFn(name, src) => match call_spec(defs, name@, s.regs[src], fuel) {
            Result::Ok(v) => MRun::Next(
                MState { regs: s.regs.insert(Reg::Rax, v).insert(Reg::Rdx, 0), flags: None },
            ),
            Result::Err(err) => MRun::Stop(err),
        },
    }
}

/// The effect of an instruction sequence, run front to back; the first
/// fault stops the run.
pub open spec fn run_code(code: Seq<Instr>, s: MState, defs: FnTable, fuel: nat) -> MRun
    decreases code.len(),
{
    if code.len() == 0 {
        MRun::Next(s)
    } else {
        match exec_instr(code[0], s, defs, fuel) {
            MRun::Next(s2) => run_code(code.skip(1), s2, defs, fuel),
            MRun::Stop(err) => MRun::Stop(err),
        }
    }
}

/// All registers outside `except` are unchanged between `s1` and `s2`.
pub open spec fn regs_except(s1: MState, s2: MState, except: Set<Reg>) -> bool {
    forall|r: Reg| !except.contains(r) ==> s2.regs[r] == s1.regs[r]
}

/// The machine state a compiled function or query starts in: the argument
/// in register C, every other register zero, no comparison made yet.
pub open spec fn init_state(arg: i32) -> MState {
    MState {
        regs: Map::new(
            |r: Reg| true,
            |r: Reg|
                if r == Reg::Rcx {
                    arg
                } else {
                    0i32
                },
        ),
        flags: None,
    }
}

/// What a whole compiled program computes on `arg`: the accumulator at the
/// end of a clean run, or the fault that stopped it.
pub open spec fn prog_result(code: Seq<Instr>, arg: i32, defs: FnTable, fuel: nat) -> Result<
    i32,
    EvalErr,
> {
    match run_code(code, init_state(arg), defs, fuel) {
        MRun::Next(s) => Result::Ok(s.regs[Reg::Rax]),
        MRun::Stop(err) => Result::Err(err),
    }
}

/// The code computes exactly what evaluating `body` under `param` bound to
/// the argument computes — for every argument, every table of definitions
/// in force when a call instruction is reached, and every call depth.
pub open spec fn implements_body(code: Seq<Instr>, param: Option<Seq<char>>, body: Expr) -> bool {
    forall|arg: i32, defs: FnTable, fuel: nat| #![trigger prog_result(code, arg, defs, fuel)]
        prog_result(code, arg, defs, fuel) == eval_expr_spec(body, bind_param(param, arg), defs, fuel)
}

/// Running concatenated code runs the first part, then the second from
/// where the first ended.
pub proof fn lemma_run_append(c1: Seq<Instr>, c2: Seq<Instr>, s: MState, defs: FnTable, fuel: nat)
    ensures
        run_code(c1 + c2, s, defs, fuel) == match run_code(c1, s, defs, fuel) {
            MRun::Next(s1) => run_code(c2, s1, defs, fuel),
            MRun::Stop(err) => MRun::Stop(err),
        },
    decreases c1.len(),
{
    if c1.len() == 0 {
        assert(c1 + c2 =~= c2);
    } else {
        assert((c1 + c2)[0] == c1[0]);
        match exec_instr(c1[0], s, defs, fuel) {
            MRun::Next(s2) => {
                assert((c1 + c2).skip(1) =~= c1.skip(1) + c2);
                lemma_run_append(c1.skip(1), c2, s2, defs, fuel);
            },
            MRun::Stop(_) => {},
        }
    }
}

/// Running a single instruction.
pub proof fn lemma_run_one(i: Instr, s: MState, defs: FnTable, fuel: nat)
    ensures
        run_code(seq![i], s, defs, fuel) == match exec_instr(i, s, defs, fuel) {
            MRun::Next(s1) => MRun::Next(s1),
            MRun::Stop(err) => MRun::Stop(err),
        },
{
    reveal_with_fuel(run_code, 3);
    let code = seq![i];
    assert(code[0] == i);
    match exec_instr(i, s, defs, fuel) {
        MRun::Next(s1) => {
            assert(code.skip(1) =~= Seq::<Instr>::empty());
        },
        MRun::Stop(_) => {},
    }
}

/// Running a pair of instructions.
pub proof fn lemma_run_two(i1: Instr, i2: Instr, s: MState, defs: FnTable, fuel: nat)
    ensures
        run_code(seq![i1, i2], s, defs, fuel) == match exec_instr(i1, s, defs, fuel) {
            MRun::Next(s1) => match exec_instr(i2, s1, defs, fuel) {
                MRun::Next(s2) => MRun::Next(s2),
                MRun::Stop(err) => MRun::Stop(err),
            },
            MRun::Stop(err) => MRun::Stop(err),
        },
{
    reveal_with_fuel(run_code, 3);
    let code = seq![i1, i2];
    assert(code[0] == i1);
    match exec_instr(i1, s, defs, fuel) {
        MRun::Next(s1) => {
            assert(code.skip(1) =~= seq![i2]);
            lemma_run_one(i2, s1, defs, fuel);
        },
        MRun::Stop(_) => {},
    }
}

/// Running a triple of instructions.
pub proof fn lemma_run_three(i1: Instr, i2: Instr, i3: Instr, s: MState, defs: FnTable, fuel: nat)
    ensures
        run_code(seq![i1, i2, i3], s, defs, fuel) == match exec_instr(i1, s, defs, fuel) {
            MRun::Next(s1) => match exec_instr(i2, s1, defs, fuel) {
                MRun::Next(s2) => match exec_instr(i3, s2, defs, fuel) {
                    MRun::Next(s3) => MRun::Next(s3),
                    MRun::Stop(err) => MRun::Stop(err),
                },
                MRun::Stop(err) => MRun::Stop(err),
            },
            MRun::Stop(err) => MRun::Stop(err),
        },
{
    reveal_with_fuel(run_code, 3);
    let code = seq![i1, i2, i3];
    assert(code[0] == i1);
    match exec_instr(i1, s, defs, fuel) {
        MRun::Next(s1) => {
            assert(code.skip(1) =~= seq![i2, i3]);
            lemma_run_two(i2, i3, s1, defs, fuel);
        },
        MRun::Stop(_) => {},
    }
}

/// The index a register occupies in the virtual machine's register file.
pub open spec fn reg_idx(r: Reg) -> int {
    match r {
        Reg::Rax => 0,
        Reg::Rbx => 1,
        Reg::Rcx => 2,
        Reg::Rdx => 3,
        Reg::R8 => 4,
        Reg::R9 => 5,
        Reg::R10 => 6,
        Reg::R11 => 7,
        Reg::R12 => 8,
        Reg::R13 => 9,
        Reg::R14 => 10,
        Reg::R15 => 11,
    }
}

/// Distinct registers occupy distinct indexes.
pub proof fn lemma_reg_idx_distinct(r1: Reg, r2: Reg)
    ensures
        (reg_idx(r1) == reg_idx(r2)) == (r1 == r2),
{
}

/// The executable index of a register.
pub fn reg_index(r: Reg) -> (i: usize)
    ensures
        i as int == reg_idx(r),
        i < 12,
{
    match r {
        Reg::Rax => 0,
        Reg::Rbx => 1,
        Reg::Rcx => 2,
        Reg::Rdx => 3,
        Reg::R8 => 4,
        Reg::R9 => 5,
        Reg::R10 => 6,
        Reg::R11 => 7,
        Reg::R12 => 8,
        Reg::R13 => 9,
        Reg::R14 => 10,
        Reg::R15 => 11,
    }
}

/// The abstract state a register file and flags cell stand for.
pub open spec fn vm_view(regs: Seq<i32>, flags: Option<(i32, i32)>) -> MState {
    MState { regs: Map::new(|r: Reg| true, |r: Reg| regs[reg_idx(r)]), flags }
}

} // verus!
