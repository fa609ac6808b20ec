//! The code repository: owner of compiled artifacts and pending function
//! bodies, and host of the graveyard that keeps displaced code alive.
//!
//! The repository maintains the safety discipline for live-patching code
//! that is on the call stack: a superseded artifact is never dropped
//! during a session, only appended to the graveyard, so an instruction
//! pointer parked inside a stub stays on mapped code until the process
//! ends.  Every mutating operation below states that the graveyard only
//! grows.

use vstd::prelude::*;

use crate::ast::{Expr, FunctionDef, vars_seq};
use crate::compiler::{
    CompilationContext, CompileError, Runable, alloc_count, clone_code, implements_def,
    runable_wf,
};
use crate::semantics::{
    DefSem, EvalErr, FnTable, bind_param, call_spec, def_sem_of, eval_expr_spec, exec_wrap_div,
    exec_wrap_rem, wrap_div, wrap_rem,
};
use crate::machine::{
    Cond, Instr, MRun, MState, Reg, exec_instr, init_state, lemma_reg_idx_distinct, prog_result,
    reg_index, run_code, vm_view,
};
use crate::table::{
    find_index, has_key, keys_unique, lemma_lookup_at, spec_lookup, table_insert, table_remove,
};

verus! {

/// Whether a definition's body can be compiled: every variable it uses is
/// the declared parameter, and the scratch pool can seat its allocating
/// nodes.
pub open spec fn def_compilable(d: DefSem) -> bool {
    &&& forall|n: Seq<char>| vars_seq(d.body).contains(n) ==> d.param == Some(n)
    &&& alloc_count(d.body) <= 9
}

/// The code repository.
///
/// `code` maps a function name to its installed artifact; `ast` holds the
/// pending body of every function whose stub has not been called yet;
/// `graveyard` is the append-only resting place of superseded artifacts.
pub struct CodeRepository {
    pub code: Vec<(String, Runable)>,
    pub ast: Vec<(String, FunctionDef)>,
    pub graveyard: Vec<Runable>,
}

impl CodeRepository {
    /// The repository invariant.  For every name, exactly one of
    /// {pending body in `ast`, compiled body only} holds, and `code`
    /// carries an entry while either does: a pending name is installed as
    /// a stub carrying that name, and a compiled name carries finished
    /// code that provably implements its recorded definition.
    pub open spec fn wf(&self) -> bool {
        &&& keys_unique(self.code@)
        &&& keys_unique(self.ast@)
        &&& forall|i: int|
            0 <= i < self.ast@.len() ==> (spec_lookup(self.code@, (#[trigger] self.ast@[i]).0@)
                matches Some(Runable::Stub { name }) && name@ == self.ast@[i].0@)
        &&& forall|i: int|
            0 <= i < self.code@.len() ==> match (#[trigger] self.code@[i]).1 {
                Runable::Stub { name } => name@ == self.code@[i].0@ && has_key(
                    self.ast@,
                    self.code@[i].0@,
                ),
                Runable::Code { code, src } => implements_def(code@, src@) && !has_key(
                    self.ast@,
                    self.code@[i].0@,
                ),
            }
    }

    /// The definition a name stands for, as the trampoline will resolve
    /// it: a compiled artifact's recorded source, or a pending definition
    /// if its body will compile.  A pending definition that cannot
    /// compile resolves to nothing — its first call removes it and
    /// returns 0, exactly as an unknown name does.
    pub open spec fn def_of(&self, n: Seq<char>) -> Option<DefSem> {
        match spec_lookup(self.code@, n) {
            None => None,
            Some(art) => match art {
                Runable::Stub { .. } => match spec_lookup(self.ast@, n) {
                    Some(d) => if def_compilable(def_sem_of(d)) {
                        Some(def_sem_of(d))
                    } else {
                        None
                    },
                    None => None,
                },
                Runable::Code { src, .. } => Some(src@),
            },
        }
    }

    /// The table of definitions the repository realises.
    pub open spec fn fn_table(&self) -> FnTable {
        Map::new(|n: Seq<char>| self.def_of(n) is Some, |n: Seq<char>| self.def_of(n)->Some_0)
    }

    /// A fresh, empty repository.
    pub fn new() -> (r: CodeRepository)
        ensures
            r.wf(),
            r.fn_table() =~= Map::<Seq<char>, DefSem>::empty(),
            r.graveyard@.len() == 0,
    {
        let r = CodeRepository { code: Vec::new(), ast: Vec::new(), graveyard: Vec::new() };
        proof {
            assert forall|n: Seq<char>| !has_key(r.code@, n) by {}
            assert(r.fn_table() =~= Map::<Seq<char>, DefSem>::empty());
        }
        r
    }

    /// The artifact currently installed for `name`, if any.
    pub fn get_fn(&self, name: &String) -> (r: Option<&Runable>)
        requires
            self.wf(),
        ensures
            (match r {
                Some(art) => spec_lookup(self.code@, name@) == Some(*art),
                None => spec_lookup(self.code@, name@) is None,
            }),
    {
        match find_index(&self.code, name) {
            Some(i) => {
                proof {
                    lemma_lookup_at(self.code@, name@, i as int);
                }
                Some(&self.code[i].1)
            },
            None => None,
        }
    }

    /// Removes and returns the pending definition of `name`; the caller
    /// is in the middle of lazy compilation and must restore the
    /// invariant by replacing the installed stub.
    pub fn pop_ast(&mut self, name: &String) -> (r: Option<FunctionDef>)
        requires
            keys_unique(old(self).ast@),
        ensures
            keys_unique(final(self).ast@),
            final(self).code == old(self).code,
            final(self).graveyard == old(self).graveyard,
            r == spec_lookup(old(self).ast@, name@),
            forall|n: Seq<char>| #![trigger spec_lookup(final(self).ast@, n)]
                spec_lookup(final(self).ast@, n) == (if n == name@ {
                    None::<FunctionDef>
                } else {
                    spec_lookup(old(self).ast@, n)
                }),
    {
        table_remove(&mut self.ast, name)
    }

    /// The instruction listing installed for `name`: finished code, an
    /// empty listing for a stub, or nothing for an unknown name.
    pub fn print_code(&self, name: &String) -> (r: Option<Vec<Instr>>)
        requires
            self.wf(),
        ensures
            (match spec_lookup(self.code@, name@) {
                None => r is None,
                Some(art) => r matches Some(listing) && (match art {
                    Runable::Code { code, .. } => listing@ == code@,
                    Runable::Stub { .. } => listing@.len() == 0,
                }),
            }),
    {
        match self.get_fn(name) {
            Some(art) => Some(art.print()),
            None => None,
        }
    }

    /// The names of every installed function.
    pub fn list_functions(&self) -> (r: Vec<String>)
        requires
            self.wf(),
        ensures
            r@.len() == self.code@.len(),
            forall|i: int| 0 <= i < r@.len() ==> (#[trigger] r@[i])@ == self.code@[i].0@,
    {
        let mut out: Vec<String> = Vec::new();
        let mut i: usize = 0;
        while i < self.code.len()
            invariant
                i <= self.code@.len(),
                out@.len() == i,
                forall|j: int| 0 <= j < i ==> (#[trigger] out@[j])@ == self.code@[j].0@,
            decreases self.code@.len() - i,
        {
            out.push(self.code[i].0.clone());
            i += 1;
        }
        out
    }
}


/// Establishes the repository invariant after a change confined to one
/// name: all other lookups are unchanged, and the entry for the changed
/// name is itself consistent.
proof fn lemma_wf_update(pre: CodeRepository, post: CodeRepository, name: Seq<char>)
    requires
        pre.wf(),
        keys_unique(post.code@),
        keys_unique(post.ast@),
        forall|n: Seq<char>| n != name ==> #[trigger] spec_lookup(post.code@, n) == spec_lookup(
            pre.code@,
            n,
        ),
        forall|n: Seq<char>| n != name ==> #[trigger] spec_lookup(post.ast@, n) == spec_lookup(
            pre.ast@,
            n,
        ),
        (match spec_lookup(post.code@, name) {
            None => spec_lookup(post.ast@, name) is None,
            Some(art) => match art {
                Runable::Stub { name: sn } => sn@ == name && spec_lookup(post.ast@, name) is Some,
                Runable::Code { code, src } => implements_def(code@, src@) && spec_lookup(
                    post.ast@,
                    name,
                ) is None,
            },
        }),
    ensures
        post.wf(),
{
    assert forall|i: int| 0 <= i < post.ast@.len() implies (spec_lookup(
        post.code@,
        (#[trigger] post.ast@[i]).0@,
    ) matches Some(Runable::Stub { name: sn }) && sn@ == post.ast@[i].0@) by {
        let k = post.ast@[i].0@;
        lemma_lookup_at(post.ast@, k, i);
        if k != name {
            assert(spec_lookup(post.ast@, k) == spec_lookup(pre.ast@, k));
            assert(spec_lookup(pre.ast@, k) is Some);
            let j = choose|j: int| 0 <= j < pre.ast@.len() && pre.ast@[j].0@ == k;
            assert((spec_lookup(pre.code@, (#[trigger] pre.ast@[j]).0@) matches Some(
                Runable::Stub { name: sn },
            ) && sn@ == pre.ast@[j].0@));
            assert(spec_lookup(post.code@, k) == spec_lookup(pre.code@, k));
        }
    }
    assert forall|i: int| 0 <= i < post.code@.len() implies (match (#[trigger] post.code@[i]).1 {
        Runable::Stub { name: sn } => sn@ == post.code@[i].0@ && has_key(
            post.ast@,
            post.code@[i].0@,
        ),
        Runable::Code { code, src } => implements_def(code@, src@) && !has_key(
            post.ast@,
            post.code@[i].0@,
        ),
    }) by {
        let k = post.code@[i].0@;
        lemma_lookup_at(post.code@, k, i);
        assert((has_key(post.ast@, k)) == (spec_lookup(post.ast@, k) is Some));
        if k != name {
            assert(spec_lookup(post.code@, k) == spec_lookup(pre.code@, k));
            assert(spec_lookup(pre.code@, k) == Some(post.code@[i].1));
            let j = choose|j: int| 0 <= j < pre.code@.len() && pre.code@[j].0@ == k;
            lemma_lookup_at(pre.code@, k, j);
            assert((has_key(pre.ast@, k)) == (spec_lookup(pre.ast@, k) is Some));
            assert(spec_lookup(post.ast@, k) == spec_lookup(pre.ast@, k));
        }
    }
}

/// A sequence is a prefix of itself extended by a push.
proof fn lemma_prefix_push(a: Seq<Runable>, x: Runable)
    ensures
        a.is_prefix_of(a.push(x)),
{
    assert(a =~= a.push(x).take(a.len() as int));
}

/// Prefix order on graveyards composes.
proof fn lemma_prefix_trans(a: Seq<Runable>, b: Seq<Runable>, c: Seq<Runable>)
    requires
        a.is_prefix_of(b),
        b.is_prefix_of(c),
    ensures
        a.is_prefix_of(c),
{
    assert(a =~= c.take(a.len() as int)) by {
        assert forall|i: int| 0 <= i < a.len() implies a[i] == c[i] by {
            assert(b.take(a.len() as int)[i] == b[i]);
            assert(c.take(b.len() as int)[i] == c[i]);
        }
    }
}

impl CodeRepository {
    /// Emits a stub for `def.name`, stores the definition as pending, and
    /// installs the stub; a displaced artifact goes to the graveyard.
    ///
    /// The realised table afterwards holds the new definition under its
    /// name if its body will compile; a definition that cannot compile
    /// resolves to nothing, so calls to it will return 0.
    pub fn add_placeholder(&mut self, function_def: FunctionDef) -> (r: Result<(), CompileError>)
        requires
            old(self).wf(),
        ensures
            final(self).wf(),
            r is Ok,
            old(self).graveyard@.is_prefix_of(final(self).graveyard@),
            final(self).fn_table() == (if def_compilable(def_sem_of(function_def)) {
                old(self).fn_table().insert(function_def.name@, def_sem_of(function_def))
            } else {
                old(self).fn_table().remove(function_def.name@)
            }),
    {
        let ghost pre = *self;
        let ghost def = function_def;
        let ghost nm = function_def.name@;
        let name_code = function_def.name.clone();
        let name_ast = function_def.name.clone();
        let stub = Runable::Stub { name: function_def.name.clone() };
        let displaced = table_insert(&mut self.code, name_code, stub);
        match displaced {
            Some(art) => {
                self.graveyard.push(art);
                proof {
                    lemma_prefix_push(pre.graveyard@, art);
                }
            },
            None => {
                proof {
                    assert(pre.graveyard@ =~= self.graveyard@.take(pre.graveyard@.len() as int));
                }
            },
        }
        let _ = table_insert(&mut self.ast, name_ast, function_def);
        proof {
            lemma_wf_update(pre, *self, nm);
            assert(self.fn_table() =~= (if def_compilable(def_sem_of(def)) {
                pre.fn_table().insert(nm, def_sem_of(def))
            } else {
                pre.fn_table().remove(nm)
            })) by {
                assert forall|n: Seq<char>| n != nm implies #[trigger] self.def_of(n)
                    == pre.def_of(n) by {
                    assert(spec_lookup(self.code@, n) == spec_lookup(pre.code@, n));
                    assert(spec_lookup(self.ast@, n) == spec_lookup(pre.ast@, n));
                }
                assert(spec_lookup(self.code@, nm) is Some);
                assert(spec_lookup(self.ast@, nm) == Some(def));
            }
        }
        Result::Ok(())
    }

    /// Removes the named function entirely: its pending body and its
    /// installed artifact, which is parked in the graveyard.  Every
    /// subsequent call to the name resolves through the trampoline's
    /// unknown-name path and yields 0.
    pub fn delete(&mut self, name: &String)
        requires
            old(self).wf(),
        ensures
            final(self).wf(),
            old(self).graveyard@.is_prefix_of(final(self).graveyard@),
            final(self).fn_table() == old(self).fn_table().remove(name@),
            forall|arg: i32, fuel: nat|
                #[trigger] call_spec(final(self).fn_table(), name@, arg, fuel) == Result::<
                    i32,
                    EvalErr,
                >::Ok(0),
    {
        let ghost pre = *self;
        let _ = table_remove(&mut self.ast, name);
        let removed = table_remove(&mut self.code, name);
        match removed {
            Some(art) => {
                self.graveyard.push(art);
                proof {
                    lemma_prefix_push(pre.graveyard@, art);
                }
            },
            None => {
                proof {
                    assert(pre.graveyard@ =~= self.graveyard@.take(pre.graveyard@.len() as int));
                }
            },
        }
        proof {
            lemma_wf_update(pre, *self, name@);
            assert(self.fn_table() =~= pre.fn_table().remove(name@)) by {
                assert forall|n: Seq<char>| n != name@ implies #[trigger] self.def_of(n)
                    == pre.def_of(n) by {
                    assert(spec_lookup(self.code@, n) == spec_lookup(pre.code@, n));
                    assert(spec_lookup(self.ast@, n) == spec_lookup(pre.ast@, n));
                }
                assert(spec_lookup(self.code@, name@) is None);
            }
            assert(!self.fn_table().dom().contains(name@));
        }
    }
}

/// One step of `run_code`, unfolded at position `i`.
proof fn lemma_vm_step(code: Seq<Instr>, i: int, s: MState, defs: FnTable, fuel: nat)
    requires
        0 <= i < code.len(),
    ensures
        run_code(code.skip(i), s, defs, fuel) == (match exec_instr(code[i], s, defs, fuel) {
            MRun::Next(s2) => run_code(code.skip(i + 1), s2, defs, fuel),
            MRun::Stop(err) => MRun::Stop(err),
        }),
{
    assert(code.skip(i)[0] == code[i]);
    assert(code.skip(i).skip(1) =~= code.skip(i + 1));
}

/// Runs an instruction listing on the virtual machine from the standard
/// entry state: the argument in register C, every other register zero.
///
/// Calls resolve through [`call_function`] against the repository as it
/// stands when each call instruction is reached; lazy compilation may
/// grow the repository's graveyard but never changes the table of
/// definitions it realises.
#[verifier::rlimit(100)]
pub fn run_instructions(repo: &mut CodeRepository, code: &Vec<Instr>, arg: i32, fuel: u64) -> (r:
    Result<i32, EvalErr>)
    requires
        old(repo).wf(),
    ensures
        final(repo).wf(),
        final(repo).fn_table() == old(repo).fn_table(),
        old(repo).graveyard@.is_prefix_of(final(repo).graveyard@),
        r == prog_result(code@, arg, old(repo).fn_table(), fuel as nat),
    decreases fuel, 2nat,
{
    let ghost view0 = repo.fn_table();
    let ghost grave0 = repo.graveyard@;
    let mut regs: Vec<i32> = Vec::new();
    let mut k: usize = 0;
    while k < 12
        invariant
            regs@.len() == k,
            k <= 12,
            forall|j: int| 0 <= j < k ==> regs@[j] == 0i32,
        decreases 12 - k,
    {
        regs.push(0);
        k += 1;
    }
    let mut flags: Option<(i32, i32)> = None;
    regs.set(reg_index(Reg::Rcx), arg);
    proof {
        assert(vm_view(regs@, flags) =~~= init_state(arg)) by {
            assert(vm_view(regs@, flags).regs =~= init_state(arg).regs) by {
                assert forall|q: Reg| vm_view(regs@, flags).regs[q] == init_state(arg).regs[q] by {
                    lemma_reg_idx_distinct(q, Reg::Rcx);
                }
            }
        }
        assert(grave0 =~= repo.graveyard@.take(grave0.len() as int));
        assert(code@.skip(0) =~= code@);
    }
    let mut i: usize = 0;
    while i < code.len()
        invariant
            regs@.len() == 12,
            i <= code@.len(),
            repo.wf(),
            repo.fn_table() == view0,
            view0 == old(repo).fn_table(),
            grave0.is_prefix_of(repo.graveyard@),
            grave0 == old(repo).graveyard@,
            run_code(code@, init_state(arg), view0, fuel as nat) == run_code(
                code@.skip(i as int),
                vm_view(regs@, flags),
                view0,
                fuel as nat,
            ),
        decreases code@.len() - i,
    {
        let ghost cur = vm_view(regs@, flags);
        let ghost instr = code@[i as int];
        proof {
            lemma_vm_step(code@, i as int, cur, view0, fuel as nat);
        }
        match &code[i] {
            Instr::MovImm(d, n) => {
                regs.set(reg_index(*d), *n);
                proof {
                    assert(vm_view(regs@, flags) =~~= exec_instr(instr, cur, view0,
                        fuel as nat)->Next_0) by {
                        assert forall|q: Reg|
                            vm_view(regs@, flags).regs[q] == cur.regs.insert(*d, *n)[q] by {
                            lemma_reg_idx_distinct(q, *d);
                        }
                        assert(vm_view(regs@, flags).regs =~= cur.regs.insert(*d, *n));
                    }
                }
            },
            Instr::MovReg(d, s) => {
                let v = regs[reg_index(*s)];
                regs.set(reg_index(*d), v);
                proof {
                    assert(vm_view(regs@, flags) =~~= exec_instr(instr, cur, view0,
                        fuel as nat)->Next_0) by {
                        assert forall|q: Reg|
                            vm_view(regs@, flags).regs[q] == cur.regs.insert(*d, cur.regs[*s])[q]
                            by {
                            lemma_reg_idx_distinct(q, *d);
                        }
                        assert(vm_view(regs@, flags).regs =~= cur.regs.insert(*d, cur.regs[*s]));
                    }
                }
            },
            Instr::AddReg(d, s) => {
                let v = regs[reg_index(*d)].wrapping_add(regs[reg_index(*s)]);
                regs.set(reg_index(*d), v);
                proof {
                    assert(vm_view(regs@, flags) =~~= exec_instr(instr, cur, view0,
                        fuel as nat)->Next_0) by {
                        assert forall|q: Reg|
                            vm_view(regs@, flags).regs[q] == cur.regs.insert(
                                *d,
                                cur.regs[*d].wrapping_add(cur.regs[*s]),
                            )[q] by {
                            lemma_reg_idx_distinct(q, *d);
                        }
                        assert(vm_view(regs@, flags).regs =~= cur.regs.insert(
                            *d,
                            cur.regs[*d].wrapping_add(cur.regs[*s]),
                        ));
                    }
                }
            },
            Instr::SubReg(d, s) => {
                let v = regs[reg_index(*d)].wrapping_sub(regs[reg_index(*s)]);
                regs.set(reg_index(*d), v);
                proof {
                    assert(vm_view(regs@, flags) =~~= exec_instr(instr, cur, view0,
                        fuel as nat)->Next_0) by {
                        assert forall|q: Reg|
                            vm_view(regs@, flags).regs[q] == cur.regs.insert(
                                *d,
                                cur.regs[*d].wrapping_sub(cur.regs[*s]),
                            )[q] by {
                            lemma_reg_idx_distinct(q, *d);
                        }
                        assert(vm_view(regs@, flags).regs =~= cur.regs.insert(
                            *d,
                            cur.regs[*d].wrapping_sub(cur.regs[*s]),
                        ));
                    }
                }
            },
            Instr::MulReg(s) => {
                let v = regs[reg_index(Reg::Rax)].wrapping_mul(regs[reg_index(*s)]);
                regs.set(reg_index(Reg::Rax), v);
                regs.set(reg_index(Reg::Rdx), 0);
                proof {
                    let target = cur.regs.insert(
                        Reg::Rax,
                        cur.regs[Reg::Rax].wrapping_mul(cur.regs[*s]),
                    ).insert(Reg::Rdx, 0);
                    assert(vm_view(regs@, flags) =~~= exec_instr(instr, cur, view0,
                        fuel as nat)->Next_0) by {
                        assert forall|q: Reg| vm_view(regs@, flags).regs[q] == target[q] by {
                            lemma_reg_idx_distinct(q, Reg::Rax);
                            lemma_reg_idx_distinct(q, Reg::Rdx);
                        }
                        assert(vm_view(regs@, flags).regs =~= target);
                    }
                }
            },
            Instr::DivReg(s) => {
                let y = regs[reg_index(*s)];
                if y == 0 {
                    proof {
                        assert(run_code(code@, init_state(arg), view0, fuel as nat) == MRun::Stop(
                            EvalErr::DivisionByZero,
                        ));
                    }
                    return Result::Err(EvalErr::DivisionByZero);
                }
                let x = regs[reg_index(Reg::Rax)];
                regs.set(reg_index(Reg::Rax), exec_wrap_div(x, y));
                regs.set(reg_index(Reg::Rdx), exec_wrap_rem(x, y));
                proof {
                    let target = cur.regs.insert(
                        Reg::Rax,
                        wrap_div(cur.regs[Reg::Rax], cur.regs[*s]),
                    ).insert(Reg::Rdx, wrap_rem(cur.regs[Reg::Rax], cur.regs[*s]));
                    assert(vm_view(regs@, flags) =~~= exec_instr(instr, cur, view0,
                        fuel as nat)->Next_0) by {
                        assert forall|q: Reg| vm_view(regs@, flags).regs[q] == target[q] by {
                            lemma_reg_idx_distinct(q, Reg::Rax);
                            lemma_reg_idx_distinct(q, Reg::Rdx);
                        }
                        assert(vm_view(regs@, flags).regs =~= target);
                    }
                }
            },
            Instr::CmpReg(a, b) => {
                flags = Some((regs[reg_index(*a)], regs[reg_index(*b)]));
                proof {
                    assert(vm_view(regs@, flags) =~~= exec_instr(instr, cur, view0,
                        fuel as nat)->Next_0) by {
                        assert(vm_view(regs@, flags).regs =~= cur.regs);
                    }
                }
            },
            Instr::SetCond(c) => {
                let v: i32 = match flags {
                    Some(f) => {
                        let holds = match c {
                            Cond::CondEq => f.0 == f.1,
                            Cond::CondNe => f.0 != f.1,
                            Cond::CondGt => f.0 > f.1,
                            Cond::CondLt => f.0 < f.1,
                            Cond::CondGe => f.0 >= f.1,
                            Cond::CondLe => f.0 <= f.1,
                        };
                        if holds {
                            1
                        } else {
                            0
                        }
                    },
                    None => 0,
                };
                regs.set(reg_index(Reg::Rax), v);
                proof {
                    assert(vm_view(regs@, flags) =~~= exec_instr(instr, cur, view0,
                        fuel as nat)->Next_0) by {
                        assert forall|q: Reg|
                            vm_view(regs@, flags).regs[q] == cur.regs.insert(Reg::Rax, v)[q] by {
                            lemma_reg_idx_distinct(q, Reg::Rax);
                        }
                        assert(vm_view(regs@, flags).regs =~= cur.regs.insert(Reg::Rax, v));
                    }
                }
            },
            Instr::CallFn(name, src) => {
                let a = regs[reg_index(*src)];
                let ghost repo_before = *repo;
                let res = call_function(repo, name, a, fuel);
                proof {
                    lemma_prefix_trans(grave0, repo_before.graveyard@, repo.graveyard@);
                }
                match res {
                    Result::Err(err) => {
                        proof {
                            assert(run_code(code@, init_state(arg), view0, fuel as nat)
                                == MRun::Stop(err));
                        }
                        return Result::Err(err);
                    },
                    Result::Ok(v) => {
                        regs.set(reg_index(Reg::Rax), v);
                        regs.set(reg_index(Reg::Rdx), 0);
                        flags = None;
                        proof {
                            let target = cur.regs.insert(Reg::Rax, v).insert(Reg::Rdx, 0);
                            assert(vm_view(regs@, flags) =~~= exec_instr(instr, cur, view0,
                                fuel as nat)->Next_0) by {
                                assert forall|q: Reg| vm_view(regs@, flags).regs[q] == target[q]
                                    by {
                                    lemma_reg_idx_distinct(q, Reg::Rax);
                                    lemma_reg_idx_distinct(q, Reg::Rdx);
                                }
                                assert(vm_view(regs@, flags).regs =~= target);
                            }
                        }
                    },
                }
            },
        }
        i += 1;
    }
    proof {
        assert(code@.skip(code@.len() as int) =~= Seq::<Instr>::empty());
        assert(run_code(code@, init_state(arg), view0, fuel as nat) == MRun::Next(
            vm_view(regs@, flags),
        ));
    }
    Result::Ok(regs[reg_index(Reg::Rax)])
}

/// The trampoline helper: resolves `name` in the repository and invokes
/// what it finds.  An unknown name returns 0; a stub triggers lazy
/// compilation; finished code runs on the virtual machine.  Resolution
/// happens at call time, which is what makes redefinition and deletion
/// visible to code compiled earlier.
pub fn call_function(repo: &mut CodeRepository, name: &String, arg: i32, fuel: u64) -> (r: Result<
    i32,
    EvalErr,
>)
    requires
        old(repo).wf(),
    ensures
        final(repo).wf(),
        final(repo).fn_table() == old(repo).fn_table(),
        old(repo).graveyard@.is_prefix_of(final(repo).graveyard@),
        r == call_spec(old(repo).fn_table(), name@, arg, fuel as nat),
    decreases fuel, 1nat,
{
    let ghost pre = *repo;
    let idx = match find_index(&repo.code, name) {
        None => {
            proof {
                assert(pre.graveyard@ =~= repo.graveyard@.take(pre.graveyard@.len() as int));
                assert(pre.def_of(name@) is None);
                assert(!pre.fn_table().dom().contains(name@));
            }
            return Result::Ok(0);
        },
        Some(i) => i,
    };
    proof {
        lemma_lookup_at(repo.code@, name@, idx as int);
    }
    let is_stub = matches!(&repo.code[idx].1, Runable::Stub { .. });
    if is_stub {
        call_compiler(repo, name, arg, fuel)
    } else {
        let ghost art = repo.code@[idx as int].1;
        proof {
            assert(art matches Runable::Code { .. });
            assert(pre.def_of(name@) == Some(art->Code_src@));
            assert(pre.fn_table().dom().contains(name@));
            assert(pre.fn_table()[name@] == art->Code_src@);
            assert(implements_def(art->Code_code@, art->Code_src@));
        }
        if fuel == 0 {
            proof {
                assert(pre.graveyard@ =~= repo.graveyard@.take(pre.graveyard@.len() as int));
            }
            Result::Err(EvalErr::CallDepth)
        } else {
            let body_code = match &repo.code[idx].1 {
                Runable::Code { code, .. } => clone_code(code),
                Runable::Stub { .. } => {
                    proof {
                        assert(false);
                    }
                    Vec::new()
                },
            };
            let res = run_instructions(repo, &body_code, arg, fuel - 1);
            proof {
                let src = art->Code_src@;
                assert(prog_result(body_code@, arg, pre.fn_table(), (fuel - 1) as nat)
                    == eval_expr_spec(src.body, bind_param(src.param, arg), pre.fn_table(), (fuel
                    - 1) as nat));
            }
            res
        }
    }
}

/// The lazy-compile helper, reached when a stub is called for the first
/// time.  It pops the pending definition, compiles it in a fresh context
/// with the declared parameter bound to register C, parks the stub in the
/// graveyard, installs the finished artifact under the same name, and
/// proceeds into the freshly installed code.  On compilation failure the
/// definition is removed entirely and the call returns 0; later calls to
/// the name take the trampoline's unknown-name path.
pub fn call_compiler(repo: &mut CodeRepository, name: &String, arg: i32, fuel: u64) -> (r: Result<
    i32,
    EvalErr,
>)
    requires
        old(repo).wf(),
        spec_lookup(old(repo).code@, name@) matches Some(Runable::Stub { .. }),
    ensures
        final(repo).wf(),
        final(repo).fn_table() == old(repo).fn_table(),
        old(repo).graveyard@.is_prefix_of(final(repo).graveyard@),
        r == call_spec(old(repo).fn_table(), name@, arg, fuel as nat),
    decreases fuel, 0nat,
{
    let ghost pre = *repo;
    proof {
        let j = choose|j: int| 0 <= j < pre.code@.len() && pre.code@[j].0@ == name@;
        lemma_lookup_at(pre.code@, name@, j);
        assert((match (pre.code@[j]).1 {
            Runable::Stub { name: sn } => sn@ == pre.code@[j].0@ && has_key(
                pre.ast@,
                pre.code@[j].0@,
            ),
            Runable::Code { code, src } => implements_def(code@, src@) && !has_key(
                pre.ast@,
                pre.code@[j].0@,
            ),
        }));
        assert(has_key(pre.ast@, name@));
    }
    let def = match repo.pop_ast(name) {
        Some(d) => d,
        None => {
            proof {
                assert(false);
            }
            return Result::Ok(0);
        },
    };
    let ghost dsem = def_sem_of(def);
    let mut ctx = CompilationContext::new();
    match &def.parameter {
        Some(p) => {
            match ctx.assign_register_to_variable(p.clone()) {
                Result::Ok(_) => {},
                Result::Err(_) => {
                    proof {
                        assert(false);
                    }
                },
            }
        },
        None => {},
    }
    let ghost ctx0 = ctx;
    proof {
        assert(ctx0.binding_name() == dsem.param);
        assert(ctx0.available_registers@.len() == 9);
        assert forall|n: Seq<char>|
            crate::compiler::name_bound(ctx0, n) == (dsem.param == Some(n)) by {}
    }
    let compiled = ctx.compile(&def.body);
    proof {
        if compiled is Ok {
            assert(crate::compiler::vars_bound(def.body, ctx0) && crate::compiler::alloc_count(
                def.body,
            ) <= 9);
            assert(def_compilable(dsem)) by {
                assert forall|n: Seq<char>| vars_seq(dsem.body).contains(n) implies dsem.param
                    == Some(n) by {
                    assert(crate::compiler::name_bound(ctx0, n));
                }
            }
        } else {
            assert(!def_compilable(dsem)) by {
                if def_compilable(dsem) {
                    assert(crate::compiler::vars_bound(def.body, ctx0)) by {
                        assert forall|n: Seq<char>|
                            vars_seq(def.body).contains(n) implies crate::compiler::name_bound(
                            ctx0,
                            n,
                        ) by {
                            assert(dsem.param == Some(n));
                        }
                    }
                    assert(compiled is Ok);
                }
            }
        }
    }
    let displaced = table_remove(&mut repo.code, name);
    match displaced {
        Some(art) => {
            repo.graveyard.push(art);
            proof {
                lemma_prefix_push(pre.graveyard@, art);
            }
        },
        None => {
            proof {
                assert(false);
            }
        },
    }
    match compiled {
        Result::Ok(runable) => {
            proof {
                assert(def_compilable(dsem));
                assert(runable_wf(runable));
                assert((runable->Code_src)@ == dsem);
            }
            let body_code = match &runable {
                Runable::Code { code, .. } => clone_code(code),
                Runable::Stub { .. } => {
                    proof {
                        assert(false);
                    }
                    Vec::new()
                },
            };
            let _ = table_insert(&mut repo.code, name.clone(), runable);
            proof {
                lemma_wf_update(pre, *repo, name@);
                assert(repo.fn_table() =~= pre.fn_table()) by {
                    assert forall|n: Seq<char>| n != name@ implies #[trigger] repo.def_of(n)
                        == pre.def_of(n) by {
                        assert(spec_lookup(repo.code@, n) == spec_lookup(pre.code@, n));
                        assert(spec_lookup(repo.ast@, n) == spec_lookup(pre.ast@, n));
                    }
                    assert(pre.def_of(name@) == Some(dsem));
                    assert(repo.def_of(name@) == Some(dsem));
                    assert forall|n: Seq<char>|
                        repo.fn_table().dom().contains(n) == pre.fn_table().dom().contains(n) by {
                        if n != name@ {
                            assert(repo.def_of(n) == pre.def_of(n));
                        }
                    }
                    assert forall|n: Seq<char>|
                        repo.fn_table().dom().contains(n) implies repo.fn_table()[n]
                        == pre.fn_table()[n] by {
                        if n != name@ {
                            assert(repo.def_of(n) == pre.def_of(n));
                        }
                    }
                }
                assert(pre.fn_table().dom().contains(name@));
                assert(pre.fn_table()[name@] == dsem);
            }
            if fuel == 0 {
                Result::Err(EvalErr::CallDepth)
            } else {
                let res = run_instructions(repo, &body_code, arg, fuel - 1);
                proof {
                    assert(prog_result(body_code@, arg, pre.fn_table(), (fuel - 1) as nat)
                        == eval_expr_spec(dsem.body, bind_param(dsem.param, arg), pre.fn_table(), (
                    fuel - 1) as nat));
                    lemma_prefix_trans(pre.graveyard@, pre.graveyard@.push(displaced->Some_0),
                        repo.graveyard@);
                }
                res
            }
        },
        Result::Err(_) => {
            proof {
                assert(!def_compilable(dsem));
                lemma_wf_update(pre, *repo, name@);
                assert(repo.fn_table() =~= pre.fn_table()) by {
                    assert forall|n: Seq<char>| n != name@ implies #[trigger] repo.def_of(n)
                        == pre.def_of(n) by {
                        assert(spec_lookup(repo.code@, n) == spec_lookup(pre.code@, n));
                        assert(spec_lookup(repo.ast@, n) == spec_lookup(pre.ast@, n));
                    }
                    assert(pre.def_of(name@) is None);
                    assert(repo.def_of(name@) is None);
                    assert forall|n: Seq<char>|
                        repo.fn_table().dom().contains(n) == pre.fn_table().dom().contains(n) by {
                        if n != name@ {
                            assert(repo.def_of(n) == pre.def_of(n));
                        }
                    }
                    assert forall|n: Seq<char>|
                        repo.fn_table().dom().contains(n) implies repo.fn_table()[n]
                        == pre.fn_table()[n] by {
                        if n != name@ {
                            assert(repo.def_of(n) == pre.def_of(n));
                        }
                    }
                }
                assert(!pre.fn_table().dom().contains(name@));
            }
            Result::Ok(0)
        },
    }
}

impl Runable {
    /// Invokes finished code with one argument, resolving any calls it
    /// makes through the repository.  When the artifact is well-formed,
    /// the result is exactly the reference semantics of its source
    /// definition with the parameter bound to the argument.
    pub fn call(&self, repo: &mut CodeRepository, arg: i32, fuel: u64) -> (r: Result<i32, EvalErr>)
        requires
            old(repo).wf(),
            self is Code,
        ensures
            final(repo).wf(),
            final(repo).fn_table() == old(repo).fn_table(),
            old(repo).graveyard@.is_prefix_of(final(repo).graveyard@),
            r == prog_result((self->Code_code)@, arg, old(repo).fn_table(), fuel as nat),
            runable_wf(*self) ==> r == eval_expr_spec(
                (self->Code_src)@.body,
                bind_param((self->Code_src)@.param, arg),
                old(repo).fn_table(),
                fuel as nat,
            ),
        decreases fuel, 3nat,
    {
        match self {
            Runable::Code { code, .. } => run_instructions(repo, code, arg, fuel),
            Runable::Stub { .. } => {
                proof {
                    assert(false);
                }
                Result::Ok(0)
            },
        }
    }
}

} // verus!
