//! The compiled backend: a code repository owning the artifacts, and the
//! facade that turns queries into compiled callables.

use vstd::prelude::*;

use crate::ast::{
    Expr, FunctionDef, dedup_first, lemma_dedup_first_head, lemma_dedup_first_single, vars_seq,
};
use crate::code_repository::{CodeRepository, def_compilable};
use crate::compiler::{CompilationContext, CompileError, Runable, alloc_count, runable_wf};
use crate::machine::Instr;
use crate::semantics::{DefSem, FnTable, def_sem_of};

verus! {

/// The binding a query's code expects: its first used variable in
/// first-occurrence order goes to the parameter register.
pub open spec fn query_param(e: Expr) -> Option<Seq<char>> {
    if vars_seq(e).len() > 0 {
        Some(vars_seq(e)[0])
    } else {
        None
    }
}

/// Whether a query can be compiled: one calling convention gives one
/// parameter register, so at most one distinct variable; and the scratch
/// pool must seat every allocating node.
pub open spec fn query_compilable(e: Expr) -> bool {
    dedup_first(vars_seq(e)).len() <= 1 && alloc_count(e) <= 9
}

/// The compiled backend.
pub struct CompiledExecutor {
    pub code_repository: CodeRepository,
}

impl CompiledExecutor {
    /// The repository invariant carries over.
    pub open spec fn wf(&self) -> bool {
        self.code_repository.wf()
    }

    /// The definitions this backend realises.
    pub open spec fn fn_table(&self) -> FnTable {
        self.code_repository.fn_table()
    }

    /// A fresh backend with an empty repository.
    pub fn new() -> (r: CompiledExecutor)
        ensures
            r.wf(),
            r.fn_table() =~= Map::<Seq<char>, DefSem>::empty(),
            r.code_repository.graveyard@.len() == 0,
    {
        CompiledExecutor { code_repository: CodeRepository::new() }
    }

    /// The names of every installed function.
    pub fn list_functions(&self) -> (r: Vec<String>)
        requires
            self.wf(),
        ensures
            r@.len() == self.code_repository.code@.len(),
            forall|i: int| 0 <= i < r@.len() ==> (#[trigger] r@[i])@
                == self.code_repository.code@[i].0@,
    {
        self.code_repository.list_functions()
    }

    /// The instruction listing installed for `name`, if any: finished
    /// code, an empty listing for a stub, nothing for an unknown name.
    pub fn print_code(&self, name: &String) -> (r: Option<Vec<Instr>>)
        requires
            self.wf(),
        ensures
            (match crate::table::spec_lookup(self.code_repository.code@, name@) {
                None => r is None,
                Some(art) => r matches Some(listing) && (match art {
                    Runable::Code { code, .. } => listing@ == code@,
                    Runable::Stub { .. } => listing@.len() == 0,
                }),
            }),
    {
        self.code_repository.print_code(name)
    }

    /// Installs a definition: a stub now, real code on first call.
    pub fn handle_function_def(&mut self, func_def: FunctionDef) -> (r: Result<(), CompileError>)
        requires
            old(self).wf(),
        ensures
            final(self).wf(),
            r is Ok,
            old(self).code_repository.graveyard@.is_prefix_of(
                final(self).code_repository.graveyard@,
            ),
            final(self).fn_table() == (if def_compilable(def_sem_of(func_def)) {
                old(self).fn_table().insert(func_def.name@, def_sem_of(func_def))
            } else {
                old(self).fn_table().remove(func_def.name@)
            }),
    {
        self.code_repository.add_placeholder(func_def)
    }

    /// Compiles a query into a callable artifact with its used variables
    /// bound, the first to the parameter register.  Compilation succeeds
    /// exactly when the query has at most one distinct variable and the
    /// scratch pool suffices; the artifact then computes the reference
    /// semantics of the query on every input, under every table of
    /// definitions in force when it runs.
    pub fn get_query_runable(&mut self, query: Expr) -> (r: Result<Runable, CompileError>)
        requires
            old(self).wf(),
        ensures
            *final(self) == *old(self),
            r is Ok <==> query_compilable(query),
            (match r {
                Result::Ok(run) => run is Code && runable_wf(run) && (run->Code_src)@ == (DefSem {
                    param: query_param(query),
                    body: query,
                }),
                Result::Err(err) => {
                    ||| err == CompileError::OutOfParameterRegisters && dedup_first(
                        vars_seq(query),
                    ).len() >= 2
                    ||| err == CompileError::OutOfRegisters && alloc_count(query) > 9
                },
            }),
    {
        let used_vars = query.used_variables();
        proof {
            lemma_dedup_first_head(vars_seq(query));
            lemma_dedup_first_single(vars_seq(query));
        }
        let mut ctx = CompilationContext::new();
        if used_vars.len() >= 2 {
            return Result::Err(CompileError::OutOfParameterRegisters);
        }
        if used_vars.len() == 1 {
            let first = used_vars[0].clone();
            proof {
                assert(first@ == used_vars.deep_view()[0]);
                assert(first@ == vars_seq(query)[0]);
            }
            match ctx.assign_register_to_variable(first) {
                Result::Ok(_) => {},
                Result::Err(_) => {
                    proof {
                        assert(false);
                    }
                },
            }
        }
        let ghost ctx0 = ctx;
        proof {
            assert(ctx0.binding_name() == query_param(query));
            assert(ctx0.available_registers@.len() == 9);
            assert(crate::compiler::vars_bound(query, ctx0) == (dedup_first(
                vars_seq(query),
            ).len() <= 1)) by {
                if vars_seq(query).len() == 0 {
                    assert(crate::compiler::vars_bound(query, ctx0)) by {
                        assert forall|n: Seq<char>|
                            vars_seq(query).contains(n) implies crate::compiler::name_bound(
                            ctx0,
                            n,
                        ) by {}
                    }
                } else {
                    if dedup_first(vars_seq(query)).len() <= 1 {
                        assert(crate::compiler::vars_bound(query, ctx0)) by {
                            assert forall|n: Seq<char>|
                                vars_seq(query).contains(n) implies crate::compiler::name_bound(
                                ctx0,
                                n,
                            ) by {
                                let i = choose|i: int|
                                    0 <= i < vars_seq(query).len() && vars_seq(query)[i] == n;
                                assert(vars_seq(query)[i] == vars_seq(query)[0]);
                            }
                        }
                    }
                    if crate::compiler::vars_bound(query, ctx0) {
                        assert forall|i: int| 0 <= i < vars_seq(query).len() implies
                            #[trigger] vars_seq(query)[i] == vars_seq(query)[0] by {
                            assert(vars_seq(query).contains(vars_seq(query)[i]));
                            assert(crate::compiler::name_bound(ctx0, vars_seq(query)[i]));
                        }
                    }
                }
            }
        }
        ctx.compile(&query)
    }

    /// Removes the named function from the repository; its artifact goes
    /// to the graveyard and later calls to it yield 0.
    pub fn delete(&mut self, name: &String)
        requires
            old(self).wf(),
        ensures
            final(self).wf(),
            old(self).code_repository.graveyard@.is_prefix_of(
                final(self).code_repository.graveyard@,
            ),
            final(self).fn_table() == old(self).fn_table().remove(name@),
    {
        self.code_repository.delete(name)
    }
}

} // verus!
