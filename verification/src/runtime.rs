//! The runtime: dispatches parsed actions, owns both backends, and drives
//! queries over the input domain selected by the execution mode.

use vstd::prelude::*;

use crate::ast::{Action, Command, Expr, FunctionDef, lemma_dedup_first_head, vars_seq};
use crate::code_repository::def_compilable;
use crate::compiled_executor::{CompiledExecutor, query_compilable, query_param};
use crate::compiler::{CompileError, Runable, runable_wf};
use crate::interpreted_executor::{InterpretationContext, InterpretedExecutor, query_binding};
use crate::machine::Instr;
use crate::parser::{ParseError, parse};
use crate::semantics::{DefSem, EvalErr, FnTable, bind_param, def_sem_of, eval_expr_spec};

verus! {

/// How many nested calls a query may make before the driver reports a
/// call-depth error; the stand-in for the native stack's limit.
pub const QUERY_CALL_DEPTH: u64 = 64;

/// Which backend executes queries.
#[derive(Debug, Clone, Copy, PartialEq, Eq, Structural)]
pub enum ExecutorType {
    Compiled,
    Interpreted,
}

impl ExecutorType {
    /// Reads a backend name; only the two known names are accepted.
    pub fn from(value: &String) -> (r: ExecutorType)
        requires
            value@ == "compiled"@ || value@ == "interpreted"@,
        ensures
            r == (if value@ == "compiled"@ {
                ExecutorType::Compiled
            } else {
                ExecutorType::Interpreted
            }),
    {
        proof {
            reveal_strlit("compiled");
            reveal_strlit("interpreted");
        }
        if value.eq(&"compiled".to_owned()) {
            ExecutorType::Compiled
        } else {
            ExecutorType::Interpreted
        }
    }
}

/// How a query iterates the 32-bit input domain: every value, the five
/// sentinels, or a ten-million-value window around zero.
#[derive(Debug, Clone, Copy, PartialEq, Eq, Structural)]
pub enum ExeuctionMode {
    Proof,
    Fast,
    Benchmark,
}

impl ExeuctionMode {
    /// Reads a mode name; only the three known names are accepted.
    pub fn from(value: &String) -> (r: ExeuctionMode)
        requires
            value@ == "proof"@ || value@ == "fast"@ || value@ == "benchmark"@,
        ensures
            r == (if value@ == "proof"@ {
                ExeuctionMode::Proof
            } else if value@ == "fast"@ {
                ExeuctionMode::Fast
            } else {
                ExeuctionMode::Benchmark
            }),
    {
        proof {
            reveal_strlit("proof");
            reveal_strlit("fast");
            reveal_strlit("benchmark");
        }
        if value.eq(&"proof".to_owned()) {
            ExeuctionMode::Proof
        } else if value.eq(&"fast".to_owned()) {
            ExeuctionMode::Fast
        } else {
            ExeuctionMode::Benchmark
        }
    }
}

/// A compiled or interpreted query callable.
pub enum QueryRunable {
    Compiled(Runable),
    Interpreted(Expr),
}

/// What driving a query over its input range concluded.
#[derive(Debug, Clone, Copy, PartialEq, Eq, Structural)]
pub enum QueryOutcome {
    Holds,
    DoesNotHoldFor(i32),
    Failed(EvalErr),
}

/// What the runtime answers to one action.
#[derive(Debug)]
pub enum Response {
    Defined,
    QueryResult(QueryOutcome),
    Code(Option<Vec<Instr>>),
    Functions(Vec<String>),
    Deleted,
    ModeSwitched(ExeuctionMode),
    ExecutorSwitched(ExecutorType),
    TestResult(Option<i32>),
    BenchmarkResult(QueryOutcome),
}

/// Why one line was rejected.
#[derive(Debug, Clone, Copy, PartialEq, Eq, Structural)]
pub enum RuntimeError {
    Parse(ParseError),
    Compile(CompileError),
    UnknownCommandWord,
}

/// The inputs a query is driven over: a single 0 for a closed query, and
/// otherwise the mode's range in ascending order.
pub open spec fn query_inputs(mode: ExeuctionMode, has_var: bool) -> Seq<i32> {
    if !has_var {
        seq![0i32]
    } else {
        match mode {
            ExeuctionMode::Proof => Seq::new(0x1_0000_0000nat, |i: int| (i - 0x8000_0000) as i32),
            ExeuctionMode::Fast => seq![i32::MIN, (-1) as i32, 0i32, 1i32, i32::MAX],
            ExeuctionMode::Benchmark => Seq::new(10_000_000nat, |i: int| (i - 5_000_000) as i32),
        }
    }
}

/// The verdict of driving query `q` over `inputs` in order: the first
/// input evaluating to 0 is a counterexample, the first evaluation error
/// ends the query, and an exhausted range means the formula holds.
pub open spec fn driver_outcome(q: Expr, inputs: Seq<i32>, defs: FnTable, fuel: nat)
    -> QueryOutcome
    decreases inputs.len(),
{
    if inputs.len() == 0 {
        QueryOutcome::Holds
    } else {
        match eval_expr_spec(q, query_binding(q, inputs[0]), defs, fuel) {
            Result::Ok(v) => if v == 0 {
                QueryOutcome::DoesNotHoldFor(inputs[0])
            } else {
                driver_outcome(q, inputs.skip(1), defs, fuel)
            },
            Result::Err(err) => QueryOutcome::Failed(err),
        }
    }
}

/// One driver step, unfolded at position `k`.
proof fn lemma_driver_step(q: Expr, inputs: Seq<i32>, k: int, defs: FnTable, fuel: nat)
    requires
        0 <= k < inputs.len(),
    ensures
        driver_outcome(q, inputs.skip(k), defs, fuel) == (match eval_expr_spec(
            q,
            query_binding(q, inputs[k]),
            defs,
            fuel,
        ) {
            Result::Ok(v) => if v == 0 {
                QueryOutcome::DoesNotHoldFor(inputs[k])
            } else {
                driver_outcome(q, inputs.skip(k + 1), defs, fuel)
            },
            Result::Err(err) => QueryOutcome::Failed(err),
        }),
{
    assert(inputs.skip(k)[0] == inputs[k]);
    assert(inputs.skip(k).skip(1) =~= inputs.skip(k + 1));
}

/// The first sentinel input on which the two tables disagree about `q`,
/// if any.
pub open spec fn first_disagreement(
    q: Expr,
    inputs: Seq<i32>,
    t1: FnTable,
    t2: FnTable,
    fuel: nat,
) -> Option<i32>
    decreases inputs.len(),
{
    if inputs.len() == 0 {
        None
    } else if eval_expr_spec(q, query_binding(q, inputs[0]), t1, fuel) != eval_expr_spec(
        q,
        query_binding(q, inputs[0]),
        t2,
        fuel,
    ) {
        Some(inputs[0])
    } else {
        first_disagreement(q, inputs.skip(1), t1, t2, fuel)
    }
}

/// One disagreement-scan step, unfolded at position `k`.
proof fn lemma_disagreement_step(
    q: Expr,
    inputs: Seq<i32>,
    k: int,
    t1: FnTable,
    t2: FnTable,
    fuel: nat,
)
    requires
        0 <= k < inputs.len(),
    ensures
        first_disagreement(q, inputs.skip(k), t1, t2, fuel) == (if eval_expr_spec(
            q,
            query_binding(q, inputs[k]),
            t1,
            fuel,
        ) != eval_expr_spec(q, query_binding(q, inputs[k]), t2, fuel) {
            Some(inputs[k])
        } else {
            first_disagreement(q, inputs.skip(k + 1), t1, t2, fuel)
        }),
{
    assert(inputs.skip(k)[0] == inputs[k]);
    assert(inputs.skip(k).skip(1) =~= inputs.skip(k + 1));
}

/// The runtime: the current mode and backend choice, and both backends.
pub struct Runtime {
    pub mode: ExeuctionMode,
    pub used_executor: ExecutorType,
    pub compiled: CompiledExecutor,
    pub interpreted: InterpretedExecutor,
}

/// The table of definitions the chosen backend realises.
pub open spec fn active_table(rt: Runtime) -> FnTable {
    match rt.used_executor {
        ExecutorType::Compiled => rt.compiled.fn_table(),
        ExecutorType::Interpreted => rt.interpreted.fn_table(),
    }
}

/// The obligations a query runable carries into the driver.
pub open spec fn runable_for(run: QueryRunable, q: Expr) -> bool {
    match run {
        QueryRunable::Compiled(art) => art is Code && runable_wf(art) && (art->Code_src)@
            == (DefSem { param: query_param(q), body: q }),
        QueryRunable::Interpreted(e) => e == q,
    }
}

/// The table a runable's calls resolve against.
pub open spec fn run_table(rt: Runtime, run: QueryRunable) -> FnTable {
    match run {
        QueryRunable::Compiled(_) => rt.compiled.fn_table(),
        QueryRunable::Interpreted(_) => rt.interpreted.fn_table(),
    }
}

/// Both backends stay well-formed and keep realising the same
/// definitions; the compiled backend's graveyard only grows.
pub open spec fn state_preserved(pre: Runtime, post: Runtime) -> bool {
    &&& post.compiled.wf()
    &&& post.interpreted.wf()
    &&& post.mode == pre.mode
    &&& post.used_executor == pre.used_executor
    &&& post.compiled.fn_table() == pre.compiled.fn_table()
    &&& post.interpreted == pre.interpreted
    &&& pre.compiled.code_repository.graveyard@.is_prefix_of(
        post.compiled.code_repository.graveyard@,
    )
}

impl Runtime {
    /// Both backends are well-formed.
    pub open spec fn wf(&self) -> bool {
        self.compiled.wf() && self.interpreted.wf()
    }

    /// A fresh runtime: proof mode, compiled backend, no definitions.
    pub fn new() -> (r: Runtime)
        ensures
            r.wf(),
            r.mode == ExeuctionMode::Proof,
            r.used_executor == ExecutorType::Compiled,
            r.compiled.fn_table() =~= Map::<Seq<char>, DefSem>::empty(),
            r.interpreted.fn_table() =~= Map::<Seq<char>, DefSem>::empty(),
    {
        Runtime {
            mode: ExeuctionMode::Proof,
            used_executor: ExecutorType::Compiled,
            compiled: CompiledExecutor::new(),
            interpreted: InterpretedExecutor::new(),
        }
    }

    /// Evaluates the query once, at `v`, through the chosen callable.
    fn eval_at(&mut self, run: &QueryRunable, Ghost(q): Ghost<Expr>, v: i32, fuel: u64) -> (r:
        Result<i32, EvalErr>)
        requires
            old(self).wf(),
            runable_for(*run, q),
        ensures
            state_preserved(*old(self), *final(self)),
            r == eval_expr_spec(q, query_binding(q, v), run_table(*old(self), *run), fuel as nat),
    {
        match run {
            QueryRunable::Compiled(art) => {
                let r = art.call(&mut self.compiled.code_repository, v, fuel);
                proof {
                    assert(bind_param(query_param(q), v) == query_binding(q, v));
                }
                r
            },
            QueryRunable::Interpreted(e) => {
                let ctx = InterpretationContext::new(&self.interpreted);
                ctx.eval(e, v, fuel)
            },
        }
    }

    /// Drives the query over an explicit list of inputs.
    fn scan_list(
        &mut self,
        run: &QueryRunable,
        Ghost(q): Ghost<Expr>,
        vals: &Vec<i32>,
        fuel: u64,
    ) -> (r: QueryOutcome)
        requires
            old(self).wf(),
            runable_for(*run, q),
        ensures
            state_preserved(*old(self), *final(self)),
            r == driver_outcome(q, vals@, run_table(*old(self), *run), fuel as nat),
    {
        let ghost table = run_table(*old(self), *run);
        proof {
            assert(vals@.skip(0) =~= vals@);
        }
        let mut k: usize = 0;
        while k < vals.len()
            invariant
                k <= vals@.len(),
                self.wf(),
                runable_for(*run, q),
                state_preserved(*old(self), *self),
                table == run_table(*old(self), *run),
                run_table(*self, *run) == table,
                driver_outcome(q, vals@, table, fuel as nat) == driver_outcome(
                    q,
                    vals@.skip(k as int),
                    table,
                    fuel as nat,
                ),
            decreases vals@.len() - k,
        {
            proof {
                lemma_driver_step(q, vals@, k as int, table, fuel as nat);
            }
            let res = self.eval_at(run, Ghost(q), vals[k], fuel);
            match res {
                Result::Err(err) => {
                    return QueryOutcome::Failed(err);
                },
                Result::Ok(v) => {
                    if v == 0 {
                        return QueryOutcome::DoesNotHoldFor(vals[k]);
                    }
                },
            }
            k += 1;
        }
        proof {
            assert(vals@.skip(vals@.len() as int) =~= Seq::<i32>::empty());
        }
        QueryOutcome::Holds
    }

    /// Drives the query over the `count` consecutive inputs starting at
    /// `lo`, in ascending order.
    fn scan_range(
        &mut self,
        run: &QueryRunable,
        Ghost(q): Ghost<Expr>,
        lo: i64,
        count: u64,
        fuel: u64,
    ) -> (r: QueryOutcome)
        requires
            old(self).wf(),
            runable_for(*run, q),
            -0x8000_0000 <= lo,
            lo + count <= 0x8000_0000,
        ensures
            state_preserved(*old(self), *final(self)),
            r == driver_outcome(
                q,
                Seq::new(count as nat, |i: int| (lo + i) as i32),
                run_table(*old(self), *run),
                fuel as nat,
            ),
    {
        let ghost table = run_table(*old(self), *run);
        let ghost inputs = Seq::new(count as nat, |i: int| (lo + i) as i32);
        proof {
            assert(inputs.skip(0) =~= inputs);
        }
        let mut k: u64 = 0;
        while k < count
            invariant
                k <= count,
                -0x8000_0000 <= lo,
                lo + count <= 0x8000_0000,
                self.wf(),
                runable_for(*run, q),
                state_preserved(*old(self), *self),
                table == run_table(*old(self), *run),
                run_table(*self, *run) == table,
                inputs == Seq::new(count as nat, |i: int| (lo + i) as i32),
                driver_outcome(q, inputs, table, fuel as nat) == driver_outcome(
                    q,
                    inputs.skip(k as int),
                    table,
                    fuel as nat,
                ),
            decreases count - k,
        {
            proof {
                lemma_driver_step(q, inputs, k as int, table, fuel as nat);
                assert(inputs[k as int] == (lo + k) as i32);
            }
            let v: i32 = (lo + k as i64) as i32;
            let res = self.eval_at(run, Ghost(q), v, fuel);
            match res {
                Result::Err(err) => {
                    return QueryOutcome::Failed(err);
                },
                Result::Ok(value) => {
                    if value == 0 {
                        return QueryOutcome::DoesNotHoldFor(v);
                    }
                },
            }
            k += 1;
        }
        proof {
            assert(inputs.skip(count as int) =~= Seq::<i32>::empty());
        }
        QueryOutcome::Holds
    }

    /// Decides a query: the expression is compiled or taken as is for the
    /// chosen backend, then invoked for every value in the mode's input
    /// range until a counterexample (a zero result) is found or the range
    /// is exhausted.  A query with no free variables collapses to the
    /// single evaluation at 0.
    pub fn execute_query(&mut self, query: Expr) -> (r: Result<QueryOutcome, CompileError>)
        requires
            old(self).wf(),
        ensures
            state_preserved(*old(self), *final(self)),
            r is Ok <==> (old(self).used_executor == ExecutorType::Interpreted
                || query_compilable(query)),
            (match r {
                Result::Ok(out) => out == driver_outcome(
                    query,
                    query_inputs(old(self).mode, vars_seq(query).len() > 0),
                    active_table(*old(self)),
                    QUERY_CALL_DEPTH as nat,
                ),
                Result::Err(_) => true,
            }),
    {
        let ghost q = query;
        let used_vars = query.used_variables();
        let has_var = used_vars.len() > 0;
        proof {
            lemma_dedup_first_head(vars_seq(q));
        }
        let run: QueryRunable = match self.used_executor {
            ExecutorType::Compiled => {
                match self.compiled.get_query_runable(query) {
                    Result::Ok(art) => QueryRunable::Compiled(art),
                    Result::Err(err) => {
                        return Result::Err(err);
                    },
                }
            },
            ExecutorType::Interpreted => QueryRunable::Interpreted(query),
        };
        proof {
            assert(runable_for(run, q));
            assert(run_table(*self, run) == active_table(*old(self)));
        }
        let out = if !has_var {
            let vals = vec![0i32];
            let o = self.scan_list(&run, Ghost(q), &vals, QUERY_CALL_DEPTH);
            proof {
                assert(vals@ =~= query_inputs(old(self).mode, false));
            }
            o
        } else {
            match self.mode {
                ExeuctionMode::Proof => {
                    let o = self.scan_range(
                        &run,
                        Ghost(q),
                        -0x8000_0000i64,
                        0x1_0000_0000u64,
                        QUERY_CALL_DEPTH,
                    );
                    proof {
                        assert(Seq::new(0x1_0000_0000nat, |i: int| (-0x8000_0000 + i) as i32)
                            =~= query_inputs(ExeuctionMode::Proof, true));
                    }
                    o
                },
                ExeuctionMode::Fast => {
                    let vals = vec![i32::MIN, -1i32, 0i32, 1i32, i32::MAX];
                    let o = self.scan_list(&run, Ghost(q), &vals, QUERY_CALL_DEPTH);
                    proof {
                        assert(vals@ =~= query_inputs(ExeuctionMode::Fast, true));
                    }
                    o
                },
                ExeuctionMode::Benchmark => {
                    let o = self.scan_range(
                        &run,
                        Ghost(q),
                        -5_000_000i64,
                        10_000_000u64,
                        QUERY_CALL_DEPTH,
                    );
                    proof {
                        assert(Seq::new(10_000_000nat, |i: int| (-5_000_000 + i) as i32)
                            =~= query_inputs(ExeuctionMode::Benchmark, true));
                    }
                    o
                },
            }
        };
        Result::Ok(out)
    }

    /// Runs the cross-backend equivalence test: evaluates the expression
    /// on both backends at every sentinel input and reports the first
    /// input on which they disagree, or nothing when they agree
    /// throughout.
    pub fn run_test(&mut self, expr: Expr) -> (r: Result<Option<i32>, CompileError>)
        requires
            old(self).wf(),
        ensures
            state_preserved(*old(self), *final(self)),
            r is Ok <==> query_compilable(expr),
            (match r {
                Result::Ok(out) => out == first_disagreement(
                    expr,
                    query_inputs(ExeuctionMode::Fast, true),
                    old(self).compiled.fn_table(),
                    old(self).interpreted.fn_table(),
                    QUERY_CALL_DEPTH as nat,
                ),
                Result::Err(_) => true,
            }),
    {
        let ghost q = expr;
        let copy = expr.clone();
        let art = match self.compiled.get_query_runable(expr) {
            Result::Ok(a) => a,
            Result::Err(err) => {
                return Result::Err(err);
            },
        };
        let crun = QueryRunable::Compiled(art);
        let irun = QueryRunable::Interpreted(copy);
        let ghost t1 = self.compiled.fn_table();
        let ghost t2 = self.interpreted.fn_table();
        let ghost inputs = query_inputs(ExeuctionMode::Fast, true);
        let vals = vec![i32::MIN, -1i32, 0i32, 1i32, i32::MAX];
        proof {
            assert(vals@ =~= inputs);
            assert(inputs.skip(0) =~= inputs);
        }
        let mut k: usize = 0;
        while k < vals.len()
            invariant
                k <= vals@.len(),
                vals@ == query_inputs(ExeuctionMode::Fast, true),
                inputs == vals@,
                self.wf(),
                crun is Compiled,
                irun is Interpreted,
                runable_for(crun, q),
                runable_for(irun, q),
                state_preserved(*old(self), *self),
                q == expr,
                query_compilable(q),
                t1 == old(self).compiled.fn_table(),
                t2 == old(self).interpreted.fn_table(),
                self.compiled.fn_table() == t1,
                self.interpreted.fn_table() == t2,
                first_disagreement(q, inputs, t1, t2, QUERY_CALL_DEPTH as nat)
                    == first_disagreement(
                    q,
                    inputs.skip(k as int),
                    t1,
                    t2,
                    QUERY_CALL_DEPTH as nat,
                ),
            decreases vals@.len() - k,
        {
            proof {
                lemma_disagreement_step(q, inputs, k as int, t1, t2, QUERY_CALL_DEPTH as nat);
            }
            let v = vals[k];
            let a = self.eval_at(&crun, Ghost(q), v, QUERY_CALL_DEPTH);
            proof {
                assert(a == eval_expr_spec(q, query_binding(q, v), run_table(*self, crun),
                    QUERY_CALL_DEPTH as nat)) by {}
                assert(run_table(*self, crun) == self.compiled.fn_table());
                assert(a == eval_expr_spec(q, query_binding(q, v), t1, QUERY_CALL_DEPTH as nat));
                assert(v == inputs[k as int]);
            }
            let b = self.eval_at(&irun, Ghost(q), v, QUERY_CALL_DEPTH);
            proof {
                assert(b == eval_expr_spec(q, query_binding(q, inputs[k as int]), t2,
                    QUERY_CALL_DEPTH as nat));
            }
            let same = match (a, b) {
                (Result::Ok(x), Result::Ok(y)) => x == y,
                (Result::Err(x), Result::Err(y)) => x == y,
                _ => false,
            };
            proof {
                assert(same == (eval_expr_spec(q, query_binding(q, inputs[k as int]), t1,
                    QUERY_CALL_DEPTH as nat) == eval_expr_spec(
                    q,
                    query_binding(q, inputs[k as int]),
                    t2,
                    QUERY_CALL_DEPTH as nat,
                )));
            }
            if !same {
                return Result::Ok(Some(v));
            }
            k += 1;
        }
        proof {
            assert(inputs.skip(vals@.len() as int) =~= Seq::<i32>::empty());
        }
        Result::Ok(None)
    }

    /// Handles one parsed action: definitions go to both backends so that
    /// either can serve later queries; queries are driven over the
    /// current mode's range; commands inspect or reconfigure the runtime.
    pub fn handle_ast(&mut self, ast: Action) -> (r: Result<Response, RuntimeError>)
        requires
            old(self).wf(),
        ensures
            final(self).wf(),
            old(self).compiled.code_repository.graveyard@.is_prefix_of(
                final(self).compiled.code_repository.graveyard@,
            ),
            (match r {
                Result::Ok(resp) => true,
                Result::Err(err) => err is Compile || err is UnknownCommandWord,
            }),
            (match ast {
                Action::FunctionDef(d) => {
                    &&& r is Ok
                    &&& final(self).mode == old(self).mode
                    &&& final(self).used_executor == old(self).used_executor
                    &&& final(self).compiled.fn_table() == (if def_compilable(def_sem_of(d)) {
                        old(self).compiled.fn_table().insert(d.name@, def_sem_of(d))
                    } else {
                        old(self).compiled.fn_table().remove(d.name@)
                    })
                    &&& final(self).interpreted.fn_table() == old(self).interpreted.fn_table().insert(d.name@, def_sem_of(d))
                },
                Action::Query(q) => (match r {
                    Result::Ok(resp) => resp matches Response::QueryResult(out) && out
                        == driver_outcome(
                        q,
                        query_inputs(old(self).mode, vars_seq(q).len() > 0),
                        active_table(*old(self)),
                        QUERY_CALL_DEPTH as nat,
                    ) && state_preserved(*old(self), *final(self)),
                    Result::Err(_) => old(self).used_executor == ExecutorType::Compiled
                        && !query_compilable(q),
                }),
                Action::Command(c) => (match c {
                    Command::DeleteFunction(n) => r is Ok && final(self).compiled.fn_table()
                        == old(self).compiled.fn_table().remove(n@) && final(self).interpreted.fn_table() == old(self).interpreted.fn_table().remove(n@),
                    _ => true,
                }),
            }),
    {
        match ast {
            Action::FunctionDef(func_def) => {
                let for_interp = func_def.clone();
                match self.compiled.handle_function_def(func_def) {
                    Result::Ok(_) => {},
                    Result::Err(err) => {
                        return Result::Err(RuntimeError::Compile(err));
                    },
                }
                match self.interpreted.handle_function_def(for_interp) {
                    Result::Ok(_) => {},
                    Result::Err(_) => {},
                }
                Result::Ok(Response::Defined)
            },
            Action::Query(query) => {
                match self.execute_query(query) {
                    Result::Ok(out) => Result::Ok(Response::QueryResult(out)),
                    Result::Err(err) => Result::Err(RuntimeError::Compile(err)),
                }
            },
            Action::Command(Command::ShowCode(name)) => {
                Result::Ok(Response::Code(self.compiled.print_code(&name)))
            },
            Action::Command(Command::ListFunctions()) => {
                Result::Ok(Response::Functions(self.compiled.list_functions()))
            },
            Action::Command(Command::DeleteFunction(name)) => {
                self.compiled.delete(&name);
                self.interpreted.delete(&name);
                Result::Ok(Response::Deleted)
            },
            Action::Command(Command::SwitchMode(mode)) => {
                proof {
                    reveal_strlit("proof");
                    reveal_strlit("fast");
                    reveal_strlit("benchmark");
                }
                if mode.eq(&"proof".to_owned()) || mode.eq(&"fast".to_owned()) || mode.eq(
                    &"benchmark".to_owned(),
                ) {
                    let m = ExeuctionMode::from(&mode);
                    self.mode = m;
                    Result::Ok(Response::ModeSwitched(m))
                } else {
                    Result::Err(RuntimeError::UnknownCommandWord)
                }
            },
            Action::Command(Command::SwitchExecutor(executor)) => {
                proof {
                    reveal_strlit("compiled");
                    reveal_strlit("interpreted");
                }
                if executor.eq(&"compiled".to_owned()) || executor.eq(
                    &"interpreted".to_owned(),
                ) {
                    let e = ExecutorType::from(&executor);
                    self.used_executor = e;
                    Result::Ok(Response::ExecutorSwitched(e))
                } else {
                    Result::Err(RuntimeError::UnknownCommandWord)
                }
            },
            Action::Command(Command::Test(expr)) => {
                match self.run_test(expr) {
                    Result::Ok(out) => Result::Ok(Response::TestResult(out)),
                    Result::Err(err) => Result::Err(RuntimeError::Compile(err)),
                }
            },
            Action::Command(Command::Benchmark()) => {
                // The built-in benchmark: one fixed always-true proposition
                // driven over the benchmark window; the caller times it.
                let x1 = String::from_str("x");
                let x2 = String::from_str("x");
                let bench = Expr::Neq(
                    Box::new(Expr::Var(x1)),
                    Box::new(Expr::Add(Box::new(Expr::Var(x2)), Box::new(Expr::Number(1)))),
                );
                let saved = self.mode;
                self.mode = ExeuctionMode::Benchmark;
                let out = self.execute_query(bench);
                self.mode = saved;
                match out {
                    Result::Ok(o) => Result::Ok(Response::BenchmarkResult(o)),
                    Result::Err(err) => Result::Err(RuntimeError::Compile(err)),
                }
            },
        }
    }

    /// Handles one input line: parse, then dispatch.  A line that does
    /// not parse leaves the runtime untouched.
    pub fn handle_line(&mut self, line: &str) -> (r: Result<Response, RuntimeError>)
        requires
            old(self).wf(),
        ensures
            final(self).wf(),
            old(self).compiled.code_repository.graveyard@.is_prefix_of(
                final(self).compiled.code_repository.graveyard@,
            ),
            r is Err && r->Err_0 is Parse ==> *final(self) == *old(self),
    {
        match parse(line) {
            Result::Ok(ast) => self.handle_ast(ast),
            Result::Err(err) => Result::Err(RuntimeError::Parse(err)),
        }
    }
}


/// A query that evaluates to 1 on every input in a range holds on that
/// range.
pub proof fn lemma_driver_holds(q: Expr, inputs: Seq<i32>, defs: FnTable, fuel: nat)
    requires
        forall|k: int| 0 <= k < inputs.len() ==> #[trigger] eval_expr_spec(
            q,
            query_binding(q, inputs[k]),
            defs,
            fuel,
        ) == Result::<i32, EvalErr>::Ok(1i32),
    ensures
        driver_outcome(q, inputs, defs, fuel) == QueryOutcome::Holds,
    decreases inputs.len(),
{
    if inputs.len() > 0 {
        assert(eval_expr_spec(q, query_binding(q, inputs[0]), defs, fuel) == Result::<
            i32,
            EvalErr,
        >::Ok(1i32));
        assert forall|k: int| 0 <= k < inputs.skip(1).len() implies #[trigger] eval_expr_spec(
            q,
            query_binding(q, inputs.skip(1)[k]),
            defs,
            fuel,
        ) == Result::<i32, EvalErr>::Ok(1i32) by {
            assert(inputs.skip(1)[k] == inputs[k + 1]);
        }
        lemma_driver_holds(q, inputs.skip(1), defs, fuel);
    }
}

/// The shape of the proposition `x <> x + 1`: an inequality between a
/// variable and that same variable plus one.
pub open spec fn successor_inequality(e: Expr) -> bool {
    &&& e matches Expr::Neq(lhs, rhs)
    &&& *(e->Neq_0) matches Expr::Var(nl)
    &&& *(e->Neq_1) matches Expr::Add(al, ar)
    &&& *((e->Neq_1)->Add_0) matches Expr::Var(nr) && nr@ == ((e->Neq_0)->Var_0)@
    &&& *((e->Neq_1)->Add_1) matches Expr::Number(k) && k == 1i32
}

/// On every single input, `x <> x + 1` evaluates to 1: adding one always
/// changes a 32-bit value, because the one overflowing sum wraps from the
/// largest value to the smallest.
pub proof fn lemma_successor_inequality_evaluates_to_one(
    e: Expr,
    defs: FnTable,
    fuel: nat,
    v: i32,
)
    requires
        successor_inequality(e),
    ensures
        eval_expr_spec(e, query_binding(e, v), defs, fuel) == Result::<i32, EvalErr>::Ok(1i32),
{
    proof_successor_details(e, defs, fuel, v);
}

/// The evaluation of `x <> x + 1` at `v`, step by step.
proof fn proof_successor_details(e: Expr, defs: FnTable, fuel: nat, v: i32)
    requires
        successor_inequality(e),
    ensures
        eval_expr_spec(e, query_binding(e, v), defs, fuel) == Result::<i32, EvalErr>::Ok(1i32),
{
    reveal_with_fuel(eval_expr_spec, 6);
    let nl = (e->Neq_0)->Var_0;
    let lhs = *(e->Neq_0);
    let rhs = *(e->Neq_1);
    assert(vars_seq(lhs) =~= seq![nl@]);
    assert(vars_seq(e) == vars_seq(lhs) + vars_seq(rhs));
    assert(vars_seq(e)[0] == nl@);
    assert(vars_seq(e).len() > 0);
    let b = query_binding(e, v);
    assert(b == Some((nl@, v)));
    assert(eval_expr_spec(lhs, b, defs, fuel) == Result::<i32, EvalErr>::Ok(v));
    let al = *((e->Neq_1)->Add_0);
    let ar = *((e->Neq_1)->Add_1);
    assert(eval_expr_spec(al, b, defs, fuel) == Result::<i32, EvalErr>::Ok(v));
    assert(eval_expr_spec(ar, b, defs, fuel) == Result::<i32, EvalErr>::Ok(1i32));
    assert(eval_expr_spec(rhs, b, defs, fuel) == Result::<i32, EvalErr>::Ok(
        v.wrapping_add(1i32),
    ));
    assert(v != v.wrapping_add(1i32));
}

/// The spec's flagship scenario, proved rather than enumerated: in proof
/// mode, which drives every one of the 2^32 inputs, the query
/// `x <> x + 1` holds — the overflow case wraps to the smallest value,
/// which still differs from the largest.
pub proof fn lemma_successor_inequality_holds_everywhere(e: Expr, defs: FnTable, fuel: nat)
    requires
        successor_inequality(e),
    ensures
        driver_outcome(e, query_inputs(ExeuctionMode::Proof, true), defs, fuel)
            == QueryOutcome::Holds,
{
    let inputs = query_inputs(ExeuctionMode::Proof, true);
    assert forall|k: int| 0 <= k < inputs.len() implies #[trigger] eval_expr_spec(
        e,
        query_binding(e, inputs[k]),
        defs,
        fuel,
    ) == Result::<i32, EvalErr>::Ok(1i32) by {
        lemma_successor_inequality_evaluates_to_one(e, defs, fuel, inputs[k]);
    }
    lemma_driver_holds(e, inputs, defs, fuel);
}

/// The contract both backends implement: install a definition, turn a
/// query into a callable, delete a definition.
pub trait Executor {
    /// The backend's own well-formedness.
    spec fn executor_wf(&self) -> bool;

    /// Installs a definition under its name.
    fn handle_function_def(&mut self, func_def: FunctionDef) -> (r: Result<(), CompileError>)
        requires
            old(self).executor_wf(),
        ensures
            final(self).executor_wf(),
    ;

    /// Turns a query into a callable for this backend.
    fn get_query_runable(&mut self, query: Expr) -> (r: Result<QueryRunable, CompileError>)
        requires
            old(self).executor_wf(),
        ensures
            final(self).executor_wf(),
    ;

    /// Removes the named definition.
    fn delete(&mut self, name: &String)
        requires
            old(self).executor_wf(),
        ensures
            final(self).executor_wf(),
    ;
}

impl Executor for CompiledExecutor {
    open spec fn executor_wf(&self) -> bool {
        self.wf()
    }

    fn handle_function_def(&mut self, func_def: FunctionDef) -> (r: Result<(), CompileError>) {
        CompiledExecutor::handle_function_def(self, func_def)
    }

    fn get_query_runable(&mut self, query: Expr) -> (r: Result<QueryRunable, CompileError>) {
        match CompiledExecutor::get_query_runable(self, query) {
            Result::Ok(art) => Result::Ok(QueryRunable::Compiled(art)),
            Result::Err(err) => Result::Err(err),
        }
    }

    fn delete(&mut self, name: &String) {
        CompiledExecutor::delete(self, name)
    }
}

impl Executor for InterpretedExecutor {
    open spec fn executor_wf(&self) -> bool {
        self.wf()
    }

    fn handle_function_def(&mut self, func_def: FunctionDef) -> (r: Result<(), CompileError>) {
        InterpretedExecutor::handle_function_def(self, func_def)
    }

    fn get_query_runable(&mut self, query: Expr) -> (r: Result<QueryRunable, CompileError>) {
        Result::Ok(QueryRunable::Interpreted(query))
    }

    fn delete(&mut self, name: &String) {
        InterpretedExecutor::delete(self, name)
    }
}

} // verus!
