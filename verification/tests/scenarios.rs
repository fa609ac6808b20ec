//! End-to-end scenarios through the runtime: definitions, queries,
//! commands, counterexamples, and the error paths.

use i32_bfp::ast::Action;
use i32_bfp::compiled_executor::CompiledExecutor;
use i32_bfp::compiler::CompileError;
use i32_bfp::interpreted_executor::InterpretedExecutor;
use i32_bfp::parser::{parse, ParseError};
use i32_bfp::runtime::{Executor, QueryOutcome, Response, Runtime, RuntimeError};
use i32_bfp::semantics::EvalErr;

fn line_ok(rt: &mut Runtime, line: &str) -> Response {
    rt.handle_line(line).unwrap()
}

#[test]
fn constant_query_holds() {
    let mut rt = Runtime::new();
    let r = line_ok(&mut rt, "10");
    assert!(matches!(r, Response::QueryResult(QueryOutcome::Holds)));
}

#[test]
fn overflow_keeps_inequality_in_fast_mode() {
    let mut rt = Runtime::new();
    line_ok(&mut rt, ".mode fast");
    let r = line_ok(&mut rt, "x <> x + 1");
    assert!(matches!(r, Response::QueryResult(QueryOutcome::Holds)));
}

#[test]
fn first_sentinel_is_the_counterexample() {
    let mut rt = Runtime::new();
    line_ok(&mut rt, ".mode fast");
    let r = line_ok(&mut rt, "x = x + 1");
    assert!(matches!(
        r,
        Response::QueryResult(QueryOutcome::DoesNotHoldFor(-2147483648))
    ));
}

#[test]
fn successor_is_not_monotonic_at_the_top() {
    let mut rt = Runtime::new();
    line_ok(&mut rt, ".mode fast");
    line_ok(&mut rt, "f(x) := x + 1");
    let r = line_ok(&mut rt, "f(x) > x");
    assert!(matches!(
        r,
        Response::QueryResult(QueryOutcome::DoesNotHoldFor(2147483647))
    ));
}

#[test]
fn deleted_function_returns_zero() {
    let mut rt = Runtime::new();
    line_ok(&mut rt, "f(x) := x + 1");
    line_ok(&mut rt, ".delete f");
    let r = line_ok(&mut rt, "f(0) = 0");
    assert!(matches!(r, Response::QueryResult(QueryOutcome::Holds)));
}

#[test]
fn remainder_parity_agrees_across_backends() {
    let mut rt = Runtime::new();
    let r = line_ok(&mut rt, ".test (x + 1) % 2 <> x % 2");
    assert!(matches!(r, Response::TestResult(None)));
}

#[test]
fn cross_backend_test_agrees_per_operator() {
    let mut rt = Runtime::new();
    line_ok(&mut rt, "f(x) := x * 2 - 1");
    for line in [
        ".test x + 1",
        ".test x - 1",
        ".test x * 3",
        ".test x / 3",
        ".test x % 3",
        ".test x = 1",
        ".test x <> 1",
        ".test x > 1",
        ".test x < 1",
        ".test x >= 1",
        ".test x <= 1",
        ".test f(x) > x",
    ] {
        let r = line_ok(&mut rt, line);
        assert!(matches!(r, Response::TestResult(None)), "disagreement for {}", line);
    }
}

#[test]
fn division_by_zero_ends_the_query() {
    let mut rt = Runtime::new();
    let r = line_ok(&mut rt, "1 / 0");
    assert!(matches!(
        r,
        Response::QueryResult(QueryOutcome::Failed(EvalErr::DivisionByZero))
    ));
}

#[test]
fn redefinition_takes_effect_for_later_queries() {
    let mut rt = Runtime::new();
    line_ok(&mut rt, ".mode fast");
    line_ok(&mut rt, "f(x) := 1");
    let r = line_ok(&mut rt, "f(x) = 1");
    assert!(matches!(r, Response::QueryResult(QueryOutcome::Holds)));
    line_ok(&mut rt, "f(x) := 2");
    let r = line_ok(&mut rt, "f(x) = 2");
    assert!(matches!(r, Response::QueryResult(QueryOutcome::Holds)));
}

#[test]
fn interpreted_executor_answers_queries_too() {
    let mut rt = Runtime::new();
    line_ok(&mut rt, ".mode fast");
    line_ok(&mut rt, ".executor interpreted");
    line_ok(&mut rt, "f(x) := x + 1");
    let r = line_ok(&mut rt, "f(x) > x");
    assert!(matches!(
        r,
        Response::QueryResult(QueryOutcome::DoesNotHoldFor(2147483647))
    ));
}

#[test]
fn list_and_show_report_installed_functions() {
    let mut rt = Runtime::new();
    line_ok(&mut rt, "f(x) := x + 1");
    let r = line_ok(&mut rt, ".list");
    match r {
        Response::Functions(names) => {
            assert_eq!(names.len(), 1);
            assert_eq!(names[0], "f");
        },
        _ => panic!("expected a function listing"),
    }
    // Before the first call the stub is installed; its listing is empty.
    let r = line_ok(&mut rt, ".show f");
    assert!(matches!(r, Response::Code(Some(_))));
    // One call later the compiled artifact is installed.
    line_ok(&mut rt, "f(1) = 2");
    let r = line_ok(&mut rt, ".show f");
    match r {
        Response::Code(Some(listing)) => assert!(listing.len() > 0),
        _ => panic!("expected a code listing"),
    }
    let r = line_ok(&mut rt, ".show g");
    assert!(matches!(r, Response::Code(None)));
}

#[test]
fn mode_and_executor_switch_report_back() {
    let mut rt = Runtime::new();
    let r = line_ok(&mut rt, ".mode benchmark");
    assert!(matches!(r, Response::ModeSwitched(_)));
    let r = line_ok(&mut rt, ".executor compiled");
    assert!(matches!(r, Response::ExecutorSwitched(_)));
}

#[test]
fn out_of_range_literal_is_rejected() {
    let mut rt = Runtime::new();
    let r = rt.handle_line("2147483648");
    assert!(matches!(
        r,
        Err(RuntimeError::Parse(ParseError::IntegerTooBig))
    ));
    // The largest literal in range still parses.
    assert!(parse("2147483647").is_ok());
}

#[test]
fn malformed_lines_are_rejected() {
    assert!(matches!(parse("x &"), Err(ParseError::UnexpectedCharacter)));
    assert!(matches!(parse("x +"), Err(ParseError::Malformed)));
    assert!(matches!(parse(""), Err(ParseError::Malformed)));
    assert!(matches!(parse("(x + 1"), Err(ParseError::Malformed)));
    assert!(parse("f(y) := y * y").is_ok());
    assert!(parse("(x + 1) * 2 >= x % 7").is_ok());
}

#[test]
fn two_distinct_variables_cannot_be_compiled() {
    let mut rt = Runtime::new();
    let r = rt.handle_line("x + y = 0");
    assert!(matches!(r, Err(RuntimeError::Compile(_))));
}

#[test]
fn uncompilable_definition_yields_zero_when_called() {
    let mut rt = Runtime::new();
    // The body uses a variable that is not the parameter; its first call
    // fails to compile, removes the definition, and returns 0.
    line_ok(&mut rt, "f(x) := y + 1");
    let r = line_ok(&mut rt, "f(1) = 0");
    assert!(matches!(r, Response::QueryResult(QueryOutcome::Holds)));
}

#[test]
fn relations_yield_exactly_zero_or_one() {
    let mut rt = Runtime::new();
    line_ok(&mut rt, ".mode fast");
    for line in ["(x > 1) < 2", "(x = 1) < 2", "(x <> 1) < 2", "(x <= 1) < 2"] {
        let r = line_ok(&mut rt, line);
        assert!(
            matches!(r, Response::QueryResult(QueryOutcome::Holds)),
            "relation escaped 0/1 for {}",
            line
        );
    }
}

#[test]
fn wrapping_arithmetic_at_the_boundaries() {
    let mut rt = Runtime::new();
    let r = line_ok(&mut rt, "2147483647 + 1 = 0 - 2147483647 - 1");
    assert!(matches!(r, Response::QueryResult(QueryOutcome::Holds)));
    let r = line_ok(&mut rt, "2147483647 + 2147483647 = 0 - 2");
    assert!(matches!(r, Response::QueryResult(QueryOutcome::Holds)));
}

#[test]
fn the_executor_contract_serves_both_backends() {
    let def = match parse("f(x) := x + 1").unwrap() {
        Action::FunctionDef(d) => d,
        _ => panic!("expected a definition"),
    };
    let mut ce = CompiledExecutor::new();
    let mut ie = InterpretedExecutor::new();
    Executor::handle_function_def(&mut ce, def.clone()).unwrap();
    Executor::handle_function_def(&mut ie, def).unwrap();
    let query = match parse("f(1)").unwrap() {
        Action::Query(q) => q,
        _ => panic!("expected a query"),
    };
    assert!(Executor::get_query_runable(&mut ce, query.clone()).is_ok());
    assert!(Executor::get_query_runable(&mut ie, query).is_ok());
    let name = String::from("f");
    Executor::delete(&mut ce, &name);
    Executor::delete(&mut ie, &name);
}

#[test]
fn benchmark_command_reports_an_outcome() {
    let mut rt = Runtime::new();
    let r = line_ok(&mut rt, ".benchmark");
    assert!(matches!(
        r,
        Response::BenchmarkResult(QueryOutcome::Holds)
    ));
}

#[test]
fn graveyard_keeps_every_superseded_artifact() {
    let mut rt = Runtime::new();
    line_ok(&mut rt, "f(x) := x + 1");
    line_ok(&mut rt, "f(1) = 2");
    // Lazy compilation displaced the stub into the graveyard.
    assert_eq!(rt.compiled.code_repository.graveyard.len(), 1);
    line_ok(&mut rt, "f(x) := x + 2");
    line_ok(&mut rt, ".delete f");
    // The replaced artifact and the deleted stub rest there too.
    assert_eq!(rt.compiled.code_repository.graveyard.len(), 3);
}

#[test]
fn division_truncates_toward_zero() {
    let mut rt = Runtime::new();
    // -7 / 2 is -3 and -7 % 2 is -1 under truncated division.
    let r = line_ok(&mut rt, "(0 - 7) / 2 = 0 - 3");
    assert!(matches!(r, Response::QueryResult(QueryOutcome::Holds)));
    let r = line_ok(&mut rt, "(0 - 7) % 2 = 0 - 1");
    assert!(matches!(r, Response::QueryResult(QueryOutcome::Holds)));
}

#[test]
fn the_one_overflowing_quotient_wraps() {
    let mut rt = Runtime::new();
    // The deeply nested literals exceed the compiled backend's scratch
    // pool, so the interpreter decides these; the cross-backend test
    // then confirms both backends agree at the smallest input.
    line_ok(&mut rt, ".executor interpreted");
    let r = line_ok(&mut rt, "(0 - 2147483647 - 1) / (0 - 1) = 0 - 2147483647 - 1");
    assert!(matches!(r, Response::QueryResult(QueryOutcome::Holds)));
    let r = line_ok(&mut rt, "(0 - 2147483647 - 1) % (0 - 1) = 0");
    assert!(matches!(r, Response::QueryResult(QueryOutcome::Holds)));
    line_ok(&mut rt, ".executor compiled");
    let r = line_ok(&mut rt, ".test x / (0 - 1)");
    assert!(matches!(r, Response::TestResult(None)));
    let r = line_ok(&mut rt, ".test x % (0 - 1)");
    assert!(matches!(r, Response::TestResult(None)));
}

#[test]
fn deep_expressions_exhaust_the_scratch_pool() {
    let mut rt = Runtime::new();
    let r = rt.handle_line("1 + 1 + 1 + 1 + 1 + 1 = 6");
    assert!(matches!(
        r,
        Err(RuntimeError::Compile(CompileError::OutOfRegisters))
    ));
}

#[test]
fn a_second_variable_exhausts_the_parameter_pool() {
    let mut rt = Runtime::new();
    let r = rt.handle_line("x + y = 0");
    assert!(matches!(
        r,
        Err(RuntimeError::Compile(CompileError::OutOfParameterRegisters))
    ));
}

#[test]
fn unbounded_recursion_exhausts_the_call_depth() {
    let mut rt = Runtime::new();
    line_ok(&mut rt, "f(x) := f(x)");
    let r = line_ok(&mut rt, "f(0) = 0");
    assert!(matches!(
        r,
        Response::QueryResult(QueryOutcome::Failed(EvalErr::CallDepth))
    ));
}

#[test]
fn interpreted_query_with_a_stray_variable_fails_to_resolve() {
    let mut rt = Runtime::new();
    line_ok(&mut rt, ".executor interpreted");
    let r = line_ok(&mut rt, "x + y = 0");
    assert!(matches!(
        r,
        Response::QueryResult(QueryOutcome::Failed(EvalErr::UnboundVariable))
    ));
}

#[test]
fn non_ascii_input_is_rejected() {
    assert!(matches!(parse("x \u{e9} 1"), Err(ParseError::NotAscii)));
}

#[test]
fn error_messages_match_their_causes() {
    assert_eq!(ParseError::IntegerTooBig.message(), "Integer too big.");
    assert_eq!(
        CompileError::OutOfRegisters.message(),
        "No more registers available!"
    );
    assert_eq!(
        CompileError::OutOfParameterRegisters.message(),
        "No more parameter registers available!"
    );
    assert_eq!(
        CompileError::UnboundVariable.message(),
        "Variable was not defined"
    );
}
