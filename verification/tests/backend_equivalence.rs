//! The compiled backend must agree with the interpreter bit-for-bit.
//! Each test parses an expression, compiles it, and evaluates both
//! backends on a set of probe inputs.

use i32_bfp::ast::Action;
use i32_bfp::compiled_executor::CompiledExecutor;
use i32_bfp::interpreted_executor::{InterpretationContext, InterpretedExecutor};
use i32_bfp::parser::parse;

const DEPTH: u64 = 64;

fn handle_fn_def(
    expr: &str,
    compiled_executor: &mut CompiledExecutor,
    interpreted_executor: &mut InterpretedExecutor,
) {
    let parsed = parse(expr).unwrap();
    let defintion = match parsed {
        Action::FunctionDef(defintion) => defintion,
        _ => panic!("Expected query"),
    };
    compiled_executor
        .handle_function_def(defintion.clone())
        .unwrap();
    interpreted_executor.handle_function_def(defintion).unwrap();
}

fn check_query_equiv(
    expr: &str,
    test_for: Vec<i32>,
    compiled_executor: &mut CompiledExecutor,
    interpreted_executor: &mut InterpretedExecutor,
) {
    let parsed = parse(expr).unwrap();
    let expr = match parsed {
        Action::Query(expr) => expr,
        _ => panic!("Expected query"),
    };
    let compiled = compiled_executor.get_query_runable(expr.clone()).unwrap();
    for val in test_for {
        let res1 = compiled.call(&mut compiled_executor.code_repository, val, DEPTH);
        let ctx = InterpretationContext::new(interpreted_executor);
        let res2 = ctx.eval(&expr, val, DEPTH);
        assert_eq!(
            res1, res2,
            "The values were not equal for input {}.",
            val
        );
    }
}

fn check_equiv(expr: &str, test_for: Vec<i32>) {
    let mut compiled_executor = CompiledExecutor::new();
    let mut interpreted_executor = InterpretedExecutor::new();
    check_query_equiv(expr, test_for, &mut compiled_executor, &mut interpreted_executor)
}

#[test]
fn num_is_compiled_correctly() {
    check_equiv("10", vec![0])
}

#[test]
fn var_is_compiled_correctly() {
    check_equiv("x", vec![i32::MIN, -1, 0, 1, i32::MAX])
}

#[test]
fn add_is_compiled_correctly() {
    check_equiv("x + 1 + x", vec![i32::MIN, -1, 0, 1, i32::MAX])
}

#[test]
fn sub_is_compiled_correctly() {
    check_equiv("x - x + x - 10", vec![i32::MIN, -1, 0, 1, i32::MAX])
}

#[test]
fn mul_is_compiled_correctly() {
    check_equiv("x * 10 * 4", vec![i32::MIN, -1, 0, 1, i32::MAX])
}

#[test]
fn div_is_compiled_correctly() {
    check_equiv("x / 10", vec![i32::MIN, -1, 0, 1, i32::MAX])
}

#[test]
fn rem_is_compiled_correctly() {
    check_equiv("x % 10", vec![i32::MIN, -1, 0, 1, i32::MAX])
}

#[test]
fn eq_is_compiled_correctly() {
    check_equiv("x = 1", vec![i32::MIN, -1, 0, 1, i32::MAX])
}

#[test]
fn neq_is_compiled_correctly() {
    check_equiv("x <> 1", vec![i32::MIN, -1, 0, 1, i32::MAX])
}

#[test]
fn gt_is_compiled_correctly() {
    check_equiv("x > 1", vec![i32::MIN, -1, 0, 1, i32::MAX])
}

#[test]
fn lt_is_compiled_correctly() {
    check_equiv("x < 1", vec![i32::MIN, -1, 0, 1, i32::MAX])
}

#[test]
fn gte_is_compiled_correctly() {
    check_equiv("x >= 1", vec![i32::MIN, -1, 0, 1, i32::MAX])
}

#[test]
fn lte_is_compiled_correctly() {
    check_equiv("x <= 1", vec![i32::MIN, -1, 0, 1, i32::MAX])
}

#[test]
fn function_call_is_compiled_correctly_1() {
    let mut compiled_executor = CompiledExecutor::new();
    let mut interpreted_executor = InterpretedExecutor::new();
    handle_fn_def("f(x) := x + 1", &mut compiled_executor, &mut interpreted_executor);
    check_query_equiv("f(1) = 2", vec![0], &mut compiled_executor, &mut interpreted_executor);
}

#[test]
fn function_call_is_compiled_correctly_2() {
    let mut compiled_executor = CompiledExecutor::new();
    let mut interpreted_executor = InterpretedExecutor::new();
    handle_fn_def("f(x) := x + 1", &mut compiled_executor, &mut interpreted_executor);
    handle_fn_def("g(x) := f(x) / 2", &mut compiled_executor, &mut interpreted_executor);
    check_query_equiv(
        "f(x) > g(x)",
        vec![i32::MIN, -1, 0, 1, i32::MAX],
        &mut compiled_executor,
        &mut interpreted_executor,
    );
}

#[test]
fn function_call_encountered_bug_1() {
    let mut compiled_executor = CompiledExecutor::new();
    let mut interpreted_executor = InterpretedExecutor::new();
    handle_fn_def("f(x) := x + 1", &mut compiled_executor, &mut interpreted_executor);
    check_query_equiv(
        "f(x) > x",
        vec![1189796073],
        &mut compiled_executor,
        &mut interpreted_executor,
    );
}

#[test]
fn every_operator_agrees_on_probe_inputs() {
    let probes = || vec![i32::MIN, i32::MIN + 1, -1, 0, 1, i32::MAX - 1, i32::MAX];
    for op in ["+", "-", "*", "/", "%", "=", "<>", ">", "<", ">=", "<="] {
        let expr = format!("x {} 3", op);
        check_equiv(&expr, probes());
        let expr = format!("7 {} x", op);
        check_equiv(&expr, probes());
    }
}
