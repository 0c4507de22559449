use acm::compile::{build_paths, can_reuse_build};
use acm::complexity::{transpose, AsymptoticComplexity};
use acm::diagnostics::RunnerError;
use acm::function::{ContainerVariant, ContainerVariantType, FunctionType, FunctionValue, WasmFunctionCall};
use acm::judge::{
    default_hidden, fuel_budget, judge_run, summarize, Test, TestResult, TestResults, MAX_FUEL,
};

fn int_value(x: i32) -> FunctionValue {
    FunctionValue::Int(ContainerVariant::Single(x))
}

fn test(index: i64, expected: i32, max_fuel: Option<i64>) -> Test {
    Test {
        id: 100 + index,
        index,
        max_fuel,
        input: WasmFunctionCall::new(
            "f",
            vec![int_value(index as i32)],
            FunctionType::Int(ContainerVariantType::Single),
        ),
        expected_output: int_value(expected),
    }
}

fn result(index: i64, success: bool, fuel: i64) -> TestResult {
    let mut r = test(index, 0, None).make_result(int_value(0), fuel as u64, false);
    r.success = success;
    r
}

#[test]
fn hidden_by_default_is_false() {
    assert!(!default_hidden());
}

#[test]
fn make_result_compares_outputs() {
    let ok = test(1, 5, Some(10)).make_result(int_value(5), 7, false);
    assert!(ok.success);
    assert_eq!(ok.output, Some(int_value(5)));
    assert_eq!(ok.fuel, 7);
    assert_eq!(ok.id, 101);
    assert_eq!(ok.max_fuel, Some(10));
    assert_eq!(ok.error, None);
    assert!(!ok.hidden);
    let wrong = test(1, 5, Some(10)).make_result(int_value(6), 7, true);
    assert!(!wrong.success);
}

#[test]
fn make_result_of_doubles_uses_tolerance_verdict() {
    let t = Test {
        id: 1,
        index: 0,
        max_fuel: None,
        input: WasmFunctionCall::new("g", vec![], FunctionType::Double(ContainerVariantType::Single)),
        expected_output: FunctionValue::Double(ContainerVariant::Single(1.0f64.to_bits())),
    };
    let close = t.clone().make_result(
        FunctionValue::Double(ContainerVariant::Single((1.0f64 + 1e-12).to_bits())),
        1,
        true,
    );
    assert!(close.success);
    let far = t.make_result(FunctionValue::Double(ContainerVariant::Single(2.0f64.to_bits())), 1, false);
    assert!(!far.success);
}

#[test]
fn make_result_error_fails() {
    let r = test(2, 5, None).make_result_error("trap".to_string(), 99);
    assert!(!r.success);
    assert_eq!(r.output, None);
    assert_eq!(r.error, Some("trap".to_string()));
    assert_eq!(r.fuel, 99);
}

#[test]
fn fuel_budget_is_padded_limit() {
    assert_eq!(fuel_budget(&test(0, 0, Some(20)), 50), Some(1000));
    assert_eq!(fuel_budget(&test(0, 0, None), 50), None);
}

#[test]
fn run_within_fuel_limit() {
    let (r, out) = judge_run(test(0, 3, Some(100)), Ok((int_value(3), "hi".to_string(), 100)), false)
        .unwrap();
    assert!(r.success);
    assert_eq!(r.error, None);
    assert_eq!(out, "hi");
    assert_eq!(r.fuel, 100);
}

#[test]
fn run_over_fuel_limit() {
    let (r, _) = judge_run(test(0, 3, Some(100)), Ok((int_value(3), String::new(), 101)), false)
        .unwrap();
    assert!(!r.success);
    assert_eq!(r.error, Some("Fuel limit exceeded".to_string()));
    assert_eq!(r.output, Some(int_value(3)));
}

#[test]
fn run_without_limit_uses_max_fuel() {
    let (r, _) = judge_run(test(0, 3, None), Ok((int_value(3), String::new(), MAX_FUEL as u64)), false)
        .unwrap();
    assert!(r.success);
    let (r, _) = judge_run(test(0, 3, None), Ok((int_value(3), String::new(), MAX_FUEL as u64 + 1)), false)
        .unwrap();
    assert!(!r.success);
}

#[test]
fn runtime_error_is_given_back() {
    let e = RunnerError::RuntimeError { message: "unreachable".to_string() };
    assert_eq!(judge_run(test(4, 3, Some(10)), Err(e.clone()), false), Err(e));
}

#[test]
fn other_errors_pass_through() {
    let e = RunnerError::InternalServerError { message: "Failed to open file".to_string() };
    assert_eq!(judge_run(test(0, 0, None), Err(e.clone()), false), Err(e));
}

#[test]
fn test_results_failed_first_in_index_order() {
    let mut results = TestResults::new();
    results.insert(result(3, true, 1));
    results.insert(result(1, false, 1));
    results.insert(result(0, true, 1));
    results.insert(result(2, false, 1));
    results.insert(result(1, false, 7));
    results.set_runtime(12);
    let response = results.into_response();
    let order: Vec<(i64, bool)> = response.tests.iter().map(|t| (t.index, t.success)).collect();
    assert_eq!(order, vec![(1, false), (2, false), (0, true), (3, true)]);
    assert_eq!(response.tests[0].fuel, 1);
    assert!(!response.passed);
    assert_eq!(response.runtime, 12);
}

#[test]
fn summarize_sums_fuel() {
    let response = summarize(vec![result(1, true, 10), result(0, true, 5)]);
    assert!(response.passed);
    assert_eq!(response.runtime, 15);
    let order: Vec<i64> = response.tests.iter().map(|t| t.index).collect();
    assert_eq!(order, vec![0, 1]);
    let response = summarize(vec![result(0, true, 10), result(1, false, 5)]);
    assert!(!response.passed);
    assert_eq!(response.tests[0].index, 1);
    let empty = summarize(vec![]);
    assert!(empty.passed);
    assert_eq!(empty.runtime, 0);
}

#[test]
fn reuse_build_when_source_unchanged() {
    let source = "int main() { return 0; }";
    assert!(can_reuse_build(true, Some(source.as_bytes()), source));
    assert!(!can_reuse_build(true, Some(b"int main() {}"), source));
    assert!(!can_reuse_build(false, Some(source.as_bytes()), source));
    assert!(!can_reuse_build(true, None, source));
}

#[test]
fn paths_of_a_build() {
    let (wasm, cpp) = build_paths("/tmp/acm/submissions/1/2");
    assert_eq!(wasm, "/tmp/acm/submissions/1/2/out.wasm");
    assert_eq!(cpp, "/tmp/acm/submissions/1/2/implementation.cpp");
}

#[test]
fn transpose_swaps_rows_and_columns() {
    let m = vec![vec![1, 2, 3], vec![4, 5, 6]];
    assert_eq!(transpose(m), vec![vec![1, 4], vec![2, 5], vec![3, 6]]);
    let ragged = vec![vec!['a'], vec!['b', 'c']];
    assert_eq!(transpose(ragged), vec![vec!['a', 'b']]);
}

#[test]
fn complexity_classes_are_ordered_from_slowest() {
    assert!(AsymptoticComplexity::Exponential < AsymptoticComplexity::Quadratic);
    assert!(AsymptoticComplexity::Linear < AsymptoticComplexity::Constant);
    assert!(AsymptoticComplexity::LogLinear > AsymptoticComplexity::Quadratic);
}

#[test]
fn fuel_given_to_a_run() {
    assert_eq!(acm::judge::run_fuel(Some(500)), 500);
    assert_eq!(acm::judge::run_fuel(None), MAX_FUEL as u64);
}

#[test]
fn outcome_of_a_run() {
    let ok = acm::judge::run_outcome(Ok((int_value(4), 12)), b"printed\n").unwrap();
    assert_eq!(ok, (int_value(4), "printed\n".to_string(), 12));
    let lossy = acm::judge::run_outcome(Ok((int_value(4), 1)), &[b'a', 0xff, b'b']).unwrap();
    assert_eq!(lossy.1, "a\u{fffd}b");
    assert_eq!(
        acm::judge::run_outcome(Err("trap: unreachable".to_string()), b""),
        Err(RunnerError::RuntimeError { message: "trap: unreachable".to_string() })
    );
}

#[test]
fn report_holds_every_result_once() {
    let tests = vec![result(5, true, 1), result(2, false, 1), result(9, false, 1), result(0, true, 1)];
    let r = summarize(tests);
    let order: Vec<(i64, bool)> = r.tests.iter().map(|t| (t.index, t.success)).collect();
    assert_eq!(order, vec![(2, false), (9, false), (0, true), (5, true)]);
    assert!(!r.passed);
}

#[test]
fn hidden_results_show_no_details() {
    let mut r = result(1, true, 3);
    assert!(r.shows_details());
    r.hidden = true;
    assert!(!r.shows_details());
}
