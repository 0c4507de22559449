use acm::diagnostics::{
    diagnostic_from_str, parse_cplusplus_error, parse_number, process_file, Diagnostic,
    DiagnosticType, RunnerError, HEADER_LINES,
};

fn chars(s: &str) -> Vec<char> {
    s.chars().collect()
}

#[test]
fn parse_number_reads_digits_and_the_next_character() {
    let cs = chars("12:34");
    let mut pos = 0;
    assert_eq!(parse_number(&cs, &mut pos), 12);
    assert_eq!(pos, 3);
    assert_eq!(parse_number(&cs, &mut pos), 34);
    assert_eq!(pos, 5);
}

#[test]
fn parse_number_without_digits() {
    let cs = chars("x5");
    let mut pos = 0;
    assert_eq!(parse_number(&cs, &mut pos), 0);
    assert_eq!(pos, 1);
    let mut end = 2;
    assert_eq!(parse_number(&cs, &mut end), 0);
    assert_eq!(end, 2);
}

#[test]
fn parse_number_wraps_around() {
    let cs = chars("18446744073709551616");
    let mut pos = 0;
    let n = parse_number(&cs, &mut pos);
    if usize::BITS == 64 {
        assert_eq!(n, 0);
    }
    assert_eq!(pos, 20);
}

#[test]
fn process_file_puts_header_first() {
    assert_eq!(process_file("#include <x>\n", "int main() {}"), "#include <x>\nint main() {}");
}

#[test]
fn diagnostic_of_error_line() {
    let line = "/tmp/acm/submissions/1/41/implementation.cpp:50:12: error: no viable conversion from 'int' to 'std::string'";
    let d = diagnostic_from_str(line).unwrap().unwrap();
    assert_eq!(
        d,
        Diagnostic {
            line: 50 - HEADER_LINES,
            col: 12,
            diagnostic_type: DiagnosticType::Error,
            message: "no viable conversion from 'int' to 'std::string'".to_string(),
        }
    );
}

#[test]
fn diagnostic_kinds() {
    let w = diagnostic_from_str("/a/implementation.cpp:40:1: warning: unused variable 'x'")
        .unwrap()
        .unwrap();
    assert_eq!(w.diagnostic_type, DiagnosticType::Warning);
    assert_eq!(w.line, 1);
    assert_eq!(w.message, "unused variable 'x'");
    let n = diagnostic_from_str("/a/implementation.cpp:39:7: note: candidate here")
        .unwrap()
        .unwrap();
    assert_eq!(n.diagnostic_type, DiagnosticType::Note);
    assert_eq!(n.line, 0);
    assert_eq!(n.col, 7);
}

#[test]
fn lines_that_hold_no_diagnostic() {
    assert_eq!(diagnostic_from_str("1 error generated."), Ok(None));
    assert_eq!(diagnostic_from_str("/a/header.h:50:1: error: x"), Ok(None));
    assert_eq!(diagnostic_from_str("a/implementation.cpp:50:1: error: x"), Ok(None));
    assert_eq!(diagnostic_from_str("/a/implementation.cpp:38:1: error: in the header"), Ok(None));
    assert_eq!(diagnostic_from_str("/usr/include/c++/v1/other.cpp:50:3: error: boom"), Ok(None));
    assert_eq!(diagnostic_from_str("/a/not_implementation.cpp:50:3: error: boom"), Ok(None));
    assert_eq!(diagnostic_from_str("/a/b.cpp:50:3: error: see /a/implementation.cpp"), Ok(None));
}

#[test]
fn diagnostic_at_end_of_line() {
    let d = diagnostic_from_str("/x/implementation.cpp:45").unwrap().unwrap();
    assert_eq!(d.line, 6);
    assert_eq!(d.col, 0);
    assert_eq!(d.diagnostic_type, DiagnosticType::Note);
    assert_eq!(d.message, "");
}

#[test]
fn compilation_error_collects_diagnostics() {
    let err = "/t/implementation.cpp:41:3: error: expected ';'\r\n    foo()\n/t/implementation.cpp:2:1: note: in header\n/t/implementation.cpp:60:9: warning: unused\n2 errors generated.\n";
    match parse_cplusplus_error(err) {
        RunnerError::CompilationError { diagnostics } => {
            assert_eq!(diagnostics.len(), 2);
            assert_eq!(diagnostics[0].line, 2);
            assert_eq!(diagnostics[0].col, 3);
            assert_eq!(diagnostics[0].diagnostic_type, DiagnosticType::Error);
            assert_eq!(diagnostics[0].message, "expected ';'");
            assert_eq!(diagnostics[1].line, 21);
            assert_eq!(diagnostics[1].col, 9);
            assert_eq!(diagnostics[1].diagnostic_type, DiagnosticType::Warning);
            assert_eq!(diagnostics[1].message, "unused");
        }
        other => panic!("unexpected {:?}", other),
    }
}

#[test]
fn compilation_error_without_diagnostics() {
    assert_eq!(
        parse_cplusplus_error(""),
        RunnerError::CompilationError { diagnostics: vec![] }
    );
}
