use falconcore::pipeline::{FalconError, Outcome, run_source};
use falconcore::lexer::LexErrorKind;
use falconcore::parser::ParseError;
use falconcore::vm::RuntimeError;

fn lines(o: &Outcome) -> Vec<&str> {
    o.output.iter().map(|s| s.as_str()).collect()
}

#[test]
fn print_number_literals_in_decimal() {
    for src in ["print 0", "print 7", "print 42", "print 1000", "print 9223372036854775807"] {
        let o = run_source(src);
        assert!(o.error.is_none(), "{src}");
        assert_eq!(lines(&o), vec![&src[6..]]);
    }
}

#[test]
fn print_number_with_leading_zeros() {
    let o = run_source("print 007");
    assert!(o.error.is_none());
    assert_eq!(lines(&o), vec!["7"]);
}

#[test]
fn secure_let_then_print() {
    let o = run_source("secure let x = 2 + 3\nprint x");
    assert!(o.error.is_none());
    assert_eq!(lines(&o), vec!["5"]);
}

#[test]
fn secure_const_and_subtraction() {
    let o = run_source("secure const y = 10 - 4 - 1\nprint y");
    assert!(o.error.is_none());
    assert_eq!(lines(&o), vec!["5"]);
}

#[test]
fn if_zero_takes_else_branch() {
    let o = run_source("if 0 { print \"a\" } else { print \"b\" }");
    assert!(o.error.is_none());
    assert_eq!(lines(&o), vec!["b"]);
}

#[test]
fn if_one_takes_then_branch() {
    let o = run_source("if 1 { print \"a\" } else { print \"b\" }");
    assert!(o.error.is_none());
    assert_eq!(lines(&o), vec!["a"]);
}

#[test]
fn if_without_else_then_continues() {
    let o = run_source("if 0 { print 1 }\nprint 2");
    assert!(o.error.is_none());
    assert_eq!(lines(&o), vec!["2"]);
}

#[test]
fn repeat_three_times() {
    let o = run_source("repeat 3 { print 1 }");
    assert!(o.error.is_none());
    assert_eq!(lines(&o), vec!["1", "1", "1"]);
}

#[test]
fn repeat_zero_times_skips_body() {
    let o = run_source("repeat 0 { print 1 }\nprint 2");
    assert!(o.error.is_none());
    assert_eq!(lines(&o), vec!["2"]);
}

#[test]
fn nested_repeat() {
    let o = run_source("repeat 2 { repeat 3 { print 1 } print 2 }");
    assert!(o.error.is_none());
    assert_eq!(lines(&o), vec!["1", "1", "1", "2", "1", "1", "1", "2"]);
}

#[test]
fn function_call_is_repeatable() {
    let o = run_source("fn add(a, b) { return a + b }\nprint add(2, 3)\nprint add(2, 3)\nprint add(2, 3)");
    assert!(o.error.is_none());
    assert_eq!(lines(&o), vec!["5", "5", "5"]);
}

#[test]
fn function_body_is_not_run_when_defined() {
    let o = run_source("fn f() { print \"inside\" }\nprint \"outside\"");
    assert!(o.error.is_none());
    assert_eq!(lines(&o), vec!["outside"]);
}

#[test]
fn function_restores_caller_variables() {
    let o = run_source("secure let a = 1\nfn f(a) { print a }\nf(9)\nprint a");
    assert!(o.error.is_none());
    assert_eq!(lines(&o), vec!["9", "1"]);
}

#[test]
fn function_reads_globals() {
    let o = run_source("secure let g = 40\nfn f(x) { return g + x }\nprint f(2)");
    assert!(o.error.is_none());
    assert_eq!(lines(&o), vec!["42"]);
}

#[test]
fn return_inside_loop_in_function() {
    let o = run_source("fn f() { repeat 5 { return 7 } }\nrepeat 2 { print f() }");
    assert!(o.error.is_none());
    assert_eq!(lines(&o), vec!["7", "7"]);
}

#[test]
fn strings_print_verbatim() {
    let o = run_source("print \"hello world\"");
    assert!(o.error.is_none());
    assert_eq!(lines(&o), vec!["hello world"]);
}

#[test]
fn wrong_argument_count_is_reported() {
    let o = run_source("fn add(a, b) { return a + b }\nprint add(1)");
    assert!(matches!(o.error, Some(FalconError::Runtime(RuntimeError::ArgumentCount { expected: 2, found: 1, .. }))));
    let fresh = run_source("print 1");
    assert!(fresh.error.is_none());
    assert_eq!(lines(&fresh), vec!["1"]);
}

#[test]
fn undefined_variable_is_reported() {
    let o = run_source("print 1\nprint y");
    match &o.error {
        Some(FalconError::Runtime(RuntimeError::UndefinedVariable { name, ip })) => {
            assert_eq!(name, "y");
            assert_eq!(*ip, 2);
        }
        other => panic!("unexpected: {other:?}"),
    }
    assert_eq!(lines(&o), vec!["1"]);
    let fresh = run_source("secure let y = 3\nprint y");
    assert_eq!(lines(&fresh), vec!["3"]);
}

#[test]
fn undefined_function_is_reported() {
    let o = run_source("print g(1)");
    assert!(matches!(o.error, Some(FalconError::Runtime(RuntimeError::UndefinedFunction { .. }))));
}

#[test]
fn adding_a_string_is_a_type_error() {
    let o = run_source("print \"a\" + 1");
    assert!(matches!(o.error, Some(FalconError::Runtime(RuntimeError::TypeMismatch { .. }))));
}

#[test]
fn overflow_is_reported() {
    let o = run_source("print 9223372036854775807 + 1");
    assert!(matches!(o.error, Some(FalconError::Runtime(RuntimeError::Overflow { .. }))));
}

#[test]
fn unterminated_string_fails_lexing() {
    let o = run_source("print \"abc");
    match &o.error {
        Some(FalconError::Lex(e)) => {
            assert_eq!(e.kind, LexErrorKind::UnterminatedString);
            assert_eq!((e.line, e.column), (1, 7));
        }
        other => panic!("unexpected: {other:?}"),
    }
    assert!(o.output.is_empty());
}

#[test]
fn unclosed_block_fails_parsing() {
    let o = run_source("if 1 { print 1");
    assert!(matches!(o.error, Some(FalconError::Parse(ParseError::UnexpectedEof { .. }))));
    let o = run_source("repeat 2 {\n print 1\n");
    assert!(matches!(o.error, Some(FalconError::Parse(ParseError::UnexpectedEof { .. }))));
    let o = run_source("fn f(a) {");
    assert!(matches!(o.error, Some(FalconError::Parse(ParseError::UnexpectedEof { .. }))));
}

#[test]
fn missing_expression_is_a_syntax_error() {
    let o = run_source("print }");
    assert!(matches!(o.error, Some(FalconError::Parse(ParseError::ExpectedExpression { .. }))));
}

#[test]
fn let_without_name_is_a_syntax_error() {
    let o = run_source("secure let = 1");
    assert!(matches!(o.error, Some(FalconError::Parse(ParseError::ExpectedIdentifier { .. }))));
}

#[test]
fn let_without_assign_is_a_syntax_error() {
    let o = run_source("secure let x 1");
    assert!(matches!(o.error, Some(FalconError::Parse(ParseError::UnexpectedToken { .. }))));
}

#[test]
fn network_scan_does_not_compile() {
    let o = run_source("network.scan \"10.0.0\"");
    assert!(matches!(o.error, Some(FalconError::Compile(falconcore::compiler::CompileError::UnsupportedNetworkScan))));
}

#[test]
fn duplicate_function_does_not_compile() {
    let o = run_source("fn f() { }\nfn f() { }");
    assert!(matches!(o.error, Some(FalconError::Compile(falconcore::compiler::CompileError::DuplicateFunction(_)))));
}
