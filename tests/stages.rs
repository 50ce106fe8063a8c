use falconcore::compiler::{CompileError, Compiler, FunctionEntry, Opcode, Value};
use falconcore::lexer::{LexErrorKind, Lexer, TokenType, tokenize};
use falconcore::network::NetworkStack;
use falconcore::parser::{Expr, Parser};
use falconcore::text::decimal_string;
use falconcore::vm::{RuntimeError, VM, render_value};

fn kinds(src: &str) -> Vec<TokenType> {
    tokenize(src).unwrap().into_iter().map(|t| t.kind).collect()
}

fn parse(src: &str) -> Vec<Expr> {
    Parser::new(tokenize(src).unwrap()).parse().unwrap()
}

fn compile(ast: Vec<Expr>) -> Compiler {
    let mut c = Compiler::new();
    c.compile(ast).unwrap();
    c
}

fn run(constants: Vec<Value>, code: Vec<Opcode>) -> (Vec<String>, Result<(), RuntimeError>) {
    let mut vm = VM::new(constants, code, vec![]);
    let r = vm.run();
    (vm.output().clone(), r)
}

#[test]
fn lexer_keywords_and_operators() {
    assert_eq!(
        kinds("fn return if elseif else endif repeat endrepeat break continue print wait"),
        vec![
            TokenType::Fn,
            TokenType::Return,
            TokenType::If,
            TokenType::ElseIf,
            TokenType::Else,
            TokenType::EndIf,
            TokenType::Repeat,
            TokenType::EndRepeat,
            TokenType::Break,
            TokenType::Continue,
            TokenType::Print,
            TokenType::Wait,
            TokenType::Eof,
        ]
    );
    assert_eq!(
        kinds("+ - * / == != > < >= <= = ( ) { } [ ] , : ;"),
        vec![
            TokenType::Plus,
            TokenType::Minus,
            TokenType::Star,
            TokenType::Slash,
            TokenType::EqualEqual,
            TokenType::NotEqual,
            TokenType::Greater,
            TokenType::Less,
            TokenType::GreaterEqual,
            TokenType::LessEqual,
            TokenType::Assign,
            TokenType::LParen,
            TokenType::RParen,
            TokenType::LBrace,
            TokenType::RBrace,
            TokenType::LBracket,
            TokenType::RBracket,
            TokenType::Comma,
            TokenType::Colon,
            TokenType::Semi,
            TokenType::Eof,
        ]
    );
}

#[test]
fn lexer_compound_keywords() {
    assert_eq!(
        kinds("secure let secure const network.scan crypto.random time.now network .scan"),
        vec![
            TokenType::SecureLet,
            TokenType::SecureConst,
            TokenType::NetworkScan,
            TokenType::CryptoRandom,
            TokenType::TimeNow,
            TokenType::NetworkScan,
            TokenType::Eof,
        ]
    );
}

#[test]
fn lexer_backtracks_on_partial_compound() {
    assert_eq!(
        kinds("secure letter"),
        vec![TokenType::Identifier("secure".to_string()), TokenType::Identifier("letter".to_string()), TokenType::Eof]
    );
    assert_eq!(
        kinds("secure x"),
        vec![TokenType::Identifier("secure".to_string()), TokenType::Identifier("x".to_string()), TokenType::Eof]
    );
    let err = tokenize("time.nowhere").unwrap_err();
    assert_eq!(err.kind, LexErrorKind::UnexpectedChar('.'));
    assert_eq!((err.line, err.column), (1, 5));
}

#[test]
fn lexer_numbers() {
    assert_eq!(kinds("12 3.14"), vec![TokenType::Number(12), TokenType::Float("3.14".to_string()), TokenType::Eof]);
    assert_eq!(tokenize("1.2.3").unwrap_err().kind, LexErrorKind::MalformedNumber);
    assert_eq!(tokenize("99999999999999999999").unwrap_err().kind, LexErrorKind::MalformedNumber);
    assert_eq!(kinds("9223372036854775807"), vec![TokenType::Number(i64::MAX), TokenType::Eof]);
    assert_eq!(tokenize("9223372036854775808").unwrap_err().kind, LexErrorKind::MalformedNumber);
}

#[test]
fn lexer_strings_and_identifiers() {
    assert_eq!(
        kinds("\"a b\" name_1"),
        vec![TokenType::String("a b".to_string()), TokenType::Identifier("name_1".to_string()), TokenType::Eof]
    );
    assert_eq!(kinds("\"\""), vec![TokenType::String(String::new()), TokenType::Eof]);
}

#[test]
fn lexer_unexpected_character() {
    let err = tokenize("print @").unwrap_err();
    assert_eq!(err.kind, LexErrorKind::UnexpectedChar('@'));
    assert_eq!((err.line, err.column), (1, 7));
    assert_eq!(tokenize("!").unwrap_err().kind, LexErrorKind::UnexpectedChar('!'));
}

#[test]
fn lexer_positions() {
    let toks = tokenize("print 1\n  x").unwrap();
    let pos: Vec<(usize, usize)> = toks.iter().map(|t| (t.line, t.column)).collect();
    assert_eq!(pos, vec![(1, 1), (1, 7), (2, 3), (2, 4)]);
}

#[test]
fn lexer_next_token_repeats_eof() {
    let mut lexer = Lexer::new("x");
    assert_eq!(lexer.next_token().unwrap().kind, TokenType::Identifier("x".to_string()));
    assert_eq!(lexer.next_token().unwrap().kind, TokenType::Eof);
    assert_eq!(lexer.next_token().unwrap().kind, TokenType::Eof);
}

#[test]
fn parser_builds_left_nested_sums() {
    let ast = parse("print 1 + 2 - 3");
    assert_eq!(ast.len(), 1);
    match &ast[0] {
        Expr::Print { expr } => match &**expr {
            Expr::Binary { left, op: TokenType::Minus, right } => {
                assert!(matches!(**right, Expr::Number(3)));
                assert!(matches!(**left, Expr::Binary { op: TokenType::Plus, .. }));
            }
            other => panic!("unexpected: {other:?}"),
        },
        other => panic!("unexpected: {other:?}"),
    }
}

#[test]
fn parser_function_definition_and_call() {
    let ast = parse("fn add(a, b) { return a + b }\nadd(1, 2)");
    assert_eq!(ast.len(), 2);
    match &ast[0] {
        Expr::FnDef { name, params, body } => {
            assert_eq!(name, "add");
            assert_eq!(params, &vec!["a".to_string(), "b".to_string()]);
            assert_eq!(body.len(), 1);
        }
        other => panic!("unexpected: {other:?}"),
    }
    assert!(matches!(&ast[1], Expr::Call { name, args } if name == "add" && args.len() == 2));
}

#[test]
fn parser_return_without_value() {
    let ast = parse("fn f() { return }");
    match &ast[0] {
        Expr::FnDef { body, .. } => assert!(matches!(body[0], Expr::Return { value: None })),
        other => panic!("unexpected: {other:?}"),
    }
}

#[test]
fn compiler_emits_guarded_function_and_final_return() {
    let c = compile(parse("fn f(a) { print a }\nf(1)"));
    assert_eq!(
        c.get_code(),
        &vec![
            Opcode::Jump(4),
            Opcode::LoadVar("a".to_string()),
            Opcode::Print,
            Opcode::Return,
            Opcode::LoadConst(0),
            Opcode::Call("f".to_string(), 1),
            Opcode::Return,
        ]
    );
    assert_eq!(c.get_constants(), &vec![Value::Number(1)]);
    assert_eq!(c.get_functions().len(), 1);
    assert_eq!(c.get_functions()[0].start, 1);
}

#[test]
fn compiler_backpatches_if_else() {
    let c = compile(parse("if 1 { print 2 } else { print 3 }"));
    assert_eq!(
        c.get_code(),
        &vec![
            Opcode::LoadConst(0),
            Opcode::JumpIfFalse(5),
            Opcode::LoadConst(1),
            Opcode::Print,
            Opcode::Jump(7),
            Opcode::LoadConst(2),
            Opcode::Print,
            Opcode::Return,
        ]
    );
}

#[test]
fn compiler_repeat_targets_after_loop() {
    let c = compile(parse("repeat 2 { print 1 }"));
    assert_eq!(
        c.get_code(),
        &vec![
            Opcode::LoadConst(0),
            Opcode::RepeatStart(5),
            Opcode::LoadConst(1),
            Opcode::Print,
            Opcode::RepeatEnd,
            Opcode::Return,
        ]
    );
}

#[test]
fn compiling_twice_gives_identical_output() {
    let src = "secure let x = 1\nfn f(a, b) { return a + b }\nif x { print f(x, 2) } else { print \"no\" }\nrepeat 2 { print x }";
    let a = compile(parse(src));
    let b = compile(parse(src));
    assert_eq!(a.get_code(), b.get_code());
    assert_eq!(a.get_constants(), b.get_constants());
}

#[test]
fn compiler_rejects_unsupported_operator() {
    let ast = vec![Expr::Print {
        expr: Box::new(Expr::Binary {
            left: Box::new(Expr::Number(1)),
            op: TokenType::EqualEqual,
            right: Box::new(Expr::Number(1)),
        }),
    }];
    let mut c = Compiler::new();
    assert!(matches!(c.compile(ast), Err(CompileError::UnsupportedOperator(TokenType::EqualEqual))));
}

#[test]
fn division_by_zero_is_reported_and_fresh_run_is_clean() {
    let ast = vec![Expr::Print {
        expr: Box::new(Expr::Binary {
            left: Box::new(Expr::Number(1)),
            op: TokenType::Slash,
            right: Box::new(Expr::Number(0)),
        }),
    }];
    let c = compile(ast);
    let (constants, code, functions) = c.into_parts();
    let mut vm = VM::new(constants, code, functions);
    assert!(matches!(vm.run(), Err(RuntimeError::DivisionByZero { ip: 2 })));
    let ast = vec![Expr::Print {
        expr: Box::new(Expr::Binary {
            left: Box::new(Expr::Number(7)),
            op: TokenType::Slash,
            right: Box::new(Expr::Number(2)),
        }),
    }];
    let (constants, code, functions) = compile(ast).into_parts();
    let mut vm = VM::new(constants, code, functions);
    assert!(vm.run().is_ok());
    assert_eq!(vm.output(), &vec!["3".to_string()]);
}

#[test]
fn vm_arithmetic_and_logic() {
    let constants = vec![Value::Number(-7), Value::Number(2), Value::Number(0)];
    let code = vec![
        Opcode::LoadConst(0),
        Opcode::LoadConst(1),
        Opcode::Div,
        Opcode::Print,
        Opcode::LoadConst(0),
        Opcode::LoadConst(1),
        Opcode::Mul,
        Opcode::Print,
        Opcode::LoadConst(1),
        Opcode::LoadConst(2),
        Opcode::And,
        Opcode::Print,
        Opcode::LoadConst(1),
        Opcode::LoadConst(2),
        Opcode::Or,
        Opcode::Print,
        Opcode::LoadConst(2),
        Opcode::Not,
        Opcode::Print,
    ];
    let (out, r) = run(constants, code);
    assert!(r.is_ok());
    assert_eq!(out, vec!["-3", "-14", "0", "1", "1"]);
}

#[test]
fn vm_stack_underflow() {
    let (out, r) = run(vec![], vec![Opcode::Print]);
    assert!(matches!(r, Err(RuntimeError::StackUnderflow { ip: 0 })));
    assert!(out.is_empty());
}

#[test]
fn vm_bad_constant_and_unmatched_repeat_end() {
    let (_, r) = run(vec![], vec![Opcode::LoadConst(3)]);
    assert!(matches!(r, Err(RuntimeError::BadConstant { ip: 0 })));
    let (_, r) = run(vec![], vec![Opcode::RepeatEnd]);
    assert!(matches!(r, Err(RuntimeError::UnmatchedRepeatEnd { ip: 0 })));
}

#[test]
fn vm_division_overflow() {
    let (_, r) = run(
        vec![Value::Number(i64::MIN), Value::Number(-1)],
        vec![Opcode::LoadConst(0), Opcode::LoadConst(1), Opcode::Div],
    );
    assert!(matches!(r, Err(RuntimeError::Overflow { ip: 2 })));
}

#[test]
fn vm_string_condition_is_a_type_error() {
    let (_, r) = run(vec![Value::Str("x".to_string())], vec![Opcode::LoadConst(0), Opcode::JumpIfFalse(0)]);
    assert!(matches!(r, Err(RuntimeError::TypeMismatch { ip: 1 })));
}

#[test]
fn vm_step_limit() {
    let mut vm = VM::new(vec![], vec![Opcode::Jump(0)], vec![]);
    assert!(matches!(vm.run_with_limit(100), Err(RuntimeError::StepLimit)));
}

#[test]
fn vm_call_binds_arguments_in_order() {
    let functions = vec![FunctionEntry { name: "f".to_string(), params: vec!["a".to_string(), "b".to_string()], start: 5 }];
    let code = vec![
        Opcode::LoadConst(0),
        Opcode::LoadConst(1),
        Opcode::Call("f".to_string(), 2),
        Opcode::Print,
        Opcode::Return,
        Opcode::LoadVar("a".to_string()),
        Opcode::LoadVar("b".to_string()),
        Opcode::Sub,
        Opcode::Return,
    ];
    let mut vm = VM::new(vec![Value::Number(10), Value::Number(3)], code, functions);
    assert!(vm.run().is_ok());
    assert_eq!(vm.output(), &vec!["7".to_string()]);
}

#[test]
fn render_and_decimal() {
    assert_eq!(decimal_string(0), "0");
    assert_eq!(decimal_string(-42), "-42");
    assert_eq!(decimal_string(i64::MIN), "-9223372036854775808");
    assert_eq!(decimal_string(i64::MAX), "9223372036854775807");
    assert_eq!(render_value(&Value::Number(120)), "120");
    assert_eq!(render_value(&Value::Str("hi".to_string())), "hi");
}

#[test]
fn network_addresses_and_placeholders() {
    let net = NetworkStack::new();
    let found = net.scan("192.168.1");
    assert_eq!(found.len(), 25);
    assert_eq!(found[0], "192.168.1.10");
    assert_eq!(found[24], "192.168.1.250");
    let all = net.host_addresses("10.0.0");
    assert_eq!(all.len(), 254);
    assert_eq!(all[0], "10.0.0.1");
    assert_eq!(all[253], "10.0.0.254");
    assert_eq!(net.get_mac("10.0.0.5"), "00:14:22:xx:xx:xx (ARP placeholder for 10.0.0.5)");
    assert_eq!(net.arp_lookup("10.0.0.5"), "00:14:22:xx:xx:xx (ARP lookup placeholder for 10.0.0.5)");
}
