//! The whole pipeline: source text in, printed lines and the first error out.

use crate::compiler::{
    CState, CompileError, CompileErrorView, Compiler, Op, Val, c_block, c_expr, c_program, emit, empty_state,
    load_const,
};
use crate::lexer::{
    Kind, LexError, LexErrorKind, TokenView, digits_end, ident_end, keyword, lex, lex_from, number_token, scan,
    skip_ws, token_at, tokenize, word_token,
};
use crate::parser::{
    Ast, ParseError, ParseErrorView, Parser, p_expr, p_factor, p_program, p_statement, p_terms, parse_tokens,
};
use crate::text::{is_digit, lemma_nat_decimal_digits, nat_decimal};
use crate::vm::{
    MState, Prog, RuntimeError, RuntimeErrorView, VM, initial_state, lines_of, render, run_program, run_steps, step,
};
use vstd::prelude::*;

verus! {

/// The first error of a run, tagged with the stage that raised it.
#[derive(Debug, Clone)]
pub enum FalconError {
    Lex(LexError),
    Parse(ParseError),
    Compile(CompileError),
    Runtime(RuntimeError),
}

pub enum FalconErrorView {
    Lex(LexError),
    Parse(ParseErrorView),
    Compile(CompileErrorView),
    Runtime(RuntimeErrorView),
}

impl View for FalconError {
    type V = FalconErrorView;

    open spec fn view(&self) -> FalconErrorView {
        match self {
            FalconError::Lex(e) => FalconErrorView::Lex(*e),
            FalconError::Parse(e) => FalconErrorView::Parse(e@),
            FalconError::Compile(e) => FalconErrorView::Compile(e@),
            FalconError::Runtime(e) => FalconErrorView::Runtime(e@),
        }
    }
}

/// What a run printed, and the error that ended it, if any.
#[derive(Debug, Clone)]
pub struct Outcome {
    pub output: Vec<String>,
    pub error: Option<FalconError>,
}

pub open spec fn prog_of(st: CState) -> Prog {
    Prog { consts: st.consts, code: st.code, funcs: st.funcs }
}

/// Lexing, parsing, compiling and running a text: the lines printed, and the
/// first error. Nothing runs unless the earlier stages succeed.
pub open spec fn run_text(s: Seq<char>) -> (Seq<Seq<char>>, Option<FalconErrorView>) {
    match lex(s) {
        Err(e) => (Seq::empty(), Some(FalconErrorView::Lex(e))),
        Ok(toks) => match parse_tokens(toks) {
            Err(e) => (Seq::empty(), Some(FalconErrorView::Parse(e))),
            Ok(ast) => match c_program(ast, empty_state()) {
                Err(e) => (Seq::empty(), Some(FalconErrorView::Compile(e))),
                Ok(st) => {
                    let (out, err) = run_program(prog_of(st));
                    (
                        out,
                        match err {
                            Some(e) => Some(FalconErrorView::Runtime(e)),
                            None => None,
                        },
                    )
                },
            },
        },
    }
}

pub open spec fn outcome_view(r: Outcome) -> (Seq<Seq<char>>, Option<FalconErrorView>) {
    (
        lines_of(r.output@),
        match r.error {
            Some(e) => Some(e@),
            None => None,
        },
    )
}

/// Runs a program given as text on a fresh machine.
pub fn run_source(src: &str) -> (r: Outcome)
    requires
        src@.len() < usize::MAX,
    ensures
        outcome_view(r) == run_text(src@),
{
    let tokens = match tokenize(src) {
        Ok(t) => t,
        Err(e) => {
            let r = Outcome { output: Vec::new(), error: Some(FalconError::Lex(e)) };
            assert(lines_of(r.output@) =~= Seq::<Seq<char>>::empty());
            return r;
        },
    };
    let mut parser = Parser::new(tokens);
    let ast = match parser.parse() {
        Ok(a) => a,
        Err(e) => {
            let r = Outcome { output: Vec::new(), error: Some(FalconError::Parse(e)) };
            assert(lines_of(r.output@) =~= Seq::<Seq<char>>::empty());
            return r;
        },
    };
    let mut compiler = Compiler::new();
    match compiler.compile(ast) {
        Ok(()) => {},
        Err(e) => {
            let r = Outcome { output: Vec::new(), error: Some(FalconError::Compile(e)) };
            assert(lines_of(r.output@) =~= Seq::<Seq<char>>::empty());
            return r;
        },
    }
    let ghost st = compiler@;
    let (constants, code, functions) = compiler.into_parts();
    let mut vm = VM::new(constants, code, functions);
    let result = vm.run();
    let printed = vm.output();
    let output = printed.clone();
    assert(lines_of(output@) =~= lines_of(printed@));
    let error = match result {
        Ok(()) => None,
        Err(e) => Some(FalconError::Runtime(e)),
    };
    Outcome { output, error }
}

} // verus!

verus! {

/// The text `print n`, for a numeric literal `n` written in decimal.
pub open spec fn print_source(n: nat) -> Seq<char> {
    seq!['p', 'r', 'i', 'n', 't', ' '] + nat_decimal(n)
}

proof fn lemma_digits_to_end(s: Seq<char>, p: int)
    requires
        0 <= p <= s.len(),
        forall|i: int| p <= i < s.len() ==> is_digit(#[trigger] s[i]),
    ensures
        digits_end(s, p) == s.len(),
    decreases s.len() - p,
{
    if p < s.len() {
        lemma_digits_to_end(s, p + 1);
    }
}

/// The tokens of `print n`.
proof fn lemma_lex_print_literal(n: i64) -> (toks: Seq<TokenView>)
    requires
        0 <= n,
    ensures
        lex(print_source(n as nat)) == Ok::<Seq<TokenView>, LexError>(toks),
        toks.len() == 3,
        toks[0].kind == Kind::Print,
        toks[1].kind == Kind::Number(n),
        toks[2].kind == Kind::Eof,
{
    let d = nat_decimal(n as nat);
    let s = print_source(n as nat);
    lemma_nat_decimal_digits(n as nat);
    assert(s.len() == 6 + d.len());
    assert(s[0] == 'p' && s[1] == 'r' && s[2] == 'i' && s[3] == 'n' && s[4] == 't' && s[5] == ' ');
    assert forall|i: int| 6 <= i < s.len() implies is_digit(#[trigger] s[i]) by {
        assert(s[i] == d[i - 6]);
    }
    assert(skip_ws(s, 0) == 0);
    assert(ident_end(s, 5) == 5);
    assert(ident_end(s, 4) == 5);
    assert(ident_end(s, 3) == 5);
    assert(ident_end(s, 2) == 5);
    assert(ident_end(s, 1) == 5);
    assert(ident_end(s, 0) == 5);
    let w = s.subrange(0, 5);
    assert(w =~= seq!['p', 'r', 'i', 'n', 't']);
    assert(w != seq!['e', 'n', 'd', 'i', 'f']) by {
        assert(w[0] != seq!['e', 'n', 'd', 'i', 'f'][0]);
    }
    assert(w != seq!['b', 'r', 'e', 'a', 'k']) by {
        assert(w[0] != seq!['b', 'r', 'e', 'a', 'k'][0]);
    }
    assert(keyword(w) == Some(Kind::Print));
    assert(word_token(s, 0, 5) == (Kind::Print, 5int));
    assert(scan(s, 0) == Ok::<(Kind, int, int), LexError>((Kind::Print, 0, 5)));
    assert(skip_ws(s, 6) == 6);
    assert(skip_ws(s, 5) == 6);
    lemma_digits_to_end(s, 6);
    assert(s.subrange(6, s.len() as int) =~= d);
    assert(number_token(s, 6) == Ok::<(Kind, int), LexErrorKind>((Kind::Number(n), s.len() as int)));
    assert(scan(s, 5) == Ok::<(Kind, int, int), LexError>((Kind::Number(n), 6, s.len() as int)));
    assert(skip_ws(s, s.len() as int) == s.len());
    let t0 = token_at(s, Kind::Print, 0);
    let t1 = token_at(s, Kind::Number(n), 6);
    let t2 = token_at(s, Kind::Eof, s.len() as int);
    assert(lex_from(s, s.len() as int) == Ok::<Seq<TokenView>, LexError>(seq![t2]));
    assert(lex_from(s, 5) == Ok::<Seq<TokenView>, LexError>(seq![t1] + seq![t2]));
    assert(lex_from(s, 0) == Ok::<Seq<TokenView>, LexError>(seq![t0] + (seq![t1] + seq![t2])));
    let toks = seq![t0, t1, t2];
    assert(seq![t0] + (seq![t1] + seq![t2]) =~= toks);
    toks
}

/// Lexing, parsing and running `print n` prints exactly the decimal form of
/// `n`, for every numeric literal `n`.
pub proof fn lemma_print_literal(n: i64)
    requires
        0 <= n,
    ensures
        run_text(print_source(n as nat)) == (seq![nat_decimal(n as nat)], None::<FalconErrorView>),
{
    let toks = lemma_lex_print_literal(n);
    assert(p_factor(toks, 1) == Ok::<(Ast, int), ParseErrorView>((Ast::Number(n), 2)));
    assert(p_terms(toks, 2, Ast::Number(n)) == Ok::<(Ast, int), ParseErrorView>((Ast::Number(n), 2)));
    assert(p_expr(toks, 1) == Ok::<(Ast, int), ParseErrorView>((Ast::Number(n), 2)));
    let stmt = Ast::Print { expr: Box::new(Ast::Number(n)) };
    assert(p_statement(toks, 0) == Ok::<(Ast, int), ParseErrorView>((stmt, 2)));
    assert(p_program(toks, 2) == Ok::<Seq<Ast>, ParseErrorView>(Seq::empty()));
    let ast = seq![stmt];
    assert(seq![stmt] + Seq::<Ast>::empty() =~= ast);
    assert(parse_tokens(toks) == Ok::<Seq<Ast>, ParseErrorView>(ast));
    let st0 = empty_state();
    let s1 = load_const(st0, Val::Number(n));
    assert(c_expr(Ast::Number(n), st0) == Ok::<CState, CompileErrorView>(s1));
    let s2 = emit(s1, Op::Print);
    assert(c_expr(stmt, st0) == Ok::<CState, CompileErrorView>(s2));
    assert(ast.drop_last() =~= Seq::<Ast>::empty());
    assert(c_block(ast.drop_last(), st0) == Ok::<CState, CompileErrorView>(st0));
    assert(c_block(ast, st0) == Ok::<CState, CompileErrorView>(s2));
    let st = emit(s2, Op::Return);
    assert(c_program(ast, st0) == Ok::<CState, CompileErrorView>(st));
    let p = prog_of(st);
    assert(p.code =~= seq![Op::LoadConst(0), Op::Print, Op::Return]);
    assert(p.consts =~= seq![Val::Number(n)]);
    let m0 = initial_state();
    let m1 = MState { ip: 1, stack: seq![Val::Number(n)], ..m0 };
    assert(m0.stack.push(p.consts[0]) =~= m1.stack);
    assert(step(p, m0) == Ok::<MState, RuntimeErrorView>(m1));
    let m2 = MState { ip: 2, output: seq![render(Val::Number(n))], ..m0 };
    assert(m1.stack.drop_last() =~= m2.stack);
    assert(m0.output.push(render(Val::Number(n))) =~= m2.output);
    assert(step(p, m1) == Ok::<MState, RuntimeErrorView>(m2));
    let m3 = MState { halted: true, ..m2 };
    assert(step(p, m2) == Ok::<MState, RuntimeErrorView>(m3));
    let fuel = u64::MAX as nat;
    assert(run_steps(p, m3, (fuel - 3) as nat) == (m3.output, None::<RuntimeErrorView>));
    assert(run_steps(p, m2, (fuel - 2) as nat) == (m3.output, None::<RuntimeErrorView>));
    assert(run_steps(p, m1, (fuel - 1) as nat) == (m3.output, None::<RuntimeErrorView>));
    assert(run_steps(p, m0, fuel) == (m3.output, None::<RuntimeErrorView>));
    assert(render(Val::Number(n)) == nat_decimal(n as nat));
}

} // verus!
