//! The parser: tokens to statements, by recursive descent with one token of
//! lookahead.
//!
//! Grammar, with `block := '{' statement* '}'`:
//!
//! ```text
//! statement := ('secure let' | 'secure const') IDENT '=' expr
//!            | 'print' expr
//!            | 'if' expr block ['else' block]
//!            | 'repeat' expr block
//!            | 'fn' IDENT '(' [IDENT [','] ...] ')' block
//!            | 'return' [expr]
//!            | 'network.scan' expr
//!            | expr
//! expr      := factor (('+' | '-') factor)*
//! factor    := NUMBER | STRING | IDENT | IDENT '(' [expr (',' expr)*] ')'
//! ```

use crate::lexer::{Kind, Token, TokenType, TokenView, tokens_view};
use vstd::prelude::*;

verus! {

/// A node of the syntax tree: an expression or a statement.
#[derive(Debug)]
pub enum Expr {
    Number(i64),
    String(String),
    Identifier(String),
    Binary { left: Box<Expr>, op: TokenType, right: Box<Expr> },
    Let { is_secure: bool, is_const: bool, name: String, value: Box<Expr> },
    Print { expr: Box<Expr> },
    If { condition: Box<Expr>, then_branch: Vec<Expr>, else_branch: Option<Vec<Expr>> },
    Repeat { times: Box<Expr>, body: Vec<Expr> },
    FnDef { name: String, params: Vec<String>, body: Vec<Expr> },
    Return { value: Option<Box<Expr>> },
    NetworkScan { subnet: Box<Expr> },
    Call { name: String, args: Vec<Expr> },
}

/// A syntax tree as a mathematical value.
pub enum Ast {
    Number(i64),
    Str(Seq<char>),
    Identifier(Seq<char>),
    Binary { left: Box<Ast>, op: Kind, right: Box<Ast> },
    Let { is_secure: bool, is_const: bool, name: Seq<char>, value: Box<Ast> },
    Print { expr: Box<Ast> },
    If { condition: Box<Ast>, then_branch: Seq<Ast>, else_branch: Option<Seq<Ast>> },
    Repeat { times: Box<Ast>, body: Seq<Ast> },
    FnDef { name: Seq<char>, params: Seq<Seq<char>>, body: Seq<Ast> },
    Return { value: Option<Box<Ast>> },
    NetworkScan { subnet: Box<Ast> },
    Call { name: Seq<char>, args: Seq<Ast> },
}

pub open spec fn names_view(v: Vec<String>) -> Seq<Seq<char>> {
    Seq::new(v@.len(), |i: int| v@[i]@)
}

pub open spec fn ast_of(e: Expr) -> Ast
    decreases e,
{
    match e {
        Expr::Number(n) => Ast::Number(n),
        Expr::String(s) => Ast::Str(s@),
        Expr::Identifier(s) => Ast::Identifier(s@),
        Expr::Binary { left, op, right } => Ast::Binary {
            left: Box::new(ast_of(*left)),
            op: op@,
            right: Box::new(ast_of(*right)),
        },
        Expr::Let { is_secure, is_const, name, value } => Ast::Let {
            is_secure,
            is_const,
            name: name@,
            value: Box::new(ast_of(*value)),
        },
        Expr::Print { expr } => Ast::Print { expr: Box::new(ast_of(*expr)) },
        Expr::If { condition, then_branch, else_branch } => Ast::If {
            condition: Box::new(ast_of(*condition)),
            then_branch: Seq::new(
                then_branch@.len(),
                |i: int| if 0 <= i < then_branch@.len() { ast_of(then_branch@[i]) } else { Ast::Number(0) },
            ),
            else_branch: match else_branch {
                Some(b) => Some(
                    Seq::new(b@.len(), |i: int| if 0 <= i < b@.len() { ast_of(b@[i]) } else { Ast::Number(0) }),
                ),
                None => None,
            },
        },
        Expr::Repeat { times, body } => Ast::Repeat {
            times: Box::new(ast_of(*times)),
            body: Seq::new(body@.len(), |i: int| if 0 <= i < body@.len() { ast_of(body@[i]) } else { Ast::Number(0) }),
        },
        Expr::FnDef { name, params, body } => Ast::FnDef {
            name: name@,
            params: names_view(params),
            body: Seq::new(body@.len(), |i: int| if 0 <= i < body@.len() { ast_of(body@[i]) } else { Ast::Number(0) }),
        },
        Expr::Return { value } => Ast::Return {
            value: match value {
                Some(v) => Some(Box::new(ast_of(*v))),
                None => None,
            },
        },
        Expr::NetworkScan { subnet } => Ast::NetworkScan { subnet: Box::new(ast_of(*subnet)) },
        Expr::Call { name, args } => Ast::Call {
            name: name@,
            args: Seq::new(args@.len(), |i: int| if 0 <= i < args@.len() { ast_of(args@[i]) } else { Ast::Number(0) }),
        },
    }
}

impl View for Expr {
    type V = Ast;

    open spec fn view(&self) -> Ast {
        ast_of(*self)
    }
}

pub open spec fn asts_of(v: Seq<Expr>) -> Seq<Ast> {
    v.map_values(|e: Expr| e@)
}

/// A syntax error, with the position of the token where it was found.
#[derive(Debug, Clone)]
pub enum ParseError {
    UnexpectedToken { expected: TokenType, found: TokenType, line: usize, column: usize },
    ExpectedExpression { found: TokenType, line: usize, column: usize },
    ExpectedIdentifier { found: TokenType, line: usize, column: usize },
    UnexpectedEof { line: usize, column: usize },
}

pub enum ParseErrorView {
    UnexpectedToken { expected: Kind, found: Kind, line: nat, column: nat },
    ExpectedExpression { found: Kind, line: nat, column: nat },
    ExpectedIdentifier { found: Kind, line: nat, column: nat },
    UnexpectedEof { line: nat, column: nat },
}

impl View for ParseError {
    type V = ParseErrorView;

    open spec fn view(&self) -> ParseErrorView {
        match self {
            ParseError::UnexpectedToken { expected, found, line, column } => ParseErrorView::UnexpectedToken {
                expected: expected@,
                found: found@,
                line: *line as nat,
                column: *column as nat,
            },
            ParseError::ExpectedExpression { found, line, column } => ParseErrorView::ExpectedExpression {
                found: found@,
                line: *line as nat,
                column: *column as nat,
            },
            ParseError::ExpectedIdentifier { found, line, column } => ParseErrorView::ExpectedIdentifier {
                found: found@,
                line: *line as nat,
                column: *column as nat,
            },
            ParseError::UnexpectedEof { line, column } => ParseErrorView::UnexpectedEof {
                line: *line as nat,
                column: *column as nat,
            },
        }
    }
}

// ---------------------------------------------------------------------------
// The grammar as functions on the token sequence. Each takes a position and
// gives the tree read there and the position after it, or the error.

pub open spec fn kind_at(t: Seq<TokenView>, p: int) -> Kind {
    if 0 <= p < t.len() {
        t[p].kind
    } else {
        Kind::Eof
    }
}

pub open spec fn line_of(t: Seq<TokenView>, p: int) -> nat {
    if 0 <= p < t.len() {
        t[p].line
    } else {
        0
    }
}

pub open spec fn col_of(t: Seq<TokenView>, p: int) -> nat {
    if 0 <= p < t.len() {
        t[p].column
    } else {
        0
    }
}

/// The tokens left from `p` on, the measure that every step reduces.
pub open spec fn left(t: Seq<TokenView>, p: int) -> nat {
    if 0 <= p <= t.len() {
        (t.len() - p) as nat
    } else {
        0
    }
}

/// `q` is past `p`, within the tokens.
pub open spec fn moved(t: Seq<TokenView>, p: int, q: int) -> bool {
    0 <= p < q <= t.len()
}

pub open spec fn expected_at(t: Seq<TokenView>, p: int, expected: Kind) -> ParseErrorView {
    ParseErrorView::UnexpectedToken { expected, found: kind_at(t, p), line: line_of(t, p), column: col_of(t, p) }
}

pub open spec fn no_expression_at(t: Seq<TokenView>, p: int) -> ParseErrorView {
    ParseErrorView::ExpectedExpression { found: kind_at(t, p), line: line_of(t, p), column: col_of(t, p) }
}

pub open spec fn no_identifier_at(t: Seq<TokenView>, p: int) -> ParseErrorView {
    ParseErrorView::ExpectedIdentifier { found: kind_at(t, p), line: line_of(t, p), column: col_of(t, p) }
}

pub type Parsed<A> = Result<(A, int), ParseErrorView>;

/// `block` after its opening brace: statements up to the closing one.
pub open spec fn p_block(t: Seq<TokenView>, p: int) -> Parsed<Seq<Ast>>
    decreases left(t, p), 4nat,
{
    match kind_at(t, p) {
        Kind::RBrace => Ok((Seq::empty(), p + 1)),
        Kind::Eof => Err(ParseErrorView::UnexpectedEof { line: line_of(t, p), column: col_of(t, p) }),
        _ => match p_statement(t, p) {
            Ok((s, q)) => if moved(t, p, q) {
                match p_block(t, q) {
                    Ok((rest, q2)) => Ok((seq![s] + rest, q2)),
                    Err(e) => Err(e),
                }
            } else {
                Err(no_expression_at(t, p))
            },
            Err(e) => Err(e),
        },
    }
}

pub open spec fn p_statement(t: Seq<TokenView>, p: int) -> Parsed<Ast>
    decreases left(t, p), 3nat,
{
    match kind_at(t, p) {
        Kind::SecureLet => p_let(t, p, false),
        Kind::SecureConst => p_let(t, p, true),
        Kind::Print => match p_expr(t, p + 1) {
            Ok((e, q)) => Ok((Ast::Print { expr: Box::new(e) }, q)),
            Err(e) => Err(e),
        },
        Kind::If => match p_expr(t, p + 1) {
            Ok((c, q)) => if moved(t, p, q) && kind_at(t, q) is LBrace {
                match p_block(t, q + 1) {
                    Ok((then_branch, q2)) => if moved(t, p, q2) && kind_at(t, q2) is Else {
                        if kind_at(t, q2 + 1) is LBrace {
                            match p_block(t, q2 + 2) {
                                Ok((else_branch, q3)) => Ok((
                                    Ast::If { condition: Box::new(c), then_branch, else_branch: Some(else_branch) },
                                    q3,
                                )),
                                Err(e) => Err(e),
                            }
                        } else {
                            Err(expected_at(t, q2 + 1, Kind::LBrace))
                        }
                    } else {
                        Ok((Ast::If { condition: Box::new(c), then_branch, else_branch: None }, q2))
                    },
                    Err(e) => Err(e),
                }
            } else {
                Err(expected_at(t, q, Kind::LBrace))
            },
            Err(e) => Err(e),
        },
        Kind::Repeat => match p_expr(t, p + 1) {
            Ok((n, q)) => if moved(t, p, q) && kind_at(t, q) is LBrace {
                match p_block(t, q + 1) {
                    Ok((body, q2)) => Ok((Ast::Repeat { times: Box::new(n), body }, q2)),
                    Err(e) => Err(e),
                }
            } else {
                Err(expected_at(t, q, Kind::LBrace))
            },
            Err(e) => Err(e),
        },
        Kind::Fn => match kind_at(t, p + 1) {
            Kind::Identifier(name) => if kind_at(t, p + 2) is LParen {
                match p_params(t, p + 3) {
                    Ok((params, q)) => if moved(t, p, q) && kind_at(t, q) is LBrace {
                        match p_block(t, q + 1) {
                            Ok((body, q2)) => Ok((Ast::FnDef { name, params, body }, q2)),
                            Err(e) => Err(e),
                        }
                    } else {
                        Err(expected_at(t, q, Kind::LBrace))
                    },
                    Err(e) => Err(e),
                }
            } else {
                Err(expected_at(t, p + 2, Kind::LParen))
            },
            _ => Err(no_identifier_at(t, p + 1)),
        },
        Kind::Return => match kind_at(t, p + 1) {
            Kind::Semi | Kind::RBrace | Kind::Eof => Ok((Ast::Return { value: None }, p + 1)),
            _ => match p_expr(t, p + 1) {
                Ok((v, q)) => Ok((Ast::Return { value: Some(Box::new(v)) }, q)),
                Err(e) => Err(e),
            },
        },
        Kind::NetworkScan => match p_expr(t, p + 1) {
            Ok((e, q)) => Ok((Ast::NetworkScan { subnet: Box::new(e) }, q)),
            Err(e) => Err(e),
        },
        _ => p_expr(t, p),
    }
}

/// `secure let` or `secure const`, the keyword at `p`.
pub open spec fn p_let(t: Seq<TokenView>, p: int, is_const: bool) -> Parsed<Ast>
    decreases left(t, p), 2nat,
{
    if !(0 <= p < t.len()) {
        Err(no_identifier_at(t, p + 1))
    } else {
        match kind_at(t, p + 1) {
            Kind::Identifier(name) => if kind_at(t, p + 2) is Assign {
                match p_expr(t, p + 3) {
                    Ok((v, q)) => Ok((Ast::Let { is_secure: true, is_const, name, value: Box::new(v) }, q)),
                    Err(e) => Err(e),
                }
            } else {
                Err(expected_at(t, p + 2, Kind::Assign))
            },
            _ => Err(no_identifier_at(t, p + 1)),
        }
    }
}

/// The parameter names after `(`, and the position after `)`.
pub open spec fn p_params(t: Seq<TokenView>, p: int) -> Parsed<Seq<Seq<char>>>
    decreases left(t, p),
{
    match kind_at(t, p) {
        Kind::RParen => Ok((Seq::empty(), p + 1)),
        Kind::Identifier(name) => {
            let q = if kind_at(t, p + 1) is Comma { p + 2 } else { p + 1 };
            match p_params(t, q) {
                Ok((rest, q2)) => Ok((seq![name] + rest, q2)),
                Err(e) => Err(e),
            }
        },
        _ => Err(no_identifier_at(t, p)),
    }
}

/// `expr := factor (('+' | '-') factor)*`
pub open spec fn p_expr(t: Seq<TokenView>, p: int) -> Parsed<Ast>
    decreases left(t, p), 2nat,
{
    match p_factor(t, p) {
        Ok((f, q)) => if moved(t, p, q) {
            p_terms(t, q, f)
        } else {
            Err(no_expression_at(t, p))
        },
        Err(e) => Err(e),
    }
}

/// The `('+' | '-') factor` pairs at `p` that follow `lhs`, folded to the left.
pub open spec fn p_terms(t: Seq<TokenView>, p: int, lhs: Ast) -> Parsed<Ast>
    decreases left(t, p), 2nat,
{
    let k = kind_at(t, p);
    if k is Plus || k is Minus {
        match p_factor(t, p + 1) {
            Ok((r, q)) => if moved(t, p, q) {
                p_terms(t, q, Ast::Binary { left: Box::new(lhs), op: k, right: Box::new(r) })
            } else {
                Err(no_expression_at(t, p + 1))
            },
            Err(e) => Err(e),
        }
    } else {
        Ok((lhs, p))
    }
}

pub open spec fn p_factor(t: Seq<TokenView>, p: int) -> Parsed<Ast>
    decreases left(t, p), 1nat,
{
    match kind_at(t, p) {
        Kind::Number(n) => Ok((Ast::Number(n), p + 1)),
        Kind::Str(s) => Ok((Ast::Str(s), p + 1)),
        Kind::Identifier(name) => if kind_at(t, p + 1) is LParen {
            match p_args(t, p + 2) {
                Ok((args, q)) => Ok((Ast::Call { name, args }, q)),
                Err(e) => Err(e),
            }
        } else {
            Ok((Ast::Identifier(name), p + 1))
        },
        _ => Err(no_expression_at(t, p)),
    }
}

/// The arguments of a call after `(`, and the position after `)`.
pub open spec fn p_args(t: Seq<TokenView>, p: int) -> Parsed<Seq<Ast>>
    decreases left(t, p), 3nat,
{
    if kind_at(t, p) is RParen {
        Ok((Seq::empty(), p + 1))
    } else {
        match p_expr(t, p) {
            Ok((e, q)) => if !moved(t, p, q) {
                Err(no_expression_at(t, p))
            } else if kind_at(t, q) is Comma {
                match p_args(t, q + 1) {
                    Ok((rest, q2)) => Ok((seq![e] + rest, q2)),
                    Err(err) => Err(err),
                }
            } else if kind_at(t, q) is RParen {
                Ok((seq![e], q + 1))
            } else {
                Err(expected_at(t, q, Kind::RParen))
            },
            Err(err) => Err(err),
        }
    }
}

/// A whole program from `p`: statements up to `Eof`.
pub open spec fn p_program(t: Seq<TokenView>, p: int) -> Result<Seq<Ast>, ParseErrorView>
    decreases left(t, p),
{
    if kind_at(t, p) is Eof {
        Ok(Seq::empty())
    } else {
        match p_statement(t, p) {
            Ok((s, q)) => if moved(t, p, q) {
                match p_program(t, q) {
                    Ok(rest) => Ok(seq![s] + rest),
                    Err(e) => Err(e),
                }
            } else {
                Err(no_expression_at(t, p))
            },
            Err(e) => Err(e),
        }
    }
}

/// No closing brace from `p` on: the block cannot end.
pub open spec fn unclosed(t: Seq<TokenView>, p: int) -> bool {
    forall|i: int| p <= i ==> !(#[trigger] kind_at(t, i) is RBrace)
}

/// A token stream that ends inside a block is a syntax error, whatever the
/// statements before the end are.
pub proof fn lemma_unclosed_block(t: Seq<TokenView>, p: int)
    requires
        0 <= p,
        unclosed(t, p),
    ensures
        p_block(t, p) is Err,
    decreases left(t, p),
{
    assert(!(kind_at(t, p) is RBrace));
    if !(kind_at(t, p) is Eof) {
        if let Ok((s, q)) = p_statement(t, p) {
            if moved(t, p, q) {
                assert forall|i: int| q <= i implies !(#[trigger] kind_at(t, i) is RBrace) by {
                    assert(p <= i);
                }
                lemma_unclosed_block(t, q);
            }
        }
    }
}

/// An `if`, `repeat` or `fn` statement whose block is never closed is a
/// syntax error.
pub proof fn lemma_unclosed_statement(t: Seq<TokenView>, p: int)
    requires
        0 <= p,
        kind_at(t, p) is If || kind_at(t, p) is Repeat || kind_at(t, p) is Fn,
        unclosed(t, p),
    ensures
        p_statement(t, p) is Err,
{
    assert forall|q: int| p < q implies unclosed(t, q) by {
        assert forall|i: int| q <= i implies !(#[trigger] kind_at(t, i) is RBrace) by {
            assert(p <= i);
        }
    }
    match kind_at(t, p) {
        Kind::If => {
            if let Ok((c, q)) = p_expr(t, p + 1) {
                if moved(t, p, q) && kind_at(t, q) is LBrace {
                    lemma_unclosed_block(t, q + 1);
                }
            }
        },
        Kind::Repeat => {
            if let Ok((n, q)) = p_expr(t, p + 1) {
                if moved(t, p, q) && kind_at(t, q) is LBrace {
                    lemma_unclosed_block(t, q + 1);
                }
            }
        },
        _ => {
            if let Ok((ps, q)) = p_params(t, p + 3) {
                if moved(t, p, q) && kind_at(t, q) is LBrace {
                    lemma_unclosed_block(t, q + 1);
                }
            }
        },
    }
}

/// The program that a token sequence spells.
pub open spec fn parse_tokens(t: Seq<TokenView>) -> Result<Seq<Ast>, ParseErrorView> {
    p_program(t, 0)
}

} // verus!

verus! {

pub open spec fn outcome_expr(r: Result<Expr, ParseError>, pos: int, s: Parsed<Ast>) -> bool {
    match s {
        Ok((a, q)) => r matches Ok(e) && e@ == a && pos == q,
        Err(err) => r matches Err(x) && x@ == err,
    }
}

pub open spec fn outcome_exprs(r: Result<Vec<Expr>, ParseError>, pos: int, s: Parsed<Seq<Ast>>) -> bool {
    match s {
        Ok((a, q)) => r matches Ok(v) && asts_of(v@) == a && pos == q,
        Err(err) => r matches Err(x) && x@ == err,
    }
}

pub open spec fn names_of(v: Seq<String>) -> Seq<Seq<char>> {
    v.map_values(|s: String| s@)
}

/// `xs` in front of what `r` read.
pub open spec fn prefixed<A>(xs: Seq<A>, r: Parsed<Seq<A>>) -> Parsed<Seq<A>> {
    match r {
        Ok((rest, q)) => Ok((xs + rest, q)),
        Err(e) => Err(e),
    }
}

pub open spec fn prefixed_program(xs: Seq<Ast>, r: Result<Seq<Ast>, ParseErrorView>) -> Result<Seq<Ast>, ParseErrorView> {
    match r {
        Ok(rest) => Ok(xs + rest),
        Err(e) => Err(e),
    }
}

proof fn lemma_view_call(name: String, args: Vec<Expr>)
    ensures
        (Expr::Call { name, args })@ == (Ast::Call { name: name@, args: asts_of(args@) }),
{
    if let Ast::Call { args: x, .. } = (Expr::Call { name, args })@ {
        assert(x =~= asts_of(args@));
    }
}

proof fn lemma_view_repeat(times: Box<Expr>, body: Vec<Expr>)
    ensures
        (Expr::Repeat { times, body })@ == (Ast::Repeat { times: Box::new((*times)@), body: asts_of(body@) }),
{
    if let Ast::Repeat { body: x, .. } = (Expr::Repeat { times, body })@ {
        assert(x =~= asts_of(body@));
    }
}

proof fn lemma_view_fn(name: String, params: Vec<String>, body: Vec<Expr>)
    ensures
        (Expr::FnDef { name, params, body })@ == (Ast::FnDef {
            name: name@,
            params: names_of(params@),
            body: asts_of(body@),
        }),
{
    if let Ast::FnDef { params: ps, body: x, .. } = (Expr::FnDef { name, params, body })@ {
        assert(x =~= asts_of(body@));
        assert(ps =~= names_of(params@));
    }
}

proof fn lemma_view_if(condition: Box<Expr>, then_branch: Vec<Expr>, else_branch: Option<Vec<Expr>>)
    ensures
        (Expr::If { condition, then_branch, else_branch })@ == (Ast::If {
            condition: Box::new((*condition)@),
            then_branch: asts_of(then_branch@),
            else_branch: match else_branch {
                Some(b) => Some(asts_of(b@)),
                None => None,
            },
        }),
{
    if let Ast::If { then_branch: x, else_branch: y, .. } = (Expr::If { condition, then_branch, else_branch })@ {
        assert(x =~= asts_of(then_branch@));
        if let Some(b) = else_branch {
            assert(y->Some_0 =~= asts_of(b@));
        }
    }
}

/// The view of a node with children, written over the children's views.
pub proof fn lemma_expr_view(e: Expr)
    ensures
        match e {
            Expr::If { condition, then_branch, else_branch } => e@ == (Ast::If {
                condition: Box::new((*condition)@),
                then_branch: asts_of(then_branch@),
                else_branch: match else_branch {
                    Some(b) => Some(asts_of(b@)),
                    None => None,
                },
            }),
            Expr::Repeat { times, body } => e@ == (Ast::Repeat { times: Box::new((*times)@), body: asts_of(body@) }),
            Expr::FnDef { name, params, body } => e@ == (Ast::FnDef {
                name: name@,
                params: names_of(params@),
                body: asts_of(body@),
            }),
            Expr::Call { name, args } => e@ == (Ast::Call { name: name@, args: asts_of(args@) }),
            _ => true,
        },
{
    match e {
        Expr::If { condition, then_branch, else_branch } => lemma_view_if(condition, then_branch, else_branch),
        Expr::Repeat { times, body } => lemma_view_repeat(times, body),
        Expr::FnDef { name, params, body } => lemma_view_fn(name, params, body),
        Expr::Call { name, args } => lemma_view_call(name, args),
        _ => {},
    }
}

proof fn lemma_asts_push(v: Seq<Expr>, e: Expr)
    ensures
        asts_of(v.push(e)) == asts_of(v) + seq![e@],
{
    assert(asts_of(v.push(e)) =~= asts_of(v) + seq![e@]);
}

/// A parser over a token sequence, reading it from the front.
pub struct Parser {
    tokens: Vec<Token>,
    pos: usize,
}

impl Parser {
    /// The tokens being read.
    pub closed spec fn toks(&self) -> Seq<TokenView> {
        tokens_view(self.tokens@)
    }

    /// The position of the current token.
    pub closed spec fn position(&self) -> int {
        self.pos as int
    }

    pub closed spec fn wf(&self) -> bool {
        self.pos <= self.tokens@.len()
    }

    pub fn new(tokens: Vec<Token>) -> (r: Parser)
        ensures
            r.wf(),
            r.toks() == tokens_view(tokens@),
            r.position() == 0,
    {
        Parser { tokens, pos: 0 }
    }

    fn kind(&self) -> (r: TokenType)
        requires
            self.wf(),
        ensures
            r@ == kind_at(self.toks(), self.pos as int),
    {
        if self.pos < self.tokens.len() {
            self.tokens[self.pos].kind.copied()
        } else {
            TokenType::Eof
        }
    }

    /// The kind `k` tokens ahead.
    fn kind_ahead(&self, k: usize) -> (r: TokenType)
        requires
            self.wf(),
        ensures
            r@ == kind_at(self.toks(), self.pos + k),
    {
        if k < self.tokens.len() - self.pos {
            self.tokens[self.pos + k].kind.copied()
        } else {
            TokenType::Eof
        }
    }

    fn line_col(&self) -> (r: (usize, usize))
        requires
            self.wf(),
        ensures
            r.0 == line_of(self.toks(), self.pos as int),
            r.1 == col_of(self.toks(), self.pos as int),
    {
        if self.pos < self.tokens.len() {
            (self.tokens[self.pos].line, self.tokens[self.pos].column)
        } else {
            (0, 0)
        }
    }

    fn expected(&self, expected: TokenType) -> (r: ParseError)
        requires
            self.wf(),
        ensures
            r@ == expected_at(self.toks(), self.pos as int, expected@),
    {
        let (line, column) = self.line_col();
        ParseError::UnexpectedToken { expected, found: self.kind(), line, column }
    }

    fn no_expression(&self) -> (r: ParseError)
        requires
            self.wf(),
        ensures
            r@ == no_expression_at(self.toks(), self.pos as int),
    {
        let (line, column) = self.line_col();
        ParseError::ExpectedExpression { found: self.kind(), line, column }
    }

    fn no_identifier(&self) -> (r: ParseError)
        requires
            self.wf(),
        ensures
            r@ == no_identifier_at(self.toks(), self.pos as int),
    {
        let (line, column) = self.line_col();
        ParseError::ExpectedIdentifier { found: self.kind(), line, column }
    }

    /// Moves past the current token, which is not `Eof`.
    fn bump(&mut self)
        requires
            old(self).wf(),
            old(self).pos < old(self).tokens@.len(),
        ensures
            final(self).wf(),
            final(self).tokens == old(self).tokens,
            final(self).pos == old(self).pos + 1,
    {
        if self.pos < self.tokens.len() {
            self.pos = self.pos + 1;
        }
    }

    /// The whole program from the current token to `Eof`.
    pub fn parse(&mut self) -> (r: Result<Vec<Expr>, ParseError>)
        requires
            old(self).wf(),
        ensures
            final(self).wf(),
            match p_program(old(self).toks(), old(self).position()) {
                Ok(ss) => r matches Ok(v) && asts_of(v@) == ss,
                Err(e) => r matches Err(x) && x@ == e,
            },
    {
        let ghost t = self.toks();
        let ghost start_pos = self.pos as int;
        let mut out: Vec<Expr> = Vec::new();
        loop
            invariant
                self.wf(),
                self.toks() == t,
                t == old(self).toks(),
                start_pos == old(self).pos,
                start_pos <= self.pos,
                p_program(t, start_pos) == prefixed_program(asts_of(out@), p_program(t, self.pos as int)),
            decreases left(t, self.pos as int),
        {
            if let TokenType::Eof = self.kind() {
                assert(asts_of(out@) + Seq::<Ast>::empty() =~= asts_of(out@));
                return Ok(out);
            }
            let s = match self.statement() {
                Ok(s) => s,
                Err(e) => {
                    return Err(e);
                },
            };
            proof {
                lemma_asts_push(out@, s);
                let rest = p_program(t, self.pos as int);
                if rest is Ok {
                    assert(asts_of(out@) + (seq![s@] + rest->Ok_0) =~= asts_of(out@.push(s)) + rest->Ok_0);
                }
            }
            out.push(s);
        }
    }

    fn statement(&mut self) -> (r: Result<Expr, ParseError>)
        requires
            old(self).wf(),
        ensures
            final(self).wf(),
            final(self).tokens == old(self).tokens,
            outcome_expr(r, final(self).pos as int, p_statement(old(self).toks(), old(self).pos as int)),
            r is Ok ==> old(self).pos < final(self).pos,
        decreases left(old(self).toks(), old(self).pos as int), 3nat,
    {
        match self.kind() {
            TokenType::SecureLet => self.let_statement(false),
            TokenType::SecureConst => self.let_statement(true),
            TokenType::Print => {
                self.bump();
                match self.expr() {
                    Ok(e) => Ok(Expr::Print { expr: Box::new(e) }),
                    Err(e) => Err(e),
                }
            },
            TokenType::If => self.if_statement(),
            TokenType::Repeat => self.repeat_statement(),
            TokenType::Fn => self.fn_statement(),
            TokenType::Return => {
                let next = self.kind_ahead(1);
                self.bump();
                match next {
                    TokenType::Semi | TokenType::RBrace | TokenType::Eof => Ok(Expr::Return { value: None }),
                    _ => match self.expr() {
                        Ok(v) => Ok(Expr::Return { value: Some(Box::new(v)) }),
                        Err(e) => Err(e),
                    },
                }
            },
            TokenType::NetworkScan => {
                self.bump();
                match self.expr() {
                    Ok(e) => Ok(Expr::NetworkScan { subnet: Box::new(e) }),
                    Err(e) => Err(e),
                }
            },
            _ => self.expr(),
        }
    }

    fn if_statement(&mut self) -> (r: Result<Expr, ParseError>)
        requires
            old(self).wf(),
            kind_at(old(self).toks(), old(self).pos as int) is If,
        ensures
            final(self).wf(),
            final(self).tokens == old(self).tokens,
            outcome_expr(r, final(self).pos as int, p_statement(old(self).toks(), old(self).pos as int)),
            r is Ok ==> old(self).pos < final(self).pos,
        decreases left(old(self).toks(), old(self).pos as int), 2nat,
    {
        self.bump();
        let condition = match self.expr() {
            Ok(c) => c,
            Err(e) => {
                return Err(e);
            },
        };
        if !matches!(self.kind(), TokenType::LBrace) {
            return Err(self.expected(TokenType::LBrace));
        }
        self.bump();
        let then_branch = match self.block() {
            Ok(b) => b,
            Err(e) => {
                return Err(e);
            },
        };
        if !matches!(self.kind(), TokenType::Else) {
            proof {
                lemma_view_if(Box::new(condition), then_branch, None);
            }
            return Ok(Expr::If { condition: Box::new(condition), then_branch, else_branch: None });
        }
        self.bump();
        if !matches!(self.kind(), TokenType::LBrace) {
            return Err(self.expected(TokenType::LBrace));
        }
        self.bump();
        let else_branch = match self.block() {
            Ok(b) => b,
            Err(e) => {
                return Err(e);
            },
        };
        proof {
            lemma_view_if(Box::new(condition), then_branch, Some(else_branch));
        }
        Ok(Expr::If { condition: Box::new(condition), then_branch, else_branch: Some(else_branch) })
    
    }

    fn repeat_statement(&mut self) -> (r: Result<Expr, ParseError>)
        requires
            old(self).wf(),
            kind_at(old(self).toks(), old(self).pos as int) is Repeat,
        ensures
            final(self).wf(),
            final(self).tokens == old(self).tokens,
            outcome_expr(r, final(self).pos as int, p_statement(old(self).toks(), old(self).pos as int)),
            r is Ok ==> old(self).pos < final(self).pos,
        decreases left(old(self).toks(), old(self).pos as int), 2nat,
    {
        self.bump();
        let times = match self.expr() {
            Ok(c) => c,
            Err(e) => {
                return Err(e);
            },
        };
        if !matches!(self.kind(), TokenType::LBrace) {
            return Err(self.expected(TokenType::LBrace));
        }
        self.bump();
        let body = match self.block() {
            Ok(b) => b,
            Err(e) => {
                return Err(e);
            },
        };
        proof {
            lemma_view_repeat(Box::new(times), body);
        }
        Ok(Expr::Repeat { times: Box::new(times), body })
    
    }

    fn fn_statement(&mut self) -> (r: Result<Expr, ParseError>)
        requires
            old(self).wf(),
            kind_at(old(self).toks(), old(self).pos as int) is Fn,
        ensures
            final(self).wf(),
            final(self).tokens == old(self).tokens,
            outcome_expr(r, final(self).pos as int, p_statement(old(self).toks(), old(self).pos as int)),
            r is Ok ==> old(self).pos < final(self).pos,
        decreases left(old(self).toks(), old(self).pos as int), 2nat,
    {
        self.bump();
        let name = match self.kind() {
            TokenType::Identifier(n) => n,
            _ => {
                return Err(self.no_identifier());
            },
        };
        self.bump();
        if !matches!(self.kind(), TokenType::LParen) {
            return Err(self.expected(TokenType::LParen));
        }
        self.bump();
        let params = match self.params() {
            Ok(ps) => ps,
            Err(e) => {
                return Err(e);
            },
        };
        if !matches!(self.kind(), TokenType::LBrace) {
            return Err(self.expected(TokenType::LBrace));
        }
        self.bump();
        let body = match self.block() {
            Ok(b) => b,
            Err(e) => {
                return Err(e);
            },
        };
        proof {
            lemma_view_fn(name, params, body);
        }
        Ok(Expr::FnDef { name, params, body })
    }

    fn let_statement(&mut self, is_const: bool) -> (r: Result<Expr, ParseError>)
        requires
            old(self).wf(),
            old(self).pos < old(self).tokens@.len(),
        ensures
            final(self).wf(),
            final(self).tokens == old(self).tokens,
            outcome_expr(r, final(self).pos as int, p_let(old(self).toks(), old(self).pos as int, is_const)),
            r is Ok ==> old(self).pos < final(self).pos,
        decreases left(old(self).toks(), old(self).pos as int), 2nat,
    {
        self.bump();
        let name = match self.kind() {
            TokenType::Identifier(n) => n,
            _ => {
                return Err(self.no_identifier());
            },
        };
        self.bump();
        if !matches!(self.kind(), TokenType::Assign) {
            return Err(self.expected(TokenType::Assign));
        }
        self.bump();
        match self.expr() {
            Ok(v) => Ok(Expr::Let { is_secure: true, is_const, name, value: Box::new(v) }),
            Err(e) => Err(e),
        }
    }

    /// Parameter names after `(`, up to and past `)`.
    fn params(&mut self) -> (r: Result<Vec<String>, ParseError>)
        requires
            old(self).wf(),
        ensures
            final(self).wf(),
            final(self).tokens == old(self).tokens,
            match p_params(old(self).toks(), old(self).pos as int) {
                Ok((ns, q)) => r matches Ok(v) && names_of(v@) == ns && final(self).pos == q,
                Err(err) => r matches Err(x) && x@ == err,
            },
            r is Ok ==> old(self).pos < final(self).pos,
    {
        let ghost t = self.toks();
        let ghost start_pos = self.pos as int;
        let mut out: Vec<String> = Vec::new();
        loop
            invariant
                self.wf(),
                self.toks() == t,
                self.tokens == old(self).tokens,
                t == old(self).toks(),
                start_pos == old(self).pos,
                start_pos <= self.pos,
                p_params(t, start_pos) == prefixed(names_of(out@), p_params(t, self.pos as int)),
            decreases left(t, self.pos as int),
        {
            match self.kind() {
                TokenType::RParen => {
                    self.bump();
                    assert(names_of(out@) + Seq::<Seq<char>>::empty() =~= names_of(out@));
                    return Ok(out);
                },
                TokenType::Identifier(n) => {
                    self.bump();
                    if matches!(self.kind(), TokenType::Comma) {
                        self.bump();
                    }
                    proof {
                        let rest = p_params(t, self.pos as int);
                        assert(names_of(out@.push(n)) =~= names_of(out@) + seq![n@]);
                        if rest is Ok {
                            assert(names_of(out@) + (seq![n@] + rest->Ok_0.0) =~= names_of(out@.push(n)) + rest->Ok_0.0);
                        }
                    }
                    out.push(n);
                },
                _ => {
                    return Err(self.no_identifier());
                },
            }
        }
    }

    /// Statements after `{`, up to and past `}`.
    fn block(&mut self) -> (r: Result<Vec<Expr>, ParseError>)
        requires
            old(self).wf(),
        ensures
            final(self).wf(),
            final(self).tokens == old(self).tokens,
            outcome_exprs(r, final(self).pos as int, p_block(old(self).toks(), old(self).pos as int)),
            r is Ok ==> old(self).pos < final(self).pos,
        decreases left(old(self).toks(), old(self).pos as int), 4nat,
    {
        let ghost t = self.toks();
        let ghost start_pos = self.pos as int;
        let mut out: Vec<Expr> = Vec::new();
        loop
            invariant
                self.wf(),
                self.toks() == t,
                self.tokens == old(self).tokens,
                t == old(self).toks(),
                start_pos == old(self).pos,
                start_pos <= self.pos,
                p_block(t, start_pos) == prefixed(asts_of(out@), p_block(t, self.pos as int)),
            decreases left(t, self.pos as int),
        {
            match self.kind() {
                TokenType::RBrace => {
                    self.bump();
                    assert(asts_of(out@) + Seq::<Ast>::empty() =~= asts_of(out@));
                    return Ok(out);
                },
                TokenType::Eof => {
                    let (line, column) = self.line_col();
                    return Err(ParseError::UnexpectedEof { line, column });
                },
                _ => {},
            }
            let s = match self.statement() {
                Ok(s) => s,
                Err(e) => {
                    return Err(e);
                },
            };
            proof {
                lemma_asts_push(out@, s);
                let rest = p_block(t, self.pos as int);
                if rest is Ok {
                    assert(asts_of(out@) + (seq![s@] + rest->Ok_0.0) =~= asts_of(out@.push(s)) + rest->Ok_0.0);
                }
            }
            out.push(s);
        }
    }

    fn expr(&mut self) -> (r: Result<Expr, ParseError>)
        requires
            old(self).wf(),
        ensures
            final(self).wf(),
            final(self).tokens == old(self).tokens,
            outcome_expr(r, final(self).pos as int, p_expr(old(self).toks(), old(self).pos as int)),
            r is Ok ==> old(self).pos < final(self).pos,
        decreases left(old(self).toks(), old(self).pos as int), 2nat,
    {
        let first = match self.factor() {
            Ok(f) => f,
            Err(e) => {
                return Err(e);
            },
        };
        self.terms(first)
    }

    /// The `('+' | '-') factor` pairs that follow `lhs`.
    fn terms(&mut self, lhs: Expr) -> (r: Result<Expr, ParseError>)
        requires
            old(self).wf(),
        ensures
            final(self).wf(),
            final(self).tokens == old(self).tokens,
            outcome_expr(r, final(self).pos as int, p_terms(old(self).toks(), old(self).pos as int, lhs@)),
            r is Ok ==> old(self).pos <= final(self).pos,
        decreases left(old(self).toks(), old(self).pos as int), 2nat,
    {
        let ghost t = self.toks();
        let ghost start_pos = self.pos as int;
        let mut acc = lhs;
        loop
            invariant
                self.wf(),
                self.toks() == t,
                self.tokens == old(self).tokens,
                t == old(self).toks(),
                start_pos == old(self).pos,
                start_pos <= self.pos,
                p_terms(t, start_pos, lhs@) == p_terms(t, self.pos as int, acc@),
            decreases left(t, self.pos as int),
        {
            let op = self.kind();
            if !(matches!(op, TokenType::Plus) || matches!(op, TokenType::Minus)) {
                return Ok(acc);
            }
            self.bump();
            let right = match self.factor() {
                Ok(f) => f,
                Err(e) => {
                    return Err(e);
                },
            };
            acc = Expr::Binary { left: Box::new(acc), op, right: Box::new(right) };
        }
    }

    fn factor(&mut self) -> (r: Result<Expr, ParseError>)
        requires
            old(self).wf(),
        ensures
            final(self).wf(),
            final(self).tokens == old(self).tokens,
            outcome_expr(r, final(self).pos as int, p_factor(old(self).toks(), old(self).pos as int)),
            r is Ok ==> old(self).pos < final(self).pos,
        decreases left(old(self).toks(), old(self).pos as int), 1nat,
    {
        match self.kind() {
            TokenType::Number(n) => {
                self.bump();
                Ok(Expr::Number(n))
            },
            TokenType::String(s) => {
                self.bump();
                Ok(Expr::String(s))
            },
            TokenType::Identifier(name) => {
                if matches!(self.kind_ahead(1), TokenType::LParen) {
                    self.bump();
                    self.bump();
                    match self.args() {
                        Ok(args) => {
                            proof {
                                lemma_view_call(name, args);
                            }
                            Ok(Expr::Call { name, args })
                        },
                        Err(e) => Err(e),
                    }
                } else {
                    self.bump();
                    Ok(Expr::Identifier(name))
                }
            },
            _ => Err(self.no_expression()),
        }
    }

    /// Call arguments after `(`, up to and past `)`.
    fn args(&mut self) -> (r: Result<Vec<Expr>, ParseError>)
        requires
            old(self).wf(),
        ensures
            final(self).wf(),
            final(self).tokens == old(self).tokens,
            outcome_exprs(r, final(self).pos as int, p_args(old(self).toks(), old(self).pos as int)),
            r is Ok ==> old(self).pos < final(self).pos,
        decreases left(old(self).toks(), old(self).pos as int), 3nat,
    {
        let ghost t = self.toks();
        let ghost start_pos = self.pos as int;
        let mut out: Vec<Expr> = Vec::new();
        loop
            invariant
                self.wf(),
                self.toks() == t,
                self.tokens == old(self).tokens,
                t == old(self).toks(),
                start_pos == old(self).pos,
                start_pos <= self.pos,
                p_args(t, start_pos) == prefixed(asts_of(out@), p_args(t, self.pos as int)),
            decreases left(t, self.pos as int),
        {
            if matches!(self.kind(), TokenType::RParen) {
                self.bump();
                assert(asts_of(out@) + Seq::<Ast>::empty() =~= asts_of(out@));
                return Ok(out);
            }
            let e = match self.expr() {
                Ok(e) => e,
                Err(err) => {
                    return Err(err);
                },
            };
            proof {
                lemma_asts_push(out@, e);
            }
            match self.kind() {
                TokenType::Comma => {
                    self.bump();
                    proof {
                        let rest = p_args(t, self.pos as int);
                        if rest is Ok {
                            assert(asts_of(out@) + (seq![e@] + rest->Ok_0.0) =~= asts_of(out@.push(e)) + rest->Ok_0.0);
                        }
                    }
                    out.push(e);
                },
                TokenType::RParen => {
                    self.bump();
                    out.push(e);
                    return Ok(out);
                },
                _ => {
                    return Err(self.expected(TokenType::RParen));
                },
            }
        }
    }
}

} // verus!
