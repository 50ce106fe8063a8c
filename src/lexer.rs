//! The lexer: source text to tokens.
//!
//! Whitespace separates tokens and moves the line/column counters that every
//! token and every error carries. Identifiers are matched against a fixed
//! keyword table. The dotted built-ins (`network.scan`, `crypto.random`,
//! `time.now`) and the `secure let` / `secure const` declarations are compound
//! keywords: after the first word the lexer looks ahead, and when the
//! continuation does not match exactly it backtracks to the end of the first
//! word and returns that word as a plain identifier, so nothing that was only
//! looked at is lost.

use crate::text::{
    chars_of, digit_value, digits_value, is_alpha, is_alpha_exec, is_digit, is_digit_exec,
    is_ident_char, is_ident_char_exec, is_ws, is_ws_exec, string_of_range,
};
use vstd::prelude::*;

verus! {

/// The kind of a token. A float literal keeps its source text.
#[derive(Debug, Clone, PartialEq)]
pub enum TokenType {
    SecureLet,
    SecureConst,
    Fn,
    Return,
    If,
    ElseIf,
    Else,
    EndIf,
    Repeat,
    EndRepeat,
    Break,
    Continue,
    Print,
    NetworkScan,
    CryptoRandom,
    TimeNow,
    Wait,
    Identifier(String),
    String(String),
    Number(i64),
    Float(String),
    Plus,
    Minus,
    Star,
    Slash,
    EqualEqual,
    NotEqual,
    Greater,
    Less,
    GreaterEqual,
    LessEqual,
    Assign,
    LParen,
    RParen,
    LBrace,
    RBrace,
    LBracket,
    RBracket,
    Comma,
    Colon,
    Semi,
    Eof,
}

/// The mathematical value of a token kind: texts are character sequences.
pub enum Kind {
    SecureLet,
    SecureConst,
    Fn,
    Return,
    If,
    ElseIf,
    Else,
    EndIf,
    Repeat,
    EndRepeat,
    Break,
    Continue,
    Print,
    NetworkScan,
    CryptoRandom,
    TimeNow,
    Wait,
    Identifier(Seq<char>),
    Str(Seq<char>),
    Number(i64),
    Float(Seq<char>),
    Plus,
    Minus,
    Star,
    Slash,
    EqualEqual,
    NotEqual,
    Greater,
    Less,
    GreaterEqual,
    LessEqual,
    Assign,
    LParen,
    RParen,
    LBrace,
    RBrace,
    LBracket,
    RBracket,
    Comma,
    Colon,
    Semi,
    Eof,
}

impl View for TokenType {
    type V = Kind;

    open spec fn view(&self) -> Kind {
        match self {
            TokenType::SecureLet => Kind::SecureLet,
            TokenType::SecureConst => Kind::SecureConst,
            TokenType::Fn => Kind::Fn,
            TokenType::Return => Kind::Return,
            TokenType::If => Kind::If,
            TokenType::ElseIf => Kind::ElseIf,
            TokenType::Else => Kind::Else,
            TokenType::EndIf => Kind::EndIf,
            TokenType::Repeat => Kind::Repeat,
            TokenType::EndRepeat => Kind::EndRepeat,
            TokenType::Break => Kind::Break,
            TokenType::Continue => Kind::Continue,
            TokenType::Print => Kind::Print,
            TokenType::NetworkScan => Kind::NetworkScan,
            TokenType::CryptoRandom => Kind::CryptoRandom,
            TokenType::TimeNow => Kind::TimeNow,
            TokenType::Wait => Kind::Wait,
            TokenType::Identifier(s) => Kind::Identifier(s@),
            TokenType::String(s) => Kind::Str(s@),
            TokenType::Number(n) => Kind::Number(*n),
            TokenType::Float(s) => Kind::Float(s@),
            TokenType::Plus => Kind::Plus,
            TokenType::Minus => Kind::Minus,
            TokenType::Star => Kind::Star,
            TokenType::Slash => Kind::Slash,
            TokenType::EqualEqual => Kind::EqualEqual,
            TokenType::NotEqual => Kind::NotEqual,
            TokenType::Greater => Kind::Greater,
            TokenType::Less => Kind::Less,
            TokenType::GreaterEqual => Kind::GreaterEqual,
            TokenType::LessEqual => Kind::LessEqual,
            TokenType::Assign => Kind::Assign,
            TokenType::LParen => Kind::LParen,
            TokenType::RParen => Kind::RParen,
            TokenType::LBrace => Kind::LBrace,
            TokenType::RBrace => Kind::RBrace,
            TokenType::LBracket => Kind::LBracket,
            TokenType::RBracket => Kind::RBracket,
            TokenType::Comma => Kind::Comma,
            TokenType::Colon => Kind::Colon,
            TokenType::Semi => Kind::Semi,
            TokenType::Eof => Kind::Eof,
        }
    }
}

impl TokenType {
    /// A copy of this kind.
    pub fn copied(&self) -> (r: TokenType)
        ensures
            r@ == self@,
    {
        match self {
            TokenType::Identifier(s) => TokenType::Identifier(s.clone()),
            TokenType::String(s) => TokenType::String(s.clone()),
            TokenType::Number(n) => TokenType::Number(*n),
            TokenType::Float(s) => TokenType::Float(s.clone()),
            TokenType::SecureLet => TokenType::SecureLet,
            TokenType::SecureConst => TokenType::SecureConst,
            TokenType::Fn => TokenType::Fn,
            TokenType::Return => TokenType::Return,
            TokenType::If => TokenType::If,
            TokenType::ElseIf => TokenType::ElseIf,
            TokenType::Else => TokenType::Else,
            TokenType::EndIf => TokenType::EndIf,
            TokenType::Repeat => TokenType::Repeat,
            TokenType::EndRepeat => TokenType::EndRepeat,
            TokenType::Break => TokenType::Break,
            TokenType::Continue => TokenType::Continue,
            TokenType::Print => TokenType::Print,
            TokenType::NetworkScan => TokenType::NetworkScan,
            TokenType::CryptoRandom => TokenType::CryptoRandom,
            TokenType::TimeNow => TokenType::TimeNow,
            TokenType::Wait => TokenType::Wait,
            TokenType::Plus => TokenType::Plus,
            TokenType::Minus => TokenType::Minus,
            TokenType::Star => TokenType::Star,
            TokenType::Slash => TokenType::Slash,
            TokenType::EqualEqual => TokenType::EqualEqual,
            TokenType::NotEqual => TokenType::NotEqual,
            TokenType::Greater => TokenType::Greater,
            TokenType::Less => TokenType::Less,
            TokenType::GreaterEqual => TokenType::GreaterEqual,
            TokenType::LessEqual => TokenType::LessEqual,
            TokenType::Assign => TokenType::Assign,
            TokenType::LParen => TokenType::LParen,
            TokenType::RParen => TokenType::RParen,
            TokenType::LBrace => TokenType::LBrace,
            TokenType::RBrace => TokenType::RBrace,
            TokenType::LBracket => TokenType::LBracket,
            TokenType::RBracket => TokenType::RBracket,
            TokenType::Comma => TokenType::Comma,
            TokenType::Colon => TokenType::Colon,
            TokenType::Semi => TokenType::Semi,
            TokenType::Eof => TokenType::Eof,
        }
    }
}

#[derive(Debug, Clone)]
pub struct Token {
    pub kind: TokenType,
    pub line: usize,
    pub column: usize,
}

/// A token as a mathematical value.
pub struct TokenView {
    pub kind: Kind,
    pub line: nat,
    pub column: nat,
}

impl View for Token {
    type V = TokenView;

    open spec fn view(&self) -> TokenView {
        TokenView { kind: self.kind@, line: self.line as nat, column: self.column as nat }
    }
}

pub open spec fn tokens_view(v: Seq<Token>) -> Seq<TokenView> {
    v.map_values(|t: Token| t@)
}

#[derive(Debug, Clone, Copy, PartialEq, Eq, Structural)]
pub enum LexErrorKind {
    UnterminatedString,
    MalformedNumber,
    UnexpectedChar(char),
}

/// A lexical error and the position of the token where it arose.
#[derive(Debug, Clone, Copy, PartialEq, Eq, Structural)]
pub struct LexError {
    pub kind: LexErrorKind,
    pub line: usize,
    pub column: usize,
}

// ---------------------------------------------------------------------------
// The lexer's definition as functions on the character sequence.

/// The line (from 1) of position `p`.
pub open spec fn line_at(s: Seq<char>, p: int) -> nat
    decreases p,
{
    if p <= 0 {
        1
    } else if s[p - 1] == '\n' {
        line_at(s, p - 1) + 1
    } else {
        line_at(s, p - 1)
    }
}

/// The column (from 1) of position `p`.
pub open spec fn col_at(s: Seq<char>, p: int) -> nat
    decreases p,
{
    if p <= 0 {
        1
    } else if s[p - 1] == '\n' {
        1
    } else {
        col_at(s, p - 1) + 1
    }
}

/// The first position at or after `p` that is not whitespace.
pub open spec fn skip_ws(s: Seq<char>, p: int) -> int
    decreases s.len() - p,
{
    if 0 <= p < s.len() && is_ws(s[p]) {
        skip_ws(s, p + 1)
    } else {
        p
    }
}

/// The end of the run of identifier characters that starts at `p`.
pub open spec fn ident_end(s: Seq<char>, p: int) -> int
    decreases s.len() - p,
{
    if 0 <= p < s.len() && is_ident_char(s[p]) {
        ident_end(s, p + 1)
    } else {
        p
    }
}

/// The end of the run of digits that starts at `p`.
pub open spec fn digits_end(s: Seq<char>, p: int) -> int
    decreases s.len() - p,
{
    if 0 <= p < s.len() && is_digit(s[p]) {
        digits_end(s, p + 1)
    } else {
        p
    }
}

/// The position of the first `"` at or after `p`, or the length if none.
pub open spec fn quote_at(s: Seq<char>, p: int) -> int
    decreases s.len() - p,
{
    if 0 <= p < s.len() && s[p] != '"' {
        quote_at(s, p + 1)
    } else {
        p
    }
}

/// The keyword `kw` stands at `q` as a whole word.
pub open spec fn word_at(s: Seq<char>, q: int, kw: Seq<char>) -> bool {
    &&& 0 <= q
    &&& q + kw.len() <= s.len()
    &&& s.subrange(q, q + kw.len()) == kw
    &&& (q + kw.len() == s.len() || !is_ident_char(s[q + kw.len()]))
}

pub open spec fn kw_secure() -> Seq<char> {
    seq!['s', 'e', 'c', 'u', 'r', 'e']
}

pub open spec fn kw_let() -> Seq<char> {
    seq!['l', 'e', 't']
}

pub open spec fn kw_const() -> Seq<char> {
    seq!['c', 'o', 'n', 's', 't']
}

pub open spec fn kw_network() -> Seq<char> {
    seq!['n', 'e', 't', 'w', 'o', 'r', 'k']
}

pub open spec fn kw_scan() -> Seq<char> {
    seq!['s', 'c', 'a', 'n']
}

pub open spec fn kw_crypto() -> Seq<char> {
    seq!['c', 'r', 'y', 'p', 't', 'o']
}

pub open spec fn kw_random() -> Seq<char> {
    seq!['r', 'a', 'n', 'd', 'o', 'm']
}

pub open spec fn kw_time() -> Seq<char> {
    seq!['t', 'i', 'm', 'e']
}

pub open spec fn kw_now() -> Seq<char> {
    seq!['n', 'o', 'w']
}

/// The one-word keywords.
pub open spec fn keyword(w: Seq<char>) -> Option<Kind> {
    if w == seq!['f', 'n'] {
        Some(Kind::Fn)
    } else if w == seq!['r', 'e', 't', 'u', 'r', 'n'] {
        Some(Kind::Return)
    } else if w == seq!['i', 'f'] {
        Some(Kind::If)
    } else if w == seq!['e', 'l', 's', 'e', 'i', 'f'] {
        Some(Kind::ElseIf)
    } else if w == seq!['e', 'l', 's', 'e'] {
        Some(Kind::Else)
    } else if w == seq!['e', 'n', 'd', 'i', 'f'] {
        Some(Kind::EndIf)
    } else if w == seq!['r', 'e', 'p', 'e', 'a', 't'] {
        Some(Kind::Repeat)
    } else if w == seq!['e', 'n', 'd', 'r', 'e', 'p', 'e', 'a', 't'] {
        Some(Kind::EndRepeat)
    } else if w == seq!['b', 'r', 'e', 'a', 'k'] {
        Some(Kind::Break)
    } else if w == seq!['c', 'o', 'n', 't', 'i', 'n', 'u', 'e'] {
        Some(Kind::Continue)
    } else if w == seq!['p', 'r', 'i', 'n', 't'] {
        Some(Kind::Print)
    } else if w == seq!['w', 'a', 'i', 't'] {
        Some(Kind::Wait)
    } else {
        None
    }
}

/// The token of the word `s[st..e]` and where it ends: a compound keyword when
/// its continuation follows, else a keyword or an identifier ending at `e`.
pub open spec fn word_token(s: Seq<char>, st: int, e: int) -> (Kind, int) {
    let w = s.subrange(st, e);
    let q = skip_ws(s, e);
    let plain = match keyword(w) {
        Some(k) => (k, e),
        None => (Kind::Identifier(w), e),
    };
    if w == kw_secure() {
        if word_at(s, q, kw_let()) {
            (Kind::SecureLet, q + 3)
        } else if word_at(s, q, kw_const()) {
            (Kind::SecureConst, q + 5)
        } else {
            plain
        }
    } else if w == kw_network() {
        if q < s.len() && s[q] == '.' && word_at(s, q + 1, kw_scan()) {
            (Kind::NetworkScan, q + 5)
        } else {
            plain
        }
    } else if w == kw_crypto() {
        if q < s.len() && s[q] == '.' && word_at(s, q + 1, kw_random()) {
            (Kind::CryptoRandom, q + 7)
        } else {
            plain
        }
    } else if w == kw_time() {
        if q < s.len() && s[q] == '.' && word_at(s, q + 1, kw_now()) {
            (Kind::TimeNow, q + 4)
        } else {
            plain
        }
    } else {
        plain
    }
}

/// A numeric literal at `st`: digits with at most one decimal point. A second
/// point, or an integer beyond `i64`, is malformed.
pub open spec fn number_token(s: Seq<char>, st: int) -> Result<(Kind, int), LexErrorKind> {
    let e1 = digits_end(s, st);
    if e1 < s.len() && s[e1] == '.' {
        let e2 = digits_end(s, e1 + 1);
        if e2 < s.len() && s[e2] == '.' {
            Err(LexErrorKind::MalformedNumber)
        } else {
            Ok((Kind::Float(s.subrange(st, e2)), e2))
        }
    } else {
        let v = digits_value(s.subrange(st, e1));
        if v > i64::MAX {
            Err(LexErrorKind::MalformedNumber)
        } else {
            Ok((Kind::Number(v as i64), e1))
        }
    }
}

/// A string literal whose opening quote is at `st`.
pub open spec fn string_token(s: Seq<char>, st: int) -> Result<(Kind, int), LexErrorKind> {
    let close = quote_at(s, st + 1);
    if close >= s.len() {
        Err(LexErrorKind::UnterminatedString)
    } else {
        Ok((Kind::Str(s.subrange(st + 1, close)), close + 1))
    }
}

/// An operator or a punctuation mark at `st`.
pub open spec fn punct_token(s: Seq<char>, st: int) -> Result<(Kind, int), LexErrorKind> {
    let c = s[st];
    let eq_next = st + 1 < s.len() && s[st + 1] == '=';
    if c == '+' {
        Ok((Kind::Plus, st + 1))
    } else if c == '-' {
        Ok((Kind::Minus, st + 1))
    } else if c == '*' {
        Ok((Kind::Star, st + 1))
    } else if c == '/' {
        Ok((Kind::Slash, st + 1))
    } else if c == '=' {
        if eq_next { Ok((Kind::EqualEqual, st + 2)) } else { Ok((Kind::Assign, st + 1)) }
    } else if c == '!' {
        if eq_next { Ok((Kind::NotEqual, st + 2)) } else { Err(LexErrorKind::UnexpectedChar(c)) }
    } else if c == '>' {
        if eq_next { Ok((Kind::GreaterEqual, st + 2)) } else { Ok((Kind::Greater, st + 1)) }
    } else if c == '<' {
        if eq_next { Ok((Kind::LessEqual, st + 2)) } else { Ok((Kind::Less, st + 1)) }
    } else if c == '(' {
        Ok((Kind::LParen, st + 1))
    } else if c == ')' {
        Ok((Kind::RParen, st + 1))
    } else if c == '{' {
        Ok((Kind::LBrace, st + 1))
    } else if c == '}' {
        Ok((Kind::RBrace, st + 1))
    } else if c == '[' {
        Ok((Kind::LBracket, st + 1))
    } else if c == ']' {
        Ok((Kind::RBracket, st + 1))
    } else if c == ',' {
        Ok((Kind::Comma, st + 1))
    } else if c == ':' {
        Ok((Kind::Colon, st + 1))
    } else if c == ';' {
        Ok((Kind::Semi, st + 1))
    } else {
        Err(LexErrorKind::UnexpectedChar(c))
    }
}

/// The next token after position `p`: its kind, where it starts and where it
/// ends, or the error at its start.
pub open spec fn scan(s: Seq<char>, p: int) -> Result<(Kind, int, int), LexError> {
    let st = skip_ws(s, p);
    if st >= s.len() {
        Ok((Kind::Eof, st, st))
    } else {
        let c = s[st];
        let r = if c == '"' {
            string_token(s, st)
        } else if is_digit(c) {
            number_token(s, st)
        } else if is_alpha(c) {
            Ok(word_token(s, st, ident_end(s, st)))
        } else {
            punct_token(s, st)
        };
        match r {
            Ok((k, e)) => Ok((k, st, e)),
            Err(k) => Err(LexError { kind: k, line: line_at(s, st) as usize, column: col_at(s, st) as usize }),
        }
    }
}

/// The token at `st` with kind `k`, as the lexer reports it.
pub open spec fn token_at(s: Seq<char>, k: Kind, st: int) -> TokenView {
    TokenView { kind: k, line: line_at(s, st), column: col_at(s, st) }
}

/// All tokens from position `p` on, ending with `Eof`, or the first error.
pub open spec fn lex_from(s: Seq<char>, p: int) -> Result<Seq<TokenView>, LexError>
    decreases s.len() - p,
{
    match scan(s, p) {
        Ok((k, st, e)) => {
            let t = token_at(s, k, st);
            if k is Eof || e <= p || e > s.len() {
                Ok(seq![t])
            } else {
                match lex_from(s, e) {
                    Ok(rest) => Ok(seq![t] + rest),
                    Err(err) => Err(err),
                }
            }
        },
        Err(err) => Err(err),
    }
}

/// The tokens of a whole text.
pub open spec fn lex(s: Seq<char>) -> Result<Seq<TokenView>, LexError> {
    lex_from(s, 0)
}

// ---------------------------------------------------------------------------
// Lemmas on the definition.

proof fn lemma_line_col_bound(s: Seq<char>, p: int)
    requires
        0 <= p,
    ensures
        line_at(s, p) <= p + 1,
        col_at(s, p) <= p + 1,
    decreases p,
{
    if p > 0 {
        lemma_line_col_bound(s, p - 1);
    }
}

proof fn lemma_skip_ws(s: Seq<char>, p: int)
    requires
        0 <= p <= s.len(),
    ensures
        p <= skip_ws(s, p) <= s.len(),
    decreases s.len() - p,
{
    if p < s.len() && is_ws(s[p]) {
        lemma_skip_ws(s, p + 1);
    }
}

proof fn lemma_ident_end(s: Seq<char>, p: int)
    requires
        0 <= p <= s.len(),
    ensures
        p <= ident_end(s, p) <= s.len(),
        p < s.len() && is_ident_char(s[p]) ==> p < ident_end(s, p),
    decreases s.len() - p,
{
    if p < s.len() && is_ident_char(s[p]) {
        lemma_ident_end(s, p + 1);
    }
}

proof fn lemma_digits_end(s: Seq<char>, p: int)
    requires
        0 <= p <= s.len(),
    ensures
        p <= digits_end(s, p) <= s.len(),
        forall|i: int| p <= i < digits_end(s, p) ==> is_digit(#[trigger] s[i]),
    decreases s.len() - p,
{
    if p < s.len() && is_digit(s[p]) {
        lemma_digits_end(s, p + 1);
    }
}

proof fn lemma_quote_at(s: Seq<char>, p: int)
    requires
        0 <= p <= s.len(),
    ensures
        p <= quote_at(s, p) <= s.len(),
    decreases s.len() - p,
{
    if p < s.len() && s[p] != '"' {
        lemma_quote_at(s, p + 1);
    }
}

/// A token other than `Eof` is not empty and stands after `p`.
proof fn lemma_scan_advances(s: Seq<char>, p: int)
    requires
        0 <= p <= s.len(),
    ensures
        scan(s, p) matches Ok((k, st, e)) ==> p <= st <= e <= s.len() && (k is Eof <==> st == s.len())
            && (!(k is Eof) ==> st < e),
{
    lemma_skip_ws(s, p);
    let st = skip_ws(s, p);
    if st < s.len() {
        let c = s[st];
        if c == '"' {
            lemma_quote_at(s, st + 1);
        } else if is_digit(c) {
            lemma_digits_end(s, st);
            let e1 = digits_end(s, st);
            if e1 < s.len() {
                lemma_digits_end(s, e1 + 1);
            }
        } else if is_alpha(c) {
            lemma_ident_end(s, st);
            let e = ident_end(s, st);
            lemma_skip_ws(s, e);
        }
    }
}

/// Each digit adds a place: a longer run of digits is worth no less.
proof fn lemma_digits_value_mono(d: Seq<char>, i: int)
    requires
        0 <= i <= d.len(),
        forall|j: int| 0 <= j < d.len() ==> is_digit(#[trigger] d[j]),
    ensures
        0 <= digits_value(d.subrange(0, i)) <= digits_value(d),
    decreases d.len() - i,
{
    if i < d.len() {
        lemma_digits_value_mono(d, i + 1);
        let a = d.subrange(0, i + 1);
        assert(a.drop_last() =~= d.subrange(0, i));
        lemma_digits_value_nonneg(d.subrange(0, i));
    } else {
        assert(d.subrange(0, i) =~= d);
        lemma_digits_value_nonneg(d);
    }
}

proof fn lemma_digits_value_nonneg(d: Seq<char>)
    requires
        forall|j: int| 0 <= j < d.len() ==> is_digit(#[trigger] d[j]),
    ensures
        0 <= digits_value(d),
    decreases d.len(),
{
    if d.len() > 0 {
        lemma_digits_value_nonneg(d.drop_last());
    }
}

proof fn lemma_quote_absent(s: Seq<char>, p: int)
    requires
        0 <= p <= s.len(),
        forall|i: int| p <= i < s.len() ==> s[i] != '"',
    ensures
        quote_at(s, p) == s.len(),
    decreases s.len() - p,
{
    if p < s.len() {
        lemma_quote_absent(s, p + 1);
    }
}

/// A string literal that is never closed is a lexical error reported at its
/// opening quote; lexing never cuts the text short or goes past it.
pub proof fn lemma_unterminated_string(s: Seq<char>, p: int)
    requires
        0 <= p <= s.len(),
        0 <= skip_ws(s, p) < s.len(),
        s[skip_ws(s, p)] == '"',
        forall|i: int| skip_ws(s, p) < i < s.len() ==> s[i] != '"',
    ensures
        scan(s, p) == Err::<(Kind, int, int), LexError>(LexError {
            kind: LexErrorKind::UnterminatedString,
            line: line_at(s, skip_ws(s, p)) as usize,
            column: col_at(s, skip_ws(s, p)) as usize,
        }),
        lex_from(s, p) == Err::<Seq<TokenView>, LexError>(LexError {
            kind: LexErrorKind::UnterminatedString,
            line: line_at(s, skip_ws(s, p)) as usize,
            column: col_at(s, skip_ws(s, p)) as usize,
        }),
{
    lemma_quote_absent(s, skip_ws(s, p) + 1);
}

// ---------------------------------------------------------------------------
// The executable lexer.

/// A lexer over one text: call `next_token` until it returns `Eof`.
pub struct Lexer {
    chars: Vec<char>,
    pos: usize,
    line: usize,
    column: usize,
}

impl Lexer {
    /// The text being read.
    pub closed spec fn input(&self) -> Seq<char> {
        self.chars@
    }

    /// The position of the next unread character.
    pub closed spec fn position(&self) -> int {
        self.pos as int
    }

    pub closed spec fn wf(&self) -> bool {
        &&& self.pos <= self.chars@.len() < usize::MAX
        &&& self.line == line_at(self.chars@, self.pos as int)
        &&& self.column == col_at(self.chars@, self.pos as int)
    }

    pub fn new(input: &str) -> (r: Lexer)
        requires
            input@.len() < usize::MAX,
        ensures
            r.wf(),
            r.input() == input@,
            r.position() == 0,
    {
        Lexer { chars: chars_of(input), pos: 0, line: 1, column: 1 }
    }

    fn advance(&mut self) -> (c: char)
        requires
            old(self).wf(),
            old(self).pos < old(self).chars@.len(),
        ensures
            final(self).wf(),
            final(self).chars == old(self).chars,
            final(self).pos == old(self).pos + 1,
            c == old(self).chars@[old(self).pos as int],
    {
        let c = self.chars[self.pos];
        proof {
            lemma_line_col_bound(self.chars@, self.pos + 1);
        }
        if c == '\n' {
            self.line = self.line + 1;
            self.column = 1;
        } else {
            self.column = self.column + 1;
        }
        self.pos = self.pos + 1;
        c
    }

    fn peek(&self) -> (r: Option<char>)
        requires
            self.wf(),
        ensures
            r == (if self.pos < self.chars@.len() {
                Some(self.chars@[self.pos as int])
            } else {
                None
            }),
    {
        if self.pos < self.chars.len() {
            Some(self.chars[self.pos])
        } else {
            None
        }
    }

    fn peek_is(&self, c: char) -> (r: bool)
        requires
            self.wf(),
        ensures
            r == (self.pos < self.chars@.len() && self.chars@[self.pos as int] == c),
    {
        match self.peek() {
            Some(d) => d == c,
            None => false,
        }
    }

    fn skip_whitespace(&mut self)
        requires
            old(self).wf(),
        ensures
            final(self).wf(),
            final(self).chars == old(self).chars,
            final(self).pos == skip_ws(old(self).chars@, old(self).pos as int),
    {
        while self.pos < self.chars.len() && is_ws_exec(self.chars[self.pos])
            invariant
                self.wf(),
                self.chars == old(self).chars,
                skip_ws(self.chars@, self.pos as int) == skip_ws(old(self).chars@, old(self).pos as int),
            decreases self.chars@.len() - self.pos,
        {
            self.advance();
        }
    }

    fn advance_by(&mut self, n: usize)
        requires
            old(self).wf(),
            old(self).pos + n <= old(self).chars@.len(),
        ensures
            final(self).wf(),
            final(self).chars == old(self).chars,
            final(self).pos == old(self).pos + n,
    {
        let mut i: usize = 0;
        while i < n
            invariant
                self.wf(),
                self.chars == old(self).chars,
                i <= n,
                old(self).pos + n <= self.chars@.len(),
                self.pos == old(self).pos + i,
            decreases n - i,
        {
            self.advance();
            i = i + 1;
        }
    }

    /// Whether `kw` stands at the current position as a whole word.
    fn word_here(&self, kw: &[char]) -> (r: bool)
        requires
            self.wf(),
        ensures
            r == word_at(self.chars@, self.pos as int, kw@),
    {
        let from = self.pos;
        if kw.len() > self.chars.len() - from {
            return false;
        }
        let mut i: usize = 0;
        while i < kw.len()
            invariant
                self.wf(),
                from == self.pos,
                i <= kw@.len(),
                from + kw@.len() <= self.chars@.len(),
                forall|j: int| 0 <= j < i ==> self.chars@[from + j] == kw@[j],
            decreases kw@.len() - i,
        {
            if self.chars[from + i] != kw[i] {
                assert(self.chars@.subrange(from as int, from + kw@.len())[i as int] != kw@[i as int]);
                return false;
            }
            i = i + 1;
        }
        assert(self.chars@.subrange(from as int, from + kw@.len()) =~= kw@);
        let end = from + kw.len();
        end == self.chars.len() || !is_ident_char_exec(self.chars[end])
    }

    /// Whether `s[st..e]` is `kw`.
    fn word_is(&self, st: usize, e: usize, kw: &[char]) -> (r: bool)
        requires
            self.wf(),
            st <= e <= self.chars@.len(),
        ensures
            r == (self.chars@.subrange(st as int, e as int) == kw@),
    {
        if e - st != kw.len() {
            return false;
        }
        let mut i: usize = 0;
        while i < kw.len()
            invariant
                self.wf(),
                st <= e <= self.chars@.len(),
                e - st == kw@.len(),
                i <= kw@.len(),
                forall|j: int| 0 <= j < i ==> self.chars@[st + j] == kw@[j],
            decreases kw@.len() - i,
        {
            if self.chars[st + i] != kw[i] {
                assert(self.chars@.subrange(st as int, e as int)[i as int] != kw@[i as int]);
                return false;
            }
            i = i + 1;
        }
        assert(self.chars@.subrange(st as int, e as int) =~= kw@);
        true
    }

    /// After a namespace word: `.` then `rest` as a whole word, looking past
    /// whitespace first. On a match the lexer stands after `rest`; otherwise it
    /// is left where it was.
    fn dotted(&mut self, rest: &[char]) -> (r: bool)
        requires
            old(self).wf(),
        ensures
            final(self).wf(),
            final(self).chars == old(self).chars,
            ({
                let s = old(self).chars@;
                let q = skip_ws(s, old(self).pos as int);
                r == (q < s.len() && s[q] == '.' && word_at(s, q + 1, rest@))
                    && final(self).pos == (if r { q + 1 + rest@.len() } else { old(self).pos as int })
            }),
    {
        let save_pos = self.pos;
        let save_line = self.line;
        let save_column = self.column;
        self.skip_whitespace();
        proof {
            lemma_skip_ws(self.chars@, save_pos as int);
        }
        if self.peek_is('.') {
            self.advance();
            if self.word_here(rest) {
                self.advance_by(rest.len());
                return true;
            }
        }
        self.pos = save_pos;
        self.line = save_line;
        self.column = save_column;
        false
    }

    /// After `secure`: `kw` as a whole word past whitespace. On a match the
    /// lexer stands after it; otherwise it is left where it was.
    fn followed_by(&mut self, kw: &[char]) -> (r: bool)
        requires
            old(self).wf(),
        ensures
            final(self).wf(),
            final(self).chars == old(self).chars,
            ({
                let s = old(self).chars@;
                let q = skip_ws(s, old(self).pos as int);
                r == word_at(s, q, kw@)
                    && final(self).pos == (if r { q + kw@.len() } else { old(self).pos as int })
            }),
    {
        let save_pos = self.pos;
        let save_line = self.line;
        let save_column = self.column;
        self.skip_whitespace();
        if self.word_here(kw) {
            self.advance_by(kw.len());
            return true;
        }
        self.pos = save_pos;
        self.line = save_line;
        self.column = save_column;
        false
    }

    /// The word that starts at `st`, the lexer standing on its second character.
    fn read_identifier(&mut self, st: usize) -> (r: TokenType)
        requires
            old(self).wf(),
            st < old(self).pos,
            old(self).pos == st + 1,
            is_alpha(old(self).chars@[st as int]),
        ensures
            final(self).wf(),
            final(self).chars == old(self).chars,
            ({
                let (k, e) = word_token(old(self).chars@, st as int, ident_end(old(self).chars@, st as int));
                r@ == k && final(self).pos == e
            }),
    {
        while self.pos < self.chars.len() && is_ident_char_exec(self.chars[self.pos])
            invariant
                self.wf(),
                self.chars == old(self).chars,
                st < self.pos,
                ident_end(self.chars@, self.pos as int) == ident_end(self.chars@, st as int),
            decreases self.chars@.len() - self.pos,
        {
            self.advance();
        }
        let e = self.pos;
        let ghost s = self.chars@;
        assert(s.subrange(st as int, e as int).len() == e - st);
        let secure = ['s', 'e', 'c', 'u', 'r', 'e'];
        let network = ['n', 'e', 't', 'w', 'o', 'r', 'k'];
        let crypto = ['c', 'r', 'y', 'p', 't', 'o'];
        let time = ['t', 'i', 'm', 'e'];
        if self.word_is(st, e, &secure) {
            let kw_l = ['l', 'e', 't'];
            let kw_c = ['c', 'o', 'n', 's', 't'];
            if self.followed_by(&kw_l) {
                return TokenType::SecureLet;
            }
            if self.followed_by(&kw_c) {
                return TokenType::SecureConst;
            }
        } else if self.word_is(st, e, &network) {
            let rest = ['s', 'c', 'a', 'n'];
            if self.dotted(&rest) {
                return TokenType::NetworkScan;
            }
        } else if self.word_is(st, e, &crypto) {
            let rest = ['r', 'a', 'n', 'd', 'o', 'm'];
            if self.dotted(&rest) {
                return TokenType::CryptoRandom;
            }
        } else if self.word_is(st, e, &time) {
            let rest = ['n', 'o', 'w'];
            if self.dotted(&rest) {
                return TokenType::TimeNow;
            }
        }
        self.keyword_or_identifier(st, e)
    }

    fn keyword_or_identifier(&self, st: usize, e: usize) -> (r: TokenType)
        requires
            self.wf(),
            st <= e <= self.chars@.len(),
        ensures
            r@ == (match keyword(self.chars@.subrange(st as int, e as int)) {
                Some(k) => k,
                None => Kind::Identifier(self.chars@.subrange(st as int, e as int)),
            }),
    {
        if self.word_is(st, e, &['f', 'n']) {
            TokenType::Fn
        } else if self.word_is(st, e, &['r', 'e', 't', 'u', 'r', 'n']) {
            TokenType::Return
        } else if self.word_is(st, e, &['i', 'f']) {
            TokenType::If
        } else if self.word_is(st, e, &['e', 'l', 's', 'e', 'i', 'f']) {
            TokenType::ElseIf
        } else if self.word_is(st, e, &['e', 'l', 's', 'e']) {
            TokenType::Else
        } else if self.word_is(st, e, &['e', 'n', 'd', 'i', 'f']) {
            TokenType::EndIf
        } else if self.word_is(st, e, &['r', 'e', 'p', 'e', 'a', 't']) {
            TokenType::Repeat
        } else if self.word_is(st, e, &['e', 'n', 'd', 'r', 'e', 'p', 'e', 'a', 't']) {
            TokenType::EndRepeat
        } else if self.word_is(st, e, &['b', 'r', 'e', 'a', 'k']) {
            TokenType::Break
        } else if self.word_is(st, e, &['c', 'o', 'n', 't', 'i', 'n', 'u', 'e']) {
            TokenType::Continue
        } else if self.word_is(st, e, &['p', 'r', 'i', 'n', 't']) {
            TokenType::Print
        } else if self.word_is(st, e, &['w', 'a', 'i', 't']) {
            TokenType::Wait
        } else {
            TokenType::Identifier(string_of_range(&self.chars, st, e))
        }
    }

    /// A string literal whose opening quote is at `st`, the lexer standing after it.
    fn read_string(&mut self, st: usize) -> (r: Result<TokenType, LexErrorKind>)
        requires
            old(self).wf(),
            old(self).pos == st + 1,
        ensures
            final(self).wf(),
            final(self).chars == old(self).chars,
            match string_token(old(self).chars@, st as int) {
                Ok((k, e)) => r matches Ok(t) && t@ == k && final(self).pos == e,
                Err(ek) => r == Err::<TokenType, LexErrorKind>(ek),
            },
    {
        while self.pos < self.chars.len() && self.chars[self.pos] != '"'
            invariant
                self.wf(),
                self.chars == old(self).chars,
                st < self.pos,
                quote_at(self.chars@, self.pos as int) == quote_at(self.chars@, st + 1),
            decreases self.chars@.len() - self.pos,
        {
            self.advance();
        }
        if self.pos >= self.chars.len() {
            return Err(LexErrorKind::UnterminatedString);
        }
        let close = self.pos;
        self.advance();
        Ok(TokenType::String(string_of_range(&self.chars, st + 1, close)))
    }

    fn skip_digits(&mut self)
        requires
            old(self).wf(),
        ensures
            final(self).wf(),
            final(self).chars == old(self).chars,
            final(self).pos == digits_end(old(self).chars@, old(self).pos as int),
    {
        while self.pos < self.chars.len() && is_digit_exec(self.chars[self.pos])
            invariant
                self.wf(),
                self.chars == old(self).chars,
                digits_end(self.chars@, self.pos as int) == digits_end(old(self).chars@, old(self).pos as int),
            decreases self.chars@.len() - self.pos,
        {
            self.advance();
        }
    }

    /// A numeric literal whose first digit is at `st`, the lexer standing after it.
    fn read_number(&mut self, st: usize) -> (r: Result<TokenType, LexErrorKind>)
        requires
            old(self).wf(),
            old(self).pos == st + 1,
            st < old(self).chars@.len(),
            is_digit(old(self).chars@[st as int]),
        ensures
            final(self).wf(),
            final(self).chars == old(self).chars,
            match number_token(old(self).chars@, st as int) {
                Ok((k, e)) => r matches Ok(t) && t@ == k && final(self).pos == e,
                Err(ek) => r == Err::<TokenType, LexErrorKind>(ek),
            },
    {
        let ghost s = self.chars@;
        self.skip_digits();
        let e1 = self.pos;
        proof {
            lemma_digits_end(s, st as int);
        }
        if self.peek_is('.') {
            self.advance();
            self.skip_digits();
            proof {
                lemma_digits_end(s, e1 + 1);
            }
            if self.peek_is('.') {
                return Err(LexErrorKind::MalformedNumber);
            }
            return Ok(TokenType::Float(string_of_range(&self.chars, st, self.pos)));
        }
        assert(e1 == digits_end(s, st as int));
        assert(!(e1 < s.len() && s[e1 as int] == '.'));
        let ghost d = s.subrange(st as int, e1 as int);
        assert forall|j: int| 0 <= j < d.len() implies is_digit(#[trigger] d[j]) by {
            assert(d[j] == s[st + j]);
        }
        let mut v: i64 = 0;
        let mut i: usize = st;
        while i < e1
            invariant
                self.wf(),
                self.chars == old(self).chars,
                self.chars@ == s,
                self.pos == e1,
                e1 == digits_end(s, st as int),
                !(e1 < s.len() && s[e1 as int] == '.'),
                st <= i <= e1 <= s.len(),
                d == s.subrange(st as int, e1 as int),
                forall|j: int| 0 <= j < d.len() ==> is_digit(#[trigger] d[j]),
                v == digits_value(s.subrange(st as int, i as int)),
                0 <= v,
            decreases e1 - i,
        {
            let c = self.chars[i];
            assert(c == d[i - st]);
            assert(is_digit(c));
            let dv: i64 = (c as u32 - '0' as u32) as i64;
            assert(0 <= dv <= 9 && dv as int == digit_value(c));
            let ghost pre = s.subrange(st as int, i + 1 as int);
            assert(pre.drop_last() =~= s.subrange(st as int, i as int));
            assert(pre =~= d.subrange(0, i + 1 - st));
            assert(pre.last() == c);
            assert(digits_value(pre) == v * 10 + dv);
            if v > 922337203685477580 || (v == 922337203685477580 && dv > 7) {
                proof {
                    lemma_digits_value_mono(d, i + 1 - st);
                    assert(digits_value(d) > i64::MAX);
                    assert(number_token(s, st as int) == Err::<(Kind, int), LexErrorKind>(LexErrorKind::MalformedNumber));
                }
                return Err(LexErrorKind::MalformedNumber);
            }
            v = v * 10 + dv;
            i = i + 1;
        }
        Ok(TokenType::Number(v))
    }

    /// An operator or punctuation mark `c` at `st`, the lexer standing after it.
    fn read_punct(&mut self, st: usize, c: char) -> (r: Result<TokenType, LexErrorKind>)
        requires
            old(self).wf(),
            old(self).pos == st + 1,
            st < old(self).chars@.len(),
            c == old(self).chars@[st as int],
        ensures
            final(self).wf(),
            final(self).chars == old(self).chars,
            match punct_token(old(self).chars@, st as int) {
                Ok((k, e)) => r matches Ok(t) && t@ == k && final(self).pos == e,
                Err(ek) => r == Err::<TokenType, LexErrorKind>(ek),
            },
    {
        let eq_next = self.peek_is('=');
        if c == '=' || c == '!' || c == '>' || c == '<' {
            if eq_next {
                self.advance();
            }
        }
        match c {
            '+' => Ok(TokenType::Plus),
            '-' => Ok(TokenType::Minus),
            '*' => Ok(TokenType::Star),
            '/' => Ok(TokenType::Slash),
            '=' => if eq_next { Ok(TokenType::EqualEqual) } else { Ok(TokenType::Assign) },
            '!' => if eq_next { Ok(TokenType::NotEqual) } else { Err(LexErrorKind::UnexpectedChar(c)) },
            '>' => if eq_next { Ok(TokenType::GreaterEqual) } else { Ok(TokenType::Greater) },
            '<' => if eq_next { Ok(TokenType::LessEqual) } else { Ok(TokenType::Less) },
            '(' => Ok(TokenType::LParen),
            ')' => Ok(TokenType::RParen),
            '{' => Ok(TokenType::LBrace),
            '}' => Ok(TokenType::RBrace),
            '[' => Ok(TokenType::LBracket),
            ']' => Ok(TokenType::RBracket),
            ',' => Ok(TokenType::Comma),
            ':' => Ok(TokenType::Colon),
            ';' => Ok(TokenType::Semi),
            _ => Err(LexErrorKind::UnexpectedChar(c)),
        }
    }

    /// The next token, or the lexical error at its start; at the end of the
    /// text, `Eof` again and again.
    pub fn next_token(&mut self) -> (r: Result<Token, LexError>)
        requires
            old(self).wf(),
        ensures
            final(self).wf(),
            final(self).input() == old(self).input(),
            match scan(old(self).input(), old(self).position()) {
                Ok((k, st, e)) => r matches Ok(t) && t@ == token_at(old(self).input(), k, st)
                    && final(self).position() == e,
                Err(err) => r == Err::<Token, LexError>(err),
            },
    {
        self.skip_whitespace();
        let line = self.line;
        let column = self.column;
        let st = self.pos;
        if st >= self.chars.len() {
            return Ok(Token { kind: TokenType::Eof, line, column });
        }
        let c = self.advance();
        let kind = if c == '"' {
            self.read_string(st)
        } else if is_digit_exec(c) {
            self.read_number(st)
        } else if is_alpha_exec(c) {
            Ok(self.read_identifier(st))
        } else {
            self.read_punct(st, c)
        };
        match kind {
            Ok(kind) => Ok(Token { kind, line, column }),
            Err(k) => Err(LexError { kind: k, line, column }),
        }
    }
}

} // verus!

verus! {

/// All tokens of `input`, ending with `Eof`, or the first lexical error.
pub fn tokenize(input: &str) -> (r: Result<Vec<Token>, LexError>)
    requires
        input@.len() < usize::MAX,
    ensures
        match lex(input@) {
            Ok(ts) => r matches Ok(v) && tokens_view(v@) == ts,
            Err(e) => r == Err::<Vec<Token>, LexError>(e),
        },
{
    let mut lexer = Lexer::new(input);
    let mut out: Vec<Token> = Vec::new();
    loop
        invariant
            lexer.wf(),
            lexer.input() == input@,
            0 <= lexer.position() <= input@.len(),
            lex(input@) == match lex_from(input@, lexer.position()) {
                Ok(rest) => Ok(tokens_view(out@) + rest),
                Err(e) => Err(e),
            },
        decreases input@.len() - lexer.position(),
    {
        let ghost p = lexer.position();
        proof {
            lemma_scan_advances(input@, p);
        }
        let t = lexer.next_token();
        match t {
            Err(e) => {
                return Err(e);
            },
            Ok(tok) => {
                let is_eof = matches!(tok.kind, TokenType::Eof);
                let ghost before = out@;
                out.push(tok);
                assert(tokens_view(out@) =~= tokens_view(before).push(tok@));
                if is_eof {
                    assert(tokens_view(out@) =~= tokens_view(before) + seq![tok@]);
                    return Ok(out);
                }
                assert(tokens_view(before) + (seq![tok@] + match lex_from(input@, lexer.position()) { Ok(rest) => rest, Err(_) => Seq::empty() })
                    =~= tokens_view(out@) + match lex_from(input@, lexer.position()) { Ok(rest) => rest, Err(_) => Seq::empty() });
            },
        }
    }
}

} // verus!
