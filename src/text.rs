//! Character classes and text helpers shared by the stages.

use vstd::prelude::*;

verus! {

/// The whitespace that separates tokens.
pub open spec fn is_ws(c: char) -> bool {
    c == ' ' || c == '\t' || c == '\n' || c == '\r'
}

pub open spec fn is_digit(c: char) -> bool {
    '0' <= c && c <= '9'
}

/// A character that may start an identifier.
pub open spec fn is_alpha(c: char) -> bool {
    ('a' <= c && c <= 'z') || ('A' <= c && c <= 'Z') || c == '_'
}

/// A character that may continue an identifier.
pub open spec fn is_ident_char(c: char) -> bool {
    is_alpha(c) || is_digit(c)
}

pub open spec fn digit_value(c: char) -> int {
    c as int - '0' as int
}

/// The value of a run of decimal digits, most significant first.
pub open spec fn digits_value(d: Seq<char>) -> int
    decreases d.len(),
{
    if d.len() == 0 {
        0
    } else {
        digits_value(d.drop_last()) * 10 + digit_value(d.last())
    }
}

pub open spec fn digit_char(d: int) -> char {
    (d + '0' as int) as char
}

/// The decimal digits of a natural number, without leading zeros.
pub open spec fn nat_decimal(n: nat) -> Seq<char>
    decreases n,
{
    if n < 10 {
        seq![digit_char(n as int)]
    } else {
        nat_decimal(n / 10).push(digit_char((n % 10) as int))
    }
}

/// The decimal form of an integer: a minus sign before negative numbers.
pub open spec fn decimal(n: int) -> Seq<char> {
    if n < 0 {
        seq!['-'].add(nat_decimal((-n) as nat))
    } else {
        nat_decimal(n as nat)
    }
}

pub fn is_ws_exec(c: char) -> (r: bool)
    ensures
        r == is_ws(c),
{
    c == ' ' || c == '\t' || c == '\n' || c == '\r'
}

pub fn is_digit_exec(c: char) -> (r: bool)
    ensures
        r == is_digit(c),
{
    '0' <= c && c <= '9'
}

pub fn is_alpha_exec(c: char) -> (r: bool)
    ensures
        r == is_alpha(c),
{
    ('a' <= c && c <= 'z') || ('A' <= c && c <= 'Z') || c == '_'
}

pub fn is_ident_char_exec(c: char) -> (r: bool)
    ensures
        r == is_ident_char(c),
{
    is_alpha_exec(c) || is_digit_exec(c)
}

/// Relies on `String::from_iter` over `&char`: the string holds exactly those
/// characters, in order.
#[verifier::external_body]
pub(crate) fn string_from_chars(v: &[char]) -> (r: String)
    ensures
        r@ == v@,
{
    String::from_iter(v)
}

/// The characters `v[st..e]` as a string.
pub fn string_of_range(v: &Vec<char>, st: usize, e: usize) -> (r: String)
    requires
        st <= e <= v@.len(),
    ensures
        r@ == v@.subrange(st as int, e as int),
{
    let mut part: Vec<char> = Vec::new();
    let mut i: usize = st;
    while i < e
        invariant
            st <= i <= e <= v@.len(),
            part@ == v@.subrange(st as int, i as int),
        decreases e - i,
    {
        part.push(v[i]);
        assert(v@.subrange(st as int, i + 1 as int) =~= v@.subrange(st as int, i as int).push(v@[i as int]));
        i = i + 1;
    }
    string_from_chars(part.as_slice())
}

/// The characters of `s`, in order.
pub fn chars_of(s: &str) -> (r: Vec<char>)
    ensures
        r@ == s@,
{
    let n = s.unicode_len();
    let mut v: Vec<char> = Vec::new();
    let mut i: usize = 0;
    while i < n
        invariant
            n == s@.len(),
            i <= n,
            v@ == s@.subrange(0, i as int),
        decreases n - i,
    {
        v.push(s.get_char(i));
        i = i + 1;
    }
    assert(v@ =~= s@);
    v
}

/// The decimal digits of `n` are digits, and read back they give `n`.
pub proof fn lemma_nat_decimal_digits(n: nat)
    ensures
        nat_decimal(n).len() >= 1,
        forall|i: int| 0 <= i < nat_decimal(n).len() ==> is_digit(#[trigger] nat_decimal(n)[i]),
        digits_value(nat_decimal(n)) == n,
    decreases n,
{
    if n < 10 {
        let d = nat_decimal(n);
        assert(d.drop_last() =~= Seq::<char>::empty());
        assert(digits_value(d.drop_last()) == 0);
        assert(digit_value(digit_char(n as int)) == n);
        assert(digits_value(d) == n);
    } else {
        lemma_nat_decimal_digits(n / 10);
        let d = nat_decimal(n);
        let c = digit_char((n % 10) as int);
        assert(d.drop_last() =~= nat_decimal(n / 10));
        assert(digit_value(c) == n % 10);
        assert(is_digit(c));
        assert(d.last() == c);
        vstd::arithmetic::div_mod::lemma_fundamental_div_mod(n as int, 10);
        assert(digits_value(d) == digits_value(nat_decimal(n / 10)) * 10 + digit_value(c));
    }
}

/// The decimal digits of `n`, as characters.
fn nat_digits(n: u64) -> (r: Vec<char>)
    ensures
        r@ == nat_decimal(n as nat),
{
    let mut rev: Vec<char> = Vec::new();
    let mut m: u64 = n;
    // rev holds the low digits of n, least significant first
    while m >= 10
        invariant
            nat_decimal(n as nat) == nat_decimal(m as nat) + rev@.reverse(),
        decreases m,
    {
        let d = m % 10;
        assert(nat_decimal(m as nat) == nat_decimal((m / 10) as nat).push(digit_char(d as int)));
        rev.push(((d as u8) + ('0' as u8)) as char);
        assert(rev@.reverse() =~= seq![digit_char(d as int)] + rev@.drop_last().reverse());
        m = m / 10;
    }
    let mut out: Vec<char> = Vec::new();
    out.push(((m as u8) + ('0' as u8)) as char);
    assert(out@ =~= nat_decimal(m as nat));
    let mut i: usize = rev.len();
    while i > 0
        invariant
            i <= rev@.len(),
            out@ + rev@.subrange(0, i as int).reverse() == nat_decimal(n as nat),
        decreases i,
    {
        i = i - 1;
        out.push(rev[i]);
        assert(rev@.subrange(0, i + 1 as int).reverse() =~= seq![rev@[i as int]] + rev@.subrange(0, i as int).reverse());
        assert(out@ + rev@.subrange(0, i as int).reverse() =~= nat_decimal(n as nat));
    }
    assert(rev@.subrange(0, 0).reverse() =~= Seq::<char>::empty());
    assert(out@ =~= nat_decimal(n as nat));
    out
}

/// The decimal form of `n`, as `print` renders a number.
pub fn decimal_string(n: i64) -> (r: String)
    ensures
        r@ == decimal(n as int),
{
    if n < 0 {
        let mag: u64 = if n == i64::MIN {
            9223372036854775808u64
        } else {
            (-n) as u64
        };
        let digits = nat_digits(mag);
        let mut all: Vec<char> = Vec::new();
        all.push('-');
        let mut i: usize = 0;
        while i < digits.len()
            invariant
                i <= digits@.len(),
                all@ == seq!['-'] + digits@.subrange(0, i as int),
            decreases digits@.len() - i,
        {
            all.push(digits[i]);
            assert(digits@.subrange(0, i + 1 as int) =~= digits@.subrange(0, i as int).push(digits@[i as int]));
            i = i + 1;
        }
        assert(digits@.subrange(0, digits@.len() as int) =~= digits@);
        string_from_chars(all.as_slice())
    } else {
        let digits = nat_digits(n as u64);
        string_from_chars(digits.as_slice())
    }
}

} // verus!
