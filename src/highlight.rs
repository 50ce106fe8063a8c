//! Terminal colouring of a line of source, as the interactive shell echoes it.
//!
//! Each keyword, then `print`, the quote and `=`, is replaced everywhere by a
//! copy wrapped in an ANSI colour code, one replacement after the other.

use crate::text::string_from_chars;
use crate::text::chars_of;
use vstd::prelude::*;

verus! {

/// `s` with every occurrence of `pat` replaced by `rep`, scanning left to right
/// without overlaps.
pub open spec fn replace_all(s: Seq<char>, pat: Seq<char>, rep: Seq<char>) -> Seq<char>
    decreases s.len(),
{
    if pat.len() == 0 || s.len() < pat.len() {
        s
    } else if s.subrange(0, pat.len() as int) == pat {
        rep + replace_all(s.subrange(pat.len() as int, s.len() as int), pat, rep)
    } else {
        seq![s[0]] + replace_all(s.subrange(1, s.len() as int), pat, rep)
    }
}

/// `w` wrapped in the colour `code` and a reset.
pub open spec fn painted(code: Seq<char>, w: Seq<char>) -> Seq<char> {
    seq!['\x1b', '['] + code + seq!['m'] + w + seq!['\x1b', '[', '0', 'm']
}

pub open spec fn paint(s: Seq<char>, w: Seq<char>, code: Seq<char>) -> Seq<char> {
    replace_all(s, w, painted(code, w))
}

pub open spec fn blue() -> Seq<char> {
    seq!['1', ';', '3', '4']
}

/// The words coloured blue, in the order they are replaced.
pub open spec fn blue_words() -> Seq<Seq<char>> {
    seq![
        seq!['s', 'e', 'c', 'u', 'r', 'e'],
        seq!['l', 'e', 't'],
        seq!['c', 'o', 'n', 's', 't'],
        seq!['f', 'n'],
        seq!['r', 'e', 't', 'u', 'r', 'n'],
        seq!['i', 'f'],
        seq!['e', 'l', 's', 'e'],
        seq!['r', 'e', 'p', 'e', 'a', 't'],
        seq!['p', 'r', 'i', 'n', 't'],
        seq!['n', 'e', 't', 'w', 'o', 'r', 'k'],
        seq!['s', 'c', 'a', 'n'],
        seq!['c', 'r', 'y', 'p', 't', 'o'],
        seq!['r', 'a', 'n', 'd', 'o', 'm'],
        seq!['t', 'i', 'm', 'e'],
        seq!['n', 'o', 'w'],
        seq!['w', 'a', 'i', 't'],
    ]
}

/// The first `n` blue words painted, in order.
pub open spec fn paint_blue(s: Seq<char>, n: int) -> Seq<char>
    decreases n,
{
    if n <= 0 {
        s
    } else {
        paint(paint_blue(s, n - 1), blue_words()[n - 1], blue())
    }
}

/// The coloured form of a line.
pub open spec fn highlight(line: Seq<char>) -> Seq<char> {
    let s = paint_blue(line, 16);
    let s = paint(s, seq!['p', 'r', 'i', 'n', 't'], seq!['1', ';', '3', '2']);
    let s = paint(s, seq!['"'], seq!['1', ';', '3', '3']);
    paint(s, seq!['='], seq!['1', ';', '3', '1'])
}

/// Whether `pat` occurs in `s` at `i`.
fn occurs_at(s: &Vec<char>, i: usize, pat: &Vec<char>) -> (r: bool)
    requires
        i <= s@.len(),
    ensures
        r == (pat@.len() <= s@.len() - i && s@.subrange(i as int, i + pat@.len()) == pat@),
{
    if pat.len() > s.len() - i {
        return false;
    }
    let mut k: usize = 0;
    while k < pat.len()
        invariant
            k <= pat@.len(),
            i + pat@.len() <= s.len(),
            forall|j: int| 0 <= j < k ==> s@[i + j] == pat@[j],
        decreases pat@.len() - k,
    {
        if s[i + k] != pat[k] {
            assert(s@.subrange(i as int, i + pat@.len())[k as int] != pat@[k as int]);
            return false;
        }
        k = k + 1;
    }
    assert(s@.subrange(i as int, i + pat@.len()) =~= pat@);
    true
}

/// `s` with every occurrence of `pat` replaced by `rep`.
pub fn replace_chars(s: &Vec<char>, pat: &Vec<char>, rep: &Vec<char>) -> (r: Vec<char>)
    ensures
        r@ == replace_all(s@, pat@, rep@),
{
    let mut out: Vec<char> = Vec::new();
    let mut i: usize = 0;
    assert(s@.subrange(0, s@.len() as int) =~= s@);
    assert(out@ + s@ =~= s@);
    while i < s.len()
        invariant
            i <= s@.len(),
            replace_all(s@, pat@, rep@) == out@ + replace_all(s@.subrange(i as int, s@.len() as int), pat@, rep@),
        decreases s@.len() - i,
    {
        let ghost rest = s@.subrange(i as int, s@.len() as int);
        let ghost before = out@;
        if pat.len() > 0 && occurs_at(s, i, pat) {
            assert(rest.subrange(0, pat@.len() as int) =~= s@.subrange(i as int, i + pat@.len()));
            assert(rest.subrange(pat@.len() as int, rest.len() as int) =~= s@.subrange(i + pat@.len(), s@.len() as int));
            let mut k: usize = 0;
            while k < rep.len()
                invariant
                    k <= rep@.len(),
                    out@ == before + rep@.subrange(0, k as int),
                decreases rep@.len() - k,
            {
                out.push(rep[k]);
                assert(rep@.subrange(0, k + 1 as int) =~= rep@.subrange(0, k as int).push(rep@[k as int]));
                k = k + 1;
            }
            assert(rep@.subrange(0, rep@.len() as int) =~= rep@);
            assert(before + (rep@ + replace_all(s@.subrange(i + pat@.len(), s@.len() as int), pat@, rep@)) =~= out@
                + replace_all(s@.subrange(i + pat@.len(), s@.len() as int), pat@, rep@));
            i = i + pat.len();
        } else {
            proof {
                if pat@.len() > 0 && rest.len() >= pat@.len() {
                    assert(rest.subrange(0, pat@.len() as int) =~= s@.subrange(i as int, i + pat@.len()));
                }
            }
            assert(rest.subrange(1, rest.len() as int) =~= s@.subrange(i + 1, s@.len() as int));
            out.push(s[i]);
            proof {
                if pat@.len() == 0 || rest.len() < pat@.len() {
                    assert(rest =~= seq![s@[i as int]] + s@.subrange(i + 1, s@.len() as int));
                    lemma_replace_short(s@.subrange(i + 1, s@.len() as int), pat@, rep@);
                    lemma_replace_short(rest, pat@, rep@);
                }
            }
            assert(before + (seq![s@[i as int]] + replace_all(s@.subrange(i + 1, s@.len() as int), pat@, rep@)) =~= out@
                + replace_all(s@.subrange(i + 1, s@.len() as int), pat@, rep@));
            i = i + 1;
        }
    }
    assert(s@.subrange(i as int, s@.len() as int) =~= Seq::<char>::empty());
    assert(out@ + Seq::<char>::empty() =~= out@);
    out
}

proof fn lemma_replace_short(s: Seq<char>, pat: Seq<char>, rep: Seq<char>)
    requires
        pat.len() == 0 || s.len() < pat.len(),
    ensures
        replace_all(s, pat, rep) == s,
{
}

fn painted_chars(code: &[char], w: &Vec<char>) -> (r: Vec<char>)
    ensures
        r@ == painted(code@, w@),
{
    let mut out: Vec<char> = Vec::new();
    out.push('\x1b');
    out.push('[');
    let mut k: usize = 0;
    while k < code.len()
        invariant
            k <= code@.len(),
            out@ == seq!['\x1b', '['] + code@.subrange(0, k as int),
        decreases code@.len() - k,
    {
        out.push(code[k]);
        assert(code@.subrange(0, k + 1 as int) =~= code@.subrange(0, k as int).push(code@[k as int]));
        k = k + 1;
    }
    out.push('m');
    let mut k: usize = 0;
    let ghost mid = out@;
    while k < w.len()
        invariant
            k <= w@.len(),
            out@ == mid + w@.subrange(0, k as int),
        decreases w@.len() - k,
    {
        out.push(w[k]);
        assert(w@.subrange(0, k + 1 as int) =~= w@.subrange(0, k as int).push(w@[k as int]));
        k = k + 1;
    }
    out.push('\x1b');
    out.push('[');
    out.push('0');
    out.push('m');
    assert(code@.subrange(0, code@.len() as int) =~= code@);
    assert(w@.subrange(0, w@.len() as int) =~= w@);
    assert(out@ =~= painted(code@, w@));
    out
}

fn paint_chars(s: &Vec<char>, w: &[char], code: &[char]) -> (r: Vec<char>)
    ensures
        r@ == paint(s@, w@, code@),
{
    let mut word: Vec<char> = Vec::new();
    let mut k: usize = 0;
    while k < w.len()
        invariant
            k <= w@.len(),
            word@ == w@.subrange(0, k as int),
        decreases w@.len() - k,
    {
        word.push(w[k]);
        assert(w@.subrange(0, k + 1 as int) =~= w@.subrange(0, k as int).push(w@[k as int]));
        k = k + 1;
    }
    assert(w@.subrange(0, w@.len() as int) =~= w@);
    let rep = painted_chars(code, &word);
    replace_chars(s, &word, &rep)
}

/// The line with its keywords, `print`, quotes and `=` in colour.
pub fn highlight_syntax(line: &str) -> (r: String)
    ensures
        r@ == highlight(line@),
{
    let blue_code = ['1', ';', '3', '4'];
    let s0 = chars_of(line);
    let mut s = s0;
    assert(blue_code@ == blue());
    assert(s@ == paint_blue(line@, 0));
    let w = ['s', 'e', 'c', 'u', 'r', 'e'];
    assert(w@ == blue_words()[0]);
    s = paint_chars(&s, &w, &blue_code);
    assert(s@ == paint_blue(line@, 1));
    let w = ['l', 'e', 't'];
    assert(w@ == blue_words()[1]);
    s = paint_chars(&s, &w, &blue_code);
    assert(s@ == paint_blue(line@, 2));
    let w = ['c', 'o', 'n', 's', 't'];
    assert(w@ == blue_words()[2]);
    s = paint_chars(&s, &w, &blue_code);
    assert(s@ == paint_blue(line@, 3));
    let w = ['f', 'n'];
    assert(w@ == blue_words()[3]);
    s = paint_chars(&s, &w, &blue_code);
    assert(s@ == paint_blue(line@, 4));
    let w = ['r', 'e', 't', 'u', 'r', 'n'];
    assert(w@ == blue_words()[4]);
    s = paint_chars(&s, &w, &blue_code);
    assert(s@ == paint_blue(line@, 5));
    let w = ['i', 'f'];
    assert(w@ == blue_words()[5]);
    s = paint_chars(&s, &w, &blue_code);
    assert(s@ == paint_blue(line@, 6));
    let w = ['e', 'l', 's', 'e'];
    assert(w@ == blue_words()[6]);
    s = paint_chars(&s, &w, &blue_code);
    assert(s@ == paint_blue(line@, 7));
    let w = ['r', 'e', 'p', 'e', 'a', 't'];
    assert(w@ == blue_words()[7]);
    s = paint_chars(&s, &w, &blue_code);
    assert(s@ == paint_blue(line@, 8));
    let w = ['p', 'r', 'i', 'n', 't'];
    assert(w@ == blue_words()[8]);
    s = paint_chars(&s, &w, &blue_code);
    assert(s@ == paint_blue(line@, 9));
    let w = ['n', 'e', 't', 'w', 'o', 'r', 'k'];
    assert(w@ == blue_words()[9]);
    s = paint_chars(&s, &w, &blue_code);
    assert(s@ == paint_blue(line@, 10));
    let w = ['s', 'c', 'a', 'n'];
    assert(w@ == blue_words()[10]);
    s = paint_chars(&s, &w, &blue_code);
    assert(s@ == paint_blue(line@, 11));
    let w = ['c', 'r', 'y', 'p', 't', 'o'];
    assert(w@ == blue_words()[11]);
    s = paint_chars(&s, &w, &blue_code);
    assert(s@ == paint_blue(line@, 12));
    let w = ['r', 'a', 'n', 'd', 'o', 'm'];
    assert(w@ == blue_words()[12]);
    s = paint_chars(&s, &w, &blue_code);
    assert(s@ == paint_blue(line@, 13));
    let w = ['t', 'i', 'm', 'e'];
    assert(w@ == blue_words()[13]);
    s = paint_chars(&s, &w, &blue_code);
    assert(s@ == paint_blue(line@, 14));
    let w = ['n', 'o', 'w'];
    assert(w@ == blue_words()[14]);
    s = paint_chars(&s, &w, &blue_code);
    assert(s@ == paint_blue(line@, 15));
    let w = ['w', 'a', 'i', 't'];
    assert(w@ == blue_words()[15]);
    s = paint_chars(&s, &w, &blue_code);
    assert(s@ == paint_blue(line@, 16));
    let w = ['p', 'r', 'i', 'n', 't'];
    let green = ['1', ';', '3', '2'];
    assert(w@ == seq!['p', 'r', 'i', 'n', 't'] && green@ == seq!['1', ';', '3', '2']);
    s = paint_chars(&s, &w, &green);
    let quote = ['"'];
    let yellow = ['1', ';', '3', '3'];
    assert(quote@ == seq!['"'] && yellow@ == seq!['1', ';', '3', '3']);
    s = paint_chars(&s, &quote, &yellow);
    let assign = ['='];
    let red = ['1', ';', '3', '1'];
    assert(assign@ == seq!['='] && red@ == seq!['1', ';', '3', '1']);
    s = paint_chars(&s, &assign, &red);
    string_from_chars(s.as_slice())
}

} // verus!
