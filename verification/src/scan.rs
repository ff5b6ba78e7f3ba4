//! Scanning runs of characters: whitespace, line comments, digits.
use vstd::prelude::*;
use crate::text_util::{
    all_digits, digits_value, is_ascii_digit, is_newline, is_whitespace, lemma_digits_value_mono,
    spec_is_newline, spec_is_whitespace,
};

verus! {

/// The end of the run of whitespace that starts at `p`.
pub open spec fn ws_end(s: Seq<char>, p: int) -> int
    decreases s.len() - p,
{
    if 0 <= p < s.len() && spec_is_whitespace(s[p]) {
        ws_end(s, p + 1)
    } else {
        p
    }
}

/// The end of the run of characters that starts at `p` and holds no line break.
pub open spec fn line_end(s: Seq<char>, p: int) -> int
    decreases s.len() - p,
{
    if 0 <= p < s.len() && !spec_is_newline(s[p]) {
        line_end(s, p + 1)
    } else {
        p
    }
}

/// The end of the run of ASCII digits that starts at `p`.
pub open spec fn digits_end(s: Seq<char>, p: int) -> int
    decreases s.len() - p,
{
    if 0 <= p < s.len() && is_ascii_digit(s[p]) {
        digits_end(s, p + 1)
    } else {
        p
    }
}

pub proof fn lemma_ws_end(s: Seq<char>, p: int)
    requires
        0 <= p <= s.len(),
    ensures
        p <= ws_end(s, p) <= s.len(),
        forall|i: int| p <= i < ws_end(s, p) ==> spec_is_whitespace(#[trigger] s[i]),
        ws_end(s, p) < s.len() ==> !spec_is_whitespace(s[ws_end(s, p)]),
    decreases s.len() - p,
{
    if p < s.len() && spec_is_whitespace(s[p]) {
        lemma_ws_end(s, p + 1);
    }
}

pub proof fn lemma_line_end(s: Seq<char>, p: int)
    requires
        0 <= p <= s.len(),
    ensures
        p <= line_end(s, p) <= s.len(),
        forall|i: int| p <= i < line_end(s, p) ==> !spec_is_newline(#[trigger] s[i]),
        line_end(s, p) < s.len() ==> spec_is_newline(s[line_end(s, p)]),
    decreases s.len() - p,
{
    if p < s.len() && !spec_is_newline(s[p]) {
        lemma_line_end(s, p + 1);
    }
}

pub proof fn lemma_digits_end(s: Seq<char>, p: int)
    requires
        0 <= p <= s.len(),
    ensures
        p <= digits_end(s, p) <= s.len(),
        forall|i: int| p <= i < digits_end(s, p) ==> is_ascii_digit(#[trigger] s[i]),
        digits_end(s, p) < s.len() ==> !is_ascii_digit(s[digits_end(s, p)]),
    decreases s.len() - p,
{
    if p < s.len() && is_ascii_digit(s[p]) {
        lemma_digits_end(s, p + 1);
    }
}

/// Skips whitespace and `//` comments (a comment runs to the next line break).
pub open spec fn trivia_end(s: Seq<char>, p: int) -> int
    decreases s.len() - p,
{
    if 0 <= p <= s.len() {
        let q = ws_end(s, p);
        if q + 1 < s.len() && s[q] == '/' && s[q + 1] == '/' {
            proof {
                lemma_ws_end(s, p);
                lemma_line_end(s, q + 2);
            }
            trivia_end(s, line_end(s, q + 2))
        } else {
            q
        }
    } else {
        p
    }
}

pub proof fn lemma_trivia_end(s: Seq<char>, p: int)
    requires
        0 <= p <= s.len(),
    ensures
        p <= trivia_end(s, p) <= s.len(),
    decreases s.len() - p,
{
    lemma_ws_end(s, p);
    let q = ws_end(s, p);
    if q + 1 < s.len() && s[q] == '/' && s[q + 1] == '/' {
        lemma_line_end(s, q + 2);
        lemma_trivia_end(s, line_end(s, q + 2));
    }
}

pub fn scan_ws(cs: &Vec<char>, p: usize) -> (r: usize)
    requires
        p <= cs.len(),
    ensures
        r == ws_end(cs@, p as int),
{
    let mut i = p;
    while i < cs.len() && is_whitespace(cs[i])
        invariant
            p <= i <= cs.len(),
            ws_end(cs@, i as int) == ws_end(cs@, p as int),
        decreases cs.len() - i,
    {
        i = i + 1;
    }
    i
}

pub fn scan_line(cs: &Vec<char>, p: usize) -> (r: usize)
    requires
        p <= cs.len(),
    ensures
        r == line_end(cs@, p as int),
{
    let mut i = p;
    while i < cs.len() && !is_newline(cs[i])
        invariant
            p <= i <= cs.len(),
            line_end(cs@, i as int) == line_end(cs@, p as int),
        decreases cs.len() - i,
    {
        i = i + 1;
    }
    i
}

pub fn scan_digits(cs: &Vec<char>, p: usize) -> (r: usize)
    requires
        p <= cs.len(),
    ensures
        r == digits_end(cs@, p as int),
{
    let mut i = p;
    while i < cs.len() && ('0' <= cs[i] && cs[i] <= '9')
        invariant
            p <= i <= cs.len(),
            digits_end(cs@, i as int) == digits_end(cs@, p as int),
        decreases cs.len() - i,
    {
        i = i + 1;
    }
    i
}

pub fn scan_trivia(cs: &Vec<char>, p: usize) -> (r: usize)
    requires
        p <= cs.len(),
    ensures
        r == trivia_end(cs@, p as int),
{
    let mut i = p;
    loop
        invariant
            p <= i <= cs.len(),
            trivia_end(cs@, i as int) == trivia_end(cs@, p as int),
        decreases cs.len() - i,
    {
        let q = scan_ws(cs, i);
        proof {
            lemma_ws_end(cs@, i as int);
        }
        if q < cs.len() && q + 1 < cs.len() && cs[q] == '/' && cs[q + 1] == '/' {
            let e = scan_line(cs, q + 2);
            proof {
                lemma_line_end(cs@, q + 2);
            }
            i = e;
        } else {
            return q;
        }
    }
}

/// The value of the decimal digits `cs[a..b]`, or `None` when it exceeds `u16::MAX`.
pub fn digits_u16(cs: &Vec<char>, a: usize, b: usize) -> (r: Option<u16>)
    requires
        a <= b <= cs.len(),
        all_digits(cs@.subrange(a as int, b as int)),
    ensures
        match r {
            Some(v) => v == digits_value(cs@.subrange(a as int, b as int)),
            None => digits_value(cs@.subrange(a as int, b as int)) > u16::MAX,
        },
{
    let ghost d = cs@.subrange(a as int, b as int);
    let mut value: u32 = 0;
    let mut i = a;
    while i < b
        invariant
            a <= i <= b <= cs.len(),
            d == cs@.subrange(a as int, b as int),
            all_digits(d),
            value == digits_value(d.take(i - a)),
            value <= u16::MAX,
        decreases b - i,
    {
        let ghost k: int = i - a;
        assert(d.take(k + 1).drop_last() =~= d.take(k));
        assert(d[k] == cs@[i as int]);
        assert(is_ascii_digit(d[k]));
        let next = value * 10 + ((cs[i] as u32) - ('0' as u32));
        if next > 65535 {
            proof {
                lemma_digits_value_mono(d, k + 1);
            }
            return None;
        }
        value = next;
        i = i + 1;
    }
    assert(d.take(d.len() as int) =~= d);
    Some(value as u16)
}

/// The start of the run of whitespace that ends at `e`.
pub open spec fn ws_start(s: Seq<char>, e: int) -> int
    decreases e,
{
    if 0 < e <= s.len() && spec_is_whitespace(s[e - 1]) {
        ws_start(s, e - 1)
    } else {
        e
    }
}

pub proof fn lemma_ws_start(s: Seq<char>, e: int)
    requires
        0 <= e <= s.len(),
    ensures
        0 <= ws_start(s, e) <= e,
        forall|i: int| ws_start(s, e) <= i < e ==> spec_is_whitespace(#[trigger] s[i]),
        ws_start(s, e) > 0 ==> !spec_is_whitespace(s[ws_start(s, e) - 1]),
    decreases e,
{
    if 0 < e && spec_is_whitespace(s[e - 1]) {
        lemma_ws_start(s, e - 1);
    }
}

/// `s` without leading and trailing whitespace (what `str::trim` gives).
pub open spec fn trimmed(s: Seq<char>) -> Seq<char> {
    let a = ws_end(s, 0);
    let b = ws_start(s, s.len() as int);
    if a < b {
        s.subrange(a, b)
    } else {
        Seq::empty()
    }
}

/// The characters of `cs` without leading and trailing whitespace.
pub fn trim_chars(cs: &Vec<char>) -> (r: Vec<char>)
    ensures
        r@ == trimmed(cs@),
{
    let a = scan_ws(cs, 0);
    let mut b = cs.len();
    while b > 0 && is_whitespace(cs[b - 1])
        invariant
            b <= cs.len(),
            ws_start(cs@, b as int) == ws_start(cs@, cs.len() as int),
        decreases b,
    {
        b = b - 1;
    }
    let mut r: Vec<char> = Vec::new();
    if a < b {
        let mut k = a;
        while k < b
            invariant
                a <= k <= b <= cs.len(),
                r@ == cs@.subrange(a as int, k as int),
            decreases b - k,
        {
            r.push(cs[k]);
            assert(cs@.subrange(a as int, k + 1) =~= cs@.subrange(a as int, k as int).push(cs@[k as int]));
            k = k + 1;
        }
    }
    r
}

} // verus!
