//! The line-by-line reader of the stand-alone assembler.
//!
//! Each line is trimmed; empty lines and lines starting with `//` are skipped.
//! A line starting with `@` is an address (a number, or else a symbol), one
//! starting with `(` a label, and any other a C-instruction matched by the
//! pattern `(?:(?P<dest>[A-Z]+)?=)?(?P<comp>[A-Z0-9&!+\-|]+);?(?P<jump>[A-Z]{3})?`,
//! searched for leftmost-first anywhere in the line.
use vstd::prelude::*;
use crate::assembler::instructions::{Instruction, OperatorKind};
use crate::assembler::parser_new::{dest_from_chars, dest_from_letters};
use crate::instructions::error::{ErrorKindSpec, InstructionError, InstructionErrorKind};
use crate::instructions::{CompFlags, DestFlags, JumpFlags, OpSpec};
use crate::scan::{trim_chars, trimmed};
use crate::text_util::{
    is_ascii_digit, is_ascii_uppercase, parse_u16, spec_parse_u16, str_chars, string_from_chars,
};

verus! {

/// A character of the `comp` field: an uppercase letter, a digit, or one of `& ! + - |`.
pub open spec fn is_comp_char(c: char) -> bool {
    is_ascii_uppercase(c) || is_ascii_digit(c) || c == '&' || c == '!' || c == '+' || c == '-'
        || c == '|'
}

/// The end of the run of uppercase letters that starts at `p`.
pub open spec fn upper_end(s: Seq<char>, p: int) -> int
    decreases s.len() - p,
{
    if 0 <= p < s.len() && is_ascii_uppercase(s[p]) {
        upper_end(s, p + 1)
    } else {
        p
    }
}

/// The end of the run of `comp` characters that starts at `p`.
pub open spec fn comp_chars_end(s: Seq<char>, p: int) -> int
    decreases s.len() - p,
{
    if 0 <= p < s.len() && is_comp_char(s[p]) {
        comp_chars_end(s, p + 1)
    } else {
        p
    }
}

/// Where the three groups of a match lie: `(start, end)` of each, the `dest`
/// and `jump` groups only when they take part in the match.
pub struct CaptureSpans {
    pub dest: Option<(int, int)>,
    pub comp: (int, int),
    pub jump: Option<(int, int)>,
}

/// The match of the C-instruction pattern that starts at `p`, if any. The
/// optional `dest=` is taken when a `comp` character follows the `=`; `comp`
/// is the longest run; `;` and a three-letter `jump` are taken when present.
pub open spec fn match_at(s: Seq<char>, p: int) -> Option<CaptureSpans> {
    let u = upper_end(s, p);
    let prefixed = 0 <= p && u + 1 < s.len() && s[u] == '=' && is_comp_char(s[u + 1]);
    if prefixed || (0 <= p < s.len() && is_comp_char(s[p])) {
        let cstart = if prefixed { u + 1 } else { p };
        let cend = comp_chars_end(s, cstart);
        let j = if cend < s.len() && s[cend] == ';' { cend + 1 } else { cend };
        Some(CaptureSpans {
            dest: if prefixed && u > p { Some((p, u)) } else { None },
            comp: (cstart, cend),
            jump: if j + 3 <= s.len() && is_ascii_uppercase(s[j]) && is_ascii_uppercase(s[j + 1])
                && is_ascii_uppercase(s[j + 2]) {
                Some((j, j + 3))
            } else {
                None
            },
        })
    } else {
        None
    }
}

/// The leftmost match at or after `p`.
pub open spec fn first_match(s: Seq<char>, p: int) -> Option<CaptureSpans>
    decreases s.len() - p,
{
    if 0 <= p < s.len() {
        match match_at(s, p) {
            Some(m) => Some(m),
            None => first_match(s, p + 1),
        }
    } else {
        None
    }
}

/// What a C-instruction line gives: the operator, or the error.
pub open spec fn spec_comp_instruction(t: Seq<char>) -> Result<OpSpec, ErrorKindSpec> {
    match first_match(t, 0) {
        None => Err(ErrorKindSpec::InvalidComp(t)),
        Some(m) => {
            let dest = match m.dest {
                None => Ok(DestFlags::Null),
                Some((a, b)) => match dest_from_letters(t.subrange(a, b)) {
                    Some(d) => Ok(d),
                    None => Err(ErrorKindSpec::InvalidDest(t.subrange(a, b))),
                },
            };
            let comp_text = t.subrange(m.comp.0, m.comp.1);
            match dest {
                Err(e) => Err(e),
                Ok(d) => match CompFlags::spec_from_name(comp_text) {
                    None => Err(ErrorKindSpec::InvalidComp(comp_text)),
                    Some(c) => match m.jump {
                        None => Ok(OpSpec::Comp(d, c, JumpFlags::Null)),
                        Some((a, b)) => match JumpFlags::spec_from_name(t.subrange(a, b)) {
                            Some(j) => Ok(OpSpec::Comp(d, c, j)),
                            None => Err(ErrorKindSpec::InvalidJump(t.subrange(a, b))),
                        },
                    },
                },
            }
        },
    }
}

proof fn lemma_upper_end(s: Seq<char>, p: int)
    requires
        0 <= p <= s.len(),
    ensures
        p <= upper_end(s, p) <= s.len(),
    decreases s.len() - p,
{
    if p < s.len() && is_ascii_uppercase(s[p]) {
        lemma_upper_end(s, p + 1);
    }
}

proof fn lemma_comp_chars_end(s: Seq<char>, p: int)
    requires
        0 <= p <= s.len(),
    ensures
        p <= comp_chars_end(s, p) <= s.len(),
    decreases s.len() - p,
{
    if p < s.len() && is_comp_char(s[p]) {
        lemma_comp_chars_end(s, p + 1);
    }
}

fn scan_upper(cs: &Vec<char>, p: usize) -> (r: usize)
    requires
        p <= cs.len(),
    ensures
        r == upper_end(cs@, p as int),
{
    let mut i = p;
    while i < cs.len() && 'A' <= cs[i] && cs[i] <= 'Z'
        invariant
            p <= i <= cs.len(),
            upper_end(cs@, i as int) == upper_end(cs@, p as int),
        decreases cs.len() - i,
    {
        i = i + 1;
    }
    i
}

fn comp_char(c: char) -> (b: bool)
    ensures
        b == is_comp_char(c),
{
    ('A' <= c && c <= 'Z') || ('0' <= c && c <= '9') || c == '&' || c == '!' || c == '+' || c
        == '-' || c == '|'
}

fn scan_comp_chars(cs: &Vec<char>, p: usize) -> (r: usize)
    requires
        p <= cs.len(),
    ensures
        r == comp_chars_end(cs@, p as int),
{
    let mut i = p;
    while i < cs.len() && comp_char(cs[i])
        invariant
            p <= i <= cs.len(),
            comp_chars_end(cs@, i as int) == comp_chars_end(cs@, p as int),
        decreases cs.len() - i,
    {
        i = i + 1;
    }
    i
}

/// The spans of a match found by the executable matcher.
pub struct Captures {
    pub dest: Option<(usize, usize)>,
    pub comp: (usize, usize),
    pub jump: Option<(usize, usize)>,
}

pub open spec fn span_view(o: Option<(usize, usize)>) -> Option<(int, int)> {
    match o {
        Some((a, b)) => Some((a as int, b as int)),
        None => None,
    }
}

fn capture_at(cs: &Vec<char>, p: usize) -> (r: Option<Captures>)
    requires
        p < cs.len(),
    ensures
        match match_at(cs@, p as int) {
            Some(m) => r matches Some(c) && span_view(c.dest) == m.dest && (c.comp.0 as int, c.comp.1 as int)
                == m.comp && span_view(c.jump) == m.jump && c.comp.0 <= c.comp.1 <= cs.len(),
            None => r is None,
        },
{
    let ghost s = cs@;
    proof {
        lemma_upper_end(s, p as int);
    }
    let u = scan_upper(cs, p);
    let prefixed = u < cs.len() && u + 1 < cs.len() && cs[u] == '=' && comp_char(cs[u + 1]);
    if !(prefixed || comp_char(cs[p])) {
        return None;
    }
    let cstart = if prefixed { u + 1 } else { p };
    proof {
        lemma_comp_chars_end(s, cstart as int);
    }
    let cend = scan_comp_chars(cs, cstart);
    let j = if cend < cs.len() && cs[cend] == ';' { cend + 1 } else { cend };
    let jump = if j < cs.len() && cs.len() - j >= 3 && 'A' <= cs[j] && cs[j] <= 'Z' && 'A' <= cs[j + 1]
        && cs[j + 1] <= 'Z' && 'A' <= cs[j + 2] && cs[j + 2] <= 'Z' {
        Some((j, j + 3))
    } else {
        None
    };
    let dest = if prefixed && u > p { Some((p, u)) } else { None };
    Some(Captures { dest, comp: (cstart, cend), jump })
}

/// The leftmost match of the C-instruction pattern in `cs`.
pub fn comp_captures(cs: &Vec<char>) -> (r: Option<Captures>)
    ensures
        match first_match(cs@, 0) {
            Some(m) => r matches Some(c) && span_view(c.dest) == m.dest && (c.comp.0 as int, c.comp.1 as int)
                == m.comp && span_view(c.jump) == m.jump && c.comp.0 <= c.comp.1 <= cs.len(),
            None => r is None,
        },
{
    let mut p: usize = 0;
    while p < cs.len()
        invariant
            p <= cs.len(),
            first_match(cs@, p as int) == first_match(cs@, 0),
        decreases cs.len() - p,
    {
        match capture_at(cs, p) {
            Some(c) => {
                return Some(c);
            },
            None => {},
        }
        p = p + 1;
    }
    None
}

fn substring(cs: &Vec<char>, a: usize, b: usize) -> (r: String)
    requires
        a <= b <= cs.len(),
    ensures
        r@ == cs@.subrange(a as int, b as int),
{
    string_from_chars(vstd::slice::slice_subrange(cs.as_slice(), a, b))
}

/// Parses dest instruction as flags.
/// Splits the dest string into individual chars and looks them up in the `DestFlags` enum, then OR's them together to build the flags.
///
/// # Examples
/// ```text
/// 'A'   -> ['A']           -> DestFlags::A                               -> 0b100
/// 'DM'  -> ['D', 'M']      -> DestFlags::D | DestFlags::M                -> 0b011
/// 'ADM' -> ['A', 'D', 'M'] -> DestFlags::A | DestFlags::D | DestFlags::M -> 0b111
/// ```
pub fn parse_dest_flags(dest: &str, line_number: u32) -> (r: Result<DestFlags, InstructionError>)
    ensures
        match dest_from_letters(dest@) {
            Some(d) => r == Ok::<DestFlags, InstructionError>(d),
            None => r matches Err(e) && e.line_number == line_number && e.kind@
                == ErrorKindSpec::InvalidDest(dest@),
        },
{
    let cs = str_chars(dest);
    assert(cs@.subrange(0, cs@.len() as int) =~= cs@);
    match dest_from_chars(&cs, 0, cs.len()) {
        Some(d) => Ok(d),
        None => Err(
            InstructionError {
                line_number,
                kind: InstructionErrorKind::InvalidDest { dest: dest.to_owned() },
            },
        ),
    }
}

/// Reads a C-instruction line: matches the pattern, then reads `dest`, `comp`
/// and `jump` in that order; the first field that names nothing is the error.
pub fn parse_comp_instruction(line_number: u32, line: &str) -> (r: Result<Instruction, InstructionError>)
    ensures
        match spec_comp_instruction(line@) {
            Ok(op) => r matches Ok(i) && i.line_number == line_number && i.operator@ == op,
            Err(k) => r matches Err(e) && e.line_number == line_number && e.kind@ == k,
        },
{
    let cs = str_chars(line);
    let matches = match comp_captures(&cs) {
        Some(m) => m,
        None => {
            return Err(
                InstructionError {
                    line_number,
                    kind: InstructionErrorKind::InvalidComp { comp: line.to_owned() },
                },
            );
        },
    };
    let dest = match matches.dest {
        None => DestFlags::Null,
        Some((a, b)) => {
            proof {
                lemma_dest_span(cs@, 0);
            }
            let text = substring(&cs, a, b);
            match parse_dest_flags(text.as_str(), line_number) {
                Ok(d) => d,
                Err(e) => {
                    return Err(e);
                },
            }
        },
    };
    let (ca, cb) = matches.comp;
    let comp = match CompFlags::from_chars(&cs, ca, cb) {
        Some(c) => c,
        None => {
            return Err(
                InstructionError {
                    line_number,
                    kind: InstructionErrorKind::InvalidComp { comp: substring(&cs, ca, cb) },
                },
            );
        },
    };
    let jump = match matches.jump {
        None => JumpFlags::Null,
        Some((a, b)) => {
            proof {
                lemma_jump_span(cs@, 0);
            }
            match JumpFlags::from_chars(&cs, a, b) {
                Some(j) => j,
                None => {
                    return Err(
                        InstructionError {
                            line_number,
                            kind: InstructionErrorKind::InvalidJump { jump: substring(&cs, a, b) },
                        },
                    );
                },
            }
        },
    };
    Ok(Instruction { line_number, operator: OperatorKind::Comp { comp, dest, jump } })
}

proof fn lemma_dest_span(s: Seq<char>, p: int)
    requires
        0 <= p,
    ensures
        first_match(s, p) matches Some(m) ==> (m.dest matches Some((a, b)) ==> 0 <= a <= b <= s.len()),
    decreases s.len() - p,
{
    if 0 <= p < s.len() {
        lemma_upper_end(s, p);
        if match_at(s, p) is None {
            lemma_dest_span(s, p + 1);
        }
    }
}

proof fn lemma_jump_span(s: Seq<char>, p: int)
    requires
        0 <= p,
    ensures
        first_match(s, p) matches Some(m) ==> (m.jump matches Some((a, b)) ==> 0 <= a <= b <= s.len()),
    decreases s.len() - p,
{
    if 0 <= p < s.len() {
        lemma_upper_end(s, p);
        let u = upper_end(s, p);
        let prefixed = u + 1 < s.len() && s[u] == '=' && is_comp_char(s[u + 1]);
        let cstart = if prefixed { u + 1 } else { p };
        lemma_comp_chars_end(s, cstart);
        if match_at(s, p) is None {
            lemma_jump_span(s, p + 1);
        }
    }
}

/// `s` without its leading run of `c`.
pub open spec fn strip_leading(s: Seq<char>, c: char) -> Seq<char>
    decreases s.len(),
{
    if s.len() > 0 && s[0] == c {
        strip_leading(s.drop_first(), c)
    } else {
        s
    }
}

/// `s` without its trailing run of `c`.
pub open spec fn strip_trailing(s: Seq<char>, c: char) -> Seq<char>
    decreases s.len(),
{
    if s.len() > 0 && s.last() == c {
        strip_trailing(s.drop_last(), c)
    } else {
        s
    }
}

/// A trimmed line that holds an instruction: not empty, not a `//` comment.
pub open spec fn is_relevant(t: Seq<char>) -> bool {
    t.len() > 0 && !(t.len() >= 2 && t[0] == '/' && t[1] == '/')
}

/// What one relevant trimmed line gives.
pub open spec fn spec_line(t: Seq<char>) -> Result<OpSpec, ErrorKindSpec> {
    if t.len() > 0 && t[0] == '@' {
        let symbol = strip_leading(t, '@');
        match spec_parse_u16(symbol) {
            Some(address) => Ok(OpSpec::Address(address)),
            None => Ok(OpSpec::Symbol(symbol)),
        }
    } else if t.len() > 0 && t[0] == '(' {
        Ok(OpSpec::Label(strip_trailing(strip_leading(t, '('), ')')))
    } else {
        spec_comp_instruction(t)
    }
}

/// What a file of lines gives: each relevant line's instruction with its
/// 1-based line number, or the first error with its line number.
pub open spec fn spec_parse_lines(lines: Seq<Seq<char>>) -> Result<Seq<(u32, OpSpec)>, (u32, ErrorKindSpec)>
    decreases lines.len(),
{
    if lines.len() == 0 {
        Ok(Seq::empty())
    } else {
        match spec_parse_lines(lines.drop_last()) {
            Err(e) => Err(e),
            Ok(v) => {
                let t = trimmed(lines.last());
                let n = lines.len() as u32;
                if !is_relevant(t) {
                    Ok(v)
                } else {
                    match spec_line(t) {
                        Ok(op) => Ok(v.push((n, op))),
                        Err(k) => Err((n, k)),
                    }
                }
            },
        }
    }
}

pub open spec fn line_views(lines: Seq<String>) -> Seq<Seq<char>> {
    lines.map_values(|l: String| l@)
}

pub open spec fn instruction_views(ins: Seq<Instruction>) -> Seq<(u32, OpSpec)> {
    ins.map_values(|i: Instruction| (i.line_number, i.operator@))
}

fn strip_leading_chars(cs: &Vec<char>, a: usize, b: usize, c: char) -> (r: usize)
    requires
        a <= b <= cs.len(),
    ensures
        a <= r <= b,
        cs@.subrange(r as int, b as int) == strip_leading(cs@.subrange(a as int, b as int), c),
{
    let mut i = a;
    while i < b && cs[i] == c
        invariant
            a <= i <= b <= cs.len(),
            strip_leading(cs@.subrange(i as int, b as int), c) == strip_leading(cs@.subrange(a as int, b as int), c),
        decreases b - i,
    {
        assert(cs@.subrange(i as int, b as int).drop_first() =~= cs@.subrange(i + 1, b as int));
        i = i + 1;
    }
    i
}

fn strip_trailing_chars(cs: &Vec<char>, a: usize, b: usize, c: char) -> (r: usize)
    requires
        a <= b <= cs.len(),
    ensures
        a <= r <= b,
        cs@.subrange(a as int, r as int) == strip_trailing(cs@.subrange(a as int, b as int), c),
{
    let mut i = b;
    while i > a && cs[i - 1] == c
        invariant
            a <= i <= b <= cs.len(),
            strip_trailing(cs@.subrange(a as int, i as int), c) == strip_trailing(cs@.subrange(a as int, b as int), c),
        decreases i,
    {
        assert(cs@.subrange(a as int, i as int).drop_last() =~= cs@.subrange(a as int, i - 1));
        i = i - 1;
    }
    i
}

/// Reads one relevant trimmed line.
pub fn parse_line(line_number: u32, line: &str) -> (r: Result<Instruction, InstructionError>)
    requires
        is_relevant(line@),
    ensures
        match spec_line(line@) {
            Ok(op) => r matches Ok(i) && i.line_number == line_number && i.operator@ == op,
            Err(k) => r matches Err(e) && e.line_number == line_number && e.kind@ == k,
        },
{
    let cs = str_chars(line);
    assert(cs@.subrange(0, cs@.len() as int) =~= cs@);
    if cs[0] == '@' {
        // '@' instruction (@SYM or @1234 (address))
        let a = strip_leading_chars(&cs, 0, cs.len(), '@');
        let symbol = substring(&cs, a, cs.len());
        match parse_u16(symbol.as_str()) {
            Some(address) => Ok(Instruction { line_number, operator: OperatorKind::Address { address } }),
            None => Ok(Instruction { line_number, operator: OperatorKind::Symbol { symbol } }),
        }
    } else if cs[0] == '(' {
        // '(LABEL)' instruction
        let a = strip_leading_chars(&cs, 0, cs.len(), '(');
        let b = strip_trailing_chars(&cs, a, cs.len(), ')');
        Ok(Instruction { line_number, operator: OperatorKind::Label { label: substring(&cs, a, b) } })
    } else {
        // everything else is a C instruction as we know comments and empty lines are ignored already
        parse_comp_instruction(line_number, line)
    }
}

/// Where reading from line `start` stops: just after the first line that is
/// neither empty nor a `//` comment once trimmed, or at the end.
pub open spec fn relevant_end(lines: Seq<Seq<char>>, start: int) -> int
    decreases lines.len() - start,
{
    if start >= lines.len() {
        lines.len() as int
    } else if is_relevant(trimmed(lines[start])) {
        start + 1
    } else {
        relevant_end(lines, start + 1)
    }
}

/// Consumes lines, counting each one read and trimming it, until one is
/// neither empty nor a `//` comment, and returns it; `None` when the lines run
/// out. (The count must not pass `u32::MAX`.)
pub fn read_until_relevant_line(lines: &[String], next: &mut usize, line_count: &mut u32) -> (r: Option<String>)
    requires
        *old(next) <= lines.len(),
        *old(line_count) + (relevant_end(line_views(lines@), *old(next) as int) - *old(next)) <= u32::MAX,
    ensures
        *old(next) <= *final(next) <= lines.len(),
        *final(next) == relevant_end(line_views(lines@), *old(next) as int),
        *final(line_count) == *old(line_count) + (*final(next) - *old(next)),
        forall|k: int| *old(next) <= k < (if r is Some { *final(next) - 1 } else { *final(next) as int })
            ==> !is_relevant(trimmed(#[trigger] lines@[k]@)),
        match r {
            Some(t) => *final(next) > *old(next) && t@ == trimmed(lines@[*final(next) - 1]@) && is_relevant(t@),
            None => *final(next) == lines.len(),
        },
{
    let ghost start = *next;
    let ghost count0 = *line_count;
    let ghost lv = line_views(lines@);
    assert(start == *old(next));
    assert(count0 == *old(line_count));
    while *next < lines.len()
        invariant
            start == *old(next),
            count0 == *old(line_count),
            lv == line_views(lines@),
            start <= *next <= lines.len(),
            *line_count == count0 + (*next - start),
            count0 + (relevant_end(lv, start as int) - start) <= u32::MAX,
            relevant_end(lv, *next as int) == relevant_end(lv, start as int),
            forall|k: int| start <= k < *next ==> !is_relevant(trimmed(#[trigger] lines@[k]@)),
        decreases lines.len() - *next,
    {
        let k = *next;
        assert(lv[k as int] == lines@[k as int]@);
        proof {
            lemma_relevant_end_bounds(lv, k as int);
        }
        *next = k + 1;
        *line_count = *line_count + 1;
        let cs = trim_chars(&str_chars(lines[k].as_str()));
        if cs.len() >= 2 && cs[0] == '/' && cs[1] == '/' {
            continue;
        }
        if cs.len() == 0 {
            continue;
        }
        return Some(string_from_chars(cs.as_slice()));
    }
    None
}

proof fn lemma_relevant_end_bounds(lines: Seq<Seq<char>>, start: int)
    requires
        0 <= start <= lines.len(),
    ensures
        start < relevant_end(lines, start) <= lines.len() || start == lines.len() == relevant_end(lines, start),
    decreases lines.len() - start,
{
    if start < lines.len() && !is_relevant(trimmed(lines[start])) {
        lemma_relevant_end_bounds(lines, start + 1);
    }
}

proof fn lemma_skip_irrelevant(lines: Seq<Seq<char>>, a: int, b: int)
    requires
        0 <= a <= b <= lines.len(),
        forall|k: int| a <= k < b ==> !is_relevant(trimmed(#[trigger] lines[k])),
    ensures
        spec_parse_lines(lines.take(b)) == spec_parse_lines(lines.take(a)),
    decreases b - a,
{
    if a < b {
        lemma_skip_irrelevant(lines, a, b - 1);
        assert(lines.take(b).drop_last() =~= lines.take(b - 1));
    }
}

/// Reads the instructions of a file given as its lines; lines are numbered
/// from 1, and reading stops at the first error.
pub fn parse_lines(lines: &[String]) -> (r: Result<Vec<Instruction>, InstructionError>)
    requires
        lines.len() <= u32::MAX,
    ensures
        match spec_parse_lines(line_views(lines@)) {
            Ok(v) => r matches Ok(ins) && instruction_views(ins@) == v,
            Err((n, k)) => r matches Err(e) && e.line_number == n && e.kind@ == k,
        },
{
    let ghost lv = line_views(lines@);
    let mut instructions: Vec<Instruction> = Vec::new();
    let mut next: usize = 0;
    let mut line_number: u32 = 0;
    assert(lv.take(0) =~= Seq::<Seq<char>>::empty());
    assert(instruction_views(instructions@) =~= Seq::<(u32, OpSpec)>::empty());
    loop
        invariant
            lv == line_views(lines@),
            next <= lines.len() <= u32::MAX,
            line_number == next,
            spec_parse_lines(lv.take(next as int)) == Ok::<Seq<(u32, OpSpec)>, (u32, ErrorKindSpec)>(
                instruction_views(instructions@),
            ),
        decreases lines.len() - next,
    {
        let ghost before = next;
        proof {
            lemma_relevant_end_bounds(lv, next as int);
        }
        let line = match read_until_relevant_line(lines, &mut next, &mut line_number) {
            Some(line) => line,
            None => {
                proof {
                    assert forall|k: int| before <= k < next implies !is_relevant(trimmed(#[trigger] lv[k])) by {
                        assert(lv[k] == lines@[k]@);
                    }
                    lemma_skip_irrelevant(lv, before as int, next as int);
                    assert(lv.take(next as int) =~= lv);
                }
                return Ok(instructions);
            },
        };
        proof {
            assert forall|k: int| before <= k < next - 1 implies !is_relevant(trimmed(#[trigger] lv[k])) by {
                assert(lv[k] == lines@[k]@);
            }
            lemma_skip_irrelevant(lv, before as int, next - 1);
            assert(lv.take(next as int).drop_last() =~= lv.take(next - 1));
            assert(lv[next - 1] == lines@[next - 1]@);
        }
        match parse_line(line_number, line.as_str()) {
            Ok(instruction) => {
                let ghost prev = instructions@;
                instructions.push(instruction);
                assert(instruction_views(instructions@) =~= instruction_views(prev).push(
                    (instruction.line_number, instruction.operator@),
                ));
            },
            Err(e) => {
                proof {
                    if next < lines.len() {
                        lemma_error_persists(lv, next as int);
                    } else {
                        assert(lv.take(next as int) =~= lv);
                    }
                }
                return Err(e);
            },
        }
    }
}

proof fn lemma_error_persists(lines: Seq<Seq<char>>, a: int)
    requires
        0 <= a <= lines.len(),
        spec_parse_lines(lines.take(a)) is Err,
    ensures
        spec_parse_lines(lines) == spec_parse_lines(lines.take(a)),
    decreases lines.len() - a,
{
    if a < lines.len() {
        assert(lines.take(a + 1).drop_last() =~= lines.take(a));
        lemma_error_persists(lines, a + 1);
    } else {
        assert(lines.take(a) =~= lines);
    }
}

} // verus!
