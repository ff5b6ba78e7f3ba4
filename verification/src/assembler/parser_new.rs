//! The grammar of Hack assembly text.
//!
//! A program is a sequence of items separated by whitespace and `//` comments:
//! `dest=comp;jump` (with `dest=` and `;jump` optional), `@123`, `(label)` and
//! `@symbol`. Names are runs of printable ASCII other than `@ ( ) = ;`. The
//! alternatives are tried in that order and the first that matches is taken;
//! the whole text must be consumed.
use vstd::prelude::*;
use crate::instructions::{op_views, CompFlags, DestFlags, JumpFlags, OpSpec, OperatorKind};
use crate::scan::{
    digits_end, digits_u16, lemma_digits_end, lemma_trivia_end, scan_digits, scan_trivia,
    trivia_end,
};
use crate::text_util::{all_digits, digits_value, is_ascii_graphic, string_from_chars};
use super::{DEST, END_LBL, JUMP, LBL, SYM};

verus! {

/// A character that may appear in a name.
pub open spec fn is_ident_char(c: char) -> bool {
    is_ascii_graphic(c) && c != '@' && c != '(' && c != ')' && c != '=' && c != ';'
}

/// The end of the name that starts at `p` (`p` itself when there is none).
pub open spec fn ident_end(s: Seq<char>, p: int) -> int
    decreases s.len() - p,
{
    if 0 <= p < s.len() && is_ident_char(s[p]) {
        ident_end(s, p + 1)
    } else {
        p
    }
}

pub proof fn lemma_ident_end(s: Seq<char>, p: int)
    requires
        0 <= p <= s.len(),
    ensures
        p <= ident_end(s, p) <= s.len(),
        forall|i: int| p <= i < ident_end(s, p) ==> is_ident_char(#[trigger] s[i]),
        ident_end(s, p) < s.len() ==> !is_ident_char(s[ident_end(s, p)]),
    decreases s.len() - p,
{
    if p < s.len() && is_ident_char(s[p]) {
        lemma_ident_end(s, p + 1);
    }
}

/// The destination named by a string of register letters, each `A`, `D` or
/// `M`; `None` when some letter is none of these.
pub open spec fn dest_from_letters(s: Seq<char>) -> Option<DestFlags>
    decreases s.len(),
{
    if s.len() == 0 {
        Some(DestFlags::Null)
    } else {
        match (dest_from_letters(s.drop_last()), DestFlags::spec_from_letter(s.last())) {
            (Some(a), Some(b)) => Some(a.spec_union(b)),
            _ => None,
        }
    }
}

/// What one item at `p` gives.
pub enum ItemResult {
    /// The operator and the position after it.
    Item(OpSpec, int),
    /// No alternative matches at `p`.
    NoMatch,
    /// `@` is followed by digits whose value exceeds `u16::MAX`.
    Overflow,
}

/// The optional `dest=` prefix at `p`.
pub open spec fn dest_prefix(s: Seq<char>, p: int) -> Option<DestFlags> {
    let e = ident_end(s, p);
    if e > p && e < s.len() && s[e] == '=' {
        dest_from_letters(s.subrange(p, e))
    } else {
        None
    }
}

/// The optional `;jump` suffix at `p`, with the position after it.
pub open spec fn jump_suffix(s: Seq<char>, p: int) -> (JumpFlags, int) {
    let e = ident_end(s, p + 1);
    if 0 <= p < s.len() && s[p] == ';' && e > p + 1 && JumpFlags::spec_from_name(
        s.subrange(p + 1, e),
    ) is Some {
        (JumpFlags::spec_from_name(s.subrange(p + 1, e))->0, e)
    } else {
        (JumpFlags::Null, p)
    }
}

/// The item at `p`: a C-instruction, an address, a label or a symbol, tried in that order.
#[verifier::opaque]
pub open spec fn parse_item(s: Seq<char>, p: int) -> ItemResult {
    let dest = dest_prefix(s, p);
    let cstart = if dest is Some { ident_end(s, p) + 1 } else { p };
    let cend = ident_end(s, cstart);
    let comp = if cend > cstart { CompFlags::spec_from_name(s.subrange(cstart, cend)) } else { None };
    if comp is Some {
        let (jump, end) = jump_suffix(s, cend);
        ItemResult::Item(
            OpSpec::Comp(if dest is Some { dest->0 } else { DestFlags::Null }, comp->0, jump),
            end,
        )
    } else if 0 <= p < s.len() && s[p] == '@' && digits_end(s, p + 1) > p + 1 {
        let d = digits_end(s, p + 1);
        let v = digits_value(s.subrange(p + 1, d));
        if v > u16::MAX {
            ItemResult::Overflow
        } else {
            ItemResult::Item(OpSpec::Address(v as u16), d)
        }
    } else if 0 <= p < s.len() && s[p] == '(' && ident_end(s, p + 1) > p + 1 && ident_end(s, p + 1)
        < s.len() && s[ident_end(s, p + 1)] == ')' {
        ItemResult::Item(OpSpec::Label(s.subrange(p + 1, ident_end(s, p + 1))), ident_end(s, p + 1) + 1)
    } else if 0 <= p < s.len() && s[p] == '@' && ident_end(s, p + 1) > p + 1 {
        ItemResult::Item(OpSpec::Symbol(s.subrange(p + 1, ident_end(s, p + 1))), ident_end(s, p + 1))
    } else {
        ItemResult::NoMatch
    }
}

pub proof fn lemma_parse_item_advances(s: Seq<char>, p: int)
    requires
        0 <= p <= s.len(),
    ensures
        parse_item(s, p) matches ItemResult::Item(_, e) ==> p < e <= s.len(),
{
    reveal(parse_item);
    lemma_ident_end(s, p);
    let dest = dest_prefix(s, p);
    if dest is Some {
        lemma_ident_end(s, ident_end(s, p) + 1);
    }
    let cstart = if dest is Some { ident_end(s, p) + 1 } else { p };
    let cend = ident_end(s, cstart);
    if cend < s.len() {
        lemma_ident_end(s, cend + 1);
    }
    if p < s.len() {
        lemma_digits_end(s, p + 1);
        lemma_ident_end(s, p + 1);
    }
}

/// What reading a whole text gives.
pub enum ParseOutcome {
    /// The operators, in order.
    Parsed(Seq<OpSpec>),
    /// No item matches after the given position, and the text does not end there.
    Failed(int),
    /// An address is too large for 16 bits.
    Overflow,
}

/// Reads items from `p` to the end of `s`, skipping whitespace and comments
/// around each.
pub open spec fn parse_from(s: Seq<char>, p: int) -> ParseOutcome
    decreases s.len() - p,
{
    if 0 <= p <= s.len() {
        let q = trivia_end(s, p);
        match parse_item(s, q) {
            ItemResult::Item(op, e) => {
                proof {
                    lemma_trivia_end(s, p);
                    lemma_parse_item_advances(s, q);
                    lemma_trivia_end(s, e);
                }
                match parse_from(s, trivia_end(s, e)) {
                    ParseOutcome::Parsed(rest) => ParseOutcome::Parsed(seq![op] + rest),
                    other => other,
                }
            },
            ItemResult::NoMatch => if p == s.len() {
                ParseOutcome::Parsed(Seq::empty())
            } else {
                ParseOutcome::Failed(p)
            },
            ItemResult::Overflow => ParseOutcome::Overflow,
        }
    } else {
        ParseOutcome::Failed(p)
    }
}

/// Reading a whole text.
pub open spec fn parse_program(s: Seq<char>) -> ParseOutcome {
    parse_from(s, 0)
}

/// A text that the grammar rejects; `position` is where the first item that
/// could not be read starts (before its leading whitespace), in characters.
#[derive(Debug)]
pub struct ParseError {
    pub position: usize,
}

fn scan_ident(cs: &Vec<char>, p: usize) -> (r: usize)
    requires
        p <= cs.len(),
    ensures
        r == ident_end(cs@, p as int),
{
    let mut i = p;
    while i < cs.len() && ('!' <= cs[i] && cs[i] <= '~' && cs[i] != SYM && cs[i] != LBL && cs[i]
        != END_LBL && cs[i] != DEST && cs[i] != JUMP)
        invariant
            p <= i <= cs.len(),
            ident_end(cs@, i as int) == ident_end(cs@, p as int),
        decreases cs.len() - i,
    {
        i = i + 1;
    }
    i
}

/// The destination named by the letters `cs[a..b]`.
pub fn dest_from_chars(cs: &Vec<char>, a: usize, b: usize) -> (r: Option<DestFlags>)
    requires
        a <= b <= cs.len(),
    ensures
        r == dest_from_letters(cs@.subrange(a as int, b as int)),
{
    let mut dest_val = DestFlags::Null;
    let mut i = a;
    while i < b
        invariant
            a <= i <= b <= cs.len(),
            dest_from_letters(cs@.subrange(a as int, i as int)) == Some(dest_val),
        decreases b - i,
    {
        assert(cs@.subrange(a as int, i + 1).drop_last() =~= cs@.subrange(a as int, i as int));
        match DestFlags::from_letter(cs[i]) {
            Some(f) => {
                dest_val = dest_val | f;
            },
            None => {
                proof {
                    lemma_dest_from_letters_none(cs@.subrange(a as int, b as int), i - a);
                    assert(cs@.subrange(a as int, b as int).take(i - a + 1) =~= cs@.subrange(a as int, i + 1));
                }
                return None;
            },
        }
        i = i + 1;
    }
    Some(dest_val)
}

proof fn lemma_dest_from_letters_none(s: Seq<char>, k: int)
    requires
        0 <= k < s.len(),
        dest_from_letters(s.take(k + 1)) is None,
    ensures
        dest_from_letters(s) is None,
    decreases s.len() - k,
{
    if k + 1 < s.len() {
        assert(s.drop_last().take(k + 1) =~= s.take(k + 1));
        lemma_dest_from_letters_none(s.drop_last(), k);
    } else {
        assert(s.take(k + 1) =~= s);
    }
}

enum ItemStep {
    Item(OperatorKind, usize),
    NoMatch,
    Overflow,
}

fn read_item(cs: &Vec<char>, p: usize) -> (r: ItemStep)
    requires
        p <= cs.len(),
    ensures
        match r {
            ItemStep::Item(op, e) => parse_item(cs@, p as int) == ItemResult::Item(op@, e as int),
            ItemStep::NoMatch => parse_item(cs@, p as int) is NoMatch,
            ItemStep::Overflow => parse_item(cs@, p as int) is Overflow,
        },
{
    let ghost s = cs@;
    proof {
        reveal(parse_item);
        lemma_ident_end(s, p as int);
    }
    // dest=comp;jump
    let e = scan_ident(cs, p);
    let dest = if e > p && e < cs.len() && cs[e] == DEST {
        dest_from_chars(cs, p, e)
    } else {
        None
    };
    assert(dest == dest_prefix(s, p as int));
    let cstart = if dest.is_some() { e + 1 } else { p };
    proof {
        lemma_ident_end(s, cstart as int);
    }
    let cend = scan_ident(cs, cstart);
    let comp = if cend > cstart {
        CompFlags::from_chars(cs, cstart, cend)
    } else {
        None
    };
    if let Some(comp) = comp {
        let mut jump = JumpFlags::Null;
        let mut end = cend;
        if cend < cs.len() && cs[cend] == JUMP {
            proof {
                lemma_ident_end(s, cend + 1);
            }
            let je = scan_ident(cs, cend + 1);
            if je > cend + 1 {
                if let Some(j) = JumpFlags::from_chars(cs, cend + 1, je) {
                    jump = j;
                    end = je;
                }
            }
        }
        assert((jump, end as int) == jump_suffix(s, cend as int));
        let d = match dest {
            Some(d) => d,
            None => DestFlags::Null,
        };
        return ItemStep::Item(OperatorKind::Comp(d, comp, jump), end);
    }
    // @123
    if p < cs.len() && cs[p] == SYM {
        proof {
            lemma_digits_end(s, p + 1);
        }
        let d = scan_digits(cs, p + 1);
        if d > p + 1 {
            assert(all_digits(s.subrange(p + 1, d as int)));
            return match digits_u16(cs, p + 1, d) {
                Some(v) => ItemStep::Item(OperatorKind::Address(v), d),
                None => ItemStep::Overflow,
            };
        }
    }
    // (label)
    if p < cs.len() && cs[p] == LBL {
        proof {
            lemma_ident_end(s, p + 1);
        }
        let le = scan_ident(cs, p + 1);
        if le > p + 1 && le < cs.len() && cs[le] == END_LBL {
            let name = string_from_chars(vstd::slice::slice_subrange(cs.as_slice(), p + 1, le));
            return ItemStep::Item(OperatorKind::Label(name), le + 1);
        }
    }
    // @symbol
    if p < cs.len() && cs[p] == SYM {
        proof {
            lemma_ident_end(s, p + 1);
        }
        let se = scan_ident(cs, p + 1);
        if se > p + 1 {
            let name = string_from_chars(vstd::slice::slice_subrange(cs.as_slice(), p + 1, se));
            return ItemStep::Item(OperatorKind::Symbol(name), se);
        }
    }
    ItemStep::NoMatch
}

/// `prefix` followed by what `outcome` parsed.
pub open spec fn after_prefix(prefix: Seq<OpSpec>, outcome: ParseOutcome) -> ParseOutcome {
    match outcome {
        ParseOutcome::Parsed(rest) => ParseOutcome::Parsed(prefix + rest),
        other => other,
    }
}

/// Reads a whole text, telling apart the two ways it can fail.
fn run_parser(cs: &Vec<char>) -> (r: (Vec<OperatorKind>, Option<usize>, bool))
    ensures
        match parse_program(cs@) {
            ParseOutcome::Parsed(ops) => !r.2 && r.1 is None && op_views(r.0@) == ops,
            ParseOutcome::Failed(p) => !r.2 && (r.1 matches Some(q) && q == p),
            ParseOutcome::Overflow => r.2,
        },
{
    let ghost s = cs@;
    let mut ops: Vec<OperatorKind> = Vec::new();
    let mut pos: usize = 0;
    loop
        invariant
            pos <= cs.len(),
            s == cs@,
            after_prefix(op_views(ops@), parse_from(s, pos as int)) == parse_program(s),
        decreases cs.len() - pos,
    {
        let q = scan_trivia(cs, pos);
        proof {
            lemma_trivia_end(s, pos as int);
        }
        match read_item(cs, q) {
            ItemStep::Item(op, e) => {
                proof {
                    lemma_parse_item_advances(s, q as int);
                    lemma_trivia_end(s, e as int);
                    let next = trivia_end(s, e as int);
                    assert(op_views(ops@.push(op)) =~= op_views(ops@) + seq![op@]);
                    match parse_from(s, next) {
                        ParseOutcome::Parsed(rest) => {
                            assert(op_views(ops@) + (seq![op@] + rest) =~= op_views(ops@)
                                + seq![op@] + rest);
                        },
                        _ => {},
                    }
                }
                ops.push(op);
                pos = scan_trivia(cs, e);
            },
            ItemStep::NoMatch => {
                if pos == cs.len() {
                    assert(op_views(ops@) + Seq::<OpSpec>::empty() =~= op_views(ops@));
                    return (ops, None, false);
                } else {
                    return (ops, Some(pos), false);
                }
            },
            ItemStep::Overflow => {
                return (ops, None, true);
            },
        }
    }
}

/// Whether reading `src` meets an address too large for 16 bits, which the
/// grammar treats as a fatal error.
pub fn address_overflows(src: &str) -> (b: bool)
    ensures
        b == (parse_program(src@) is Overflow),
{
    let cs = crate::text_util::str_chars(src);
    let (_, _, overflow) = run_parser(&cs);
    overflow
}

/// Reads the characters of Hack assembly text into operators.
pub fn parse_chars(cs: &Vec<char>) -> (r: Result<Vec<OperatorKind>, ParseError>)
    requires
        !(parse_program(cs@) is Overflow),
    ensures
        match parse_program(cs@) {
            ParseOutcome::Parsed(ops) => r matches Ok(v) && op_views(v@) == ops,
            ParseOutcome::Failed(p) => r matches Err(e) && e.position == p,
            ParseOutcome::Overflow => false,
        },
{
    let (ops, failed, _) = run_parser(cs);
    match failed {
        Some(position) => Err(ParseError { position }),
        None => Ok(ops),
    }
}

/// Whether reading the characters `cs` meets an address too large for 16 bits.
pub fn chars_overflow(cs: &Vec<char>) -> (b: bool)
    ensures
        b == (parse_program(cs@) is Overflow),
{
    let (_, _, overflow) = run_parser(cs);
    overflow
}

/// Reads Hack assembly text into operators.
pub fn parser(src: &str) -> (r: Result<Vec<OperatorKind>, ParseError>)
    requires
        !(parse_program(src@) is Overflow),
    ensures
        match parse_program(src@) {
            ParseOutcome::Parsed(ops) => r matches Ok(v) && op_views(v@) == ops,
            ParseOutcome::Failed(p) => r matches Err(e) && e.position == p,
            ParseOutcome::Overflow => false,
        },
{
    let cs = crate::text_util::str_chars(src);
    let (ops, failed, _) = run_parser(&cs);
    match failed {
        Some(position) => Err(ParseError { position }),
        None => Ok(ops),
    }
}

proof fn lemma_union_registers(a: DestFlags, b: DestFlags)
    ensures
        a.spec_union(b).has_a() == (a.has_a() || b.has_a()),
        a.spec_union(b).has_d() == (a.has_d() || b.has_d()),
        a.spec_union(b).has_m() == (a.has_m() || b.has_m()),
{
}

/// A string of register letters names the registers it holds, in any order
/// and with repeats; any other character makes it name nothing.
pub proof fn lemma_dest_letters(s: Seq<char>)
    ensures
        dest_from_letters(s) is Some <==> forall|i: int| 0 <= i < s.len() ==> (#[trigger] s[i] == 'A'
            || s[i] == 'D' || s[i] == 'M'),
        dest_from_letters(s) matches Some(d) ==> (d.has_a() <==> s.contains('A')) && (d.has_d()
            <==> s.contains('D')) && (d.has_m() <==> s.contains('M')),
    decreases s.len(),
{
    if s.len() > 0 {
        let init = s.drop_last();
        lemma_dest_letters(init);
        assert forall|i: int| 0 <= i < init.len() implies #[trigger] init[i] == s[i] by {}
        if let Some(a) = dest_from_letters(init) {
            if let Some(b) = DestFlags::spec_from_letter(s.last()) {
                lemma_union_registers(a, b);
                assert(s =~= init.push(s.last()));
                assert(s.contains('A') <==> (init.contains('A') || s.last() == 'A'));
                assert(s.contains('D') <==> (init.contains('D') || s.last() == 'D'));
                assert(s.contains('M') <==> (init.contains('M') || s.last() == 'M'));
            }
        }
        if dest_from_letters(s) is None {
            if DestFlags::spec_from_letter(s.last()) is None {
                assert(!(s[s.len() - 1] == 'A' || s[s.len() - 1] == 'D' || s[s.len() - 1] == 'M'));
            } else {
                let i = choose|i: int| 0 <= i < init.len() && !(init[i] == 'A' || init[i] == 'D' || init[i] == 'M');
                assert(s[i] == init[i]);
            }
        }
    }
}

} // verus!
