//! Assembly text written by this crate reads back as the operators it was
//! written from.
use vstd::prelude::*;
use super::parser_new::{
    dest_from_letters, dest_prefix, ident_end, is_ident_char, jump_suffix, parse_from, parse_item,
    parse_program, ItemResult, ParseOutcome,
};
use crate::instructions::{asm_lines, asm_text, CompFlags, DestFlags, JumpFlags, OpSpec};
use crate::scan::{digits_end, trimmed, trivia_end, ws_end, ws_start};
use crate::text_util::{decimal, is_ascii_digit, lemma_decimal_digits, spec_is_whitespace};

verus! {

/// A name the grammar reads as one: not empty, printable ASCII other than `@ ( ) = ;`.
pub open spec fn is_name(s: Seq<char>) -> bool {
    s.len() > 0 && forall|i: int| 0 <= i < s.len() ==> #[trigger] is_ident_char(s[i])
}

/// An operator whose text reads back as itself: names are names, and a
/// symbol does not start with a digit (it would read as an address).
pub open spec fn well_formed(op: OpSpec) -> bool {
    match op {
        OpSpec::Symbol(s) => is_name(s) && !is_ascii_digit(s[0]),
        OpSpec::Label(l) => is_name(l),
        _ => true,
    }
}

proof fn lemma_ident_run(s: Seq<char>, p: int, q: int)
    requires
        0 <= p <= q <= s.len(),
        forall|i: int| p <= i < q ==> #[trigger] is_ident_char(s[i]),
        q == s.len() || !is_ident_char(s[q]),
    ensures
        ident_end(s, p) == q,
    decreases q - p,
{
    if p < q {
        lemma_ident_run(s, p + 1, q);
    }
}

proof fn lemma_digit_run(s: Seq<char>, p: int, q: int)
    requires
        0 <= p <= q <= s.len(),
        forall|i: int| p <= i < q ==> #[trigger] is_ascii_digit(s[i]),
        q == s.len() || !is_ascii_digit(s[q]),
    ensures
        digits_end(s, p) == q,
    decreases q - p,
{
    if p < q {
        lemma_digit_run(s, p + 1, q);
    }
}

proof fn lemma_comp_name(c: CompFlags)
    ensures
        is_name(c.spec_name()),
{
    c.lemma_name_shape();
    let n = c.spec_name();
    assert(is_ident_char(n[0]));
    if n.len() >= 2 {
        assert(is_ident_char(n[1]));
    }
    if n.len() >= 3 {
        assert(is_ident_char(n[2]));
    }
    assert forall|i: int| 0 <= i < n.len() implies #[trigger] is_ident_char(n[i]) by {
        assert(i == 0 || i == 1 || i == 2);
    }
}

proof fn lemma_jump_name(j: JumpFlags)
    requires
        j != JumpFlags::Null,
    ensures
        is_name(j.spec_name()),
        j.spec_name().len() == 3,
{
    let n = j.spec_name();
    assert(is_ident_char(n[0]) && is_ident_char(n[1]) && is_ident_char(n[2]));
    assert forall|i: int| 0 <= i < n.len() implies #[trigger] is_ident_char(n[i]) by {
        assert(i == 0 || i == 1 || i == 2);
    }
}

/// Reading back the register letters gives the destination.
pub proof fn lemma_dest_name(d: DestFlags)
    requires
        d != DestFlags::Null,
    ensures
        is_name(d.spec_name()),
        dest_from_letters(d.spec_name()) == Some(d),
        d.spec_bits() != 0,
{
    reveal_with_fuel(dest_from_letters, 4);
    let n = d.spec_name();
    match d {
        DestFlags::M => {
            assert(n =~= seq!['M']);
            assert(n.drop_last() =~= Seq::<char>::empty());
        },
        DestFlags::D => {
            assert(n =~= seq!['D']);
            assert(n.drop_last() =~= Seq::<char>::empty());
        },
        DestFlags::A => {
            assert(n =~= seq!['A']);
            assert(n.drop_last() =~= Seq::<char>::empty());
        },
        DestFlags::DM => {
            assert(n =~= seq!['D', 'M']);
            assert(n.drop_last() =~= seq!['D']);
            assert(n.drop_last().drop_last() =~= Seq::<char>::empty());
        },
        DestFlags::AM => {
            assert(n =~= seq!['A', 'M']);
            assert(n.drop_last() =~= seq!['A']);
            assert(n.drop_last().drop_last() =~= Seq::<char>::empty());
        },
        DestFlags::AD => {
            assert(n =~= seq!['A', 'D']);
            assert(n.drop_last() =~= seq!['A']);
            assert(n.drop_last().drop_last() =~= Seq::<char>::empty());
        },
        DestFlags::ADM => {
            assert(n =~= seq!['A', 'D', 'M']);
            assert(n.drop_last() =~= seq!['A', 'D']);
            assert(n.drop_last().drop_last() =~= seq!['A']);
            assert(n.drop_last().drop_last().drop_last() =~= Seq::<char>::empty());
        },
        DestFlags::Null => {},
    }
    assert forall|i: int| 0 <= i < n.len() implies #[trigger] is_ident_char(n[i]) by {
        assert(i == 0 || i == 1 || i == 2);
    }
}

proof fn lemma_whitespace_ends_names(c: char)
    requires
        spec_is_whitespace(c),
    ensures
        !is_ident_char(c),
        !is_ascii_digit(c),
        c != '=' && c != ';' && c != ')' && c != '/',
{
}

#[verifier::spinoff_prover]
proof fn lemma_address_reads_back(s: Seq<char>, p: int, op: OpSpec)
    requires
        op is Address,
        well_formed(op),
        0 <= p,
        p + asm_text(op).len() <= s.len(),
        s.subrange(p, p + asm_text(op).len()) == asm_text(op),
        p + asm_text(op).len() == s.len() || spec_is_whitespace(s[p + asm_text(op).len()]),
    ensures
        parse_item(s, p) == ItemResult::Item(op, p + asm_text(op).len()),
{
    reveal(parse_item);
    let t = asm_text(op);
    let e = p + t.len();
    assert forall|i: int| 0 <= i < t.len() implies #[trigger] s[p + i] == t[i] by {
        assert(s.subrange(p, e)[i] == s[p + i]);
    }
    if e < s.len() {
        lemma_whitespace_ends_names(s[e]);
    }
    let a = op->Address_0;

            let d = decimal(a as nat);
            lemma_decimal_digits(a as nat);
            assert(s[p] == t[0]);
            assert(ident_end(s, p) == p);
            assert forall|i: int| p + 1 <= i < e implies #[trigger] is_ascii_digit(s[i]) by {
                assert(s[p + (i - p)] == t[i - p]);
                assert(t[i - p] == d[i - p - 1]);
            }
            lemma_digit_run(s, p + 1, e);
            assert forall|i: int| 0 <= i < d.len() implies #[trigger] s.subrange(p + 1, e)[i] == d[i] by {
                assert(s[p + (i + 1)] == t[i + 1]);
            }
            assert(s.subrange(p + 1, e) =~= d);
        }

#[verifier::spinoff_prover]
proof fn lemma_symbol_reads_back(s: Seq<char>, p: int, op: OpSpec)
    requires
        op is Symbol,
        well_formed(op),
        0 <= p,
        p + asm_text(op).len() <= s.len(),
        s.subrange(p, p + asm_text(op).len()) == asm_text(op),
        p + asm_text(op).len() == s.len() || spec_is_whitespace(s[p + asm_text(op).len()]),
    ensures
        parse_item(s, p) == ItemResult::Item(op, p + asm_text(op).len()),
{
    reveal(parse_item);
    let t = asm_text(op);
    let e = p + t.len();
    assert forall|i: int| 0 <= i < t.len() implies #[trigger] s[p + i] == t[i] by {
        assert(s.subrange(p, e)[i] == s[p + i]);
    }
    if e < s.len() {
        lemma_whitespace_ends_names(s[e]);
    }
    let x = op->Symbol_0;

            assert(s[p] == t[0]);
            assert(ident_end(s, p) == p);
            assert(s[p + 1] == t[1]);
            assert(t[1] == x[0]);
            assert(digits_end(s, p + 1) == p + 1);
            assert forall|i: int| p + 1 <= i < e implies #[trigger] is_ident_char(s[i]) by {
                assert(s[p + (i - p)] == t[i - p]);
                assert(t[i - p] == x[i - p - 1]);
            }
            lemma_ident_run(s, p + 1, e);
            assert forall|i: int| 0 <= i < x.len() implies #[trigger] s.subrange(p + 1, e)[i] == x[i] by {
                assert(s[p + (i + 1)] == t[i + 1]);
            }
            assert(s.subrange(p + 1, e) =~= x);
        }

#[verifier::spinoff_prover]
proof fn lemma_label_reads_back(s: Seq<char>, p: int, op: OpSpec)
    requires
        op is Label,
        well_formed(op),
        0 <= p,
        p + asm_text(op).len() <= s.len(),
        s.subrange(p, p + asm_text(op).len()) == asm_text(op),
        p + asm_text(op).len() == s.len() || spec_is_whitespace(s[p + asm_text(op).len()]),
    ensures
        parse_item(s, p) == ItemResult::Item(op, p + asm_text(op).len()),
{
    reveal(parse_item);
    let t = asm_text(op);
    let e = p + t.len();
    assert forall|i: int| 0 <= i < t.len() implies #[trigger] s[p + i] == t[i] by {
        assert(s.subrange(p, e)[i] == s[p + i]);
    }
    if e < s.len() {
        lemma_whitespace_ends_names(s[e]);
    }
    let l = op->Label_0;

            assert(s[p] == t[0]);
            assert(ident_end(s, p) == p);
            assert forall|i: int| p + 1 <= i < e - 1 implies #[trigger] is_ident_char(s[i]) by {
                assert(s[p + (i - p)] == t[i - p]);
                assert(t[i - p] == l[i - p - 1]);
            }
            assert(s[p + (t.len() - 1)] == t[t.len() - 1]);
            lemma_ident_run(s, p + 1, e - 1);
            assert forall|i: int| 0 <= i < l.len() implies #[trigger] s.subrange(p + 1, e - 1)[i] == l[i] by {
                assert(s[p + (i + 1)] == t[i + 1]);
            }
            assert(s.subrange(p + 1, e - 1) =~= l);
        }

/// A run of name characters at `p`, ended by a character outside names or by
/// the end, is the name that starts at `p`.
proof fn lemma_name_at(s: Seq<char>, p: int, n: Seq<char>)
    requires
        is_name(n),
        0 <= p,
        p + n.len() <= s.len(),
        s.subrange(p, p + n.len()) == n,
        p + n.len() == s.len() || !is_ident_char(s[p + n.len()]),
    ensures
        ident_end(s, p) == p + n.len(),
{
    assert forall|i: int| p <= i < p + n.len() implies #[trigger] is_ident_char(s[i]) by {
        assert(s.subrange(p, p + n.len())[i - p] == s[i]);
    }
    lemma_ident_run(s, p, p + n.len());
}

proof fn lemma_jump_part(s: Seq<char>, cend: int, j: JumpFlags)
    requires
        0 <= cend <= s.len(),
        j == JumpFlags::Null ==> cend == s.len() || spec_is_whitespace(s[cend]),
        j != JumpFlags::Null ==> cend + 4 <= s.len() && s.subrange(cend, cend + 4) == seq![';']
            + j.spec_name() && (cend + 4 == s.len() || spec_is_whitespace(s[cend + 4])),
    ensures
        jump_suffix(s, cend) == (j, cend + (if j == JumpFlags::Null { 0int } else { 4int })),
{
    if j != JumpFlags::Null {
        lemma_jump_name(j);
        j.lemma_from_name_roundtrip();
        let jn = j.spec_name();
        assert(s[cend] == s.subrange(cend, cend + 4)[0]);
        assert(s.subrange(cend + 1, cend + 4) =~= s.subrange(cend, cend + 4).drop_first());
        assert(seq![';'].add(jn).drop_first() =~= jn);
        if cend + 4 < s.len() {
            lemma_whitespace_ends_names(s[cend + 4]);
        }
        lemma_name_at(s, cend + 1, jn);
    } else {
        if cend < s.len() {
            lemma_whitespace_ends_names(s[cend]);
        }
    }
}

proof fn lemma_parse_item_comp(s: Seq<char>, p: int, dest: Option<DestFlags>, cstart: int, cend: int, c: CompFlags, j: JumpFlags, end: int)
    requires
        dest_prefix(s, p) == dest,
        cstart == (if dest is Some { ident_end(s, p) + 1 } else { p }),
        ident_end(s, cstart) == cend,
        cend > cstart,
        CompFlags::spec_from_name(s.subrange(cstart, cend)) == Some(c),
        jump_suffix(s, cend) == (j, end),
    ensures
        parse_item(s, p) == ItemResult::Item(
            OpSpec::Comp(if dest is Some { dest->0 } else { DestFlags::Null }, c, j),
            end,
        ),
{
    reveal(parse_item);
}

/// The parts of a C-instruction's text: `dest=`, the mnemonic, `;jump`.
proof fn lemma_comp_text_parts(s: Seq<char>, p: int, op: OpSpec)
    requires
        op is Comp,
        0 <= p,
        p + asm_text(op).len() <= s.len(),
        s.subrange(p, p + asm_text(op).len()) == asm_text(op),
    ensures
        ({
            let (d, c, j) = (op->Comp_0, op->Comp_1, op->Comp_2);
            let dl = if d.spec_bits() == 0 { 0int } else { d.spec_name().len() + 1int };
            let cstart = p + dl;
            let cend = cstart + c.spec_name().len();
            &&& d.spec_bits() != 0 ==> s.subrange(p, p + d.spec_name().len()) == d.spec_name() && s[p + d.spec_name().len()] == '='
            &&& s.subrange(cstart, cend) == c.spec_name()
            &&& j != JumpFlags::Null ==> cend + 4 == p + asm_text(op).len() && s.subrange(cend, cend + 4) == seq![';'] + j.spec_name()
            &&& j == JumpFlags::Null ==> cend == p + asm_text(op).len()
        }),
{
    let t = asm_text(op);
    let e = p + t.len();
    let (d, c, j) = (op->Comp_0, op->Comp_1, op->Comp_2);
    let cn = c.spec_name();
    let dpart = if d.spec_bits() == 0 { Seq::<char>::empty() } else { d.spec_name() + seq!['='] };
    let jpart = if j == JumpFlags::Null { Seq::<char>::empty() } else { seq![';'] + j.spec_name() };
    assert(t =~= dpart + cn + jpart);
    let cstart = p + dpart.len();
    let cend = cstart + cn.len();
    assert(s.subrange(cstart, cend) =~= s.subrange(p, e).subrange(dpart.len() as int, (dpart.len() + cn.len()) as int));
    assert(s.subrange(cend, e) =~= s.subrange(p, e).subrange((dpart.len() + cn.len()) as int, t.len() as int));
    if j != JumpFlags::Null {
        lemma_jump_name(j);
    }
    if d.spec_bits() != 0 {
        let dn = d.spec_name();
        assert(s.subrange(p, p + dn.len()) =~= s.subrange(p, e).subrange(0, dn.len() as int));
        assert(s[p + dn.len()] == s.subrange(p, e)[dn.len() as int]);
    }
}

#[verifier::spinoff_prover]
proof fn lemma_comp_reads_back(s: Seq<char>, p: int, op: OpSpec)
    requires
        op is Comp,
        well_formed(op),
        0 <= p,
        p + asm_text(op).len() <= s.len(),
        s.subrange(p, p + asm_text(op).len()) == asm_text(op),
        p + asm_text(op).len() == s.len() || spec_is_whitespace(s[p + asm_text(op).len()]),
    ensures
        parse_item(s, p) == ItemResult::Item(op, p + asm_text(op).len()),
{
    let e = p + asm_text(op).len();
    let (d, c, j) = (op->Comp_0, op->Comp_1, op->Comp_2);
    let cn = c.spec_name();
    lemma_comp_name(c);
    c.lemma_from_name_roundtrip();
    lemma_comp_text_parts(s, p, op);
    let dl = if d.spec_bits() == 0 { 0int } else { d.spec_name().len() + 1int };
    let cstart = p + dl;
    let cend = cstart + cn.len();
    if j != JumpFlags::Null {
        lemma_jump_name(j);
    }
    lemma_jump_part(s, cend, j);
    if cend < s.len() {
        if j == JumpFlags::Null {
            lemma_whitespace_ends_names(s[cend]);
        } else {
            assert(s[cend] == s.subrange(cend, cend + 4)[0]);
        }
    }
    lemma_name_at(s, cstart, cn);
    if d != DestFlags::Null {
        lemma_dest_name(d);
        lemma_name_at(s, p, d.spec_name());
        lemma_parse_item_comp(s, p, Some(d), cstart, cend, c, j, e);
    } else {
        assert(cstart == p);
        assert(dest_prefix(s, p) is None);
        lemma_parse_item_comp(s, p, None, cstart, cend, c, j, e);
    }
}

/// An operator's text, followed by whitespace or the end of the input, reads
/// as that operator.
pub proof fn lemma_item_reads_back(s: Seq<char>, p: int, op: OpSpec)
    requires
        well_formed(op),
        0 <= p,
        p + asm_text(op).len() <= s.len(),
        s.subrange(p, p + asm_text(op).len()) == asm_text(op),
        p + asm_text(op).len() == s.len() || spec_is_whitespace(s[p + asm_text(op).len()]),
    ensures
        parse_item(s, p) == ItemResult::Item(op, p + asm_text(op).len()),
{
    match op {
        OpSpec::Address(_) => lemma_address_reads_back(s, p, op),
        OpSpec::Symbol(_) => lemma_symbol_reads_back(s, p, op),
        OpSpec::Label(_) => lemma_label_reads_back(s, p, op),
        OpSpec::Comp(..) => lemma_comp_reads_back(s, p, op),
    }
}

/// An operator's text starts and ends with a character that is neither
/// whitespace nor `/`.
proof fn lemma_text_ends(op: OpSpec)
    requires
        well_formed(op),
    ensures
        asm_text(op).len() > 0,
        !spec_is_whitespace(asm_text(op)[0]) && asm_text(op)[0] != '/',
        !spec_is_whitespace(asm_text(op).last()),
{
    let t = asm_text(op);
    match op {
        OpSpec::Address(a) => {
            lemma_decimal_digits(a as nat);
            assert(t.last() == decimal(a as nat).last());
        },
        OpSpec::Symbol(x) => {
            assert(t.last() == x.last());
            assert(is_ident_char(x[x.len() - 1]));
        },
        OpSpec::Label(l) => {},
        OpSpec::Comp(d, c, j) => {
            lemma_comp_name(c);
            c.lemma_name_shape();
            let cn = c.spec_name();
            assert(cn[0] != '/') by {
                match c {
                    _ => {},
                }
            }
            let dpart = if d.spec_bits() == 0 { Seq::<char>::empty() } else { d.spec_name() + seq!['='] };
            let jpart = if j == JumpFlags::Null { Seq::<char>::empty() } else { seq![';'] + j.spec_name() };
            assert(t =~= dpart + cn + jpart);
            assert(is_ident_char(cn[0]) && is_ident_char(cn[cn.len() - 1]));
            if d != DestFlags::Null {
                lemma_dest_name(d);
                let dn = d.spec_name();
                assert(is_ident_char(dn[0]));
                assert(t[0] == dn[0]);
                assert(dn[0] == 'A' || dn[0] == 'D' || dn[0] == 'M');
            } else {
                assert(d.spec_bits() == 0);
                assert(t[0] == cn[0]);
            }
            if j != JumpFlags::Null {
                lemma_jump_name(j);
                assert(t.last() == j.spec_name()[2]);
                assert(is_ident_char(j.spec_name()[2]));
            } else {
                assert(t.last() == cn.last());
            }
        },
    }
}

/// Where the text of operator `k` starts in a listing.
pub open spec fn listing_offset(ops: Seq<OpSpec>, k: int) -> int {
    asm_lines(ops.take(k)).len() as int
}

proof fn lemma_lines_step(ops: Seq<OpSpec>, k: int)
    requires
        0 <= k < ops.len(),
    ensures
        asm_lines(ops.take(k + 1)) == asm_lines(ops.take(k)) + asm_text(ops[k]) + seq!['\n'],
{
    assert(ops.take(k + 1).drop_last() =~= ops.take(k));
}

proof fn lemma_lines_prefix(ops: Seq<OpSpec>, j: int, k: int)
    requires
        0 <= j <= k <= ops.len(),
    ensures
        listing_offset(ops, j) <= listing_offset(ops, k),
        asm_lines(ops.take(k)).subrange(0, listing_offset(ops, j)) == asm_lines(ops.take(j)),
    decreases k - j,
{
    if j < k {
        lemma_lines_prefix(ops, j, k - 1);
        lemma_lines_step(ops, k - 1);
        let a = asm_lines(ops.take(k - 1));
        let b = asm_lines(ops.take(k));
        assert(b.subrange(0, a.len() as int) =~= a);
        assert(b.subrange(0, listing_offset(ops, j)) =~= a.subrange(0, listing_offset(ops, j)));
    } else {
        assert(asm_lines(ops.take(k)).subrange(0, listing_offset(ops, j)) =~= asm_lines(ops.take(j)));
    }
}

/// In a listing `s` (possibly without its final line feed), operator `k`'s
/// text sits at its offset, followed by a line feed or the end.
proof fn lemma_listing_item(s: Seq<char>, ops: Seq<OpSpec>, k: int)
    requires
        0 <= k < ops.len(),
        s == asm_lines(ops) || s == asm_lines(ops).drop_last(),
    ensures
        listing_offset(ops, k) + asm_text(ops[k]).len() <= s.len(),
        s.subrange(listing_offset(ops, k), listing_offset(ops, k) + asm_text(ops[k]).len()) == asm_text(ops[k]),
        listing_offset(ops, k) + asm_text(ops[k]).len() < s.len() ==> s[listing_offset(ops, k) + asm_text(ops[k]).len()] == '\n',
        listing_offset(ops, k + 1) == listing_offset(ops, k) + asm_text(ops[k]).len() + 1,
        listing_offset(ops, k + 1) <= asm_lines(ops).len(),
{
    let full = asm_lines(ops);
    assert(ops.take(ops.len() as int) =~= ops);
    lemma_lines_prefix(ops, k + 1, ops.len() as int);
    lemma_lines_step(ops, k);
    let p = listing_offset(ops, k);
    let t = asm_text(ops[k]);
    let pre = asm_lines(ops.take(k + 1));
    assert(pre.len() <= full.len());
    assert(p + t.len() + 1 == pre.len());
    assert(p + t.len() <= s.len());
    assert forall|i: int| 0 <= i < t.len() implies #[trigger] s.subrange(p, p + t.len())[i] == t[i] by {
        assert(full.subrange(0, pre.len() as int)[p + i] == pre[p + i]);
        assert(pre[p + i] == t[i]);
        assert(s[p + i] == full[p + i]);
    }
    assert(s.subrange(p, p + t.len()) =~= t);
    if p + t.len() < s.len() {
        assert(full.subrange(0, pre.len() as int)[p + t.len()] == pre[p + t.len()]);
        assert(s[p + t.len()] == full[p + t.len()]);
    }
}

proof fn lemma_trivia_at_text(s: Seq<char>, p: int)
    requires
        0 <= p < s.len(),
        !spec_is_whitespace(s[p]),
        s[p] != '/',
    ensures
        trivia_end(s, p) == p,
{
    assert(ws_end(s, p) == p);
}

/// After an operator's text and its line feed comes the next text, or the end.
proof fn lemma_trivia_after_text(s: Seq<char>, e: int, next: int)
    requires
        0 <= e <= s.len(),
        e < s.len() ==> s[e] == '\n' && next == e + 1,
        e == s.len() ==> next == s.len(),
        next < s.len() ==> !spec_is_whitespace(s[next]) && s[next] != '/',
        next <= s.len(),
    ensures
        trivia_end(s, e) == next,
{
    if e < s.len() {
        if next < s.len() {
            assert(ws_end(s, next) == next);
        }
        assert(spec_is_whitespace(s[e]));
        assert(ws_end(s, e) == ws_end(s, e + 1));
        assert(ws_end(s, e) == next);
    }
}

proof fn lemma_listing_next(s: Seq<char>, ops: Seq<OpSpec>, k: int)
    requires
        0 <= k < ops.len(),
        forall|i: int| 0 <= i < ops.len() ==> well_formed(#[trigger] ops[i]),
        s == asm_lines(ops) || (ops.len() > 0 && s == asm_lines(ops).drop_last()),
    ensures
        ({
            let e = listing_offset(ops, k) + asm_text(ops[k]).len();
            let next = if k + 1 < ops.len() { listing_offset(ops, k + 1) } else { s.len() as int };
            trivia_end(s, e) == next
        }),
{
    let p = listing_offset(ops, k);
    lemma_listing_item(s, ops, k);
    let e = p + asm_text(ops[k]).len();
    let next = if k + 1 < ops.len() { listing_offset(ops, k + 1) } else { s.len() as int };
    if k + 1 < ops.len() {
        lemma_listing_item(s, ops, k + 1);
        lemma_text_ends(ops[k + 1]);
        let t2 = asm_text(ops[k + 1]);
        assert(s[next] == s.subrange(next, next + t2.len())[0]);
    } else {
        assert(ops.take(ops.len() as int) =~= ops);
        assert(listing_offset(ops, k + 1) == asm_lines(ops).len());
    }
    lemma_trivia_after_text(s, e, next);
}

proof fn lemma_listing_from(s: Seq<char>, ops: Seq<OpSpec>, k: int)
    requires
        0 <= k <= ops.len(),
        forall|i: int| 0 <= i < ops.len() ==> well_formed(#[trigger] ops[i]),
        s == asm_lines(ops) || (ops.len() > 0 && s == asm_lines(ops).drop_last()),
    ensures
        parse_from(s, if k < ops.len() { listing_offset(ops, k) } else { s.len() as int }) == ParseOutcome::Parsed(ops.subrange(k, ops.len() as int)),
    decreases ops.len() - k,
{
    if k == ops.len() {
        assert(ops.subrange(k, ops.len() as int) =~= Seq::<OpSpec>::empty());
        assert(trivia_end(s, s.len() as int) == s.len());
        assert(parse_item(s, s.len() as int) is NoMatch) by {
            reveal(parse_item);
        }
    } else {
        let p = listing_offset(ops, k);
        let op = ops[k];
        lemma_listing_item(s, ops, k);
        lemma_text_ends(op);
        let e = p + asm_text(op).len();
        assert(s[p] == s.subrange(p, e)[0]);
        lemma_trivia_at_text(s, p);
        lemma_item_reads_back(s, p, op);
        lemma_listing_next(s, ops, k);
        lemma_listing_from(s, ops, k + 1);
        assert(ops.subrange(k, ops.len() as int) =~= seq![op] + ops.subrange(k + 1, ops.len() as int));
    }
}

/// What this crate writes as an assembly listing reads back as the same
/// operators, with or without the final line feed, as long as every name is a
/// name and no symbol starts with a digit.
pub proof fn lemma_listing_reads_back(ops: Seq<OpSpec>)
    requires
        forall|i: int| 0 <= i < ops.len() ==> well_formed(#[trigger] ops[i]),
    ensures
        parse_program(asm_lines(ops)) == ParseOutcome::Parsed(ops),
        parse_program(trimmed(asm_lines(ops))) == ParseOutcome::Parsed(ops),
{
    let s = asm_lines(ops);
    assert(ops.subrange(0, ops.len() as int) =~= ops);
    if ops.len() == 0 {
        lemma_listing_from(s, ops, 0);
        assert(trimmed(s) =~= s);
    } else {
        lemma_listing_from(s, ops, 0);
        assert(listing_offset(ops, 0) == 0) by {
            assert(ops.take(0) =~= Seq::<OpSpec>::empty());
        }
        // trimming drops the final line feed and nothing else
        lemma_listing_item(s, ops, 0);
        lemma_text_ends(ops[0]);
        assert(s[0] == s.subrange(0, asm_text(ops[0]).len() as int)[0]);
        let n = ops.len() - 1;
        lemma_listing_item(s, ops, n);
        lemma_text_ends(ops[n]);
        let tn = asm_text(ops[n]);
        let pn = listing_offset(ops, n);
        assert(ops.take(ops.len() as int) =~= ops);
        lemma_lines_step(ops, n);
        assert(s.len() == pn + tn.len() + 1);
        assert(s[pn + tn.len() - 1] == s.subrange(pn, pn + tn.len())[tn.len() - 1]);
        assert(ws_end(s, 0) == 0);
        assert(ws_start(s, s.len() - 1) == s.len() - 1);
        assert(ws_start(s, s.len() as int) == s.len() - 1);
        assert(trimmed(s) =~= s.drop_last());
        lemma_listing_from(s.drop_last(), ops, 0);
    }
}

} // verus!
