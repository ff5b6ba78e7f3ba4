//! The mnemonics of the instruction fields say what their encodings do on the
//! Hack computer: a `comp` text, read as an expression over `A`, `D` and `M`,
//! is what the ALU computes on its bits; a jump mnemonic names the condition
//! its bits test; a destination's letters are the registers its bits write.
use vstd::prelude::*;
use super::machine::{
    comp_meaning, hack_alu, jump_bits_hold, jump_taken, lemma_comp_encoding_computes, lemma_small_bits, writes_a,
    writes_d, writes_m,
};
use super::{CompFlags, DestFlags, JumpFlags};

verus! {

/// The value of a register letter.
pub open spec fn register_value(ch: char, a: u16, d: u16, m: u16) -> Option<u16> {
    if ch == 'A' {
        Some(a)
    } else if ch == 'D' {
        Some(d)
    } else if ch == 'M' {
        Some(m)
    } else {
        None
    }
}

/// The value of a right operand: a register or the constant `1`.
pub open spec fn operand_value(ch: char, a: u16, d: u16, m: u16) -> Option<u16> {
    if ch == '1' {
        Some(1)
    } else {
        register_value(ch, a, d, m)
    }
}

/// The value of a text read as an arithmetic expression over the registers,
/// modulo 2^16: `0`, `1`, `-1`, a register `X`, `!X` (bitwise not), `-X`, or
/// `X op Y` with `op` one of `+ - & |` and `Y` a register or `1`.
pub open spec fn expression_value(t: Seq<char>, a: u16, d: u16, m: u16) -> Option<u16> {
    if t.len() == 1 {
        if t[0] == '0' {
            Some(0)
        } else if t[0] == '1' {
            Some(1)
        } else {
            register_value(t[0], a, d, m)
        }
    } else if t.len() == 2 {
        if t[0] == '-' && t[1] == '1' {
            Some(0xFFFF)
        } else {
            match register_value(t[1], a, d, m) {
                Some(v) => if t[0] == '!' {
                    Some(!v)
                } else if t[0] == '-' {
                    Some((0 - v) as u16)
                } else {
                    None
                },
                None => None,
            }
        }
    } else if t.len() == 3 {
        match (register_value(t[0], a, d, m), operand_value(t[2], a, d, m)) {
            (Some(x), Some(y)) => if t[1] == '+' {
                Some((x + y) as u16)
            } else if t[1] == '-' {
                Some((x - y) as u16)
            } else if t[1] == '&' {
                Some(x & y)
            } else if t[1] == '|' {
                Some(x | y)
            } else {
                None
            },
            _ => None,
        }
    } else {
        None
    }
}

/// Each `comp` mnemonic, read as an expression, is what the Hack ALU computes
/// on the bits it is encoded by, for all register values.
pub proof fn lemma_comp_names_compute(comp: CompFlags, a: u16, d: u16, m: u16)
    ensures
        expression_value(comp.spec_name(), a, d, m) == Some(hack_alu(comp.spec_bits(), a, d, m)),
{
    lemma_comp_encoding_computes(comp, a, d, m);
    lemma_comp_names_mean(comp, a, d, m);
}

proof fn lemma_comp_names_mean(comp: CompFlags, a: u16, d: u16, m: u16)
    ensures
        expression_value(comp.spec_name(), a, d, m) == Some(comp_meaning(comp, a, d, m)),
{
    let t = comp.spec_name();
    match comp {
        CompFlags::Zero => assert(t =~= seq!['0']),
        CompFlags::True => assert(t =~= seq!['1']),
        CompFlags::Neg1 => assert(t =~= seq!['-', '1']),
        CompFlags::D => assert(t =~= seq!['D']),
        CompFlags::A => assert(t =~= seq!['A']),
        CompFlags::NotD => assert(t =~= seq!['!', 'D']),
        CompFlags::NotA => assert(t =~= seq!['!', 'A']),
        CompFlags::NegD => assert(t =~= seq!['-', 'D']),
        CompFlags::NegA => assert(t =~= seq!['-', 'A']),
        CompFlags::DPlus1 => assert(t =~= seq!['D', '+', '1']),
        CompFlags::APlus1 => assert(t =~= seq!['A', '+', '1']),
        CompFlags::DNeg1 => assert(t =~= seq!['D', '-', '1']),
        CompFlags::ANeg1 => assert(t =~= seq!['A', '-', '1']),
        CompFlags::DPlusA => assert(t =~= seq!['D', '+', 'A']),
        CompFlags::DNegA => assert(t =~= seq!['D', '-', 'A']),
        CompFlags::ANegD => assert(t =~= seq!['A', '-', 'D']),
        CompFlags::DAndA => assert(t =~= seq!['D', '&', 'A']),
        CompFlags::DOrA => assert(t =~= seq!['D', '|', 'A']),
        CompFlags::M => assert(t =~= seq!['M']),
        CompFlags::NotM => assert(t =~= seq!['!', 'M']),
        CompFlags::NegM => assert(t =~= seq!['-', 'M']),
        CompFlags::MPlus1 => assert(t =~= seq!['M', '+', '1']),
        CompFlags::MNeg1 => assert(t =~= seq!['M', '-', '1']),
        CompFlags::DPlusM => assert(t =~= seq!['D', '+', 'M']),
        CompFlags::DNegM => assert(t =~= seq!['D', '-', 'M']),
        CompFlags::MNegD => assert(t =~= seq!['M', '-', 'D']),
        CompFlags::DAndM => assert(t =~= seq!['D', '&', 'M']),
        CompFlags::DOrM => assert(t =~= seq!['D', '|', 'M']),
    }
}

/// So a `comp` text that the assembler reads names what the ALU computes on
/// the bits it is read as.
pub proof fn lemma_comp_text_computes(t: Seq<char>, comp: CompFlags, a: u16, d: u16, m: u16)
    requires
        CompFlags::spec_from_name(t) == Some(comp),
    ensures
        expression_value(t, a, d, m) == Some(hack_alu(comp.spec_bits(), a, d, m)),
{
    assert(comp.spec_name() == t);
    lemma_comp_names_compute(comp, a, d, m);
}

/// The condition a jump mnemonic names on a signed 16-bit value: none for no
/// mnemonic, `JGT` positive, `JEQ` zero, `JGE` not negative, `JLT` negative,
/// `JNE` not zero, `JLE` not positive, `JMP` always.
pub open spec fn named_condition(t: Seq<char>, out: u16) -> Option<bool> {
    let negative = out >= 0x8000;
    let zero = out == 0;
    if t.len() == 0 {
        Some(false)
    } else if t.len() == 3 && t[0] == 'J' {
        if t[1] == 'G' && t[2] == 'T' {
            Some(!negative && !zero)
        } else if t[1] == 'E' && t[2] == 'Q' {
            Some(zero)
        } else if t[1] == 'G' && t[2] == 'E' {
            Some(!negative)
        } else if t[1] == 'L' && t[2] == 'T' {
            Some(negative)
        } else if t[1] == 'N' && t[2] == 'E' {
            Some(!zero)
        } else if t[1] == 'L' && t[2] == 'E' {
            Some(negative || zero)
        } else if t[1] == 'M' && t[2] == 'P' {
            Some(true)
        } else {
            None
        }
    } else {
        None
    }
}

/// Each jump mnemonic names the condition that its three bits make the Hack
/// CPU test, and the instruction model jumps on just that condition.
pub proof fn lemma_jump_names_test(jump: JumpFlags, out: u16)
    ensures
        named_condition(jump.spec_name(), out) == Some(jump_bits_hold(jump.spec_bits(), out)),
        jump_taken(jump, out) == jump_bits_hold(jump.spec_bits(), out),
{
    lemma_small_bits(0);
}

/// So a jump text that the assembler reads names the condition its bits test.
pub proof fn lemma_jump_text_tests(t: Seq<char>, jump: JumpFlags, out: u16)
    requires
        JumpFlags::spec_from_name(t) == Some(jump),
    ensures
        named_condition(t, out) == Some(jump_bits_hold(jump.spec_bits(), out)),
{
    assert(jump.spec_name() == t);
    lemma_jump_names_test(jump, out);
}

/// A destination's letters are the registers its bits write: `A` for the
/// bit of 4, `D` for 2, `M` for 1; and the instruction model writes just
/// those.
pub proof fn lemma_dest_names_write(dest: DestFlags)
    ensures
        dest.spec_name().contains('A') == (dest.spec_bits() & 4 != 0),
        dest.spec_name().contains('D') == (dest.spec_bits() & 2 != 0),
        dest.spec_name().contains('M') == (dest.spec_bits() & 1 != 0),
        writes_a(dest) == dest.spec_name().contains('A'),
        writes_d(dest) == dest.spec_name().contains('D'),
        writes_m(dest) == dest.spec_name().contains('M'),
{
    lemma_small_bits(0);
    let n = dest.spec_name();
    if n.contains('A') {
        let i = choose|i: int| 0 <= i < n.len() && n[i] == 'A';
        assert(n[i] == 'A');
    }
    if n.contains('D') {
        let i = choose|i: int| 0 <= i < n.len() && n[i] == 'D';
        assert(n[i] == 'D');
    }
    if n.contains('M') {
        let i = choose|i: int| 0 <= i < n.len() && n[i] == 'M';
        assert(n[i] == 'M');
    }
    match dest {
        DestFlags::Null => assert(n =~= Seq::<char>::empty()),
        DestFlags::M => assert(n =~= seq!['M']),
        DestFlags::D => assert(n =~= seq!['D']),
        DestFlags::DM => assert(n =~= seq!['D', 'M']),
        DestFlags::A => assert(n =~= seq!['A']),
        DestFlags::AM => assert(n =~= seq!['A', 'M']),
        DestFlags::AD => assert(n =~= seq!['A', 'D']),
        DestFlags::ADM => assert(n =~= seq!['A', 'D', 'M']),
    }
    if dest.spec_bits() & 4 != 0 {
        assert(n[0] == 'A');
    }
    if dest.spec_bits() & 2 != 0 {
        assert(n[if dest.spec_bits() & 4 != 0 { 1int } else { 0int }] == 'D');
    }
    if dest.spec_bits() & 1 != 0 {
        assert(n[n.len() - 1] == 'M');
    }
}

} // verus!
