//! The Hack assembler: reads assembly text and writes machine words.
use vstd::prelude::*;
use crate::instructions::{ops_of, op_views, Instruction, Instructions, OperatorKind};
use crate::scan::{trim_chars, trimmed};
use crate::text_util::{binary_digits, binary_value, lemma_binary_digits_value, push_binary, str_chars};
use code::{assembly_symbols, encode_all, generate_opcodes, symbols_fit, symbols_fit_check};
use parser_new::{chars_overflow, parse_chars, parse_program, ParseError, ParseOutcome};

pub mod code;
pub mod instructions;
pub mod parser_new;
pub mod roundtrip;

verus! {

pub const SYM: char = '@';
pub const DEST: char = '=';
pub const JUMP: char = ';';
pub const LBL: char = '(';
pub const END_LBL: char = ')';

/// The text of a listing of machine words: each as 16 binary digits on a line.
pub open spec fn opcode_lines(words: Seq<u16>) -> Seq<char>
    decreases words.len(),
{
    if words.len() == 0 {
        Seq::empty()
    } else {
        opcode_lines(words.drop_last()) + binary_digits(words.last() as nat, 16) + seq!['\n']
    }
}

/// What assembling a text needs: its addresses fit in 16 bits, and so do its
/// labels and variables when it reads as a program.
pub open spec fn assembly_fits(src: Seq<char>) -> bool {
    match parse_program(trimmed(src)) {
        ParseOutcome::Overflow => false,
        ParseOutcome::Parsed(ops) => symbols_fit(ops),
        ParseOutcome::Failed(_) => true,
    }
}

/// Whether [`assemble`] can run on `src` within its numeric limits.
pub fn assembly_fits_check(src: &str) -> (b: bool)
    ensures
        b == assembly_fits(src@),
{
    let cs = trim_chars(&str_chars(src));
    if chars_overflow(&cs) {
        return false;
    }
    match parse_chars(&cs) {
        Ok(ops) => {
            let instructions = number_instructions(ops);
            symbols_fit_check(&instructions.0)
        },
        Err(_) => true,
    }
}

fn number_instructions(ops: Vec<OperatorKind>) -> (r: Instructions)
    ensures
        ops_of(r.0@) == op_views(ops@),
        forall|k: int| 0 <= k < r.0@.len() ==> (#[trigger] r.0@[k]).line_number == 0,
{
    let mut list: Vec<Instruction> = Vec::new();
    let mut k: usize = 0;
    while k < ops.len()
        invariant
            k <= ops.len(),
            ops_of(list@) == op_views(ops@.take(k as int)),
            forall|j: int| 0 <= j < list@.len() ==> (#[trigger] list@[j]).line_number == 0,
        decreases ops.len() - k,
    {
        let ghost before = list@;
        list.push(Instruction { line_number: 0, operator: ops[k].duplicate() });
        assert(ops_of(list@) =~= ops_of(before).push(ops@[k as int]@));
        assert(op_views(ops@.take(k + 1)) =~= op_views(ops@.take(k as int)).push(ops@[k as int]@));
        k = k + 1;
    }
    assert(ops@.take(ops.len() as int) =~= ops@);
    Instructions(list)
}

/// Reads assembly text (without its leading and trailing whitespace) and
/// assembles it: the instructions read, each numbered line 0, and their
/// machine words.
pub fn assemble(src: &str) -> (r: Result<(Instructions, Vec<u16>), ParseError>)
    requires
        assembly_fits(src@),
    ensures
        match parse_program(trimmed(src@)) {
            ParseOutcome::Parsed(ops) => r matches Ok((instructions, words)) && ops_of(
                instructions.0@,
            ) == ops && (forall|k: int|
                0 <= k < instructions.0@.len() ==> (#[trigger] instructions.0@[k]).line_number == 0)
                && words@ == encode_all(ops, assembly_symbols(ops)),
            ParseOutcome::Failed(p) => r matches Err(e) && e.position == p,
            ParseOutcome::Overflow => false,
        },
{
    let cs = trim_chars(&str_chars(src));
    let ops = match parse_chars(&cs) {
        Ok(ops) => ops,
        Err(e) => {
            return Err(e);
        },
    };
    let instructions = number_instructions(ops);
    match generate_opcodes(&instructions.0) {
        Ok(words) => Ok((instructions, words)),
        Err(_) => {
            // every symbol has an address, so encoding cannot fail
            Ok((instructions, Vec::new()))
        },
    }
}

/// Appends each word as 16 binary digits and a line feed.
pub fn write_opcodes(opcodes: &[u16], out: &mut String)
    ensures
        final(out)@ == old(out)@ + opcode_lines(opcodes@),
{
    let ghost start = out@;
    let mut k: usize = 0;
    while k < opcodes.len()
        invariant
            k <= opcodes.len(),
            out@ == start + opcode_lines(opcodes@.take(k as int)),
        decreases opcodes.len() - k,
    {
        push_binary(out, opcodes[k], 16);
        out.push('\n');
        assert(opcodes@.take(k + 1).drop_last() =~= opcodes@.take(k as int));
        assert(out@ =~= start + opcode_lines(opcodes@.take(k + 1)));
        k = k + 1;
    }
    assert(opcodes@.take(opcodes.len() as int) =~= opcodes@);
}

/// Each word is written as exactly 16 binary digits, which read back as the word.
pub proof fn lemma_opcode_digits(word: u16)
    ensures
        binary_digits(word as nat, 16).len() == 16,
        binary_value(binary_digits(word as nat, 16)) == word,
{
    vstd::arithmetic::power2::lemma2_to64();
    lemma_binary_digits_value(word as nat, 16);
}

} // verus!
