//! The translation of a VM program is assembly that the assembler reads back
//! exactly.
use vstd::prelude::*;
use super::helpers::{
    return_label, spec_bool_stack_compare, spec_i, spec_move_to_addr,
    spec_pop_stack, spec_push_stack, spec_setup_segment, static_name,
};
use super::parser::{Command, Segment};
use super::{command_code, commands_code, epilogue, labels, prelude, translation};
use crate::assembler::parser_new::{is_ident_char, parse_program, ParseOutcome};
use crate::assembler::roundtrip::{is_name, lemma_listing_reads_back, well_formed};
use crate::instructions::base_symbols::{spec_sym, R13, R14, R15, SP, TEMP, THAT, THIS};
use crate::instructions::{asm_lines, OpSpec};
use crate::scan::trimmed;
use crate::text_util::{decimal, is_ascii_digit, lemma_decimal_digits};

verus! {

/// The labels of the fixed code are names that do not start with a digit.
proof fn lemma_label_literals()
    ensures
        is_name("SETUP"@) && !is_ascii_digit("SETUP"@[0]),
        is_name("CODE"@) && !is_ascii_digit("CODE"@[0]),
        is_name("EQ"@) && !is_ascii_digit("EQ"@[0]),
        is_name("EQ_RET"@) && !is_ascii_digit("EQ_RET"@[0]),
        is_name("LT"@) && !is_ascii_digit("LT"@[0]),
        is_name("LT_RET"@) && !is_ascii_digit("LT_RET"@[0]),
        is_name("GT"@) && !is_ascii_digit("GT"@[0]),
        is_name("GT_RET"@) && !is_ascii_digit("GT_RET"@[0]),
        is_name("END"@) && !is_ascii_digit("END"@[0]),
        is_name("_RET_"@) && !is_ascii_digit("_RET_"@[0]),
{
    reveal_strlit("SETUP");
    assert("SETUP"@ =~= seq!['S', 'E', 'T', 'U', 'P']);
    reveal_strlit("CODE");
    assert("CODE"@ =~= seq!['C', 'O', 'D', 'E']);
    reveal_strlit("EQ");
    assert("EQ"@ =~= seq!['E', 'Q']);
    reveal_strlit("EQ_RET");
    assert("EQ_RET"@ =~= seq!['E', 'Q', '_', 'R', 'E', 'T']);
    reveal_strlit("LT");
    assert("LT"@ =~= seq!['L', 'T']);
    reveal_strlit("LT_RET");
    assert("LT_RET"@ =~= seq!['L', 'T', '_', 'R', 'E', 'T']);
    reveal_strlit("GT");
    assert("GT"@ =~= seq!['G', 'T']);
    reveal_strlit("GT_RET");
    assert("GT_RET"@ =~= seq!['G', 'T', '_', 'R', 'E', 'T']);
    reveal_strlit("END");
    assert("END"@ =~= seq!['E', 'N', 'D']);
    reveal_strlit("_RET_");
    assert("_RET_"@ =~= seq!['_', 'R', 'E', 'T', '_']);
}

/// So are the preferred names of the predefined addresses.
proof fn lemma_base_literals()
    ensures
        is_name("SP"@) && !is_ascii_digit("SP"@[0]),
        is_name("LCL"@) && !is_ascii_digit("LCL"@[0]),
        is_name("ARG"@) && !is_ascii_digit("ARG"@[0]),
        is_name("THIS"@) && !is_ascii_digit("THIS"@[0]),
        is_name("THAT"@) && !is_ascii_digit("THAT"@[0]),
        is_name("TEMP"@) && !is_ascii_digit("TEMP"@[0]),
        is_name("R6"@) && !is_ascii_digit("R6"@[0]),
        is_name("R7"@) && !is_ascii_digit("R7"@[0]),
        is_name("R8"@) && !is_ascii_digit("R8"@[0]),
        is_name("R9"@) && !is_ascii_digit("R9"@[0]),
        is_name("R10"@) && !is_ascii_digit("R10"@[0]),
        is_name("R11"@) && !is_ascii_digit("R11"@[0]),
        is_name("R12"@) && !is_ascii_digit("R12"@[0]),
        is_name("R13"@) && !is_ascii_digit("R13"@[0]),
        is_name("R14"@) && !is_ascii_digit("R14"@[0]),
        is_name("R15"@) && !is_ascii_digit("R15"@[0]),
        is_name("SCREEN"@) && !is_ascii_digit("SCREEN"@[0]),
        is_name("KBD"@) && !is_ascii_digit("KBD"@[0]),
{
    reveal_strlit("SP");
    assert("SP"@ =~= seq!['S', 'P']);
    reveal_strlit("LCL");
    assert("LCL"@ =~= seq!['L', 'C', 'L']);
    reveal_strlit("ARG");
    assert("ARG"@ =~= seq!['A', 'R', 'G']);
    reveal_strlit("THIS");
    assert("THIS"@ =~= seq!['T', 'H', 'I', 'S']);
    reveal_strlit("THAT");
    assert("THAT"@ =~= seq!['T', 'H', 'A', 'T']);
    reveal_strlit("TEMP");
    assert("TEMP"@ =~= seq!['T', 'E', 'M', 'P']);
    reveal_strlit("R6");
    assert("R6"@ =~= seq!['R', '6']);
    reveal_strlit("R7");
    assert("R7"@ =~= seq!['R', '7']);
    reveal_strlit("R8");
    assert("R8"@ =~= seq!['R', '8']);
    reveal_strlit("R9");
    assert("R9"@ =~= seq!['R', '9']);
    reveal_strlit("R10");
    assert("R10"@ =~= seq!['R', '1', '0']);
    reveal_strlit("R11");
    assert("R11"@ =~= seq!['R', '1', '1']);
    reveal_strlit("R12");
    assert("R12"@ =~= seq!['R', '1', '2']);
    reveal_strlit("R13");
    assert("R13"@ =~= seq!['R', '1', '3']);
    reveal_strlit("R14");
    assert("R14"@ =~= seq!['R', '1', '4']);
    reveal_strlit("R15");
    assert("R15"@ =~= seq!['R', '1', '5']);
    reveal_strlit("SCREEN");
    assert("SCREEN"@ =~= seq!['S', 'C', 'R', 'E', 'E', 'N']);
    reveal_strlit("KBD");
    assert("KBD"@ =~= seq!['K', 'B', 'D']);
}

/// Loading a predefined address writes a name or a number, both of which read back.
pub proof fn lemma_sym_well_formed(address: u16)
    ensures
        well_formed(spec_sym(address)),
{
    lemma_base_literals();
}

/// Every operator of the sequence reads back.
pub open spec fn all_well_formed(ops: Seq<OpSpec>) -> bool {
    forall|i: int| 0 <= i < ops.len() ==> well_formed(#[trigger] ops[i])
}

proof fn lemma_all_concat(a: Seq<OpSpec>, b: Seq<OpSpec>)
    requires
        all_well_formed(a),
        all_well_formed(b),
    ensures
        all_well_formed(a + b),
{
    assert forall|i: int| 0 <= i < (a + b).len() implies well_formed(#[trigger] (a + b)[i]) by {
        if i < a.len() {
            assert((a + b)[i] == a[i]);
        } else {
            assert((a + b)[i] == b[i - a.len()]);
        }
    }
}

proof fn lemma_name_concat(a: Seq<char>, b: Seq<char>)
    requires
        is_name(a),
        is_name(b),
    ensures
        is_name(a + b),
        (a + b)[0] == a[0],
{
    assert forall|i: int| 0 <= i < (a + b).len() implies #[trigger] is_ident_char((a + b)[i]) by {
        if i < a.len() {
            assert((a + b)[i] == a[i]);
        } else {
            assert((a + b)[i] == b[i - a.len()]);
        }
    }
}

proof fn lemma_decimal_name(n: nat)
    ensures
        is_name(decimal(n)),
{
    lemma_decimal_digits(n);
    assert forall|i: int| 0 <= i < decimal(n).len() implies #[trigger] is_ident_char(decimal(n)[i]) by {
        assert(is_ascii_digit(decimal(n)[i]));
    }
}

proof fn lemma_return_label_name(label: Seq<char>, index: u32)
    requires
        is_name(label),
        !is_ascii_digit(label[0]),
    ensures
        is_name(return_label(label, index)),
        !is_ascii_digit(return_label(label, index)[0]),
{
    lemma_label_literals();
    lemma_decimal_name(index as nat);
    lemma_name_concat(label, "_RET_"@);
    lemma_name_concat(label + "_RET_"@, decimal(index as nat));
}

proof fn lemma_static_name(program_name: Seq<char>, value: u16)
    requires
        is_name(program_name),
        !is_ascii_digit(program_name[0]),
    ensures
        is_name(static_name(program_name, value)),
        !is_ascii_digit(static_name(program_name, value)[0]),
{
    lemma_decimal_name(value as nat);
    assert(is_name(seq!['.']));
    lemma_name_concat(program_name, seq!['.']);
    lemma_name_concat(program_name + seq!['.'], decimal(value as nat));
}

proof fn lemma_fixed_code_well_formed()
    ensures
        all_well_formed(spec_push_stack()),
        all_well_formed(spec_pop_stack()),
        all_well_formed(spec_setup_segment()),
        all_well_formed(prelude()),
        all_well_formed(epilogue()),
{
    lemma_label_literals();
    lemma_sym_well_formed(SP);
    lemma_sym_well_formed(R15);
    lemma_sym_well_formed(256);
    assert(labels::SETUP@ == "SETUP"@);
    assert(all_well_formed(spec_push_stack()));
    assert(all_well_formed(spec_pop_stack()));
    assert(all_well_formed(spec_setup_segment()));
    assert(all_well_formed(spec_bool_stack_compare(labels::EQ@, labels::EQ_RET@, crate::instructions::JumpFlags::JNE)));
    assert(all_well_formed(spec_bool_stack_compare(labels::LT@, labels::LT_RET@, crate::instructions::JumpFlags::JGE)));
    assert(all_well_formed(spec_bool_stack_compare(labels::GT@, labels::GT_RET@, crate::instructions::JumpFlags::JLE)));
    lemma_all_concat(spec_setup_segment(), spec_bool_stack_compare(labels::EQ@, labels::EQ_RET@, crate::instructions::JumpFlags::JNE));
    assert(all_well_formed(prelude()));
    assert(all_well_formed(epilogue()));
}

proof fn lemma_move_well_formed(program_name: Seq<char>, segment: Segment, value: u16)
    requires
        is_name(program_name),
        !is_ascii_digit(program_name[0]),
    ensures
        all_well_formed(spec_move_to_addr(program_name, segment, value).0),
{
    lemma_static_name(program_name, value);
    lemma_sym_well_formed(THIS);
    lemma_sym_well_formed(THAT);
    lemma_sym_well_formed((TEMP + value) as u16);
    lemma_sym_well_formed(crate::instructions::base_symbols::ARG);
    lemma_sym_well_formed(crate::instructions::base_symbols::LCL);
}

proof fn lemma_command_well_formed(program_name: Seq<char>, index: u32, command: Command)
    requires
        is_name(program_name),
        !is_ascii_digit(program_name[0]),
    ensures
        all_well_formed(command_code(program_name, index, command)),
{
    lemma_fixed_code_well_formed();
    lemma_label_literals();
    lemma_sym_well_formed(SP);
    lemma_sym_well_formed(R13);
    lemma_sym_well_formed(R14);
    match command {
        Command::Push(segment, value) => {
            lemma_move_well_formed(program_name, segment, value);
            let (m, memory) = spec_move_to_addr(program_name, segment, value);
            let mid = if memory { seq![spec_i(crate::instructions::DestFlags::D, crate::instructions::CompFlags::M)] } else { Seq::empty() };
            assert(all_well_formed(mid));
            lemma_all_concat(m, mid);
            lemma_all_concat(m + mid, spec_push_stack());
        },
        Command::Pop(segment, value) => {
            lemma_move_well_formed(program_name, segment, value);
            let a = spec_pop_stack() + seq![spec_sym(R13), spec_i(crate::instructions::DestFlags::M, crate::instructions::CompFlags::D)];
            let m = spec_move_to_addr(program_name, segment, value).0;
            let b = command_code(program_name, index, command);
            lemma_all_concat(spec_pop_stack(), seq![spec_sym(R13), spec_i(crate::instructions::DestFlags::M, crate::instructions::CompFlags::D)]);
            lemma_all_concat(a, m);
            assert forall|i: int| 0 <= i < b.len() implies well_formed(#[trigger] b[i]) by {
                if i >= (a + m).len() {
                    assert(b[i] == b.subrange((a + m).len() as int, b.len() as int)[i - (a + m).len()]);
                } else {
                    assert(b[i] == (a + m)[i]);
                }
            }
        },
        Command::Equal => {
            lemma_return_label_name(labels::EQ@, index);
        },
        Command::LessThan => {
            lemma_return_label_name(labels::LT@, index);
        },
        Command::GreaterThan => {
            lemma_return_label_name(labels::GT@, index);
        },
        _ => {
            lemma_all_concat(spec_pop_stack(), seq![spec_i(crate::instructions::DestFlags::M, crate::instructions::CompFlags::DPlusM)]);
            lemma_all_concat(spec_pop_stack(), seq![spec_i(crate::instructions::DestFlags::M, crate::instructions::CompFlags::MNegD)]);
            lemma_all_concat(spec_pop_stack(), seq![spec_i(crate::instructions::DestFlags::M, crate::instructions::CompFlags::DOrM)]);
            lemma_all_concat(spec_pop_stack(), seq![spec_i(crate::instructions::DestFlags::M, crate::instructions::CompFlags::DAndM)]);
        },
    }
}

proof fn lemma_commands_well_formed(program_name: Seq<char>, commands: Seq<Command>)
    requires
        is_name(program_name),
        !is_ascii_digit(program_name[0]),
    ensures
        all_well_formed(commands_code(program_name, commands)),
    decreases commands.len(),
{
    if commands.len() > 0 {
        lemma_commands_well_formed(program_name, commands.drop_last());
        lemma_command_well_formed(program_name, (commands.len() - 1) as u32, commands.last());
        lemma_all_concat(
            commands_code(program_name, commands.drop_last()),
            command_code(program_name, (commands.len() - 1) as u32, commands.last()),
        );
    }
}

/// What the translator writes for a program reads back through the
/// assembler's grammar as exactly the operators it wrote, when the program's
/// name is a name that does not start with a digit.
pub proof fn lemma_translation_reads_back(program_name: Seq<char>, commands: Seq<Command>)
    requires
        is_name(program_name),
        !is_ascii_digit(program_name[0]),
    ensures
        parse_program(trimmed(asm_lines(translation(program_name, commands)))) == ParseOutcome::Parsed(
            translation(program_name, commands),
        ),
{
    lemma_fixed_code_well_formed();
    lemma_commands_well_formed(program_name, commands);
    lemma_all_concat(prelude(), commands_code(program_name, commands));
    lemma_all_concat(prelude() + commands_code(program_name, commands), epilogue());
    lemma_listing_reads_back(translation(program_name, commands));
}

} // verus!
