//! What the commands of an assembled translation do on the Hack computer.
//! Every command but a comparison runs straight through its code; a
//! comparison jumps to a routine shared by all comparisons of its kind, which
//! pops two words, pushes the answer and jumps back to the next command.
use vstd::prelude::*;
use super::helpers::{
    return_label, spec_bool_stack_compare, spec_do_bool_compare, spec_i, spec_ij, spec_move_to_addr, spec_pop_stack,
    spec_push_stack, spec_setup_segment,
};
use super::parser::Command;
use super::semantics::{knows_base_symbols, lemma_assembly_knows_base_symbols, lemma_step_comp, lemma_step_sym, sp};
use super::{command_code, commands_code, epilogue, labels, prelude, translation};
use crate::assembler::code::{assembly_symbols, lemma_label_address, program_symbols, symbols_fit};
use crate::instructions::base_symbols::{base_symbol_map, spec_sym, R13, R15, SP};
use crate::instructions::machine::{
    comp_meaning, cpu_run, cpu_step, jump_taken, lemma_comp_encoding_computes, lemma_cpu_run_add, lemma_cpu_runs_straight,
    lemma_rom_append, lemma_rom_no_labels, lemma_rom_pc, rom, run, step, Cpu, Machine,
};
use crate::instructions::{CompFlags as Cmp, DestFlags as Dst, JumpFlags as Jmp, OpSpec};
use crate::text_util::{decimal, lemma_decimal_digits};

verus! {

/// What a comparison pushes: true (all ones) or false (zero). It is decided
/// on the 16-bit difference `x - y` of the word below the top (`x`) and the
/// top one (`y`), read as a signed number: `eq` holds when the words are
/// equal, `lt` when the difference is negative, `gt` when it is positive.
pub open spec fn compare_meaning(command: Command, x: u16, y: u16) -> u16 {
    let diff = (x - y) as u16;
    let holds = match command {
        Command::Equal => x == y,
        Command::LessThan => diff >= 0x8000,
        _ => diff != 0 && diff < 0x8000,
    };
    if holds { 0xFFFF } else { 0 }
}

/// The jump that makes a comparison false.
pub open spec fn false_jump(command: Command) -> Jmp {
    match command {
        Command::Equal => Jmp::JNE,
        Command::LessThan => Jmp::JGE,
        _ => Jmp::JLE,
    }
}

/// The instructions of a comparison routine (its code without the labels).
pub open spec fn routine_rom(return_label: Seq<char>, jump: Jmp) -> Seq<OpSpec> {
    seq![
        spec_sym(R15),
        spec_i(Dst::M, Cmp::D),
        spec_sym(SP),
        spec_i(Dst::AM, Cmp::MNeg1),
        spec_i(Dst::D, Cmp::M),
        spec_i(Dst::A, Cmp::ANeg1),
        spec_i(Dst::D, Cmp::MNegD),
        spec_i(Dst::M, Cmp::Zero),
        OpSpec::Symbol(return_label),
        spec_ij(Cmp::D, jump),
        spec_sym(SP),
        spec_i(Dst::A, Cmp::MNeg1),
        spec_i(Dst::M, Cmp::Neg1),
        spec_sym(R15),
        spec_i(Dst::A, Cmp::M),
        spec_ij(Cmp::Zero, Jmp::JMP),
    ]
}

proof fn lemma_cpu_run_next(program: Seq<OpSpec>, symbols: Map<Seq<char>, u16>, c: Cpu, n: nat)
    requires
        n > 0,
    ensures
        cpu_run(program, symbols, c, n) == cpu_run(program, symbols, cpu_step(program, symbols, c), (n - 1) as nat),
{
}

/// A cycle on an instruction that does not jump.
proof fn lemma_cpu_op(program: Seq<OpSpec>, symbols: Map<Seq<char>, u16>, c: Cpu, op: OpSpec)
    requires
        0 <= c.pc < program.len(),
        program[c.pc] == op,
        !(op matches OpSpec::Comp(_, _, j) && j != Jmp::Null),
    ensures
        cpu_step(program, symbols, c) == (Cpu { pc: c.pc + 1, m: step(c.m, op, symbols) }),
{
}

/// A cycle on a jump that writes nothing.
proof fn lemma_cpu_jump(program: Seq<OpSpec>, symbols: Map<Seq<char>, u16>, c: Cpu, comp: Cmp, jump: Jmp)
    requires
        0 <= c.pc < program.len(),
        program[c.pc] == spec_ij(comp, jump),
    ensures
        cpu_step(program, symbols, c) == (Cpu {
            pc: if jump_taken(jump, comp_meaning(comp, c.m.a, c.m.d, (c.m.ram)(c.m.a))) {
                c.m.a as int
            } else {
                c.pc + 1
            },
            m: c.m,
        }),
{
    lemma_comp_encoding_computes(comp, c.m.a, c.m.d, (c.m.ram)(c.m.a));
}

/// A comparison routine, entered with the return address in `D`: it pops the
/// two words on top of the stack, pushes false when `jump` holds for their
/// difference and true otherwise, keeps the return address in `R15`, and
/// jumps back to it.
proof fn lemma_routine_runs(
    program: Seq<OpSpec>,
    symbols: Map<Seq<char>, u16>,
    c: Cpu,
    return_label: Seq<char>,
    jump: Jmp,
)
    requires
        knows_base_symbols(symbols),
        0 <= c.pc,
        c.pc + 16 <= program.len(),
        forall|j: int| 0 <= j < 16 ==> program[c.pc + j] == #[trigger] routine_rom(return_label, jump)[j],
        symbols[return_label] == c.pc + 13,
        sp(c.m) != 1,
        sp(c.m) != 2,
        sp(c.m) != 16,
        sp(c.m) != 17,
    ensures
        ({
            let x = (c.m.ram)((sp(c.m) - 2) as u16);
            let y = (c.m.ram)((sp(c.m) - 1) as u16);
            let taken = jump_taken(jump, (x - y) as u16);
            let e = cpu_run(program, symbols, c, if taken { 13 } else { 16 });
            &&& e.pc == c.m.d
            &&& (e.m.ram)(SP) == (sp(c.m) - 1) as u16
            &&& (e.m.ram)((sp(c.m) - 2) as u16) == if taken { 0u16 } else { 0xFFFFu16 }
            &&& (e.m.ram)(R15) == c.m.d
            &&& forall|k: u16| k != SP && k != R15 && k != (sp(c.m) - 2) as u16 ==> (e.m.ram)(k) == #[trigger] (c.m.ram)(k)
        }),
{
    let r = routine_rom(return_label, jump);
    let q = c.pc;
    let sp0 = sp(c.m);
    let x = (c.m.ram)((sp0 - 2) as u16);
    let y = (c.m.ram)((sp0 - 1) as u16);
    assert(sp0 != 1 && sp0 != 16 ==> (sp0 - 1) as u16 != 0u16 && (sp0 - 1) as u16 != 15u16) by (bit_vector);
    assert(sp0 != 2 && sp0 != 17 ==> (sp0 - 2) as u16 != 0u16 && (sp0 - 2) as u16 != 15u16) by (bit_vector);
    super::semantics::lemma_wrap(sp0);
    let diff = (x - y) as u16;
    let taken = jump_taken(jump, diff);
    assert(program[q + 0] == r[0]);
    // @R15, M=D: keep the return address
    let c1 = cpu_step(program, symbols, c);
    lemma_cpu_op(program, symbols, c, r[0]);
    lemma_step_sym(c.m, R15, symbols);
    assert(program[q + 1] == r[1]);
    let c2 = cpu_step(program, symbols, c1);
    lemma_cpu_op(program, symbols, c1, r[1]);
    lemma_step_comp(c1.m, Dst::M, Cmp::D, symbols);
    // @SP, AM=M-1, D=M, A=A-1: pop y
    assert(program[q + 2] == r[2]);
    let c3 = cpu_step(program, symbols, c2);
    lemma_cpu_op(program, symbols, c2, r[2]);
    lemma_step_sym(c2.m, SP, symbols);
    assert(program[q + 3] == r[3]);
    let c4 = cpu_step(program, symbols, c3);
    lemma_cpu_op(program, symbols, c3, r[3]);
    lemma_step_comp(c3.m, Dst::AM, Cmp::MNeg1, symbols);
    assert(program[q + 4] == r[4]);
    let c5 = cpu_step(program, symbols, c4);
    lemma_cpu_op(program, symbols, c4, r[4]);
    lemma_step_comp(c4.m, Dst::D, Cmp::M, symbols);
    assert(c5.m.d == y);
    assert(program[q + 5] == r[5]);
    let c6 = cpu_step(program, symbols, c5);
    lemma_cpu_op(program, symbols, c5, r[5]);
    lemma_step_comp(c5.m, Dst::A, Cmp::ANeg1, symbols);
    // D=M-D, M=0: the difference, and false for now
    assert(program[q + 6] == r[6]);
    let c7 = cpu_step(program, symbols, c6);
    lemma_cpu_op(program, symbols, c6, r[6]);
    lemma_step_comp(c6.m, Dst::D, Cmp::MNegD, symbols);
    assert(c7.m.d == diff);
    assert(program[q + 7] == r[7]);
    let c8 = cpu_step(program, symbols, c7);
    lemma_cpu_op(program, symbols, c7, r[7]);
    lemma_step_comp(c7.m, Dst::M, Cmp::Zero, symbols);
    // @RET, D;jump
    assert(program[q + 8] == r[8]);
    let c9 = cpu_step(program, symbols, c8);
    lemma_cpu_op(program, symbols, c8, r[8]);
    assert(program[q + 9] == r[9]);
    let c10 = cpu_step(program, symbols, c9);
    lemma_cpu_jump(program, symbols, c9, Cmp::D, jump);
    assert(c10.pc == if taken { q + 13 } else { q + 10 });
    assert((c10.m.ram)(R15) == c.m.d);
    assert((c10.m.ram)(SP) == (sp0 - 1) as u16);
    assert((c10.m.ram)((sp0 - 2) as u16) == 0);
    lemma_cpu_run_next(program, symbols, c, if taken { 13 } else { 16 });
    lemma_cpu_run_next(program, symbols, c1, if taken { 12 } else { 15 });
    lemma_cpu_run_next(program, symbols, c2, if taken { 11 } else { 14 });
    lemma_cpu_run_next(program, symbols, c3, if taken { 10 } else { 13 });
    lemma_cpu_run_next(program, symbols, c4, if taken { 9 } else { 12 });
    lemma_cpu_run_next(program, symbols, c5, if taken { 8 } else { 11 });
    lemma_cpu_run_next(program, symbols, c6, if taken { 7 } else { 10 });
    lemma_cpu_run_next(program, symbols, c7, if taken { 6 } else { 9 });
    lemma_cpu_run_next(program, symbols, c8, if taken { 5 } else { 8 });
    lemma_cpu_run_next(program, symbols, c9, if taken { 4 } else { 7 });
    // when true: @SP, A=M-1, M=-1
    let t = if taken {
        c10
    } else {
        assert(program[q + 10] == r[10]);
        let c11 = cpu_step(program, symbols, c10);
        lemma_cpu_op(program, symbols, c10, r[10]);
        lemma_step_sym(c10.m, SP, symbols);
        assert(program[q + 11] == r[11]);
        let c12 = cpu_step(program, symbols, c11);
        lemma_cpu_op(program, symbols, c11, r[11]);
        lemma_step_comp(c11.m, Dst::A, Cmp::MNeg1, symbols);
        assert(program[q + 12] == r[12]);
        let c13 = cpu_step(program, symbols, c12);
        lemma_cpu_op(program, symbols, c12, r[12]);
        lemma_step_comp(c12.m, Dst::M, Cmp::Neg1, symbols);
        lemma_cpu_run_next(program, symbols, c10, 6);
        lemma_cpu_run_next(program, symbols, c11, 5);
        lemma_cpu_run_next(program, symbols, c12, 4);
        c13
    };
    assert(t.pc == q + 13);
    assert(cpu_run(program, symbols, c, if taken { 13 } else { 16 }) == cpu_run(program, symbols, t, 3));
    // @R15, A=M, 0;JMP: return
    assert(program[q + 13] == r[13]);
    let t1 = cpu_step(program, symbols, t);
    lemma_cpu_op(program, symbols, t, r[13]);
    lemma_step_sym(t.m, R15, symbols);
    assert(program[q + 14] == r[14]);
    let t2 = cpu_step(program, symbols, t1);
    lemma_cpu_op(program, symbols, t1, r[14]);
    lemma_step_comp(t1.m, Dst::A, Cmp::M, symbols);
    assert(program[q + 15] == r[15]);
    let t3 = cpu_step(program, symbols, t2);
    lemma_cpu_jump(program, symbols, t2, Cmp::Zero, Jmp::JMP);
    lemma_cpu_run_next(program, symbols, t, 3);
    lemma_cpu_run_next(program, symbols, t1, 2);
    lemma_cpu_run_next(program, symbols, t2, 1);
    assert(cpu_run(program, symbols, t3, 0) == t3);
}

/// The code of the first commands is the start of the code of all of them.
proof fn lemma_commands_code_prefix(program_name: Seq<char>, commands: Seq<Command>, k: int)
    requires
        0 <= k <= commands.len(),
    ensures
        commands_code(program_name, commands.take(k)).len() <= commands_code(program_name, commands).len(),
        commands_code(program_name, commands.take(k)) == commands_code(program_name, commands).take(
            commands_code(program_name, commands.take(k)).len() as int,
        ),
    decreases commands.len() - k,
{
    if k == commands.len() {
        assert(commands.take(k) =~= commands);
        assert(commands_code(program_name, commands).take(commands_code(program_name, commands).len() as int)
            =~= commands_code(program_name, commands));
    } else {
        lemma_commands_code_prefix(program_name, commands, k + 1);
        let t = commands.take(k + 1);
        assert(t.drop_last() =~= commands.take(k));
        let a = commands_code(program_name, commands.take(k));
        let b = commands_code(program_name, t);
        assert(b == a + command_code(program_name, k as u32, commands[k]));
        assert(a =~= b.take(a.len() as int));
    }
}

/// A label that the code of commands numbered below `n` defines: the return
/// label of a comparison.
pub open spec fn is_return_label_below(name: Seq<char>, n: int) -> bool {
    exists|j: int|
        0 <= j < n && (#[trigger] return_label(labels::EQ@, j as u32) == name || return_label(labels::LT@, j as u32)
            == name || return_label(labels::GT@, j as u32) == name)
}

/// The routine a comparison calls.
pub open spec fn routine_label(command: Command) -> Seq<char> {
    match command {
        Command::Equal => labels::EQ@,
        Command::LessThan => labels::LT@,
        _ => labels::GT@,
    }
}

pub open spec fn is_comparison(command: Command) -> bool {
    command == Command::Equal || command == Command::LessThan || command == Command::GreaterThan
}

/// The code of one command defines a label only when it is a comparison: its
/// return label, last.
proof fn lemma_command_code_labels(program_name: Seq<char>, index: u32, command: Command)
    ensures
        forall|i: int|
            0 <= i < command_code(program_name, index, command).len() && #[trigger] command_code(
                program_name,
                index,
                command,
            )[i] is Label ==> is_comparison(command) && i == 4 && command_code(program_name, index, command)[i]
                == OpSpec::Label(return_label(routine_label(command), index)),
{
    let c = command_code(program_name, index, command);
    if is_comparison(command) {
        assert(c == spec_do_bool_compare(routine_label(command), index));
    } else {
        assert forall|i: int| 0 <= i < c.len() implies !(#[trigger] c[i] is Label) by {
            match command {
                Command::Push(segment, value) => {
                    let (m, memory) = spec_move_to_addr(program_name, segment, value);
                    let extra = if memory { seq![spec_i(Dst::D, Cmp::M)] } else { Seq::<OpSpec>::empty() };
                    assert(c == m + extra + spec_push_stack());
                    if i < m.len() {
                        assert(c[i] == m[i]);
                    } else if i < m.len() + extra.len() {
                        assert(c[i] == extra[i - m.len()]);
                    } else {
                        assert(c[i] == spec_push_stack()[i - m.len() - extra.len()]);
                    }
                },
                Command::Pop(segment, value) => {
                    let m = spec_move_to_addr(program_name, segment, value).0;
                    let pre = spec_pop_stack() + seq![spec_sym(R13), spec_i(Dst::M, Cmp::D)];
                    if i < pre.len() {
                        assert(c[i] == pre[i]);
                    } else if i < pre.len() + m.len() {
                        assert(c[i] == m[i - pre.len()]);
                    }
                },
                _ => {},
            }
        }
    }
}

/// The only labels in the code of commands are comparisons' return labels,
/// each numbered by its command.
proof fn lemma_commands_code_labels(program_name: Seq<char>, commands: Seq<Command>)
    ensures
        forall|i: int|
            0 <= i < commands_code(program_name, commands).len() && #[trigger] commands_code(program_name, commands)[i] is Label
                ==> is_return_label_below(commands_code(program_name, commands)[i]->Label_0, commands.len() as int),
    decreases commands.len(),
{
    if commands.len() > 0 {
        let n = commands.len() - 1;
        let a = commands_code(program_name, commands.drop_last());
        let c = command_code(program_name, n as u32, commands.last());
        let all = commands_code(program_name, commands);
        lemma_commands_code_labels(program_name, commands.drop_last());
        lemma_command_code_labels(program_name, n as u32, commands.last());
        assert forall|i: int| 0 <= i < all.len() && #[trigger] all[i] is Label
            implies is_return_label_below(all[i]->Label_0, commands.len() as int) by {
            let name = all[i]->Label_0;
            if i < a.len() {
                assert(all[i] == a[i]);
                let j = choose|j: int|
                    0 <= j < n && (#[trigger] return_label(labels::EQ@, j as u32) == name || return_label(labels::LT@, j as u32)
                        == name || return_label(labels::GT@, j as u32) == name);
                assert(return_label(labels::EQ@, j as u32) == name || return_label(labels::LT@, j as u32) == name
                    || return_label(labels::GT@, j as u32) == name);
            } else {
                assert(all[i] == c[i - a.len()]);
                assert(name == return_label(routine_label(commands.last()), n as u32));
                assert(return_label(labels::EQ@, n as u32) == name || return_label(labels::LT@, n as u32) == name
                    || return_label(labels::GT@, n as u32) == name);
            }
        }
    }
}

/// The labels of the fixed code: short, pairwise distinct, and not
/// predefined; and no predefined name is longer than six characters.
proof fn lemma_label_names()
    ensures
        forall|n: Seq<char>| #[trigger] base_symbol_map().contains_key(n) ==> n.len() <= 6,
        !base_symbol_map().contains_key(labels::SETUP@),
        labels::SETUP@.len() <= 6,
        !base_symbol_map().contains_key(labels::EQ@),
        labels::EQ@.len() <= 6,
        !base_symbol_map().contains_key(labels::EQ_RET@),
        labels::EQ_RET@.len() <= 6,
        !base_symbol_map().contains_key(labels::LT@),
        labels::LT@.len() <= 6,
        !base_symbol_map().contains_key(labels::LT_RET@),
        labels::LT_RET@.len() <= 6,
        !base_symbol_map().contains_key(labels::GT@),
        labels::GT@.len() <= 6,
        !base_symbol_map().contains_key(labels::GT_RET@),
        labels::GT_RET@.len() <= 6,
        !base_symbol_map().contains_key(labels::CODE@),
        labels::CODE@.len() <= 6,
        labels::EQ@ != labels::SETUP@,
        labels::EQ_RET@ != labels::SETUP@,
        labels::EQ_RET@ != labels::EQ@,
        labels::LT@ != labels::SETUP@,
        labels::LT@ != labels::EQ@,
        labels::LT@ != labels::EQ_RET@,
        labels::LT_RET@ != labels::SETUP@,
        labels::LT_RET@ != labels::EQ@,
        labels::LT_RET@ != labels::EQ_RET@,
        labels::LT_RET@ != labels::LT@,
        labels::GT@ != labels::SETUP@,
        labels::GT@ != labels::EQ@,
        labels::GT@ != labels::EQ_RET@,
        labels::GT@ != labels::LT@,
        labels::GT@ != labels::LT_RET@,
        labels::GT_RET@ != labels::SETUP@,
        labels::GT_RET@ != labels::EQ@,
        labels::GT_RET@ != labels::EQ_RET@,
        labels::GT_RET@ != labels::LT@,
        labels::GT_RET@ != labels::LT_RET@,
        labels::GT_RET@ != labels::GT@,
        labels::EQ@.len() == 2,
        labels::LT@.len() == 2,
        labels::GT@.len() == 2,
{
    reveal_strlit("SETUP");
    assert("SETUP"@ =~= seq!['S', 'E', 'T', 'U', 'P']);
    reveal_strlit("EQ");
    assert("EQ"@ =~= seq!['E', 'Q']);
    reveal_strlit("EQ_RET");
    assert("EQ_RET"@ =~= seq!['E', 'Q', '_', 'R', 'E', 'T']);
    reveal_strlit("LT");
    assert("LT"@ =~= seq!['L', 'T']);
    reveal_strlit("LT_RET");
    assert("LT_RET"@ =~= seq!['L', 'T', '_', 'R', 'E', 'T']);
    reveal_strlit("GT");
    assert("GT"@ =~= seq!['G', 'T']);
    reveal_strlit("GT_RET");
    assert("GT_RET"@ =~= seq!['G', 'T', '_', 'R', 'E', 'T']);
    reveal_strlit("CODE");
    assert("CODE"@ =~= seq!['C', 'O', 'D', 'E']);
    reveal_strlit("SCREEN");
    assert("SCREEN"@ =~= seq!['S', 'C', 'R', 'E', 'E', 'N']);
    reveal_strlit("KBD");
    assert("KBD"@ =~= seq!['K', 'B', 'D']);
    reveal_strlit("SP");
    assert("SP"@ =~= seq!['S', 'P']);
    reveal_strlit("LCL");
    assert("LCL"@ =~= seq!['L', 'C', 'L']);
    reveal_strlit("ARG");
    assert("ARG"@ =~= seq!['A', 'R', 'G']);
    reveal_strlit("THIS");
    assert("THIS"@ =~= seq!['T', 'H', 'I', 'S']);
    reveal_strlit("THAT");
    assert("THAT"@ =~= seq!['T', 'H', 'A', 'T']);
    reveal_strlit("TEMP");
    assert("TEMP"@ =~= seq!['T', 'E', 'M', 'P']);
    reveal_strlit("R0");
    assert("R0"@ =~= seq!['R', '0']);
    reveal_strlit("R1");
    assert("R1"@ =~= seq!['R', '1']);
    reveal_strlit("R2");
    assert("R2"@ =~= seq!['R', '2']);
    reveal_strlit("R3");
    assert("R3"@ =~= seq!['R', '3']);
    reveal_strlit("R4");
    assert("R4"@ =~= seq!['R', '4']);
    reveal_strlit("R5");
    assert("R5"@ =~= seq!['R', '5']);
    reveal_strlit("R6");
    assert("R6"@ =~= seq!['R', '6']);
    reveal_strlit("R7");
    assert("R7"@ =~= seq!['R', '7']);
    reveal_strlit("R8");
    assert("R8"@ =~= seq!['R', '8']);
    reveal_strlit("R9");
    assert("R9"@ =~= seq!['R', '9']);
    reveal_strlit("R10");
    assert("R10"@ =~= seq!['R', '1', '0']);
    reveal_strlit("R11");
    assert("R11"@ =~= seq!['R', '1', '1']);
    reveal_strlit("R12");
    assert("R12"@ =~= seq!['R', '1', '2']);
    reveal_strlit("R13");
    assert("R13"@ =~= seq!['R', '1', '3']);
    reveal_strlit("R14");
    assert("R14"@ =~= seq!['R', '1', '4']);
    reveal_strlit("R15");
    assert("R15"@ =~= seq!['R', '1', '5']);
}

/// A return label is its routine's name, `_RET_`, and the command's number;
/// two of them with names of the same length are equal only for the same
/// number.
proof fn lemma_return_label_injective(l1: Seq<char>, l2: Seq<char>, i: u32, j: u32)
    requires
        l1.len() == l2.len(),
    ensures
        return_label(l1, i).len() >= l1.len() + 6,
        return_label(l1, i) == return_label(l2, j) ==> i == j,
{
    reveal_strlit("_RET_");
    lemma_decimal_digits(i as nat);
    lemma_decimal_digits(j as nat);
    let a = return_label(l1, i);
    let b = return_label(l2, j);
    let n = l1.len() + 5;
    assert(a.subrange(n as int, a.len() as int) =~= decimal(i as nat));
    assert(b.subrange(n as int, b.len() as int) =~= decimal(j as nat));
}

/// A label alone fills no instruction.
proof fn lemma_rom_label(l: Seq<char>)
    ensures
        rom(seq![OpSpec::Label(l)]) == Seq::<OpSpec>::empty(),
{
    assert(seq![OpSpec::Label(l)].drop_last() =~= Seq::<OpSpec>::empty());
    assert(rom(Seq::<OpSpec>::empty()) =~= Seq::<OpSpec>::empty());
}

/// The layout of a comparison routine: its label, thirteen instructions, its
/// return label, three instructions.
proof fn lemma_routine_layout(label: Seq<char>, ret: Seq<char>, jump: Jmp)
    ensures
        spec_bool_stack_compare(label, ret, jump).len() == 18,
        rom(spec_bool_stack_compare(label, ret, jump)) == routine_rom(ret, jump),
        rom(spec_bool_stack_compare(label, ret, jump).take(14)).len() == 13,
        spec_bool_stack_compare(label, ret, jump)[0] == OpSpec::Label(label),
        spec_bool_stack_compare(label, ret, jump)[14] == OpSpec::Label(ret),
        forall|i: int| 0 <= i < 18 && #[trigger] spec_bool_stack_compare(label, ret, jump)[i] is Label ==> i == 0 || i == 14,
{
    let r = spec_bool_stack_compare(label, ret, jump);
    let p1 = r.subrange(1, 14);
    let p2 = r.subrange(15, 18);
    assert(r =~= seq![OpSpec::Label(label)] + p1 + seq![OpSpec::Label(ret)] + p2);
    assert(r.take(14) =~= seq![OpSpec::Label(label)] + p1);
    lemma_rom_append(seq![OpSpec::Label(label)] + p1 + seq![OpSpec::Label(ret)], p2);
    lemma_rom_append(seq![OpSpec::Label(label)] + p1, seq![OpSpec::Label(ret)]);
    lemma_rom_append(seq![OpSpec::Label(label)], p1);
    lemma_rom_no_labels(p1);
    lemma_rom_no_labels(p2);
    lemma_rom_label(label);
    lemma_rom_label(ret);
    assert(p1 + p2 =~= routine_rom(ret, jump));
}

/// The layout of the code before the commands.
proof fn lemma_prelude_layout()
    ensures
        prelude().len() == 62,
        rom(prelude()) == rom(spec_setup_segment()) + routine_rom(labels::EQ_RET@, Jmp::JNE) + routine_rom(
            labels::LT_RET@,
            Jmp::JGE,
        ) + routine_rom(labels::GT_RET@, Jmp::JLE),
        rom(spec_setup_segment()).len() == 6,
        prelude()[7] == OpSpec::Label(labels::EQ@),
        prelude()[21] == OpSpec::Label(labels::EQ_RET@),
        prelude()[25] == OpSpec::Label(labels::LT@),
        prelude()[39] == OpSpec::Label(labels::LT_RET@),
        prelude()[43] == OpSpec::Label(labels::GT@),
        prelude()[57] == OpSpec::Label(labels::GT_RET@),
        rom(prelude().take(7)).len() == 6,
        rom(prelude().take(21)).len() == 19,
        rom(prelude().take(25)).len() == 22,
        rom(prelude().take(39)).len() == 35,
        rom(prelude().take(43)).len() == 38,
        rom(prelude().take(57)).len() == 51,
        forall|i: int| 0 <= i < 62 && #[trigger] prelude()[i] is Label ==> {
            let name = prelude()[i]->Label_0;
            ||| i == 0 && name == labels::SETUP@
            ||| i == 7 && name == labels::EQ@
            ||| i == 21 && name == labels::EQ_RET@
            ||| i == 25 && name == labels::LT@
            ||| i == 39 && name == labels::LT_RET@
            ||| i == 43 && name == labels::GT@
            ||| i == 57 && name == labels::GT_RET@
            ||| i == 61 && name == labels::CODE@
        },
{
    let setup = spec_setup_segment();
    let r1 = spec_bool_stack_compare(labels::EQ@, labels::EQ_RET@, Jmp::JNE);
    let r2 = spec_bool_stack_compare(labels::LT@, labels::LT_RET@, Jmp::JGE);
    let r3 = spec_bool_stack_compare(labels::GT@, labels::GT_RET@, Jmp::JLE);
    let code = seq![OpSpec::Label(labels::CODE@)];
    lemma_routine_layout(labels::EQ@, labels::EQ_RET@, Jmp::JNE);
    lemma_routine_layout(labels::LT@, labels::LT_RET@, Jmp::JGE);
    lemma_routine_layout(labels::GT@, labels::GT_RET@, Jmp::JLE);
    let body = setup.subrange(1, 7);
    assert(setup =~= seq![OpSpec::Label(labels::SETUP@)] + body);
    lemma_rom_append(seq![OpSpec::Label(labels::SETUP@)], body);
    lemma_rom_no_labels(body);
    lemma_rom_label(labels::SETUP@);
    assert(rom(setup) =~= body);
    lemma_rom_label(labels::CODE@);
    let p = prelude();
    assert(p == setup + r1 + r2 + r3 + code);
    lemma_rom_append(setup + r1 + r2 + r3, code);
    lemma_rom_append(setup + r1 + r2, r3);
    lemma_rom_append(setup + r1, r2);
    lemma_rom_append(setup, r1);
    assert(rom(p) =~= rom(setup) + routine_rom(labels::EQ_RET@, Jmp::JNE) + routine_rom(labels::LT_RET@, Jmp::JGE)
        + routine_rom(labels::GT_RET@, Jmp::JLE));
    // the prefixes that end at a label
    assert(p.take(7) =~= setup);
    assert(p.take(21) =~= setup + r1.take(14));
    lemma_rom_append(setup, r1.take(14));
    assert(p.take(25) =~= setup + r1);
    assert(p.take(39) =~= setup + r1 + r2.take(14));
    lemma_rom_append(setup + r1, r2.take(14));
    assert(p.take(43) =~= setup + r1 + r2);
    assert(p.take(57) =~= setup + r1 + r2 + r3.take(14));
    lemma_rom_append(setup + r1 + r2, r3.take(14));
    assert forall|i: int| 0 <= i < 62 && #[trigger] p[i] is Label implies {
        let name = p[i]->Label_0;
        ||| i == 0 && name == labels::SETUP@
        ||| i == 7 && name == labels::EQ@
        ||| i == 21 && name == labels::EQ_RET@
        ||| i == 25 && name == labels::LT@
        ||| i == 39 && name == labels::LT_RET@
        ||| i == 43 && name == labels::GT@
        ||| i == 57 && name == labels::GT_RET@
        ||| i == 61 && name == labels::CODE@
    } by {
        if i < 7 {
            assert(p[i] == setup[i]);
        } else if i < 25 {
            assert(p[i] == r1[i - 7]);
        } else if i < 43 {
            assert(p[i] == r2[i - 25]);
        } else if i < 61 {
            assert(p[i] == r3[i - 43]);
        }
    }
}

/// A label that is not predefined stands, in the table the assembler encodes
/// with, for the address of the instruction after its first definition.
proof fn lemma_label_symbol(ops: Seq<OpSpec>, i: int, l: Seq<char>)
    requires
        symbols_fit(ops),
        0 <= i < ops.len(),
        ops[i] == OpSpec::Label(l),
        forall|j: int| 0 <= j < i ==> #[trigger] ops[j] != OpSpec::Label(l),
        !base_symbol_map().contains_key(l),
    ensures
        assembly_symbols(ops).contains_key(l),
        assembly_symbols(ops)[l] == rom(ops.take(i)).len(),
{
    lemma_label_address(ops, i, l);
    lemma_rom_pc(ops, i);
    lemma_rom_pc(ops, ops.len() as int);
    assert(ops.take(ops.len() as int) =~= ops);
    assert(ops =~= ops.take(i) + ops.skip(i));
    lemma_rom_append(ops.take(i), ops.skip(i));
    assert(program_symbols(ops).contains_key(l));
}

/// The call of a comparison routine: the return address goes into `D`, and
/// the routine starts; memory is left alone.
proof fn lemma_call_runs(program: Seq<OpSpec>, symbols: Map<Seq<char>, u16>, c: Cpu, routine: Seq<char>, ret: Seq<char>)
    requires
        0 <= c.pc,
        c.pc + 4 <= program.len(),
        program[c.pc] == OpSpec::Symbol(ret),
        program[c.pc + 1] == spec_i(Dst::D, Cmp::A),
        program[c.pc + 2] == OpSpec::Symbol(routine),
        program[c.pc + 3] == spec_ij(Cmp::Zero, Jmp::JMP),
        symbols[ret] == c.pc + 4,
    ensures
        cpu_run(program, symbols, c, 4).pc == symbols[routine],
        cpu_run(program, symbols, c, 4).m.d == c.pc + 4,
        cpu_run(program, symbols, c, 4).m.ram == c.m.ram,
{
    let c1 = cpu_step(program, symbols, c);
    lemma_cpu_op(program, symbols, c, OpSpec::Symbol(ret));
    let c2 = cpu_step(program, symbols, c1);
    lemma_cpu_op(program, symbols, c1, spec_i(Dst::D, Cmp::A));
    lemma_step_comp(c1.m, Dst::D, Cmp::A, symbols);
    let c3 = cpu_step(program, symbols, c2);
    lemma_cpu_op(program, symbols, c2, OpSpec::Symbol(routine));
    let c4 = cpu_step(program, symbols, c3);
    lemma_cpu_jump(program, symbols, c3, Cmp::Zero, Jmp::JMP);
    lemma_cpu_run_next(program, symbols, c, 4);
    lemma_cpu_run_next(program, symbols, c1, 3);
    lemma_cpu_run_next(program, symbols, c2, 2);
    lemma_cpu_run_next(program, symbols, c3, 1);
    assert(cpu_run(program, symbols, c4, 0) == c4);
}

/// The return label of the routine a comparison calls.
pub open spec fn routine_return(command: Command) -> Seq<char> {
    match command {
        Command::Equal => labels::EQ_RET@,
        Command::LessThan => labels::LT_RET@,
        _ => labels::GT_RET@,
    }
}

/// The place of a comparison's routine among the three.
pub open spec fn routine_index(command: Command) -> int {
    match command {
        Command::Equal => 0,
        Command::LessThan => 1,
        _ => 2,
    }
}

/// Where the routines stand in a translated program, and what their labels
/// stand for.
proof fn lemma_routines_in_translation(program_name: Seq<char>, commands: Seq<Command>, command: Command)
    requires
        symbols_fit(translation(program_name, commands)),
        is_comparison(command),
    ensures
        ({
            let ops = translation(program_name, commands);
            let q = 6 + 16 * routine_index(command);
            &&& assembly_symbols(ops)[routine_label(command)] == q
            &&& assembly_symbols(ops)[routine_return(command)] == q + 13
            &&& q + 16 <= rom(ops).len()
            &&& forall|j: int| 0 <= j < 16 ==> rom(ops)[q + j] == #[trigger] routine_rom(routine_return(command), false_jump(command))[j]
        }),
{
    let ops = translation(program_name, commands);
    let p = prelude();
    let rest = commands_code(program_name, commands) + epilogue();
    lemma_prelude_layout();
    lemma_label_names();
    assert(ops =~= p + rest);
    lemma_rom_append(p, rest);
    let r = routine_index(command);
    let li = 7 + 18 * r;
    let ri = 21 + 18 * r;
    assert forall|j: int| 0 <= j <= 62 implies #[trigger] ops.take(j) == p.take(j) by {
        assert(ops.take(j) =~= p.take(j));
    }
    assert forall|j: int| 0 <= j < 62 implies #[trigger] ops[j] == p[j] by {}
    assert(ops[li] == OpSpec::Label(routine_label(command)));
    assert(ops[ri] == OpSpec::Label(routine_return(command)));
    assert forall|j: int| 0 <= j < li implies #[trigger] ops[j] != OpSpec::Label(routine_label(command)) by {
        if ops[j] is Label {
            assert(p[j] is Label);
        }
    }
    assert forall|j: int| 0 <= j < ri implies #[trigger] ops[j] != OpSpec::Label(routine_return(command)) by {
        if ops[j] is Label {
            assert(p[j] is Label);
        }
    }
    lemma_label_symbol(ops, li, routine_label(command));
    lemma_label_symbol(ops, ri, routine_return(command));
    let rr = rom(spec_setup_segment()) + routine_rom(labels::EQ_RET@, Jmp::JNE) + routine_rom(labels::LT_RET@, Jmp::JGE)
        + routine_rom(labels::GT_RET@, Jmp::JLE);
    assert forall|j: int| 0 <= j < 16 implies rom(ops)[6 + 16 * r + j] == #[trigger] routine_rom(
        routine_return(command),
        false_jump(command),
    )[j] by {
        assert(rom(ops)[6 + 16 * r + j] == rr[6 + 16 * r + j]);
    }
}

/// The address of the first instruction of command `k` of a translated program.
pub open spec fn command_pc(program_name: Seq<char>, commands: Seq<Command>, k: int) -> int {
    rom(prelude() + commands_code(program_name, commands.take(k))).len() as int
}

/// The code of comparison command `k` in the translation: where it stands,
/// and what its return label stands for.
proof fn lemma_call_in_translation(program_name: Seq<char>, commands: Seq<Command>, k: int)
    requires
        commands.len() <= u32::MAX,
        symbols_fit(translation(program_name, commands)),
        0 <= k < commands.len(),
        is_comparison(commands[k]),
    ensures
        ({
            let ops = translation(program_name, commands);
            let p = command_pc(program_name, commands, k);
            let ret = return_label(routine_label(commands[k]), k as u32);
            &&& command_pc(program_name, commands, k + 1) == p + 4
            &&& 0 <= p
            &&& p + 4 <= rom(ops).len()
            &&& rom(ops)[p] == OpSpec::Symbol(ret)
            &&& rom(ops)[p + 1] == spec_i(Dst::D, Cmp::A)
            &&& rom(ops)[p + 2] == OpSpec::Symbol(routine_label(commands[k]))
            &&& rom(ops)[p + 3] == spec_ij(Cmp::Zero, Jmp::JMP)
            &&& assembly_symbols(ops)[ret] == p + 4
        }),
{
    let ops = translation(program_name, commands);
    let command = commands[k];
    let ret = return_label(routine_label(command), k as u32);
    let before = commands_code(program_name, commands.take(k));
    let a = prelude() + before;
    let code = command_code(program_name, k as u32, command);
    let first = seq![OpSpec::Symbol(ret), spec_i(Dst::D, Cmp::A), OpSpec::Symbol(routine_label(command)), spec_ij(Cmp::Zero, Jmp::JMP)];
    assert(code == spec_do_bool_compare(routine_label(command), k as u32));
    assert(code =~= first + seq![OpSpec::Label(ret)]);
    // the command's code follows the code before it
    lemma_command_in_translation(program_name, commands, k);
    lemma_rom_append(first, seq![OpSpec::Label(ret)]);
    lemma_rom_label(ret);
    lemma_rom_no_labels(first);
    assert(rom(code) =~= first);
    let p = rom(a).len() as int;
    assert(rom(ops)[p + 0] == first[0]);
    assert(rom(ops)[p + 1] == first[1]);
    assert(rom(ops)[p + 2] == first[2]);
    assert(rom(ops)[p + 3] == first[3]);
    assert(ops.take(a.len() + 5int) == a + code);
    assert forall|j: int| 0 <= j < a.len() + 5 implies #[trigger] ops[j] == (a + code)[j] by {
        assert(ops.take(a.len() + 5int)[j] == ops[j]);
    }
    // what the return label stands for
    lemma_prelude_layout();
    lemma_label_names();
    lemma_return_label_injective(routine_label(command), routine_label(command), k as u32, k as u32);
    assert(!base_symbol_map().contains_key(ret));
    assert(ops[a.len() + 4int] == code[4]);
    lemma_commands_code_labels(program_name, commands.take(k));
    assert forall|j: int| 0 <= j < a.len() + 4int implies #[trigger] ops[j] != OpSpec::Label(ret) by {
        if ops[j] == OpSpec::Label(ret) {
            if j < 62 {
                assert(ops[j] == (a + code)[j]);
                assert(ops[j] == prelude()[j]);
            } else if j < a.len() {
                assert(ops[j] == (a + code)[j]);
                assert(ops[j] == before[j - 62]);
                let i = choose|i: int|
                    0 <= i < k && (#[trigger] return_label(labels::EQ@, i as u32) == ret || return_label(labels::LT@, i as u32)
                        == ret || return_label(labels::GT@, i as u32) == ret);
                lemma_return_label_injective(labels::EQ@, routine_label(command), i as u32, k as u32);
                lemma_return_label_injective(labels::LT@, routine_label(command), i as u32, k as u32);
                lemma_return_label_injective(labels::GT@, routine_label(command), i as u32, k as u32);
            } else {
                assert(ops[j] == (a + code)[j]);
                assert(ops[j] == first[j - a.len()]);
            }
        }
    }
    assert(ops.take(a.len() + 4int) =~= a + first);
    lemma_rom_append(a, first);
    lemma_label_symbol(ops, a.len() + 4int, ret);
}

/// `eq`, `lt` and `gt` on the Hack computer, in an assembled translation:
/// started at the first instruction of comparison command `k`, its code runs
/// 17 cycles when the answer is false and 20 when it is true; then the program
/// counter is at the next command, `SP` is one lower, the word below the old
/// top holds the answer (see [`compare_meaning`]), and no other memory word
/// but `R15` (the return address) has changed; addresses wrap around modulo
/// 2^16. (Neither of the two words may be `SP` or `R15`.)
pub proof fn lemma_comparison_semantics(program_name: Seq<char>, commands: Seq<Command>, k: int, s: Machine)
    requires
        commands.len() <= u32::MAX,
        symbols_fit(translation(program_name, commands)),
        0 <= k < commands.len(),
        is_comparison(commands[k]),
        sp(s) != 1,
        sp(s) != 2,
        sp(s) != 16,
        sp(s) != 17,
    ensures
        ({
            let ops = translation(program_name, commands);
            let answer = compare_meaning(
                commands[k],
                (s.ram)((sp(s) - 2) as u16),
                (s.ram)((sp(s) - 1) as u16),
            );
            let e = cpu_run(
                rom(ops),
                assembly_symbols(ops),
                Cpu { pc: command_pc(program_name, commands, k), m: s },
                if answer == 0 { 17 } else { 20 },
            );
            &&& e.pc == command_pc(program_name, commands, k + 1)
            &&& (e.m.ram)(SP) == (sp(s) - 1) as u16
            &&& (e.m.ram)((sp(s) - 2) as u16) == answer
            &&& forall|j: u16| j != SP && j != R15 && j != (sp(s) - 2) as u16 ==> #[trigger] (e.m.ram)(j) == (s.ram)(j)
        }),
{
    let ops = translation(program_name, commands);
    let symbols = assembly_symbols(ops);
    let command = commands[k];
    let ret = return_label(routine_label(command), k as u32);
    let p = command_pc(program_name, commands, k);
    lemma_call_in_translation(program_name, commands, k);
    lemma_routines_in_translation(program_name, commands, command);
    lemma_assembly_knows_base_symbols(ops);
    // run the call, then the routine
    let c = Cpu { pc: p, m: s };
    lemma_call_runs(rom(ops), symbols, c, routine_label(command), ret);
    let c4 = cpu_run(rom(ops), symbols, c, 4);
    let q = 6 + 16 * routine_index(command);
    assert forall|j: int| 0 <= j < 16 implies rom(ops)[c4.pc + j] == #[trigger] routine_rom(routine_return(command), false_jump(command))[j] by {
        assert(rom(ops)[q + j] == routine_rom(routine_return(command), false_jump(command))[j]);
    }
    lemma_routine_runs(rom(ops), symbols, c4, routine_return(command), false_jump(command));
    let x = (s.ram)((sp(s) - 2) as u16);
    let y = (s.ram)((sp(s) - 1) as u16);
    let taken = jump_taken(false_jump(command), (x - y) as u16);
    assert(((x - y) as u16 == 0) == (x == y)) by (bit_vector);
    assert(taken == (compare_meaning(command, x, y) == 0));
    lemma_cpu_run_add(rom(ops), symbols, c, 4, if taken { 13 } else { 16 });
    let e = cpu_run(rom(ops), symbols, c, if taken { 17 } else { 20 });
    assert forall|j: u16| j != SP && j != R15 && j != (sp(s) - 2) as u16 implies #[trigger] (e.m.ram)(j) == (s.ram)(j) by {
        assert((c4.m.ram)(j) == (s.ram)(j));
    }
}

/// The code of a command that is not a comparison has neither labels nor
/// jumps.
proof fn lemma_straight_command_code(program_name: Seq<char>, index: u32, command: Command)
    requires
        !is_comparison(command),
    ensures
        forall|i: int| 0 <= i < command_code(program_name, index, command).len() ==> !(#[trigger] command_code(
            program_name,
            index,
            command,
        )[i] is Label) && !(command_code(program_name, index, command)[i] matches OpSpec::Comp(_, _, jump) && jump
            != Jmp::Null),
{
    let c = command_code(program_name, index, command);
    assert forall|i: int| 0 <= i < c.len() implies !(#[trigger] c[i] is Label) && !(c[i] matches OpSpec::Comp(_, _, jump)
        && jump != Jmp::Null) by {
        match command {
            Command::Push(segment, value) => {
                let (m, memory) = spec_move_to_addr(program_name, segment, value);
                let extra = if memory { seq![spec_i(Dst::D, Cmp::M)] } else { Seq::<OpSpec>::empty() };
                assert(c == m + extra + spec_push_stack());
                if i < m.len() {
                    assert(c[i] == m[i]);
                } else if i < m.len() + extra.len() {
                    assert(c[i] == extra[i - m.len()]);
                } else {
                    assert(c[i] == spec_push_stack()[i - m.len() - extra.len()]);
                }
            },
            Command::Pop(segment, value) => {
                let m = spec_move_to_addr(program_name, segment, value).0;
                let pre = spec_pop_stack() + seq![spec_sym(R13), spec_i(Dst::M, Cmp::D)];
                if i < pre.len() {
                    assert(c[i] == pre[i]);
                } else if i < pre.len() + m.len() {
                    assert(c[i] == m[i - pre.len()]);
                }
            },
            _ => {},
        }
    }
}

/// Where the code of command `k` stands in a translation: after the fixed
/// code and the code of the commands before it, so that its instructions come
/// first at its address, and the next command's right after them.
proof fn lemma_command_in_translation(program_name: Seq<char>, commands: Seq<Command>, k: int)
    requires
        0 <= k < commands.len(),
    ensures
        ({
            let ops = translation(program_name, commands);
            let code = command_code(program_name, k as u32, commands[k]);
            let a = prelude() + commands_code(program_name, commands.take(k));
            let p = command_pc(program_name, commands, k);
            &&& p == rom(a).len()
            &&& a.len() + code.len() <= ops.len()
            &&& ops.take(a.len() + code.len() as int) == a + code
            &&& command_pc(program_name, commands, k + 1) == p + rom(code).len()
            &&& p + rom(code).len() <= rom(ops).len()
            &&& forall|j: int| 0 <= j < rom(code).len() ==> rom(ops)[p + j] == #[trigger] rom(code)[j]
        }),
{
    let ops = translation(program_name, commands);
    let cc = commands_code(program_name, commands);
    let before = commands_code(program_name, commands.take(k));
    let a = prelude() + before;
    let code = command_code(program_name, k as u32, commands[k]);
    lemma_commands_code_prefix(program_name, commands, k + 1);
    let t = commands.take(k + 1);
    assert(t.drop_last() =~= commands.take(k));
    let upto = commands_code(program_name, t);
    assert(upto == before + code);
    assert(upto == cc.take(upto.len() as int));
    let n = a.len() + code.len() as int;
    assert(ops == prelude() + cc + epilogue());
    assert(ops.take(n) =~= prelude() + cc.take(upto.len() as int));
    assert(ops.take(n) =~= a + code);
    assert(ops =~= ops.take(n) + ops.skip(n));
    lemma_rom_append(a + code, ops.skip(n));
    lemma_rom_append(a, code);
    assert(prelude() + upto =~= a + code);
    let p = rom(a).len() as int;
    assert forall|j: int| 0 <= j < rom(code).len() implies rom(ops)[p + j] == #[trigger] rom(code)[j] by {
        assert(rom(ops)[p + j] == (rom(a) + rom(code))[p + j]);
    }
}

/// A command other than a comparison, in an assembled translation, runs
/// straight through its code on the Hack computer: started at its first
/// instruction, after as many cycles as its code has instructions the program
/// counter is at the next command and the machine is as running the code
/// says (which the push, pop, two-operand and one-operand laws describe).
pub proof fn lemma_command_runs_in_place(program_name: Seq<char>, commands: Seq<Command>, k: int, s: Machine)
    requires
        0 <= k < commands.len(),
        !is_comparison(commands[k]),
    ensures
        ({
            let ops = translation(program_name, commands);
            let code = command_code(program_name, k as u32, commands[k]);
            cpu_run(rom(ops), assembly_symbols(ops), Cpu { pc: command_pc(program_name, commands, k), m: s }, code.len())
                == (Cpu {
                pc: command_pc(program_name, commands, k + 1),
                m: run(code, s, assembly_symbols(ops)),
            })
        }),
{
    let ops = translation(program_name, commands);
    let code = command_code(program_name, k as u32, commands[k]);
    lemma_command_in_translation(program_name, commands, k);
    lemma_straight_command_code(program_name, k as u32, commands[k]);
    lemma_rom_no_labels(code);
    let c = Cpu { pc: command_pc(program_name, commands, k), m: s };
    lemma_cpu_runs_straight(rom(ops), assembly_symbols(ops), c, code);
}

/// A comparison routine (`bool_stack_compare`) on the Hack computer, for any
/// labels and jump: with its instructions at the program counter, its return
/// label standing for the instruction after it, and the return address in
/// `D`, it pops the two words on top of the stack, pushes false (0) when
/// `jump` holds for their 16-bit difference and true (all ones) otherwise,
/// keeps the return address in `R15`, and jumps back to it; no other memory
/// word changes. (Neither of the two words may be `SP` or `R15`.)
pub proof fn lemma_compare_routine_semantics(
    label: Seq<char>,
    ret: Seq<char>,
    jump: Jmp,
    program: Seq<OpSpec>,
    symbols: Map<Seq<char>, u16>,
    c: Cpu,
)
    requires
        knows_base_symbols(symbols),
        0 <= c.pc,
        c.pc + 16 <= program.len(),
        forall|j: int| 0 <= j < 16 ==> program[c.pc + j] == #[trigger] rom(spec_bool_stack_compare(label, ret, jump))[j],
        symbols[ret] == c.pc + 13,
        sp(c.m) != 1,
        sp(c.m) != 2,
        sp(c.m) != 16,
        sp(c.m) != 17,
    ensures
        ({
            let x = (c.m.ram)((sp(c.m) - 2) as u16);
            let y = (c.m.ram)((sp(c.m) - 1) as u16);
            let taken = jump_taken(jump, (x - y) as u16);
            let e = cpu_run(program, symbols, c, if taken { 13 } else { 16 });
            &&& e.pc == c.m.d
            &&& (e.m.ram)(SP) == (sp(c.m) - 1) as u16
            &&& (e.m.ram)((sp(c.m) - 2) as u16) == if taken { 0u16 } else { 0xFFFFu16 }
            &&& (e.m.ram)(R15) == c.m.d
            &&& forall|k: u16| k != SP && k != R15 && k != (sp(c.m) - 2) as u16 ==> (e.m.ram)(k) == #[trigger] (c.m.ram)(k)
        }),
{
    lemma_routine_layout(label, ret, jump);
    assert forall|j: int| 0 <= j < 16 implies program[c.pc + j] == #[trigger] routine_rom(ret, jump)[j] by {
        assert(rom(spec_bool_stack_compare(label, ret, jump))[j] == routine_rom(ret, jump)[j]);
    }
    lemma_routine_runs(program, symbols, c, ret, jump);
}

} // verus!
