//! The VM translator: turns stack-machine commands into Hack assembly.
use vstd::prelude::*;
use crate::instructions::base_symbols::{spec_sym, R13, R14, SP};
use crate::instructions::{
    op_views, CompFlags as Cmp, DestFlags as Dst, JumpFlags as Jmp, OpSpec, OperatorKind as Op,
};

pub mod helpers;
pub mod labels;
pub mod parser;
pub mod reads_back;
pub mod semantics;
pub mod execution;

use helpers::{
    append_ops, bool_stack_compare, do_bool_compare, i, ij, lbl, lbl_sym, move_to_addr, pop_stack,
    push_op, push_stack, segment_fits, setup_segment, spec_bool_stack_compare, spec_do_bool_compare, spec_i,
    spec_ij, spec_move_to_addr, spec_pop_stack, spec_push_stack, spec_setup_segment, sym,
};
use parser::Command;

verus! {

/// The code of one command; `index` is its position in the program, which
/// makes the return labels of comparisons unique.
pub open spec fn command_code(program_name: Seq<char>, index: u32, command: Command) -> Seq<OpSpec> {
    match command {
        Command::Push(segment, value) => {
            let (m, memory) = spec_move_to_addr(program_name, segment, value);
            m + (if memory { seq![spec_i(Dst::D, Cmp::M)] } else { Seq::empty() }) + spec_push_stack()
        },
        Command::Pop(segment, value) => spec_pop_stack() + seq![spec_sym(R13), spec_i(Dst::M, Cmp::D)]
            + spec_move_to_addr(program_name, segment, value).0 + seq![
            spec_i(Dst::D, Cmp::A),
            spec_sym(R14),
            spec_i(Dst::M, Cmp::D),
            spec_sym(R13),
            spec_i(Dst::D, Cmp::M),
            spec_sym(R14),
            spec_i(Dst::A, Cmp::M),
            spec_i(Dst::M, Cmp::D),
        ],
        Command::Add => spec_pop_stack() + seq![spec_i(Dst::M, Cmp::DPlusM)],
        Command::Subtract => spec_pop_stack() + seq![spec_i(Dst::M, Cmp::MNegD)],
        Command::Equal => spec_do_bool_compare(labels::EQ@, index),
        Command::LessThan => spec_do_bool_compare(labels::LT@, index),
        Command::GreaterThan => spec_do_bool_compare(labels::GT@, index),
        Command::Or => spec_pop_stack() + seq![spec_i(Dst::M, Cmp::DOrM)],
        Command::And => spec_pop_stack() + seq![spec_i(Dst::M, Cmp::DAndM)],
        Command::Not => seq![spec_sym(SP), spec_i(Dst::A, Cmp::MNeg1), spec_i(Dst::M, Cmp::NotM)],
        Command::Negate => seq![spec_sym(SP), spec_i(Dst::A, Cmp::MNeg1), spec_i(Dst::M, Cmp::NegM)],
    }
}

/// The code of a sequence of commands, numbered from 0.
pub open spec fn commands_code(program_name: Seq<char>, commands: Seq<Command>) -> Seq<OpSpec>
    decreases commands.len(),
{
    if commands.len() == 0 {
        Seq::empty()
    } else {
        commands_code(program_name, commands.drop_last()) + command_code(
            program_name,
            (commands.len() - 1) as u32,
            commands.last(),
        )
    }
}

/// The code before the commands: the setup, the three comparison routines,
/// and the `CODE` label.
pub open spec fn prelude() -> Seq<OpSpec> {
    spec_setup_segment() + spec_bool_stack_compare(labels::EQ@, labels::EQ_RET@, Jmp::JNE)
        + spec_bool_stack_compare(labels::LT@, labels::LT_RET@, Jmp::JGE) + spec_bool_stack_compare(
        labels::GT@,
        labels::GT_RET@,
        Jmp::JLE,
    ) + seq![OpSpec::Label(labels::CODE@)]
}

/// The code after the commands: an endless loop.
pub open spec fn epilogue() -> Seq<OpSpec> {
    seq![
        OpSpec::Label(labels::END@),
        OpSpec::Symbol(labels::END@),
        spec_ij(Cmp::Zero, Jmp::JMP),
    ]
}

/// The whole translation of a program.
pub open spec fn translation(program_name: Seq<char>, commands: Seq<Command>) -> Seq<OpSpec> {
    prelude() + commands_code(program_name, commands) + epilogue()
}

/// What the translation needs: commands can be numbered in 32 bits, and every
/// `temp` index stays within 16 bits once offset.
pub open spec fn commands_fit(commands: Seq<Command>) -> bool {
    &&& commands.len() <= u32::MAX
    &&& forall|k: int| 0 <= k < commands.len() ==> match #[trigger] commands[k] {
        Command::Push(segment, value) => segment_fits(segment, value),
        Command::Pop(segment, value) => segment_fits(segment, value),
        _ => true,
    }
}

/// Appends the code of one command.
pub fn translate_command(program_name: &str, ops: &mut Vec<Op>, index: u32, command: Command)
    requires
        match command {
            Command::Push(segment, value) => segment_fits(segment, value),
            Command::Pop(segment, value) => segment_fits(segment, value),
            _ => true,
        },
    ensures
        final(ops)@.map_values(|o: Op| o@) == old(ops)@.map_values(|o: Op| o@) + command_code(
            program_name@,
            index,
            command,
        ),
{
    let ghost start = ops@.map_values(|o: Op| o@);
    match command {
        Command::Push(segment, value) => {
            if move_to_addr(program_name, ops, segment, value) {
                push_op(ops, i(Dst::D, Cmp::M));
            }
            let ghost mid = ops@.map_values(|o: Op| o@);
            append_ops(ops, push_stack().as_slice());
            proof {
                let (m, memory) = spec_move_to_addr(program_name@, segment, value);
                assert(mid =~= start + m + (if memory { seq![spec_i(Dst::D, Cmp::M)] } else {
                    Seq::empty()
                }));
            }
        },
        Command::Pop(segment, value) => {
            append_ops(ops, pop_stack().as_slice());

            // store the value we popped into R13
            push_op(ops, sym(R13));
            push_op(ops, i(Dst::M, Cmp::D));

            // move to the address for the segment
            move_to_addr(program_name, ops, segment, value);

            // store the address of the target segment in D
            push_op(ops, i(Dst::D, Cmp::A));
            push_op(ops, sym(R14));
            push_op(ops, i(Dst::M, Cmp::D));

            // load the popped value back to D
            push_op(ops, sym(R13));
            push_op(ops, i(Dst::D, Cmp::M));

            // move to the target address
            push_op(ops, sym(R14));
            push_op(ops, i(Dst::A, Cmp::M));

            // store the popped value at the target
            push_op(ops, i(Dst::M, Cmp::D));
        },
        Command::Add => {
            append_ops(ops, pop_stack().as_slice());
            push_op(ops, i(Dst::M, Cmp::DPlusM));
        },
        Command::Subtract => {
            append_ops(ops, pop_stack().as_slice());
            push_op(ops, i(Dst::M, Cmp::MNegD));
        },
        Command::Equal => append_ops(ops, do_bool_compare(labels::EQ, index).as_slice()),
        Command::LessThan => append_ops(ops, do_bool_compare(labels::LT, index).as_slice()),
        Command::GreaterThan => append_ops(ops, do_bool_compare(labels::GT, index).as_slice()),
        Command::Or => {
            append_ops(ops, pop_stack().as_slice());
            push_op(ops, i(Dst::M, Cmp::DOrM));
        },
        Command::And => {
            append_ops(ops, pop_stack().as_slice());
            push_op(ops, i(Dst::M, Cmp::DAndM));
        },
        Command::Not => {
            push_op(ops, sym(SP));
            push_op(ops, i(Dst::A, Cmp::MNeg1));
            push_op(ops, i(Dst::M, Cmp::NotM));
        },
        Command::Negate => {
            push_op(ops, sym(SP));
            push_op(ops, i(Dst::A, Cmp::MNeg1));
            push_op(ops, i(Dst::M, Cmp::NegM));
        },
    }
    assert(ops@.map_values(|o: Op| o@) =~= start + command_code(program_name@, index, command));
}

/// Whether the translation of `commands` stays within its numeric limits.
pub fn translation_fits(commands: &[Command]) -> (b: bool)
    ensures
        b == commands_fit(commands@),
{
    if commands.len() > 4294967295 {
        return false;
    }
    let mut k: usize = 0;
    while k < commands.len()
        invariant
            k <= commands.len() <= u32::MAX,
            forall|j: int| 0 <= j < k ==> match #[trigger] commands@[j] {
                Command::Push(segment, value) => segment_fits(segment, value),
                Command::Pop(segment, value) => segment_fits(segment, value),
                _ => true,
            },
        decreases commands.len() - k,
    {
        let ok = match commands[k] {
            Command::Push(segment, value) | Command::Pop(segment, value) => match segment {
                parser::Segment::Temp => value <= 65530,
                _ => true,
            },
            _ => true,
        };
        if !ok {
            assert(!match commands@[k as int] {
                Command::Push(segment, value) => segment_fits(segment, value),
                Command::Pop(segment, value) => segment_fits(segment, value),
                _ => true,
            });
            return false;
        }
        k = k + 1;
    }
    true
}

/// Translates a program: the setup code and comparison routines, the code of
/// each command in turn, and a final endless loop.
pub fn translate_commands(program_name: &str, commands: &[Command]) -> (ops: Vec<Op>)
    requires
        commands_fit(commands@),
    ensures
        op_views(ops@) == translation(program_name@, commands@),
{
    let mut ops = Vec::<Op>::new();

    // base code segments
    append_ops(&mut ops, setup_segment().as_slice());
    append_ops(&mut ops, bool_stack_compare(labels::EQ, labels::EQ_RET, Jmp::JNE).as_slice());
    append_ops(&mut ops, bool_stack_compare(labels::LT, labels::LT_RET, Jmp::JGE).as_slice());
    append_ops(&mut ops, bool_stack_compare(labels::GT, labels::GT_RET, Jmp::JLE).as_slice());

    // write translated commands
    push_op(&mut ops, lbl(labels::CODE));
    assert(ops@.map_values(|o: Op| o@) =~= prelude());
    let mut index: u32 = 0;
    let mut k: usize = 0;
    while k < commands.len()
        invariant
            k <= commands.len(),
            commands_fit(commands@),
            index == k,
            ops@.map_values(|o: Op| o@) == prelude() + commands_code(program_name@, commands@.take(k as int)),
        decreases commands.len() - k,
    {
        let ghost before = ops@.map_values(|o: Op| o@);
        translate_command(program_name, &mut ops, index, commands[k]);
        proof {
            let t = commands@.take(k + 1);
            assert(t.drop_last() =~= commands@.take(k as int));
            assert(ops@.map_values(|o: Op| o@) =~= prelude() + commands_code(program_name@, t));
        }
        index = index + 1;
        k = k + 1;
    }
    assert(commands@.take(commands.len() as int) =~= commands@);

    // infinite end loop
    push_op(&mut ops, lbl(labels::END));
    push_op(&mut ops, lbl_sym(labels::END));
    push_op(&mut ops, ij(Cmp::Zero, Jmp::JMP));
    assert(ops@.map_values(|o: Op| o@) =~= translation(program_name@, commands@));
    ops
}

} // verus!
