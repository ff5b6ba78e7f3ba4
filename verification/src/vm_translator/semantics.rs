//! What the code of a stack command does on the Hack computer, for every
//! command whose code runs straight through (all but the comparisons, which
//! jump to a shared routine).
use vstd::prelude::*;
use super::command_code;
use super::helpers::{spec_i, spec_move_to_addr, spec_pop_stack, spec_push_stack, static_name};
use super::parser::{Command, Segment};
use crate::assembler::code::assembly_symbols;
use crate::instructions::base_symbols::{
    base_address_map, base_symbol_map, lemma_by_address_inverts_by_name, spec_sym, ARG, LCL, R13, R14,
    SP, TEMP, THAT, THIS,
};
use crate::instructions::machine::{
    comp_meaning, lemma_comp_encoding_computes, lemma_run_append, ram_update, run, step, writes_a, writes_d,
    writes_m, Machine,
};
use crate::instructions::{CompFlags as Cmp, DestFlags as Dst, OpSpec};

verus! {

/// A symbol table that gives every predefined symbol its address.
pub open spec fn knows_base_symbols(symbols: Map<Seq<char>, u16>) -> bool {
    forall|n: Seq<char>| #[trigger] base_symbol_map().contains_key(n) ==> symbols.contains_key(n)
        && symbols[n] == base_symbol_map()[n]
}

/// The stack pointer, the word at address 0.
pub open spec fn sp(s: Machine) -> u16 {
    (s.ram)(SP)
}

/// The address of `segment[value]`: `local`, `argument`, `this` and `that`
/// count from the base held at `LCL`, `ARG`, `THIS` and `THAT`; `pointer 0` is
/// `THIS` and any other pointer `THAT`; `temp i` is at `5 + i`; `static i` is
/// the program's variable `name.i`; `constant v` is `v` itself.
pub open spec fn segment_address(
    s: Machine,
    symbols: Map<Seq<char>, u16>,
    program_name: Seq<char>,
    segment: Segment,
    value: u16,
) -> u16 {
    match segment {
        Segment::Local => (value + (s.ram)(LCL)) as u16,
        Segment::Argument => (value + (s.ram)(ARG)) as u16,
        Segment::This => (value + (s.ram)(THIS)) as u16,
        Segment::That => (value + (s.ram)(THAT)) as u16,
        Segment::Pointer => if value == 0 { THIS } else { THAT },
        Segment::Temp => (TEMP + value) as u16,
        Segment::Static => symbols[static_name(program_name, value)],
        Segment::Constant => value,
    }
}

/// The value that `push segment value` pushes: the constant itself, or the
/// word at the segment address.
pub open spec fn pushed_value(
    s: Machine,
    symbols: Map<Seq<char>, u16>,
    program_name: Seq<char>,
    segment: Segment,
    value: u16,
) -> u16 {
    if segment == Segment::Constant {
        value
    } else {
        (s.ram)(segment_address(s, symbols, program_name, segment, value))
    }
}

/// What a two-operand command computes from the operand below the top (`x`)
/// and the top one (`y`), modulo 2^16.
pub open spec fn binary_meaning(command: Command, x: u16, y: u16) -> u16 {
    match command {
        Command::Add => (x + y) as u16,
        Command::Subtract => (x - y) as u16,
        Command::And => x & y,
        Command::Or => x | y,
        _ => x,
    }
}

/// What a one-operand command computes from the top of the stack.
pub open spec fn unary_meaning(command: Command, y: u16) -> u16 {
    match command {
        Command::Not => !y,
        Command::Negate => (0 - y) as u16,
        _ => y,
    }
}

/// The symbols the assembler encodes a program with give every predefined
/// symbol its address.
pub proof fn lemma_assembly_knows_base_symbols(ops: Seq<OpSpec>)
    ensures
        knows_base_symbols(assembly_symbols(ops)),
{
}

pub(crate) proof fn lemma_step_sym(s: Machine, address: u16, symbols: Map<Seq<char>, u16>)
    requires
        knows_base_symbols(symbols),
    ensures
        step(s, spec_sym(address), symbols) == (Machine { a: address, ..s }),
{
    lemma_by_address_inverts_by_name();
    if base_address_map().contains_key(address) {
        assert(base_symbol_map().contains_key(base_address_map()[address]));
    }
}

pub(crate) proof fn lemma_step_comp(s: Machine, dest: Dst, comp: Cmp, symbols: Map<Seq<char>, u16>)
    ensures
        ({
            let out = comp_meaning(comp, s.a, s.d, (s.ram)(s.a));
            step(s, spec_i(dest, comp), symbols) == (Machine {
                a: if writes_a(dest) { out } else { s.a },
                d: if writes_d(dest) { out } else { s.d },
                ram: if writes_m(dest) { ram_update(s.ram, s.a, out) } else { s.ram },
            })
        }),
{
    lemma_comp_encoding_computes(comp, s.a, s.d, (s.ram)(s.a));
}

proof fn lemma_run_one(op: OpSpec, s: Machine, symbols: Map<Seq<char>, u16>)
    ensures
        run(seq![op], s, symbols) == step(s, op, symbols),
{
    assert(seq![op].drop_first() =~= Seq::<OpSpec>::empty());
    assert(run(Seq::<OpSpec>::empty(), step(s, op, symbols), symbols) == step(s, op, symbols));
}

/// Running `x`, then one more instruction.
proof fn lemma_run_push(x: Seq<OpSpec>, op: OpSpec, s: Machine, symbols: Map<Seq<char>, u16>)
    ensures
        run(x.push(op), s, symbols) == step(run(x, s, symbols), op, symbols),
{
    assert(x.push(op) =~= x + seq![op]);
    lemma_run_append(x, seq![op], s, symbols);
    lemma_run_one(op, run(x, s, symbols), symbols);
}

/// Stepping an address by one and back, modulo 2^16.
pub(crate) proof fn lemma_wrap(v: u16)
    by (bit_vector)
    ensures
        (((v + 1) as u16 - 1) as u16) == v,
        (((v - 1) as u16 - 1) as u16) == (v - 2) as u16,
{
}

/// The push code on the Hack computer: `SP` goes up by one (modulo 2^16) and
/// `D` is stored where it pointed; `D` and every other memory word stay as
/// they were. (`SP` must not point at itself.)
pub proof fn lemma_push_stack(s: Machine, symbols: Map<Seq<char>, u16>)
    requires
        knows_base_symbols(symbols),
        sp(s) != 0,
    ensures
        run(spec_push_stack(), s, symbols).d == s.d,
        forall|k: u16| #[trigger] (run(spec_push_stack(), s, symbols).ram)(k) == if k == sp(s) {
            s.d
        } else if k == SP {
            (sp(s) + 1) as u16
        } else {
            (s.ram)(k)
        },
{
    let ops = spec_push_stack();
    let s1 = step(s, spec_sym(SP), symbols);
    lemma_step_sym(s, SP, symbols);
    let s2 = step(s1, spec_i(Dst::AM, Cmp::MPlus1), symbols);
    lemma_step_comp(s1, Dst::AM, Cmp::MPlus1, symbols);
    let s3 = step(s2, spec_i(Dst::A, Cmp::ANeg1), symbols);
    lemma_step_comp(s2, Dst::A, Cmp::ANeg1, symbols);
    let s4 = step(s3, spec_i(Dst::M, Cmp::D), symbols);
    lemma_step_comp(s3, Dst::M, Cmp::D, symbols);
    lemma_wrap(sp(s));
    lemma_run_push(seq![], spec_sym(SP), s, symbols);
    lemma_run_push(seq![spec_sym(SP)], spec_i(Dst::AM, Cmp::MPlus1), s, symbols);
    lemma_run_push(ops.take(2), spec_i(Dst::A, Cmp::ANeg1), s, symbols);
    lemma_run_push(ops.take(3), spec_i(Dst::M, Cmp::D), s, symbols);
    assert(seq![spec_sym(SP)] =~= Seq::<OpSpec>::empty().push(spec_sym(SP)));
    assert(ops.take(2) =~= seq![spec_sym(SP)].push(spec_i(Dst::AM, Cmp::MPlus1)));
    assert(ops.take(3) =~= ops.take(2).push(spec_i(Dst::A, Cmp::ANeg1)));
    assert(ops =~= ops.take(3).push(spec_i(Dst::M, Cmp::D)));
    assert(run(Seq::<OpSpec>::empty(), s, symbols) == s);
}

proof fn lemma_run2(o1: OpSpec, o2: OpSpec, s: Machine, symbols: Map<Seq<char>, u16>)
    ensures
        run(seq![o1, o2], s, symbols) == step(step(s, o1, symbols), o2, symbols),
{
    lemma_run_push(seq![o1], o2, s, symbols);
    lemma_run_one(o1, s, symbols);
    assert(seq![o1, o2] =~= seq![o1].push(o2));
}

proof fn lemma_run4(o1: OpSpec, o2: OpSpec, o3: OpSpec, o4: OpSpec, s: Machine, symbols: Map<Seq<char>, u16>)
    ensures
        run(seq![o1, o2, o3, o4], s, symbols) == step(
            step(step(step(s, o1, symbols), o2, symbols), o3, symbols),
            o4,
            symbols,
        ),
{
    lemma_run2(o1, o2, s, symbols);
    lemma_run_push(seq![o1, o2], o3, s, symbols);
    lemma_run_push(seq![o1, o2, o3], o4, s, symbols);
    assert(seq![o1, o2, o3] =~= seq![o1, o2].push(o3));
    assert(seq![o1, o2, o3, o4] =~= seq![o1, o2, o3].push(o4));
}

/// The pop code on the Hack computer: `SP` goes down by one (modulo 2^16),
/// `D` gets the word it now points at, `A` points at the word below, and every
/// other memory word stays as it was. (The popped word must not be `SP`.)
pub proof fn lemma_pop_stack(s: Machine, symbols: Map<Seq<char>, u16>)
    requires
        knows_base_symbols(symbols),
        sp(s) != 1,
    ensures
        run(spec_pop_stack(), s, symbols).a == (sp(s) - 2) as u16,
        run(spec_pop_stack(), s, symbols).d == (s.ram)((sp(s) - 1) as u16),
        forall|k: u16| #[trigger] (run(spec_pop_stack(), s, symbols).ram)(k) == if k == SP {
            (sp(s) - 1) as u16
        } else {
            (s.ram)(k)
        },
{
    let s1 = step(s, spec_sym(SP), symbols);
    lemma_step_sym(s, SP, symbols);
    let s2 = step(s1, spec_i(Dst::AM, Cmp::MNeg1), symbols);
    lemma_step_comp(s1, Dst::AM, Cmp::MNeg1, symbols);
    let s3 = step(s2, spec_i(Dst::D, Cmp::M), symbols);
    lemma_step_comp(s2, Dst::D, Cmp::M, symbols);
    lemma_step_comp(s3, Dst::A, Cmp::ANeg1, symbols);
    lemma_wrap(sp(s));
    lemma_run4(spec_sym(SP), spec_i(Dst::AM, Cmp::MNeg1), spec_i(Dst::D, Cmp::M), spec_i(Dst::A, Cmp::ANeg1), s, symbols);
}

/// The addressing code: it leaves memory alone and points `A` at the segment
/// address (for a constant, it also loads the constant into `D`).
proof fn lemma_move_to_addr(program_name: Seq<char>, segment: Segment, value: u16, s: Machine, symbols: Map<Seq<char>, u16>)
    requires
        knows_base_symbols(symbols),
    ensures
        run(spec_move_to_addr(program_name, segment, value).0, s, symbols).ram == s.ram,
        run(spec_move_to_addr(program_name, segment, value).0, s, symbols).a == segment_address(
            s,
            symbols,
            program_name,
            segment,
            value,
        ),
        spec_move_to_addr(program_name, segment, value).1 == (segment != Segment::Constant),
        segment == Segment::Constant ==> run(spec_move_to_addr(program_name, segment, value).0, s, symbols).d
            == value,
{
    match segment {
        Segment::Pointer => {
            let address = if value == 0 { THIS } else { THAT };
            lemma_run_one(spec_sym(address), s, symbols);
            lemma_step_sym(s, address, symbols);
        },
        Segment::Static => {
            lemma_run_one(OpSpec::Symbol(static_name(program_name, value)), s, symbols);
        },
        Segment::Temp => {
            lemma_run_one(spec_sym((TEMP + value) as u16), s, symbols);
            lemma_step_sym(s, (TEMP + value) as u16, symbols);
        },
        Segment::Constant => {
            lemma_run2(OpSpec::Address(value), spec_i(Dst::D, Cmp::A), s, symbols);
            lemma_step_comp(step(s, OpSpec::Address(value), symbols), Dst::D, Cmp::A, symbols);
        },
        _ => {
            let base = match segment {
                Segment::Argument => ARG,
                Segment::Local => LCL,
                Segment::This => THIS,
                _ => THAT,
            };
            let s1 = step(s, OpSpec::Address(value), symbols);
            let s2 = step(s1, spec_i(Dst::D, Cmp::A), symbols);
            lemma_step_comp(s1, Dst::D, Cmp::A, symbols);
            let s3 = step(s2, spec_sym(base), symbols);
            lemma_step_sym(s2, base, symbols);
            lemma_step_comp(s3, Dst::A, Cmp::DPlusM, symbols);
            lemma_run4(OpSpec::Address(value), spec_i(Dst::D, Cmp::A), spec_sym(base), spec_i(Dst::A, Cmp::DPlusM), s, symbols);
        },
    }
}

/// `push segment value` puts the pushed value where `SP` pointed and moves
/// `SP` up by one (addresses wrap around modulo 2^16); no other memory word
/// changes. (`SP` must not point at itself.)
pub proof fn lemma_push_semantics(
    program_name: Seq<char>,
    index: u32,
    segment: Segment,
    value: u16,
    s: Machine,
    symbols: Map<Seq<char>, u16>,
)
    requires
        knows_base_symbols(symbols),
        sp(s) != SP,
    ensures
        ({
            let t = run(command_code(program_name, index, Command::Push(segment, value)), s, symbols);
            &&& (t.ram)(SP) == (sp(s) + 1) as u16
            &&& (t.ram)(sp(s)) == pushed_value(s, symbols, program_name, segment, value)
            &&& forall|k: u16| k != SP && k != sp(s) ==> #[trigger] (t.ram)(k) == (s.ram)(k)
        }),
{
    let (m, memory) = spec_move_to_addr(program_name, segment, value);
    let extra = if memory { seq![spec_i(Dst::D, Cmp::M)] } else { Seq::<OpSpec>::empty() };
    lemma_run_append(m + extra, spec_push_stack(), s, symbols);
    lemma_run_append(m, extra, s, symbols);
    lemma_move_to_addr(program_name, segment, value, s, symbols);
    let t1 = run(m, s, symbols);
    if memory {
        lemma_run_one(spec_i(Dst::D, Cmp::M), t1, symbols);
        lemma_step_comp(t1, Dst::D, Cmp::M, symbols);
    } else {
        assert(run(extra, t1, symbols) == t1);
    }
    let t2 = run(extra, t1, symbols);
    assert(t2.ram == s.ram);
    assert(t2.d == pushed_value(s, symbols, program_name, segment, value));
    lemma_push_stack(t2, symbols);
}

/// `pop segment value` moves `SP` down by one (modulo 2^16) and stores the
/// word it then points at to the segment address, using `R13` and `R14` as
/// scratch; no other memory word changes. (The popped word must not be `SP`
/// itself, and `SP` keeps its new value only when the target is not `SP`.)
pub proof fn lemma_pop_semantics(
    program_name: Seq<char>,
    index: u32,
    segment: Segment,
    value: u16,
    s: Machine,
    symbols: Map<Seq<char>, u16>,
)
    requires
        knows_base_symbols(symbols),
        sp(s) != 1,
    ensures
        ({
            let t = run(command_code(program_name, index, Command::Pop(segment, value)), s, symbols);
            let target = segment_address(s, symbols, program_name, segment, value);
            &&& (t.ram)(target) == (s.ram)((sp(s) - 1) as u16)
            &&& target != SP ==> (t.ram)(SP) == (sp(s) - 1) as u16
            &&& forall|k: u16| k != SP && k != R13 && k != R14 && k != target ==> #[trigger] (t.ram)(k) == (s.ram)(k)
        }),
{
    let m = spec_move_to_addr(program_name, segment, value).0;
    let save = seq![spec_sym(R13), spec_i(Dst::M, Cmp::D)];
    let first = seq![spec_i(Dst::D, Cmp::A), spec_sym(R14), spec_i(Dst::M, Cmp::D), spec_sym(R13)];
    let second = seq![spec_i(Dst::D, Cmp::M), spec_sym(R14), spec_i(Dst::A, Cmp::M), spec_i(Dst::M, Cmp::D)];
    let code = command_code(program_name, index, Command::Pop(segment, value));
    assert(code =~= spec_pop_stack() + save + m + first + second);
    lemma_run_append(spec_pop_stack() + save + m + first, second, s, symbols);
    lemma_run_append(spec_pop_stack() + save + m, first, s, symbols);
    lemma_run_append(spec_pop_stack() + save, m, s, symbols);
    lemma_run_append(spec_pop_stack(), save, s, symbols);

    let y = (s.ram)((sp(s) - 1) as u16);
    let target = segment_address(s, symbols, program_name, segment, value);
    // pop into D
    lemma_pop_stack(s, symbols);
    let s1 = run(spec_pop_stack(), s, symbols);
    // save it in R13
    lemma_run2(spec_sym(R13), spec_i(Dst::M, Cmp::D), s1, symbols);
    lemma_step_sym(s1, R13, symbols);
    lemma_step_comp(step(s1, spec_sym(R13), symbols), Dst::M, Cmp::D, symbols);
    let s2 = run(save, s1, symbols);
    assert((s2.ram)(R13) == y);
    // point A at the target
    lemma_move_to_addr(program_name, segment, value, s2, symbols);
    assert(segment_address(s2, symbols, program_name, segment, value) == target);
    let s3 = run(m, s2, symbols);
    // save the target in R14 and load the value back
    let f1 = step(s3, spec_i(Dst::D, Cmp::A), symbols);
    lemma_step_comp(s3, Dst::D, Cmp::A, symbols);
    let f2 = step(f1, spec_sym(R14), symbols);
    lemma_step_sym(f1, R14, symbols);
    let f3 = step(f2, spec_i(Dst::M, Cmp::D), symbols);
    lemma_step_comp(f2, Dst::M, Cmp::D, symbols);
    lemma_step_sym(f3, R13, symbols);
    lemma_run4(spec_i(Dst::D, Cmp::A), spec_sym(R14), spec_i(Dst::M, Cmp::D), spec_sym(R13), s3, symbols);
    let s4 = run(first, s3, symbols);
    assert((s4.ram)(R14) == target);
    assert((s4.ram)(R13) == y);
    // store the value at the target
    let g1 = step(s4, spec_i(Dst::D, Cmp::M), symbols);
    lemma_step_comp(s4, Dst::D, Cmp::M, symbols);
    let g2 = step(g1, spec_sym(R14), symbols);
    lemma_step_sym(g1, R14, symbols);
    let g3 = step(g2, spec_i(Dst::A, Cmp::M), symbols);
    lemma_step_comp(g2, Dst::A, Cmp::M, symbols);
    lemma_step_comp(g3, Dst::M, Cmp::D, symbols);
    lemma_run4(spec_i(Dst::D, Cmp::M), spec_sym(R14), spec_i(Dst::A, Cmp::M), spec_i(Dst::M, Cmp::D), s4, symbols);
}

/// `add`, `sub`, `and` and `or` replace the two words on top of the stack by
/// the result of the operation on them (the lower one first) and move `SP`
/// down by one (addresses wrap around modulo 2^16); no other memory word
/// changes. (Neither of the two words may be `SP` itself.)
pub proof fn lemma_binary_semantics(
    program_name: Seq<char>,
    index: u32,
    command: Command,
    s: Machine,
    symbols: Map<Seq<char>, u16>,
)
    requires
        command == Command::Add || command == Command::Subtract || command == Command::And
            || command == Command::Or,
        knows_base_symbols(symbols),
        sp(s) != 1,
        sp(s) != 2,
    ensures
        ({
            let t = run(command_code(program_name, index, command), s, symbols);
            let x = (s.ram)((sp(s) - 2) as u16);
            let y = (s.ram)((sp(s) - 1) as u16);
            &&& (t.ram)(SP) == (sp(s) - 1) as u16
            &&& (t.ram)((sp(s) - 2) as u16) == binary_meaning(command, x, y)
            &&& forall|k: u16| k != SP && k != (sp(s) - 2) as u16 ==> #[trigger] (t.ram)(k) == (s.ram)(k)
        }),
{
    let comp = match command {
        Command::Add => Cmp::DPlusM,
        Command::Subtract => Cmp::MNegD,
        Command::And => Cmp::DAndM,
        _ => Cmp::DOrM,
    };
    let x = (s.ram)((sp(s) - 2) as u16);
    let y = (s.ram)((sp(s) - 1) as u16);
    let v = sp(s);
    assert(v != 2 ==> (v - 2) as u16 != 0u16) by (bit_vector);
    assert(command_code(program_name, index, command) =~= spec_pop_stack() + seq![spec_i(Dst::M, comp)]);
    lemma_run_append(spec_pop_stack(), seq![spec_i(Dst::M, comp)], s, symbols);
    lemma_pop_stack(s, symbols);
    let s1 = run(spec_pop_stack(), s, symbols);
    lemma_run_one(spec_i(Dst::M, comp), s1, symbols);
    lemma_step_comp(s1, Dst::M, comp, symbols);
    assert(y & x == x & y) by (bit_vector);
    assert(y | x == x | y) by (bit_vector);
}

/// `not` and `neg` replace the word on top of the stack by its bitwise
/// complement or its negation (modulo 2^16); no other memory word changes.
pub proof fn lemma_unary_semantics(
    program_name: Seq<char>,
    index: u32,
    command: Command,
    s: Machine,
    symbols: Map<Seq<char>, u16>,
)
    requires
        command == Command::Not || command == Command::Negate,
        knows_base_symbols(symbols),
    ensures
        ({
            let t = run(command_code(program_name, index, command), s, symbols);
            &&& (t.ram)((sp(s) - 1) as u16) == unary_meaning(command, (s.ram)((sp(s) - 1) as u16))
            &&& forall|k: u16| k != (sp(s) - 1) as u16 ==> #[trigger] (t.ram)(k) == (s.ram)(k)
        }),
{
    let comp = if command == Command::Not { Cmp::NotM } else { Cmp::NegM };
    assert(command_code(program_name, index, command) =~= seq![spec_sym(SP), spec_i(Dst::A, Cmp::MNeg1)].push(
        spec_i(Dst::M, comp),
    ));
    lemma_run_push(seq![spec_sym(SP), spec_i(Dst::A, Cmp::MNeg1)], spec_i(Dst::M, comp), s, symbols);
    lemma_run2(spec_sym(SP), spec_i(Dst::A, Cmp::MNeg1), s, symbols);
    let s1 = step(s, spec_sym(SP), symbols);
    lemma_step_sym(s, SP, symbols);
    let s2 = step(s1, spec_i(Dst::A, Cmp::MNeg1), symbols);
    lemma_step_comp(s1, Dst::A, Cmp::MNeg1, symbols);
    lemma_step_comp(s2, Dst::M, comp, symbols);
}

} // verus!
