//! Short sequences of Hack assembly that the VM translation is built from.
use vstd::prelude::*;
use super::parser::Segment;
use crate::instructions::base_symbols::{self, spec_sym, ARG, LCL, R15, SP, TEMP, THAT, THIS};
use crate::instructions::{
    CompFlags as Cmp, DestFlags as Dst, JumpFlags as Jmp, OpSpec, OperatorKind as Op,
};
use crate::text_util::{all_digits, decimal, digits_value, lemma_decimal_digits, push_chars, push_decimal};

verus! {

/// `dest=comp`.
pub open spec fn spec_i(dest: Dst, comp: Cmp) -> OpSpec {
    OpSpec::Comp(dest, comp, Jmp::Null)
}

/// `comp;jump`.
pub open spec fn spec_ij(comp: Cmp, jump: Jmp) -> OpSpec {
    OpSpec::Comp(Dst::Null, comp, jump)
}

/// Push `D`: increment `SP` and store `D` in the slot below it.
pub open spec fn spec_push_stack() -> Seq<OpSpec> {
    seq![spec_sym(SP), spec_i(Dst::AM, Cmp::MPlus1), spec_i(Dst::A, Cmp::ANeg1), spec_i(Dst::M, Cmp::D)]
}

/// Pop into `D`: decrement `SP` and load the top slot into `D`, leaving `A`
/// at the slot below it.
pub open spec fn spec_pop_stack() -> Seq<OpSpec> {
    seq![spec_sym(SP), spec_i(Dst::AM, Cmp::MNeg1), spec_i(Dst::D, Cmp::M), spec_i(Dst::A, Cmp::ANeg1)]
}

/// The name of static variable `value` of a program: `program.value`.
pub open spec fn static_name(program_name: Seq<char>, value: u16) -> Seq<char> {
    program_name + seq!['.'] + decimal(value as nat)
}

/// Whether a segment address stays within 16 bits: `temp i` is at `5 + i`.
pub open spec fn segment_fits(segment: Segment, value: u16) -> bool {
    segment == Segment::Temp ==> TEMP + value <= u16::MAX
}

/// The code that points `A` at `segment[value]` (or loads a constant into
/// `D`), and whether it points at memory.
pub open spec fn spec_move_to_addr(program_name: Seq<char>, segment: Segment, value: u16) -> (Seq<OpSpec>, bool) {
    match segment {
        Segment::Pointer => (seq![spec_sym(if value == 0 { THIS } else { THAT })], true),
        Segment::Static => (seq![OpSpec::Symbol(static_name(program_name, value))], true),
        Segment::Temp => (seq![spec_sym((TEMP + value) as u16)], true),
        Segment::Constant => (seq![OpSpec::Address(value), spec_i(Dst::D, Cmp::A)], false),
        _ => {
            let base = match segment {
                Segment::Argument => ARG,
                Segment::Local => LCL,
                Segment::This => THIS,
                _ => THAT,
            };
            (seq![OpSpec::Address(value), spec_i(Dst::D, Cmp::A), spec_sym(base), spec_i(Dst::A, Cmp::DPlusM)], true)
        },
    }
}

/// The code that starts every program: set `SP` to 256 and jump to the code.
pub open spec fn spec_setup_segment() -> Seq<OpSpec> {
    seq![
        OpSpec::Label(super::labels::SETUP@),
        spec_sym(256),
        spec_i(Dst::D, Cmp::A),
        spec_sym(SP),
        spec_i(Dst::M, Cmp::D),
        OpSpec::Symbol(super::labels::CODE@),
        spec_ij(Cmp::Zero, Jmp::JMP),
    ]
}

/// The label that command number `index` returns to from a comparison routine.
pub open spec fn return_label(label: Seq<char>, index: u32) -> Seq<char> {
    label + "_RET_"@ + decimal(index as nat)
}

/// Call the comparison routine `label`, passing the return address in `D`.
pub open spec fn spec_do_bool_compare(label: Seq<char>, index: u32) -> Seq<OpSpec> {
    seq![
        OpSpec::Symbol(return_label(label, index)),
        spec_i(Dst::D, Cmp::A),
        OpSpec::Symbol(label),
        spec_ij(Cmp::Zero, Jmp::JMP),
        OpSpec::Label(return_label(label, index)),
    ]
}

/// A comparison routine: pops two values, pushes true (-1) unless `jump`
/// holds for their difference (then false, 0), and returns to the address in `R15`.
pub open spec fn spec_bool_stack_compare(label: Seq<char>, return_label: Seq<char>, jump: Jmp) -> Seq<OpSpec> {
    seq![
        OpSpec::Label(label),
        spec_sym(R15),
        spec_i(Dst::M, Cmp::D),
        spec_sym(SP),
        spec_i(Dst::AM, Cmp::MNeg1),
        spec_i(Dst::D, Cmp::M),
        spec_i(Dst::A, Cmp::ANeg1),
        spec_i(Dst::D, Cmp::MNegD),
        spec_i(Dst::M, Cmp::Zero),
        OpSpec::Symbol(return_label),
        spec_ij(Cmp::D, jump),
        spec_sym(SP),
        spec_i(Dst::A, Cmp::MNeg1),
        spec_i(Dst::M, Cmp::Neg1),
        OpSpec::Label(return_label),
        spec_sym(R15),
        spec_i(Dst::A, Cmp::M),
        spec_ij(Cmp::Zero, Jmp::JMP),
    ]
}

/// `dest=comp`.
pub fn i(dest: Dst, comp: Cmp) -> (r: Op)
    ensures
        r@ == spec_i(dest, comp),
{
    Op::Comp(dest, comp, Jmp::Null)
}

/// `comp;jump`.
pub fn ij(comp: Cmp, jump: Jmp) -> (r: Op)
    ensures
        r@ == spec_ij(comp, jump),
{
    Op::Comp(Dst::Null, comp, jump)
}

/// `@value`.
pub fn val(value: u16) -> (r: Op)
    ensures
        r@ == OpSpec::Address(value),
{
    Op::Address(value)
}

/// `(label)`.
pub fn lbl(label: &'static str) -> (r: Op)
    ensures
        r@ == OpSpec::Label(label@),
{
    Op::Label(label.to_owned())
}

/// `@label`.
pub fn lbl_sym(label: &'static str) -> (r: Op)
    ensures
        r@ == OpSpec::Symbol(label@),
{
    Op::Symbol(label.to_owned())
}

/// Loads `sym_address`, by its predefined name when it has one.
pub fn sym(sym_address: u16) -> (r: Op)
    ensures
        r@ == spec_sym(sym_address),
{
    match base_symbols::by_address().get(sym_address) {
        Some(symbol) => Op::Symbol(symbol.clone()),
        None => Op::Address(sym_address),
    }
}

/// Increment SP and store D into M at its address.
pub fn push_stack() -> (r: [Op; 4])
    ensures
        r@.map_values(|o: Op| o@) == spec_push_stack(),
{
    broadcast use vstd::array::group_array_axioms;
    let a = sym(SP);
    let b = i(Dst::A | Dst::M, Cmp::MPlus1);
    let c = i(Dst::A, Cmp::ANeg1);
    let d = i(Dst::M, Cmp::D);
    let r = [a, b, c, d];
    assert(r@.len() == 4);
    assert(r@[0] == a);
    assert(r@.map_values(|o: Op| o@) =~= spec_push_stack());
    r
}

/// Decrement SP and store M at its address in D.
pub fn pop_stack() -> (r: [Op; 4])
    ensures
        r@.map_values(|o: Op| o@) == spec_pop_stack(),
{
    broadcast use vstd::array::group_array_axioms;
    let r = [sym(SP), i(Dst::A | Dst::M, Cmp::MNeg1), i(Dst::D, Cmp::M), i(Dst::A, Cmp::ANeg1)];
    assert(r@.map_values(|o: Op| o@) =~= spec_pop_stack());
    r
}

/// Appends copies of `more` to `ops`.
pub fn append_ops(ops: &mut Vec<Op>, more: &[Op])
    ensures
        final(ops)@.map_values(|o: Op| o@) == old(ops)@.map_values(|o: Op| o@) + more@.map_values(
            |o: Op| o@,
        ),
{
    let ghost start = ops@.map_values(|o: Op| o@);
    let mut k: usize = 0;
    while k < more.len()
        invariant
            k <= more.len(),
            ops@.map_values(|o: Op| o@) == start + more@.take(k as int).map_values(|o: Op| o@),
        decreases more.len() - k,
    {
        let ghost before = ops@;
        let op = more[k].duplicate();
        ops.push(op);
        proof {
            assert(ops@.map_values(|o: Op| o@) =~= before.map_values(|o: Op| o@).push(op@));
            assert(more@.take(k + 1).map_values(|o: Op| o@) =~= more@.take(k as int).map_values(
                |o: Op| o@,
            ).push(more@[k as int]@));
            assert(ops@.map_values(|o: Op| o@) =~= start + more@.take(k + 1).map_values(|o: Op| o@));
        }
        k = k + 1;
    }
    assert(more@.take(more.len() as int) =~= more@);
}

/// Move to a memory segment location or constant.
/// Returns `true` if the address indicates a memory location.
pub fn move_to_addr(program_name: &str, ops: &mut Vec<Op>, segment: Segment, value: u16) -> (r: bool)
    requires
        segment_fits(segment, value),
    ensures
        final(ops)@.map_values(|o: Op| o@) == old(ops)@.map_values(|o: Op| o@) + spec_move_to_addr(
            program_name@,
            segment,
            value,
        ).0,
        r == spec_move_to_addr(program_name@, segment, value).1,
{
    let ghost start = ops@.map_values(|o: Op| o@);
    let addr = match segment {
        Segment::Argument => Some(ARG),
        Segment::Local => Some(LCL),
        Segment::This => Some(THIS),
        Segment::That => Some(THAT),
        Segment::Pointer => {
            ops.push(sym(if value == 0 { THIS } else { THAT }));
            assert(ops@.map_values(|o: Op| o@) =~= start + spec_move_to_addr(program_name@, segment, value).0);
            return true;
        },
        Segment::Static => {
            let mut name = String::new();
            push_chars(&mut name, program_name);
            name.push('.');
            push_decimal(&mut name, value as u32);
            assert(name@ =~= static_name(program_name@, value));
            ops.push(Op::Symbol(name));
            assert(ops@.map_values(|o: Op| o@) =~= start + spec_move_to_addr(program_name@, segment, value).0);
            return true;
        },
        Segment::Temp => {
            ops.push(sym(TEMP + value));
            assert(ops@.map_values(|o: Op| o@) =~= start + spec_move_to_addr(program_name@, segment, value).0);
            return true;
        },
        Segment::Constant => None,
    };

    // set index (or constant) value as D
    ops.push(val(value));
    ops.push(i(Dst::D, Cmp::A));

    // load the segment address, then move the address to the pointer location + value (D)
    if let Some(addr) = addr {
        ops.push(sym(addr));
        ops.push(i(Dst::A, Cmp::DPlusM));
        assert(ops@.map_values(|o: Op| o@) =~= start + spec_move_to_addr(program_name@, segment, value).0);
        return true;
    }
    assert(ops@.map_values(|o: Op| o@) =~= start + spec_move_to_addr(program_name@, segment, value).0);
    false
}

pub fn setup_segment() -> (r: [Op; 7])
    ensures
        r@.map_values(|o: Op| o@) == spec_setup_segment(),
{
    broadcast use vstd::array::group_array_axioms;
    let r = [
        // init stack pointer as 256
        lbl(super::labels::SETUP),
        sym(256),
        i(Dst::D, Cmp::A),
        sym(SP),
        i(Dst::M, Cmp::D),
        // jump to code
        lbl_sym(super::labels::CODE),
        ij(Cmp::Zero, Jmp::JMP),
    ];
    assert(r@.map_values(|o: Op| o@) =~= spec_setup_segment());
    r
}

fn return_label_string(label: &str, index: u32) -> (s: String)
    ensures
        s@ == return_label(label@, index),
{
    let mut s = String::new();
    push_chars(&mut s, label);
    push_chars(&mut s, "_RET_");
    push_decimal(&mut s, index);
    assert(s@ =~= return_label(label@, index));
    s
}

pub fn do_bool_compare(label: &'static str, index: u32) -> (r: [Op; 5])
    ensures
        r@.map_values(|o: Op| o@) == spec_do_bool_compare(label@, index),
{
    broadcast use vstd::array::group_array_axioms;
    let r = [
        // store the return address in reg D
        Op::Symbol(return_label_string(label, index)),
        i(Dst::D, Cmp::A),
        // jump to compare code block
        lbl_sym(label),
        ij(Cmp::Zero, Jmp::JMP),
        // return address label
        Op::Label(return_label_string(label, index)),
    ];
    assert(r@.map_values(|o: Op| o@) =~= spec_do_bool_compare(label@, index));
    r
}

/// Generate a set of instructions for boolean comparing the top two stack values.
/// Stores the return address from register `D` into `R15`.
/// Then will pop the two values and push a `Cmp::Neg1` (true) value when `when_false_jump_critera` is _NOT_ met. Otherwise will push `Cmp::Zero` (false).
/// Then will jump back to the address stored in `R15`.
pub fn bool_stack_compare(
    label: &'static str,
    return_label: &'static str,
    when_false_jump_critera: Jmp,
) -> (r: [Op; 18])
    ensures
        r@.map_values(|o: Op| o@) == spec_bool_stack_compare(label@, return_label@, when_false_jump_critera),
{
    broadcast use vstd::array::group_array_axioms;
    let r = [
        lbl(label),
        // return address storage
        sym(R15),
        i(Dst::M, Cmp::D),
        // stack pop
        sym(SP),
        i(Dst::A | Dst::M, Cmp::MNeg1),
        i(Dst::D, Cmp::M),
        i(Dst::A, Cmp::ANeg1),
        // find diff from popped value to current stack value
        i(Dst::D, Cmp::MNegD),
        // default zero (false) result and jump to return if meets criteria
        // (happy path should avoid jump)
        i(Dst::M, Cmp::Zero),
        lbl_sym(return_label),
        ij(Cmp::D, when_false_jump_critera),
        // set result to -1 (true) if not jumping
        sym(SP),
        i(Dst::A, Cmp::MNeg1),
        i(Dst::M, Cmp::Neg1),
        lbl(return_label),
        // back to return address
        sym(R15),
        i(Dst::A, Cmp::M),
        ij(Cmp::Zero, Jmp::JMP),
    ];
    assert(r@.map_values(|o: Op| o@) =~= spec_bool_stack_compare(label@, return_label@, when_false_jump_critera));
    r
}

/// Appends one operator.
pub fn push_op(ops: &mut Vec<Op>, op: Op)
    ensures
        final(ops)@.map_values(|o: Op| o@) == old(ops)@.map_values(|o: Op| o@).push(op@),
{
    let ghost before = ops@;
    ops.push(op);
    assert(ops@.map_values(|o: Op| o@) =~= before.map_values(|o: Op| o@).push(op@));
}

/// Comparisons in different commands return to different labels.
pub proof fn lemma_return_labels_distinct(label: Seq<char>, i: u32, j: u32)
    requires
        i != j,
    ensures
        return_label(label, i) != return_label(label, j),
{
    lemma_decimal_digits(i as nat);
    lemma_decimal_digits(j as nat);
    let pre = label + "_RET_"@;
    if return_label(label, i) == return_label(label, j) {
        let a = return_label(label, i);
        assert(a.subrange(pre.len() as int, a.len() as int) =~= decimal(i as nat));
        assert(return_label(label, j).subrange(pre.len() as int, a.len() as int) =~= decimal(j as nat));
    }
}

/// A static variable's name is the program name, a dot, and the decimal
/// numeral of the full index; so within one program distinct indices name
/// distinct variables.
pub proof fn lemma_static_names(program_name: Seq<char>, i: u16, j: u16)
    ensures
        static_name(program_name, i).len() > program_name.len() + 1,
        static_name(program_name, i).take(program_name.len() as int) == program_name,
        static_name(program_name, i)[program_name.len() as int] == '.',
        all_digits(static_name(program_name, i).skip(program_name.len() + 1int)),
        digits_value(static_name(program_name, i).skip(program_name.len() + 1int)) == i,
        static_name(program_name, i) == static_name(program_name, j) ==> i == j,
{
    lemma_decimal_digits(i as nat);
    lemma_decimal_digits(j as nat);
    let n = program_name.len() + 1int;
    assert(static_name(program_name, i).take(program_name.len() as int) =~= program_name);
    assert(static_name(program_name, i).skip(n) =~= decimal(i as nat));
    assert(static_name(program_name, j).skip(n) =~= decimal(j as nat));
}

} // verus!
