//! A model of the Hack computer: the `A` and `D` registers, the data memory,
//! the ALU that the `comp` bits drive, and the program counter with its jumps.
use vstd::prelude::*;
use super::{CompFlags, DestFlags, JumpFlags, OpSpec};
use super::opcodes::{comp_word, spec_op_word};
use crate::assembler::code::{assembly_symbols, encode_all, lemma_symbol_known, pc_before};

verus! {

/// The registers and the data memory of the Hack computer.
pub struct Machine {
    pub a: u16,
    pub d: u16,
    pub ram: spec_fn(u16) -> u16,
}

/// The Hack ALU driven by the seven `comp` bits `a zx nx zy ny f no`: `x` is
/// `D`; `y` is `M` when the `a` bit is set and `A` otherwise; `zx`/`zy` zero
/// an input, `nx`/`ny` negate it bitwise, `f` picks `x + y` (modulo 2^16) over
/// `x & y`, and `no` negates the output bitwise.
pub open spec fn hack_alu(bits: u16, a: u16, d: u16, m: u16) -> u16 {
    let y0 = if bits & 64 != 0 { m } else { a };
    let x1 = if bits & 32 != 0 { 0u16 } else { d };
    let x2 = if bits & 16 != 0 { !x1 } else { x1 };
    let y1 = if bits & 8 != 0 { 0u16 } else { y0 };
    let y2 = if bits & 4 != 0 { !y1 } else { y1 };
    let out = if bits & 2 != 0 { (x2 + y2) as u16 } else { x2 & y2 };
    if bits & 1 != 0 { !out } else { out }
}

/// What each `comp` mnemonic names, with `+` and `-` modulo 2^16.
pub open spec fn comp_meaning(comp: CompFlags, a: u16, d: u16, m: u16) -> u16 {
    match comp {
        CompFlags::Zero => 0,
        CompFlags::True => 1,
        CompFlags::Neg1 => 0xFFFF,
        CompFlags::D => d,
        CompFlags::A => a,
        CompFlags::M => m,
        CompFlags::NotD => !d,
        CompFlags::NotA => !a,
        CompFlags::NotM => !m,
        CompFlags::NegD => (0 - d) as u16,
        CompFlags::NegA => (0 - a) as u16,
        CompFlags::NegM => (0 - m) as u16,
        CompFlags::DPlus1 => (d + 1) as u16,
        CompFlags::APlus1 => (a + 1) as u16,
        CompFlags::MPlus1 => (m + 1) as u16,
        CompFlags::DNeg1 => (d - 1) as u16,
        CompFlags::ANeg1 => (a - 1) as u16,
        CompFlags::MNeg1 => (m - 1) as u16,
        CompFlags::DPlusA => (d + a) as u16,
        CompFlags::DPlusM => (d + m) as u16,
        CompFlags::DNegA => (d - a) as u16,
        CompFlags::DNegM => (d - m) as u16,
        CompFlags::ANegD => (a - d) as u16,
        CompFlags::MNegD => (m - d) as u16,
        CompFlags::DAndA => d & a,
        CompFlags::DAndM => d & m,
        CompFlags::DOrA => d | a,
        CompFlags::DOrM => d | m,
    }
}

/// The ALU on every `comp` encoding of the table, for all inputs.
proof fn lemma_alu_table(a: u16, d: u16, m: u16)
    by (bit_vector)
    ensures
        hack_alu(0b0101010, a, d, m) == 0,
        hack_alu(0b0111111, a, d, m) == 1,
        hack_alu(0b0111010, a, d, m) == 0xFFFF,
        hack_alu(0b0001100, a, d, m) == d,
        hack_alu(0b0110000, a, d, m) == a,
        hack_alu(0b1110000, a, d, m) == m,
        hack_alu(0b0001101, a, d, m) == !d,
        hack_alu(0b0110001, a, d, m) == !a,
        hack_alu(0b1110001, a, d, m) == !m,
        hack_alu(0b0001111, a, d, m) == (0 - d) as u16,
        hack_alu(0b0110011, a, d, m) == (0 - a) as u16,
        hack_alu(0b1110011, a, d, m) == (0 - m) as u16,
        hack_alu(0b0011111, a, d, m) == (d + 1) as u16,
        hack_alu(0b0110111, a, d, m) == (a + 1) as u16,
        hack_alu(0b1110111, a, d, m) == (m + 1) as u16,
        hack_alu(0b0001110, a, d, m) == (d - 1) as u16,
        hack_alu(0b0110010, a, d, m) == (a - 1) as u16,
        hack_alu(0b1110010, a, d, m) == (m - 1) as u16,
        hack_alu(0b0000010, a, d, m) == (d + a) as u16,
        hack_alu(0b1000010, a, d, m) == (d + m) as u16,
        hack_alu(0b0010011, a, d, m) == (d - a) as u16,
        hack_alu(0b1010011, a, d, m) == (d - m) as u16,
        hack_alu(0b0000111, a, d, m) == (a - d) as u16,
        hack_alu(0b1000111, a, d, m) == (m - d) as u16,
        hack_alu(0b0000000, a, d, m) == d & a,
        hack_alu(0b1000000, a, d, m) == d & m,
        hack_alu(0b0010101, a, d, m) == d | a,
        hack_alu(0b1010101, a, d, m) == d | m,
{
}

/// Each `comp` mnemonic is encoded by bits on which the Hack ALU computes
/// what the mnemonic names.
pub proof fn lemma_comp_encoding_computes(comp: CompFlags, a: u16, d: u16, m: u16)
    ensures
        hack_alu(comp.spec_bits(), a, d, m) == comp_meaning(comp, a, d, m),
{
    lemma_alu_table(a, d, m);
    let bits = comp.spec_bits();
    let meaning = comp_meaning(comp, a, d, m);
    match comp {
        CompFlags::Zero => assert(bits == 0b0101010 && meaning == 0),
        CompFlags::True => assert(bits == 0b0111111 && meaning == 1),
        CompFlags::Neg1 => assert(bits == 0b0111010 && meaning == 0xFFFF),
        CompFlags::D => assert(bits == 0b0001100 && meaning == d),
        CompFlags::A => assert(bits == 0b0110000 && meaning == a),
        CompFlags::M => assert(bits == 0b1110000 && meaning == m),
        CompFlags::NotD => assert(bits == 0b0001101 && meaning == !d),
        CompFlags::NotA => assert(bits == 0b0110001 && meaning == !a),
        CompFlags::NotM => assert(bits == 0b1110001 && meaning == !m),
        CompFlags::NegD => assert(bits == 0b0001111 && meaning == (0 - d) as u16),
        CompFlags::NegA => assert(bits == 0b0110011 && meaning == (0 - a) as u16),
        CompFlags::NegM => assert(bits == 0b1110011 && meaning == (0 - m) as u16),
        CompFlags::DPlus1 => assert(bits == 0b0011111 && meaning == (d + 1) as u16),
        CompFlags::APlus1 => assert(bits == 0b0110111 && meaning == (a + 1) as u16),
        CompFlags::MPlus1 => assert(bits == 0b1110111 && meaning == (m + 1) as u16),
        CompFlags::DNeg1 => assert(bits == 0b0001110 && meaning == (d - 1) as u16),
        CompFlags::ANeg1 => assert(bits == 0b0110010 && meaning == (a - 1) as u16),
        CompFlags::MNeg1 => assert(bits == 0b1110010 && meaning == (m - 1) as u16),
        CompFlags::DPlusA => assert(bits == 0b0000010 && meaning == (d + a) as u16),
        CompFlags::DPlusM => assert(bits == 0b1000010 && meaning == (d + m) as u16),
        CompFlags::DNegA => assert(bits == 0b0010011 && meaning == (d - a) as u16),
        CompFlags::DNegM => assert(bits == 0b1010011 && meaning == (d - m) as u16),
        CompFlags::ANegD => assert(bits == 0b0000111 && meaning == (a - d) as u16),
        CompFlags::MNegD => assert(bits == 0b1000111 && meaning == (m - d) as u16),
        CompFlags::DAndA => assert(bits == 0b0000000 && meaning == d & a),
        CompFlags::DAndM => assert(bits == 0b1000000 && meaning == d & m),
        CompFlags::DOrA => assert(bits == 0b0010101 && meaning == d | a),
        CompFlags::DOrM => assert(bits == 0b1010101 && meaning == d | m),
    }
}

/// Whether a destination writes the `A` register.
pub open spec fn writes_a(dest: DestFlags) -> bool {
    dest == DestFlags::A || dest == DestFlags::AM || dest == DestFlags::AD || dest == DestFlags::ADM
}

/// Whether a destination writes the `D` register.
pub open spec fn writes_d(dest: DestFlags) -> bool {
    dest == DestFlags::D || dest == DestFlags::DM || dest == DestFlags::AD || dest == DestFlags::ADM
}

/// Whether a destination writes the memory word at `A`.
pub open spec fn writes_m(dest: DestFlags) -> bool {
    dest == DestFlags::M || dest == DestFlags::DM || dest == DestFlags::AM || dest == DestFlags::ADM
}

/// `ram` with the word at `address` replaced by `value`.
pub open spec fn ram_update(ram: spec_fn(u16) -> u16, address: u16, value: u16) -> spec_fn(u16) -> u16 {
    |k: u16| if k == address { value } else { ram(k) }
}

/// One instruction, not counting its jump: an address instruction loads `A`
/// (a name by `symbols`); a compute instruction feeds `A`, `D` and the word at
/// `A` to the ALU and stores the result in its destinations (the memory word
/// at the old `A`); a label does nothing.
pub open spec fn step(s: Machine, op: OpSpec, symbols: Map<Seq<char>, u16>) -> Machine {
    match op {
        OpSpec::Address(v) => Machine { a: v, ..s },
        OpSpec::Symbol(name) => Machine { a: symbols[name], ..s },
        OpSpec::Label(_) => s,
        OpSpec::Comp(dest, comp, _) => {
            let out = hack_alu(comp.spec_bits(), s.a, s.d, (s.ram)(s.a));
            Machine {
                a: if writes_a(dest) { out } else { s.a },
                d: if writes_d(dest) { out } else { s.d },
                ram: if writes_m(dest) { ram_update(s.ram, s.a, out) } else { s.ram },
            }
        },
    }
}

/// Running a sequence of instructions in order, from the first.
pub open spec fn run(ops: Seq<OpSpec>, s: Machine, symbols: Map<Seq<char>, u16>) -> Machine
    decreases ops.len(),
{
    if ops.len() == 0 {
        s
    } else {
        run(ops.drop_first(), step(s, ops[0], symbols), symbols)
    }
}

/// Running two sequences one after the other is running their concatenation.
pub proof fn lemma_run_append(x: Seq<OpSpec>, y: Seq<OpSpec>, s: Machine, symbols: Map<Seq<char>, u16>)
    ensures
        run(x + y, s, symbols) == run(y, run(x, s, symbols), symbols),
    decreases x.len(),
{
    if x.len() > 0 {
        assert((x + y).drop_first() =~= x.drop_first() + y);
        lemma_run_append(x.drop_first(), y, step(s, x[0], symbols), symbols);
    } else {
        assert(x + y =~= y);
    }
}

/// Whether a jump condition holds for an ALU output read as a signed 16-bit
/// number.
pub open spec fn jump_taken(jump: JumpFlags, out: u16) -> bool {
    let negative = out >= 0x8000;
    let zero = out == 0;
    match jump {
        JumpFlags::Null => false,
        JumpFlags::JGT => !negative && !zero,
        JumpFlags::JEQ => zero,
        JumpFlags::JGE => !negative,
        JumpFlags::JLT => negative,
        JumpFlags::JNE => !zero,
        JumpFlags::JLE => negative || zero,
        JumpFlags::JMP => true,
    }
}

/// The instruction memory a program fills: its operators but the labels, in
/// order.
pub open spec fn rom(ops: Seq<OpSpec>) -> Seq<OpSpec>
    decreases ops.len(),
{
    if ops.len() == 0 {
        Seq::empty()
    } else if ops.last() is Label {
        rom(ops.drop_last())
    } else {
        rom(ops.drop_last()).push(ops.last())
    }
}

/// The computer: its registers and memory, and the program counter.
pub struct Cpu {
    pub pc: int,
    pub m: Machine,
}

/// One clock cycle on `program` (the instruction memory): run the instruction
/// at `pc`, then go to the address that `A` held before it when its jump
/// condition holds for the ALU output, and to the next instruction otherwise.
pub open spec fn cpu_step(program: Seq<OpSpec>, symbols: Map<Seq<char>, u16>, c: Cpu) -> Cpu {
    let op = program[c.pc];
    let taken = match op {
        OpSpec::Comp(_, comp, jump) => jump_taken(jump, hack_alu(comp.spec_bits(), c.m.a, c.m.d, (c.m.ram)(c.m.a))),
        _ => false,
    };
    Cpu { pc: if taken { c.m.a as int } else { c.pc + 1 }, m: step(c.m, op, symbols) }
}

/// `n` clock cycles.
pub open spec fn cpu_run(program: Seq<OpSpec>, symbols: Map<Seq<char>, u16>, c: Cpu, n: nat) -> Cpu
    decreases n,
{
    if n == 0 {
        c
    } else {
        cpu_run(program, symbols, cpu_step(program, symbols, c), (n - 1) as nat)
    }
}

/// Running `n1` cycles and then `n2` is running `n1 + n2`.
pub proof fn lemma_cpu_run_add(program: Seq<OpSpec>, symbols: Map<Seq<char>, u16>, c: Cpu, n1: nat, n2: nat)
    ensures
        cpu_run(program, symbols, c, n1 + n2) == cpu_run(program, symbols, cpu_run(program, symbols, c, n1), n2),
    decreases n1,
{
    if n1 > 0 {
        lemma_cpu_run_add(program, symbols, cpu_step(program, symbols, c), (n1 - 1) as nat, n2);
        assert((n1 + n2 - 1) as nat == (n1 - 1) as nat + n2);
    }
}

/// The instructions of two pieces of code, one after the other.
pub proof fn lemma_rom_append(x: Seq<OpSpec>, y: Seq<OpSpec>)
    ensures
        rom(x + y) == rom(x) + rom(y),
    decreases y.len(),
{
    if y.len() == 0 {
        assert(x + y =~= x);
        assert(rom(x) + rom(y) =~= rom(x));
    } else {
        assert((x + y).drop_last() =~= x + y.drop_last());
        assert((x + y).last() == y.last());
        lemma_rom_append(x, y.drop_last());
        if !(y.last() is Label) {
            assert(rom(x) + rom(y.drop_last()).push(y.last()) =~= (rom(x) + rom(y.drop_last())).push(y.last()));
        }
    }
}

/// Code without labels is its own instruction memory.
pub proof fn lemma_rom_no_labels(s: Seq<OpSpec>)
    requires
        forall|i: int| 0 <= i < s.len() ==> !(#[trigger] s[i] is Label),
    ensures
        rom(s) == s,
    decreases s.len(),
{
    if s.len() > 0 {
        assert(s[s.len() - 1] == s.last());
        lemma_rom_no_labels(s.drop_last());
        assert(s.drop_last().push(s.last()) =~= s);
    }
}

/// The address of the operator at position `i` is the number of instructions
/// before it.
pub proof fn lemma_rom_pc(ops: Seq<OpSpec>, i: int)
    requires
        0 <= i <= ops.len(),
    ensures
        rom(ops.take(i)).len() == pc_before(ops, i),
    decreases i,
{
    if i > 0 {
        lemma_rom_pc(ops, i - 1);
        assert(ops.take(i).drop_last() =~= ops.take(i - 1));
        assert(ops.take(i).last() == ops[i - 1]);
    }
}

/// Code without labels or jumps, placed at the program counter, runs in as
/// many cycles as it has instructions, as [`run`] says, and ends right after
/// itself.
pub proof fn lemma_cpu_runs_straight(program: Seq<OpSpec>, symbols: Map<Seq<char>, u16>, c: Cpu, code: Seq<OpSpec>)
    requires
        0 <= c.pc,
        c.pc + code.len() <= program.len(),
        forall|j: int| 0 <= j < code.len() ==> program[c.pc + j] == #[trigger] code[j],
        forall|j: int| 0 <= j < code.len() ==> !(#[trigger] code[j] matches OpSpec::Comp(_, _, jump) && jump != JumpFlags::Null),
    ensures
        cpu_run(program, symbols, c, code.len()) == (Cpu { pc: c.pc + code.len(), m: run(code, c.m, symbols) }),
    decreases code.len(),
{
    if code.len() > 0 {
        let next = Cpu { pc: c.pc + 1, m: step(c.m, code[0], symbols) };
        assert(program[c.pc + 0] == code[0]);
        assert(cpu_step(program, symbols, c) == next);
        let rest = code.drop_first();
        assert forall|j: int| 0 <= j < rest.len() implies program[next.pc + j] == #[trigger] rest[j] by {
            assert(program[c.pc + (j + 1)] == code[j + 1]);
        }
        assert forall|j: int| 0 <= j < rest.len() implies !(#[trigger] rest[j] matches OpSpec::Comp(_, _, jump) && jump
            != JumpFlags::Null) by {
            assert(rest[j] == code[j + 1]);
        }
        lemma_cpu_runs_straight(program, symbols, next, rest);
    }
}

/// One clock cycle of the Hack CPU on machine words: a word with the top bit
/// clear loads `A`; in any other word bits 6 to 12 drive the ALU, bits 5, 4
/// and 3 store its output in `A`, `D` and the memory word at `A`, and bits 2,
/// 1 and 0 jump (to the old `A`) when the output is negative, zero or
/// positive.
pub open spec fn word_step(words: Seq<u16>, c: Cpu) -> Cpu {
    let w = words[c.pc];
    if w & 0x8000 == 0 {
        Cpu { pc: c.pc + 1, m: Machine { a: w, ..c.m } }
    } else {
        let out = hack_alu((w >> 6) & 0x7F, c.m.a, c.m.d, (c.m.ram)(c.m.a));
        let taken = jump_bits_hold(w & 7, out);
        Cpu {
            pc: if taken { c.m.a as int } else { c.pc + 1 },
            m: Machine {
                a: if w & 32 != 0 { out } else { c.m.a },
                d: if w & 16 != 0 { out } else { c.m.d },
                ram: if w & 8 != 0 { ram_update(c.m.ram, c.m.a, out) } else { c.m.ram },
            },
        }
    }
}

/// Whether the three jump bits `j1 j2 j3` of a compute word call for a jump
/// on an ALU output: `j1` when it is negative, `j2` when it is zero, `j3` when
/// it is positive (as a signed 16-bit number).
pub open spec fn jump_bits_hold(bits: u16, out: u16) -> bool {
    let negative = out >= 0x8000;
    let zero = out == 0;
    (bits & 4 != 0 && negative) || (bits & 2 != 0 && zero) || (bits & 1 != 0 && !negative && !zero)
}

/// `n` clock cycles of the Hack CPU on machine words.
pub open spec fn word_run(words: Seq<u16>, c: Cpu, n: nat) -> Cpu
    decreases n,
{
    if n == 0 {
        c
    } else {
        word_run(words, word_step(words, c), (n - 1) as nat)
    }
}

/// Whether an instruction loads an address that fits in the 15 bits of an
/// address instruction (a name by `symbols`).
pub open spec fn load_fits(op: OpSpec, symbols: Map<Seq<char>, u16>) -> bool {
    match op {
        OpSpec::Address(v) => v < 0x8000,
        OpSpec::Symbol(s) => symbols[s] < 0x8000,
        _ => true,
    }
}

/// The fields of a compute word.
proof fn lemma_word_fields(cb: u16, db: u16, jb: u16)
    by (bit_vector)
    requires
        cb < 128,
        db < 8,
        jb < 8,
    ensures
        ((0xE000 + cb * 64 + db * 8 + jb) as u16) & 0x8000 != 0,
        (((0xE000 + cb * 64 + db * 8 + jb) as u16) >> 6) & 0x7F == cb,
        (((0xE000 + cb * 64 + db * 8 + jb) as u16) & 32 != 0) == (db & 4 != 0),
        (((0xE000 + cb * 64 + db * 8 + jb) as u16) & 16 != 0) == (db & 2 != 0),
        (((0xE000 + cb * 64 + db * 8 + jb) as u16) & 8 != 0) == (db & 1 != 0),
        (((0xE000 + cb * 64 + db * 8 + jb) as u16) & 4 != 0) == (jb & 4 != 0),
        (((0xE000 + cb * 64 + db * 8 + jb) as u16) & 2 != 0) == (jb & 2 != 0),
        (((0xE000 + cb * 64 + db * 8 + jb) as u16) & 1 != 0) == (jb & 1 != 0),
        ((0xE000 + cb * 64 + db * 8 + jb) as u16) & 7 == jb,
{
}

/// The three bits of each number below 8, and the top bit of an address.
pub(crate) proof fn lemma_small_bits(v: u16)
    by (bit_vector)
    ensures
        v < 0x8000 ==> v & 0x8000 == 0,
        0u16 & 4 == 0 && 0u16 & 2 == 0 && 0u16 & 1 == 0,
        1u16 & 4 == 0 && 1u16 & 2 == 0 && 1u16 & 1 != 0,
        2u16 & 4 == 0 && 2u16 & 2 != 0 && 2u16 & 1 == 0,
        3u16 & 4 == 0 && 3u16 & 2 != 0 && 3u16 & 1 != 0,
        4u16 & 4 != 0 && 4u16 & 2 == 0 && 4u16 & 1 == 0,
        5u16 & 4 != 0 && 5u16 & 2 == 0 && 5u16 & 1 != 0,
        6u16 & 4 != 0 && 6u16 & 2 != 0 && 6u16 & 1 == 0,
        7u16 & 4 != 0 && 7u16 & 2 != 0 && 7u16 & 1 != 0,
{
}

/// One cycle on the word of an instruction is one cycle on the instruction.
proof fn lemma_word_step(words: Seq<u16>, program: Seq<OpSpec>, symbols: Map<Seq<char>, u16>, c: Cpu)
    requires
        0 <= c.pc < program.len(),
        0 <= c.pc < words.len(),
        spec_op_word(program[c.pc], symbols) == Some(Some(words[c.pc])),
        load_fits(program[c.pc], symbols),
    ensures
        word_step(words, c) == cpu_step(program, symbols, c),
{
    let w = words[c.pc];
    lemma_small_bits(w);
    match program[c.pc] {
        OpSpec::Comp(dest, comp, jump) => {
            lemma_word_fields(comp.spec_bits(), dest.spec_bits(), jump.spec_bits());
            assert(w == comp_word(dest, comp, jump));
        },
        _ => {},
    }
}

/// The words the assembler gives a program are its instructions' words, in
/// order, when every symbol has an address.
proof fn lemma_encode_rom(ops: Seq<OpSpec>, symbols: Map<Seq<char>, u16>)
    requires
        forall|i: int| 0 <= i < ops.len() && (#[trigger] ops[i]) is Symbol ==> symbols.contains_key(ops[i]->Symbol_0),
    ensures
        encode_all(ops, symbols).len() == rom(ops).len(),
        forall|i: int| 0 <= i < rom(ops).len() ==> spec_op_word(#[trigger] rom(ops)[i], symbols) == Some(
            Some(encode_all(ops, symbols)[i]),
        ),
    decreases ops.len(),
{
    if ops.len() > 0 {
        let init = ops.drop_last();
        assert forall|i: int| 0 <= i < init.len() && (#[trigger] init[i]) is Symbol implies symbols.contains_key(
            init[i]->Symbol_0,
        ) by {
            assert(init[i] == ops[i]);
        }
        lemma_encode_rom(init, symbols);
        if ops.last() is Symbol {
            assert(ops[ops.len() - 1] is Symbol);
        }
    }
}

/// The machine words the assembler gives a program, run on the Hack CPU, do
/// in each cycle what the instruction at the program counter says, provided
/// every address the program loads fits in an address instruction.
pub proof fn lemma_words_step_as_instructions(ops: Seq<OpSpec>, c: Cpu)
    requires
        0 <= c.pc < rom(ops).len(),
        forall|i: int| 0 <= i < rom(ops).len() ==> load_fits(#[trigger] rom(ops)[i], assembly_symbols(ops)),
    ensures
        word_step(encode_all(ops, assembly_symbols(ops)), c) == cpu_step(rom(ops), assembly_symbols(ops), c),
{
    let symbols = assembly_symbols(ops);
    assert forall|i: int| 0 <= i < ops.len() && (#[trigger] ops[i]) is Symbol implies symbols.contains_key(
        ops[i]->Symbol_0,
    ) by {
        lemma_symbol_known(ops, i, ops.len() as int);
    }
    lemma_encode_rom(ops, symbols);
    lemma_word_step(encode_all(ops, symbols), rom(ops), symbols, c);
}

/// So a run on the words is the run on the instructions, for as long as the
/// program counter stays within the program.
pub proof fn lemma_words_run_as_instructions(ops: Seq<OpSpec>, c: Cpu, n: nat)
    requires
        forall|i: int| 0 <= i < rom(ops).len() ==> load_fits(#[trigger] rom(ops)[i], assembly_symbols(ops)),
        forall|i: nat| i < n ==> 0 <= #[trigger] cpu_run(rom(ops), assembly_symbols(ops), c, i).pc < rom(ops).len(),
    ensures
        word_run(encode_all(ops, assembly_symbols(ops)), c, n) == cpu_run(rom(ops), assembly_symbols(ops), c, n),
    decreases n,
{
    if n > 0 {
        let symbols = assembly_symbols(ops);
        assert(cpu_run(rom(ops), symbols, c, 0) == c);
        lemma_words_step_as_instructions(ops, c);
        let next = cpu_step(rom(ops), symbols, c);
        assert forall|i: nat| i < (n - 1) as nat implies 0 <= #[trigger] cpu_run(rom(ops), symbols, next, i).pc < rom(
            ops,
        ).len() by {
            assert(cpu_run(rom(ops), symbols, c, i + 1) == cpu_run(rom(ops), symbols, next, i));
        }
        lemma_words_run_as_instructions(ops, next, (n - 1) as nat);
    }
}

} // verus!
