//! The two passes of the assembler: allocate addresses to labels and
//! variables, then encode every instruction as a machine word.
use vstd::prelude::*;
use crate::instructions::base_symbols::{self, base_symbol_map, lemma_platform_symbols, register_name, RAM_START};
use crate::instructions::error::InstructionError;
use crate::instructions::opcodes::{spec_op_word, OpcodeGenerator};
use crate::instructions::{ops_of, Instruction, OpSpec, OperatorKind};
use crate::symbol_table::SymbolTable;

verus! {

/// The number of operators among the first `n` that are not labels: the
/// address that a label at position `n` stands for.
pub open spec fn pc_before(ops: Seq<OpSpec>, n: int) -> nat
    decreases n,
{
    if n <= 0 {
        0
    } else {
        pc_before(ops, n - 1) + if ops[n - 1] is Label { 0nat } else { 1nat }
    }
}

/// The labels among the first `n` operators, each at the address of the
/// instruction after it; the first definition of a name wins.
pub open spec fn label_pass(ops: Seq<OpSpec>, n: int) -> Map<Seq<char>, u16>
    decreases n,
{
    if n <= 0 {
        Map::empty()
    } else {
        let m = label_pass(ops, n - 1);
        match ops[n - 1] {
            OpSpec::Label(l) => if m.contains_key(l) {
                m
            } else {
                m.insert(l, pc_before(ops, n - 1) as u16)
            },
            _ => m,
        }
    }
}

/// The labels, then the variables among the first `n` operators: each symbol
/// that is neither predefined nor known yet gets the next free RAM address,
/// counting from 16. Also gives the next free address.
pub open spec fn variable_pass(ops: Seq<OpSpec>, n: int) -> (Map<Seq<char>, u16>, nat)
    decreases n,
{
    if n <= 0 {
        (label_pass(ops, ops.len() as int), RAM_START as nat)
    } else {
        let (m, next) = variable_pass(ops, n - 1);
        match ops[n - 1] {
            OpSpec::Symbol(s) => if base_symbol_map().contains_key(s) || m.contains_key(s) {
                (m, next)
            } else {
                (m.insert(s, next as u16), next + 1)
            },
            _ => (m, next),
        }
    }
}

/// The symbols a program defines: its labels and its variables.
pub open spec fn program_symbols(ops: Seq<OpSpec>) -> Map<Seq<char>, u16> {
    variable_pass(ops, ops.len() as int).0
}

/// What the first pass needs: the program counter and the next RAM address
/// both stay within 16 bits.
pub open spec fn symbols_fit(ops: Seq<OpSpec>) -> bool {
    &&& pc_before(ops, ops.len() as int) <= u16::MAX
    &&& variable_pass(ops, ops.len() as int).1 <= u16::MAX
}

/// The table the second pass encodes with: the program's symbols, overridden
/// by the predefined ones.
pub open spec fn assembly_symbols(ops: Seq<OpSpec>) -> Map<Seq<char>, u16> {
    program_symbols(ops).union_prefer_right(base_symbol_map())
}

/// The words of the operators, in order; labels give none.
pub open spec fn encode_all(ops: Seq<OpSpec>, symbols: Map<Seq<char>, u16>) -> Seq<u16>
    decreases ops.len(),
{
    if ops.len() == 0 {
        Seq::empty()
    } else {
        let rest = encode_all(ops.drop_last(), symbols);
        match spec_op_word(ops.last(), symbols) {
            Some(Some(w)) => rest.push(w),
            _ => rest,
        }
    }
}

proof fn lemma_pc_before_mono(ops: Seq<OpSpec>, i: int, j: int)
    requires
        i <= j,
    ensures
        pc_before(ops, i) <= pc_before(ops, j),
    decreases j - i,
{
    if i < j {
        lemma_pc_before_mono(ops, i, j - 1);
    }
}

proof fn lemma_next_mono(ops: Seq<OpSpec>, i: int, j: int)
    requires
        0 <= i <= j,
    ensures
        variable_pass(ops, i).1 <= variable_pass(ops, j).1,
    decreases j - i,
{
    if i < j {
        lemma_next_mono(ops, i, j - 1);
    }
}

fn collect_labels(instructions: &[Instruction]) -> (symbols: SymbolTable)
    requires
        pc_before(ops_of(instructions@), instructions@.len() as int) <= u16::MAX,
    ensures
        symbols@ == label_pass(ops_of(instructions@), instructions@.len() as int),
{
    let ghost ops = ops_of(instructions@);
    let mut symbols = SymbolTable::new();
    let mut pc: u16 = 0;
    let mut k: usize = 0;
    while k < instructions.len()
        invariant
            ops == ops_of(instructions@),
            pc_before(ops, ops.len() as int) <= u16::MAX,
            k <= instructions.len(),
            pc == pc_before(ops, k as int),
            symbols@ == label_pass(ops, k as int),
        decreases instructions.len() - k,
    {
        // labels point at the next instruction but are not instructions themselves
        // so do not increment the program counter
        match &instructions[k].operator {
            OperatorKind::Label(symbol) => {
                if !symbols.contains_key(symbol) {
                    symbols.insert(symbol.clone(), pc);
                }
            },
            _ => {
                proof {
                    lemma_pc_before_mono(ops, k + 1, ops.len() as int);
                }
                pc = pc + 1;
            },
        }
        k = k + 1;
    }
    symbols
}

/// The first pass: labels, then variables (symbols that are neither labels
/// nor predefined).
pub fn extract_symbols(instructions: &[Instruction]) -> (symbols: SymbolTable)
    requires
        symbols_fit(ops_of(instructions@)),
    ensures
        symbols@ == program_symbols(ops_of(instructions@)),
{
    let ghost ops = ops_of(instructions@);
    let mut symbols = collect_labels(instructions);
    let base = base_symbols::by_name();
    let mut ram_pos: u16 = RAM_START;
    let mut k: usize = 0;
    while k < instructions.len()
        invariant
            ops == ops_of(instructions@),
            symbols_fit(ops),
            k <= instructions.len(),
            base@ == base_symbol_map(),
            (symbols@, ram_pos as nat) == variable_pass(ops, k as int),
        decreases instructions.len() - k,
    {
        match &instructions[k].operator {
            OperatorKind::Symbol(symbol) => {
                if !base.contains_key(symbol) && !symbols.contains_key(symbol) {
                    symbols.insert(symbol.clone(), ram_pos);
                    proof {
                        lemma_next_mono(ops, k + 1, ops.len() as int);
                    }
                    ram_pos = ram_pos + 1;
                }
            },
            _ => {},
        }
        k = k + 1;
    }
    symbols
}

/// Whether a program's labels and variables fit in 16-bit addresses (the
/// condition [`extract_symbols`] and [`generate_opcodes`] need).
pub fn symbols_fit_check(instructions: &[Instruction]) -> (b: bool)
    ensures
        b == symbols_fit(ops_of(instructions@)),
{
    let ghost ops = ops_of(instructions@);
    let mut pc: usize = 0;
    let mut k: usize = 0;
    while k < instructions.len()
        invariant
            ops == ops_of(instructions@),
            k <= instructions.len(),
            pc == pc_before(ops, k as int),
            pc <= k,
        decreases instructions.len() - k,
    {
        match &instructions[k].operator {
            OperatorKind::Label(_) => {},
            _ => {
                pc = pc + 1;
            },
        }
        k = k + 1;
    }
    if pc > 65535 {
        return false;
    }
    let mut symbols = collect_labels(instructions);
    let base = base_symbols::by_name();
    let mut next: u32 = 16;
    let mut k: usize = 0;
    while k < instructions.len()
        invariant
            ops == ops_of(instructions@),
            k <= instructions.len(),
            base@ == base_symbol_map(),
            next <= 65535,
            (symbols@, next as nat) == variable_pass(ops, k as int),
        decreases instructions.len() - k,
    {
        match &instructions[k].operator {
            OperatorKind::Symbol(symbol) => {
                if !base.contains_key(symbol) && !symbols.contains_key(symbol) {
                    symbols.insert(symbol.clone(), next as u16);
                    next = next + 1;
                    if next > 65535 {
                        proof {
                            lemma_next_mono(ops, k + 1, ops.len() as int);
                        }
                        return false;
                    }
                }
            },
            _ => {},
        }
        k = k + 1;
    }
    true
}

pub(crate) proof fn lemma_symbol_known(ops: Seq<OpSpec>, i: int, n: int)
    requires
        0 <= i < n <= ops.len(),
        ops[i] is Symbol,
    ensures
        base_symbol_map().contains_key(ops[i]->Symbol_0) || variable_pass(ops, n).0.contains_key(
            ops[i]->Symbol_0,
        ),
    decreases n - i,
{
    if n > i + 1 {
        lemma_symbol_known(ops, i, n - 1);
    }
}

/// Assembles a program into machine words, one per instruction that is not a label.
pub fn generate_opcodes(instructions: &[Instruction]) -> (r: Result<Vec<u16>, InstructionError>)
    requires
        symbols_fit(ops_of(instructions@)),
    ensures
        r matches Ok(words) && words@ == encode_all(
            ops_of(instructions@),
            assembly_symbols(ops_of(instructions@)),
        ),
{
    let ghost ops = ops_of(instructions@);
    let mut symbols = extract_symbols(instructions);
    symbols.extend(&base_symbols::by_name());
    let mut opcodes = Vec::<u16>::new();
    let mut k: usize = 0;
    while k < instructions.len()
        invariant
            ops == ops_of(instructions@),
            k <= instructions.len(),
            symbols@ == assembly_symbols(ops),
            opcodes@ == encode_all(ops.take(k as int), symbols@),
        decreases instructions.len() - k,
    {
        proof {
            assert(ops.take(k + 1).drop_last() =~= ops.take(k as int));
            if ops[k as int] is Symbol {
                lemma_symbol_known(ops, k as int, ops.len() as int);
            }
        }
        match instructions[k].operator.get_opcode(&symbols) {
            Ok(Some(opcode)) => opcodes.push(opcode),
            Ok(None) => {},
            Err(e) => {
                return Err(e);
            },
        }
        k = k + 1;
    }
    assert(ops.take(instructions.len() as int) =~= ops);
    Ok(opcodes)
}

proof fn lemma_label_pass_dom(ops: Seq<OpSpec>, n: int, l: Seq<char>)
    requires
        0 <= n <= ops.len(),
    ensures
        label_pass(ops, n).contains_key(l) <==> exists|j: int| 0 <= j < n && #[trigger] ops[j] == OpSpec::Label(l),
    decreases n,
{
    if n > 0 {
        lemma_label_pass_dom(ops, n - 1, l);
        if label_pass(ops, n).contains_key(l) && !label_pass(ops, n - 1).contains_key(l) {
            assert(ops[n - 1] == OpSpec::Label(l));
        }
        if exists|j: int| 0 <= j < n && #[trigger] ops[j] == OpSpec::Label(l) {
            let j = choose|j: int| 0 <= j < n && #[trigger] ops[j] == OpSpec::Label(l);
            if j < n - 1 {
                assert(label_pass(ops, n - 1).contains_key(l));
            }
        }
    }
}

proof fn lemma_label_pass_stable(ops: Seq<OpSpec>, n: int, m: int, l: Seq<char>)
    requires
        0 <= n <= m <= ops.len(),
        label_pass(ops, n).contains_key(l),
    ensures
        label_pass(ops, m).contains_key(l),
        label_pass(ops, m)[l] == label_pass(ops, n)[l],
    decreases m - n,
{
    if n < m {
        lemma_label_pass_stable(ops, n, m - 1, l);
    }
}

proof fn lemma_variable_pass_keeps_labels(ops: Seq<OpSpec>, n: int, l: Seq<char>)
    requires
        0 <= n <= ops.len(),
        label_pass(ops, ops.len() as int).contains_key(l),
    ensures
        variable_pass(ops, n).0.contains_key(l),
        variable_pass(ops, n).0[l] == label_pass(ops, ops.len() as int)[l],
    decreases n,
{
    if n > 0 {
        lemma_variable_pass_keeps_labels(ops, n - 1, l);
    }
}

/// A label stands for the number of instructions (not labels) before its first
/// definition; later definitions of the same name are ignored.
pub proof fn lemma_label_address(ops: Seq<OpSpec>, i: int, l: Seq<char>)
    requires
        0 <= i < ops.len(),
        ops[i] == OpSpec::Label(l),
        forall|j: int| 0 <= j < i ==> #[trigger] ops[j] != OpSpec::Label(l),
    ensures
        program_symbols(ops).contains_key(l),
        program_symbols(ops)[l] == pc_before(ops, i) as u16,
{
    lemma_label_pass_dom(ops, i, l);
    assert(label_pass(ops, i + 1).contains_key(l));
    lemma_label_pass_stable(ops, i + 1, ops.len() as int, l);
    lemma_variable_pass_keeps_labels(ops, ops.len() as int, l);
}

/// The variables allocated among the first `n` operators have addresses from
/// 16 up to the next free one, each its own.
proof fn lemma_variable_pass_distinct(ops: Seq<OpSpec>, n: int)
    requires
        0 <= n <= ops.len(),
        variable_pass(ops, n).1 <= u16::MAX,
    ensures
        RAM_START <= variable_pass(ops, n).1,
        forall|a: Seq<char>| #[trigger] variable_pass(ops, n).0.contains_key(a) && !label_pass(ops, ops.len() as int).contains_key(a)
            ==> RAM_START <= variable_pass(ops, n).0[a] < variable_pass(ops, n).1,
        forall|a: Seq<char>, b: Seq<char>|
            #[trigger] variable_pass(ops, n).0.contains_key(a) && #[trigger] variable_pass(ops, n).0.contains_key(b)
            && !label_pass(ops, ops.len() as int).contains_key(a) && !label_pass(ops, ops.len() as int).contains_key(b)
            && a != b ==> variable_pass(ops, n).0[a] != variable_pass(ops, n).0[b],
    decreases n,
{
    if n > 0 {
        lemma_next_mono(ops, n - 1, n);
        lemma_variable_pass_distinct(ops, n - 1);
    } else {
        lemma_label_pass_dom(ops, ops.len() as int, Seq::empty());
    }
}

/// Each variable (a symbol that is neither a label nor predefined) gets its own
/// RAM address, from 16 up.
pub proof fn lemma_variables_distinct(ops: Seq<OpSpec>)
    requires
        symbols_fit(ops),
    ensures
        forall|a: Seq<char>| #[trigger] program_symbols(ops).contains_key(a) && !label_pass(ops, ops.len() as int).contains_key(a)
            ==> RAM_START <= program_symbols(ops)[a],
        forall|a: Seq<char>, b: Seq<char>|
            #[trigger] program_symbols(ops).contains_key(a) && #[trigger] program_symbols(ops).contains_key(b)
            && !label_pass(ops, ops.len() as int).contains_key(a) && !label_pass(ops, ops.len() as int).contains_key(b)
            && a != b ==> program_symbols(ops)[a] != program_symbols(ops)[b],
{
    lemma_variable_pass_distinct(ops, ops.len() as int);
}

/// With every symbol known, each operator but a label gives one word.
proof fn lemma_encode_length(ops: Seq<OpSpec>, symbols: Map<Seq<char>, u16>)
    requires
        forall|i: int| 0 <= i < ops.len() && (#[trigger] ops[i]) is Symbol ==> symbols.contains_key(ops[i]->Symbol_0),
    ensures
        encode_all(ops, symbols).len() == pc_before(ops, ops.len() as int),
    decreases ops.len(),
{
    if ops.len() > 0 {
        let init = ops.drop_last();
        assert forall|i: int| 0 <= i < init.len() && (#[trigger] init[i]) is Symbol implies symbols.contains_key(init[i]->Symbol_0) by {
            assert(init[i] == ops[i]);
        }
        lemma_encode_length(init, symbols);
        assert forall|k: int| 0 <= k <= init.len() implies #[trigger] pc_before(init, k) == pc_before(ops, k) by {
            lemma_pc_prefix(ops, init, k);
        }
        if ops.last() is Symbol {
            assert(ops[ops.len() - 1] is Symbol);
        }
    }
}

proof fn lemma_pc_prefix(ops: Seq<OpSpec>, init: Seq<OpSpec>, k: int)
    requires
        ops.len() > 0,
        init == ops.drop_last(),
        0 <= k <= init.len(),
    ensures
        pc_before(init, k) == pc_before(ops, k),
    decreases k,
{
    if k > 0 {
        lemma_pc_prefix(ops, init, k - 1);
        assert(init[k - 1] == ops[k - 1]);
    }
}

/// Assembling never fails, and gives exactly one word per instruction that is
/// not a label.
pub proof fn lemma_one_word_per_instruction(ops: Seq<OpSpec>)
    ensures
        encode_all(ops, assembly_symbols(ops)).len() == pc_before(ops, ops.len() as int),
{
    assert forall|i: int| 0 <= i < ops.len() && (#[trigger] ops[i]) is Symbol implies assembly_symbols(ops).contains_key(ops[i]->Symbol_0) by {
        lemma_symbol_known(ops, i, ops.len() as int);
    }
    lemma_encode_length(ops, assembly_symbols(ops));
}

/// In every program, a register name `Rk` (`k` below 16) stands for address
/// `k`, whatever labels or variables the program has.
pub proof fn lemma_registers_resolve(ops: Seq<OpSpec>)
    ensures
        forall|k: nat| k < 16 ==> assembly_symbols(ops).contains_key(#[trigger] register_name(k))
            && assembly_symbols(ops)[register_name(k)] == k,
{
    lemma_platform_symbols();
}

} // verus!
