//! The two passes of the stand-alone assembler.
use vstd::prelude::*;
use super::instructions::{instr_views, InstrSpec, Instruction};
use crate::instructions::opcodes::{comp_word, get_comp_opcode};
use crate::instructions::base_symbols::{lemma_register_names, register_name};
use crate::symbol_table::SymbolTable;
use crate::text_util::{parse_u16, push_chars, spec_parse_u16};

verus! {

pub const RAM_START: u16 = 16;

/// The predefined symbols of this assembler (it has no `TEMP`).
pub open spec fn base_symbols_map() -> Map<Seq<char>, u16> {
    Map::empty()
        .insert("SCREEN"@, 16384u16)
        .insert("KBD"@, 24576u16)
        .insert("SP"@, 0u16)
        .insert("LCL"@, 1u16)
        .insert("ARG"@, 2u16)
        .insert("THIS"@, 3u16)
        .insert("THAT"@, 4u16)
        .insert("R0"@, 0u16)
        .insert("R1"@, 1u16)
        .insert("R2"@, 2u16)
        .insert("R3"@, 3u16)
        .insert("R4"@, 4u16)
        .insert("R5"@, 5u16)
        .insert("R6"@, 6u16)
        .insert("R7"@, 7u16)
        .insert("R8"@, 8u16)
        .insert("R9"@, 9u16)
        .insert("R10"@, 10u16)
        .insert("R11"@, 11u16)
        .insert("R12"@, 12u16)
        .insert("R13"@, 13u16)
        .insert("R14"@, 14u16)
        .insert("R15"@, 15u16)
}

/// The predefined symbols, by name.
pub fn base_symbols() -> (t: SymbolTable)
    ensures
        t@ == base_symbols_map(),
{
    let mut t = SymbolTable::new();
    t.insert("SCREEN".to_owned(), 16384);
    t.insert("KBD".to_owned(), 24576);
    t.insert("SP".to_owned(), 0);
    t.insert("LCL".to_owned(), 1);
    t.insert("ARG".to_owned(), 2);
    t.insert("THIS".to_owned(), 3);
    t.insert("THAT".to_owned(), 4);
    t.insert("R0".to_owned(), 0);
    t.insert("R1".to_owned(), 1);
    t.insert("R2".to_owned(), 2);
    t.insert("R3".to_owned(), 3);
    t.insert("R4".to_owned(), 4);
    t.insert("R5".to_owned(), 5);
    t.insert("R6".to_owned(), 6);
    t.insert("R7".to_owned(), 7);
    t.insert("R8".to_owned(), 8);
    t.insert("R9".to_owned(), 9);
    t.insert("R10".to_owned(), 10);
    t.insert("R11".to_owned(), 11);
    t.insert("R12".to_owned(), 12);
    t.insert("R13".to_owned(), 13);
    t.insert("R14".to_owned(), 14);
    t.insert("R15".to_owned(), 15);
    t
}

/// A symbol that neither the program nor the platform defines.
#[derive(Debug, Clone)]
pub struct MissingSymbolError {
    pub symbol: String,
}

impl MissingSymbolError {
    /// `Cannot find symbol <symbol> in table.`
    pub fn message(&self) -> (s: String)
        ensures
            s@ == "Cannot find symbol "@ + self.symbol@ + " in table."@,
    {
        let mut s = String::new();
        push_chars(&mut s, "Cannot find symbol ");
        push_chars(&mut s, self.symbol.as_str());
        push_chars(&mut s, " in table.");
        s
    }
}

/// The number of instructions among the first `n` that are not labels.
pub open spec fn pc_before(ins: Seq<InstrSpec>, n: int) -> nat
    decreases n,
{
    if n <= 0 {
        0
    } else {
        pc_before(ins, n - 1) + if ins[n - 1] is Label { 0nat } else { 1nat }
    }
}

/// The labels among the first `n` instructions; the first definition wins.
pub open spec fn label_pass(ins: Seq<InstrSpec>, n: int) -> Map<Seq<char>, u16>
    decreases n,
{
    if n <= 0 {
        Map::empty()
    } else {
        let m = label_pass(ins, n - 1);
        match ins[n - 1] {
            InstrSpec::Label(l) => if m.contains_key(l) {
                m
            } else {
                m.insert(l, pc_before(ins, n - 1) as u16)
            },
            _ => m,
        }
    }
}

/// The labels, then the variables among the first `n` instructions: each
/// address operand that is not a number, not predefined and not known yet
/// gets the next RAM address from 16. Also gives the next free address.
pub open spec fn variable_pass(ins: Seq<InstrSpec>, n: int) -> (Map<Seq<char>, u16>, nat)
    decreases n,
{
    if n <= 0 {
        (label_pass(ins, ins.len() as int), RAM_START as nat)
    } else {
        let (m, next) = variable_pass(ins, n - 1);
        match ins[n - 1] {
            InstrSpec::Addr(s) => if spec_parse_u16(s) is Some || base_symbols_map().contains_key(s)
                || m.contains_key(s) {
                (m, next)
            } else {
                (m.insert(s, next as u16), next + 1)
            },
            _ => (m, next),
        }
    }
}

/// The symbols a program defines.
pub open spec fn program_symbols(ins: Seq<InstrSpec>) -> Map<Seq<char>, u16> {
    variable_pass(ins, ins.len() as int).0
}

/// The program counter and the next RAM address stay within 16 bits.
pub open spec fn symbols_fit(ins: Seq<InstrSpec>) -> bool {
    &&& pc_before(ins, ins.len() as int) <= u16::MAX
    &&& variable_pass(ins, ins.len() as int).1 <= u16::MAX
}

/// The word of one instruction: a number as itself; a name by the program's
/// symbols first, the predefined ones second; `Err` with the name when it has
/// no address; `Ok(None)` for a label.
pub open spec fn spec_instruction_word(symbols: Map<Seq<char>, u16>, i: InstrSpec) -> Result<Option<u16>, Seq<char>> {
    match i {
        InstrSpec::Addr(s) => if spec_parse_u16(s) is Some {
            Ok(Some(spec_parse_u16(s)->0))
        } else if symbols.contains_key(s) {
            Ok(Some(symbols[s]))
        } else if base_symbols_map().contains_key(s) {
            Ok(Some(base_symbols_map()[s]))
        } else {
            Err(s)
        },
        InstrSpec::Comp(d, c, j) => Ok(Some(comp_word(d, c, j))),
        InstrSpec::Label(_) => Ok(None),
    }
}

/// The words of the instructions, in order; labels give none.
pub open spec fn encode_all(ins: Seq<InstrSpec>, symbols: Map<Seq<char>, u16>) -> Seq<u16>
    decreases ins.len(),
{
    if ins.len() == 0 {
        Seq::empty()
    } else {
        let rest = encode_all(ins.drop_last(), symbols);
        match spec_instruction_word(symbols, ins.last()) {
            Ok(Some(w)) => rest.push(w),
            _ => rest,
        }
    }
}

proof fn lemma_pc_before_mono(ins: Seq<InstrSpec>, i: int, j: int)
    requires
        i <= j,
    ensures
        pc_before(ins, i) <= pc_before(ins, j),
    decreases j - i,
{
    if i < j {
        lemma_pc_before_mono(ins, i, j - 1);
    }
}

proof fn lemma_next_mono(ins: Seq<InstrSpec>, i: int, j: int)
    requires
        0 <= i <= j,
    ensures
        variable_pass(ins, i).1 <= variable_pass(ins, j).1,
    decreases j - i,
{
    if i < j {
        lemma_next_mono(ins, i, j - 1);
    }
}

/// The word of one instruction.
pub fn generate_instruction(symbols: &SymbolTable, instruction: &Instruction) -> (r: Result<Option<u16>, MissingSymbolError>)
    ensures
        match spec_instruction_word(symbols@, instruction@) {
            Ok(w) => r == Ok::<Option<u16>, MissingSymbolError>(w),
            Err(s) => r matches Err(e) && e.symbol@ == s,
        },
{
    match instruction {
        Instruction::Addr { symbol } => match parse_u16(symbol.as_str()) {
            Some(address) => Ok(Some(address)),
            None => match symbols.get(symbol) {
                Some(symbol_address) => Ok(Some(symbol_address)),
                None => match base_symbols().get(symbol) {
                    Some(symbol_address) => Ok(Some(symbol_address)),
                    None => Err(MissingSymbolError { symbol: symbol.clone() }),
                },
            },
        },
        Instruction::Comp { dest, comp, jump } => {
            // 111accccccdddjjj
            Ok(Some(get_comp_opcode(comp, dest, jump)))
        },
        _ => Ok(None),
    }
}

/// The first pass: labels, then variables.
pub fn create_symbols(instructions: &Vec<Instruction>) -> (symbols: SymbolTable)
    requires
        symbols_fit(instr_views(instructions@)),
    ensures
        symbols@ == program_symbols(instr_views(instructions@)),
{
    let ghost ins = instr_views(instructions@);
    let mut symbols = SymbolTable::new();
    let mut ram_pos: u16 = RAM_START;
    let mut pc: u16 = 0; // program counter

    // first pass: find all labels
    let mut k: usize = 0;
    while k < instructions.len()
        invariant
            ins == instr_views(instructions@),
            symbols_fit(ins),
            k <= instructions.len(),
            pc == pc_before(ins, k as int),
            symbols@ == label_pass(ins, k as int),
        decreases instructions.len() - k,
    {
        // labels point at the next instruction but are not instructions themselves
        // so do not increment the program counter
        if let Instruction::Label { symbol } = &instructions[k] {
            if !symbols.contains_key(symbol) {
                symbols.insert(symbol.clone(), pc);
            }
        } else {
            proof {
                lemma_pc_before_mono(ins, k + 1, ins.len() as int);
            }
            pc = pc + 1;
        }
        k = k + 1;
    }

    // second pass: find all variables (address instructions that dont reference a label or base symbol)
    let base = base_symbols();
    let mut k: usize = 0;
    while k < instructions.len()
        invariant
            ins == instr_views(instructions@),
            symbols_fit(ins),
            k <= instructions.len(),
            base@ == base_symbols_map(),
            (symbols@, ram_pos as nat) == variable_pass(ins, k as int),
        decreases instructions.len() - k,
    {
        if let Instruction::Addr { symbol } = &instructions[k] {
            if parse_u16(symbol.as_str()).is_none() {
                if !base.contains_key(symbol) && !symbols.contains_key(symbol) {
                    symbols.insert(symbol.clone(), ram_pos);
                    proof {
                        lemma_next_mono(ins, k + 1, ins.len() as int);
                    }
                    ram_pos = ram_pos + 1;
                }
            }
        }
        k = k + 1;
    }
    symbols
}

proof fn lemma_addr_known(ins: Seq<InstrSpec>, i: int, n: int)
    requires
        0 <= i < n <= ins.len(),
        ins[i] is Addr,
    ensures
        spec_parse_u16(ins[i]->Addr_0) is Some || base_symbols_map().contains_key(ins[i]->Addr_0)
            || variable_pass(ins, n).0.contains_key(ins[i]->Addr_0),
    decreases n - i,
{
    if n > i + 1 {
        lemma_addr_known(ins, i, n - 1);
    }
}

/// Assembles a program into machine words, one per instruction that is not a
/// label. Every name gets an address, so this never fails.
pub fn generate_opcodes(instructions: &Vec<Instruction>) -> (r: Result<Vec<u16>, MissingSymbolError>)
    requires
        symbols_fit(instr_views(instructions@)),
    ensures
        r matches Ok(words) && words@ == encode_all(
            instr_views(instructions@),
            program_symbols(instr_views(instructions@)),
        ),
{
    let ghost ins = instr_views(instructions@);
    // first pass: find all labels and non-base symbols
    let symbols = create_symbols(instructions);

    // now generate the code for each instruction
    let mut opcodes = Vec::<u16>::new();
    let mut k: usize = 0;
    while k < instructions.len()
        invariant
            ins == instr_views(instructions@),
            k <= instructions.len(),
            symbols@ == program_symbols(ins),
            opcodes@ == encode_all(ins.take(k as int), symbols@),
        decreases instructions.len() - k,
    {
        proof {
            assert(ins.take(k + 1).drop_last() =~= ins.take(k as int));
            if ins[k as int] is Addr {
                lemma_addr_known(ins, k as int, ins.len() as int);
            }
        }
        match generate_instruction(&symbols, &instructions[k]) {
            Ok(Some(opcode)) => opcodes.push(opcode),
            Ok(None) => {},
            Err(e) => {
                return Err(e);
            },
        }
        k = k + 1;
    }
    assert(ins.take(instructions.len() as int) =~= ins);
    Ok(opcodes)
}

proof fn lemma_label_pass_dom(ins: Seq<InstrSpec>, n: int, l: Seq<char>)
    requires
        0 <= n <= ins.len(),
    ensures
        label_pass(ins, n).contains_key(l) <==> exists|j: int| 0 <= j < n && #[trigger] ins[j] == InstrSpec::Label(l),
    decreases n,
{
    if n > 0 {
        lemma_label_pass_dom(ins, n - 1, l);
        if label_pass(ins, n).contains_key(l) && !label_pass(ins, n - 1).contains_key(l) {
            assert(ins[n - 1] == InstrSpec::Label(l));
        }
        if exists|j: int| 0 <= j < n && #[trigger] ins[j] == InstrSpec::Label(l) {
            let j = choose|j: int| 0 <= j < n && #[trigger] ins[j] == InstrSpec::Label(l);
            if j < n - 1 {
                assert(label_pass(ins, n - 1).contains_key(l));
            }
        }
    }
}

proof fn lemma_label_pass_stable(ins: Seq<InstrSpec>, n: int, m: int, l: Seq<char>)
    requires
        0 <= n <= m <= ins.len(),
        label_pass(ins, n).contains_key(l),
    ensures
        label_pass(ins, m).contains_key(l),
        label_pass(ins, m)[l] == label_pass(ins, n)[l],
    decreases m - n,
{
    if n < m {
        lemma_label_pass_stable(ins, n, m - 1, l);
    }
}

proof fn lemma_variable_pass_keeps_labels(ins: Seq<InstrSpec>, n: int, l: Seq<char>)
    requires
        0 <= n <= ins.len(),
        label_pass(ins, ins.len() as int).contains_key(l),
    ensures
        variable_pass(ins, n).0.contains_key(l),
        variable_pass(ins, n).0[l] == label_pass(ins, ins.len() as int)[l],
    decreases n,
{
    if n > 0 {
        lemma_variable_pass_keeps_labels(ins, n - 1, l);
    }
}

/// A label stands for the number of instructions (not labels) before its first
/// definition; later definitions of the same name are ignored.
pub proof fn lemma_label_address(ins: Seq<InstrSpec>, i: int, l: Seq<char>)
    requires
        0 <= i < ins.len(),
        ins[i] == InstrSpec::Label(l),
        forall|j: int| 0 <= j < i ==> #[trigger] ins[j] != InstrSpec::Label(l),
    ensures
        program_symbols(ins).contains_key(l),
        program_symbols(ins)[l] == pc_before(ins, i) as u16,
{
    lemma_label_pass_dom(ins, i, l);
    assert(label_pass(ins, i + 1).contains_key(l));
    lemma_label_pass_stable(ins, i + 1, ins.len() as int, l);
    lemma_variable_pass_keeps_labels(ins, ins.len() as int, l);
}

/// The variables allocated among the first `n` instructions have addresses
/// from 16 up to the next free one, each its own.
proof fn lemma_variable_pass_distinct(ins: Seq<InstrSpec>, n: int)
    requires
        0 <= n <= ins.len(),
        variable_pass(ins, n).1 <= u16::MAX,
    ensures
        RAM_START <= variable_pass(ins, n).1,
        forall|a: Seq<char>| #[trigger] variable_pass(ins, n).0.contains_key(a) && !label_pass(ins, ins.len() as int).contains_key(a)
            ==> RAM_START <= variable_pass(ins, n).0[a] < variable_pass(ins, n).1,
        forall|a: Seq<char>, b: Seq<char>|
            #[trigger] variable_pass(ins, n).0.contains_key(a) && #[trigger] variable_pass(ins, n).0.contains_key(b)
            && !label_pass(ins, ins.len() as int).contains_key(a) && !label_pass(ins, ins.len() as int).contains_key(b)
            && a != b ==> variable_pass(ins, n).0[a] != variable_pass(ins, n).0[b],
    decreases n,
{
    if n > 0 {
        lemma_next_mono(ins, n - 1, n);
        lemma_variable_pass_distinct(ins, n - 1);
    } else {
        lemma_label_pass_dom(ins, ins.len() as int, Seq::empty());
    }
}

/// Each variable (an address operand that is not a number, a label or a
/// predefined name) gets its own RAM address, from 16 up.
pub proof fn lemma_variables_distinct(ins: Seq<InstrSpec>)
    requires
        symbols_fit(ins),
    ensures
        forall|a: Seq<char>| #[trigger] program_symbols(ins).contains_key(a) && !label_pass(ins, ins.len() as int).contains_key(a)
            ==> RAM_START <= program_symbols(ins)[a],
        forall|a: Seq<char>, b: Seq<char>|
            #[trigger] program_symbols(ins).contains_key(a) && #[trigger] program_symbols(ins).contains_key(b)
            && !label_pass(ins, ins.len() as int).contains_key(a) && !label_pass(ins, ins.len() as int).contains_key(b)
            && a != b ==> program_symbols(ins)[a] != program_symbols(ins)[b],
{
    lemma_variable_pass_distinct(ins, ins.len() as int);
}

/// With every name known, each instruction but a label gives one word.
proof fn lemma_encode_length(ins: Seq<InstrSpec>, symbols: Map<Seq<char>, u16>)
    requires
        forall|i: int| 0 <= i < ins.len() && (#[trigger] ins[i]) is Addr ==> spec_parse_u16(ins[i]->Addr_0) is Some
            || symbols.contains_key(ins[i]->Addr_0) || base_symbols_map().contains_key(ins[i]->Addr_0),
    ensures
        encode_all(ins, symbols).len() == pc_before(ins, ins.len() as int),
    decreases ins.len(),
{
    if ins.len() > 0 {
        let init = ins.drop_last();
        assert forall|i: int| 0 <= i < init.len() && (#[trigger] init[i]) is Addr implies spec_parse_u16(init[i]->Addr_0) is Some
            || symbols.contains_key(init[i]->Addr_0) || base_symbols_map().contains_key(init[i]->Addr_0) by {
            assert(init[i] == ins[i]);
        }
        lemma_encode_length(init, symbols);
        assert forall|k: int| 0 <= k <= init.len() implies #[trigger] pc_before(init, k) == pc_before(ins, k) by {
            lemma_pc_prefix(ins, init, k);
        }
        if ins.last() is Addr {
            assert(ins[ins.len() - 1] is Addr);
        }
    }
}

proof fn lemma_pc_prefix(ins: Seq<InstrSpec>, init: Seq<InstrSpec>, k: int)
    requires
        ins.len() > 0,
        init == ins.drop_last(),
        0 <= k <= init.len(),
    ensures
        pc_before(init, k) == pc_before(ins, k),
    decreases k,
{
    if k > 0 {
        lemma_pc_prefix(ins, init, k - 1);
        assert(init[k - 1] == ins[k - 1]);
    }
}

/// Every name gets an address, and each instruction that is not a label gives
/// exactly one word.
pub proof fn lemma_one_word_per_instruction(ins: Seq<InstrSpec>)
    ensures
        encode_all(ins, program_symbols(ins)).len() == pc_before(ins, ins.len() as int),
{
    assert forall|i: int| 0 <= i < ins.len() && (#[trigger] ins[i]) is Addr implies spec_parse_u16(ins[i]->Addr_0) is Some
        || program_symbols(ins).contains_key(ins[i]->Addr_0) || base_symbols_map().contains_key(ins[i]->Addr_0) by {
        lemma_addr_known(ins, i, ins.len() as int);
    }
    lemma_encode_length(ins, program_symbols(ins));
}

/// The stand-alone assembler's predefined symbols are the Hack platform's:
/// every register `R0` to `R15` at its own number; `SP`, `LCL`, `ARG`, `THIS`
/// and `THAT` at 0 to 4; `SCREEN` at 16384 and `KBD` at 24576; and no other
/// name.
pub proof fn lemma_platform_symbols()
    ensures
        forall|k: nat| k < 16 ==> base_symbols_map().contains_key(#[trigger] register_name(k)) && base_symbols_map()[register_name(k)] == k,
        base_symbols_map().contains_key(seq!['S', 'P']) && base_symbols_map()[seq!['S', 'P']] == 0,
        base_symbols_map().contains_key(seq!['L', 'C', 'L']) && base_symbols_map()[seq!['L', 'C', 'L']] == 1,
        base_symbols_map().contains_key(seq!['A', 'R', 'G']) && base_symbols_map()[seq!['A', 'R', 'G']] == 2,
        base_symbols_map().contains_key(seq!['T', 'H', 'I', 'S']) && base_symbols_map()[seq!['T', 'H', 'I', 'S']] == 3,
        base_symbols_map().contains_key(seq!['T', 'H', 'A', 'T']) && base_symbols_map()[seq!['T', 'H', 'A', 'T']] == 4,
        base_symbols_map().contains_key(seq!['S', 'C', 'R', 'E', 'E', 'N']) && base_symbols_map()[seq!['S', 'C', 'R', 'E', 'E', 'N']] == 16384,
        base_symbols_map().contains_key(seq!['K', 'B', 'D']) && base_symbols_map()[seq!['K', 'B', 'D']] == 24576,
        forall|n: Seq<char>| #[trigger] base_symbols_map().contains_key(n) ==> (exists|k: nat| k < 16 && n == #[trigger] register_name(k)) || n == seq!['S', 'P'] || n == seq!['L', 'C', 'L'] || n == seq!['A', 'R', 'G'] || n == seq!['T', 'H', 'I', 'S'] || n == seq!['T', 'H', 'A', 'T'] || n == seq!['S', 'C', 'R', 'E', 'E', 'N'] || n == seq!['K', 'B', 'D'],
{
    lemma_register_names();
    reveal_strlit("R0");
    reveal_strlit("R1");
    reveal_strlit("R2");
    reveal_strlit("R3");
    reveal_strlit("R4");
    reveal_strlit("R5");
    reveal_strlit("R6");
    reveal_strlit("R7");
    reveal_strlit("R8");
    reveal_strlit("R9");
    reveal_strlit("R10");
    reveal_strlit("R11");
    reveal_strlit("R12");
    reveal_strlit("R13");
    reveal_strlit("R14");
    reveal_strlit("R15");
    reveal_strlit("SP");
    assert("SP"@ =~= seq!['S', 'P']);
    reveal_strlit("LCL");
    assert("LCL"@ =~= seq!['L', 'C', 'L']);
    reveal_strlit("ARG");
    assert("ARG"@ =~= seq!['A', 'R', 'G']);
    reveal_strlit("THIS");
    assert("THIS"@ =~= seq!['T', 'H', 'I', 'S']);
    reveal_strlit("THAT");
    assert("THAT"@ =~= seq!['T', 'H', 'A', 'T']);
    reveal_strlit("SCREEN");
    assert("SCREEN"@ =~= seq!['S', 'C', 'R', 'E', 'E', 'N']);
    reveal_strlit("KBD");
    assert("KBD"@ =~= seq!['K', 'B', 'D']);
    assert forall|k: nat| k < 16 implies base_symbols_map().contains_key(#[trigger] register_name(k)) && base_symbols_map()[register_name(k)] == k by {
        if k == 0 { assert(register_name(0) == "R0"@); }
        if k == 1 { assert(register_name(1) == "R1"@); }
        if k == 2 { assert(register_name(2) == "R2"@); }
        if k == 3 { assert(register_name(3) == "R3"@); }
        if k == 4 { assert(register_name(4) == "R4"@); }
        if k == 5 { assert(register_name(5) == "R5"@); }
        if k == 6 { assert(register_name(6) == "R6"@); }
        if k == 7 { assert(register_name(7) == "R7"@); }
        if k == 8 { assert(register_name(8) == "R8"@); }
        if k == 9 { assert(register_name(9) == "R9"@); }
        if k == 10 { assert(register_name(10) == "R10"@); }
        if k == 11 { assert(register_name(11) == "R11"@); }
        if k == 12 { assert(register_name(12) == "R12"@); }
        if k == 13 { assert(register_name(13) == "R13"@); }
        if k == 14 { assert(register_name(14) == "R14"@); }
        if k == 15 { assert(register_name(15) == "R15"@); }
    }
    assert forall|n: Seq<char>| #[trigger] base_symbols_map().contains_key(n) implies (exists|k: nat| k < 16 && n == #[trigger] register_name(k)) || n == seq!['S', 'P'] || n == seq!['L', 'C', 'L'] || n == seq!['A', 'R', 'G'] || n == seq!['T', 'H', 'I', 'S'] || n == seq!['T', 'H', 'A', 'T'] || n == seq!['S', 'C', 'R', 'E', 'E', 'N'] || n == seq!['K', 'B', 'D'] by {
        if n == "R0"@ { assert(register_name(0) == n); }
        if n == "R1"@ { assert(register_name(1) == n); }
        if n == "R2"@ { assert(register_name(2) == n); }
        if n == "R3"@ { assert(register_name(3) == n); }
        if n == "R4"@ { assert(register_name(4) == n); }
        if n == "R5"@ { assert(register_name(5) == n); }
        if n == "R6"@ { assert(register_name(6) == n); }
        if n == "R7"@ { assert(register_name(7) == n); }
        if n == "R8"@ { assert(register_name(8) == n); }
        if n == "R9"@ { assert(register_name(9) == n); }
        if n == "R10"@ { assert(register_name(10) == n); }
        if n == "R11"@ { assert(register_name(11) == n); }
        if n == "R12"@ { assert(register_name(12) == n); }
        if n == "R13"@ { assert(register_name(13) == n); }
        if n == "R14"@ { assert(register_name(14) == n); }
        if n == "R15"@ { assert(register_name(15) == n); }
    }
}

} // verus!
