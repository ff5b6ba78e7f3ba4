//! The predefined symbols of the Hack platform and their addresses.
use vstd::prelude::*;
use crate::instructions::OpSpec;
use crate::symbol_table::SymbolTable;
use crate::text_util::decimal;

verus! {

pub const SCREEN: u16 = 16384;
pub const KBD: u16 = 24576;
pub const SP: u16 = 0;
pub const LCL: u16 = 1;
pub const ARG: u16 = 2;
pub const THIS: u16 = 3;
pub const THAT: u16 = 4;
pub const TEMP: u16 = 5;
pub const R0: u16 = 0;
pub const R1: u16 = 1;
pub const R2: u16 = 2;
pub const R3: u16 = 3;
pub const R4: u16 = 4;
pub const R5: u16 = 5;
pub const R6: u16 = 6;
pub const R7: u16 = 7;
pub const R8: u16 = 8;
pub const R9: u16 = 9;
pub const R10: u16 = 10;
pub const R11: u16 = 11;
pub const R12: u16 = 12;
pub const R13: u16 = 13;
pub const R14: u16 = 14;
pub const R15: u16 = 15;
pub const RAM_START: u16 = 16;

/// Every predefined symbol and its address; `SP`, `LCL`, `ARG`, `THIS`,
/// `THAT` and `TEMP` share their addresses with `R0` to `R5`.
pub open spec fn base_symbol_map() -> Map<Seq<char>, u16> {
    Map::empty()
        .insert("SCREEN"@, 16384u16)
        .insert("KBD"@, 24576u16)
        .insert("SP"@, 0u16)
        .insert("LCL"@, 1u16)
        .insert("ARG"@, 2u16)
        .insert("THIS"@, 3u16)
        .insert("THAT"@, 4u16)
        .insert("TEMP"@, 5u16)
        .insert("R0"@, 0u16)
        .insert("R1"@, 1u16)
        .insert("R2"@, 2u16)
        .insert("R3"@, 3u16)
        .insert("R4"@, 4u16)
        .insert("R5"@, 5u16)
        .insert("R6"@, 6u16)
        .insert("R7"@, 7u16)
        .insert("R8"@, 8u16)
        .insert("R9"@, 9u16)
        .insert("R10"@, 10u16)
        .insert("R11"@, 11u16)
        .insert("R12"@, 12u16)
        .insert("R13"@, 13u16)
        .insert("R14"@, 14u16)
        .insert("R15"@, 15u16)
}

/// The preferred name of each predefined address: every predefined symbol
/// except `R0` to `R5`, keyed by its address.
pub open spec fn base_address_map() -> Map<u16, Seq<char>> {
    Map::empty()
        .insert(16384u16, "SCREEN"@)
        .insert(24576u16, "KBD"@)
        .insert(0u16, "SP"@)
        .insert(1u16, "LCL"@)
        .insert(2u16, "ARG"@)
        .insert(3u16, "THIS"@)
        .insert(4u16, "THAT"@)
        .insert(5u16, "TEMP"@)
        .insert(6u16, "R6"@)
        .insert(7u16, "R7"@)
        .insert(8u16, "R8"@)
        .insert(9u16, "R9"@)
        .insert(10u16, "R10"@)
        .insert(11u16, "R11"@)
        .insert(12u16, "R12"@)
        .insert(13u16, "R13"@)
        .insert(14u16, "R14"@)
        .insert(15u16, "R15"@)
}

/// The predefined symbols, by name.
pub fn by_name() -> (t: SymbolTable)
    ensures
        t@ == base_symbol_map(),
{
    let mut t = SymbolTable::new();
    t.insert("SCREEN".to_owned(), SCREEN);
    t.insert("KBD".to_owned(), KBD);
    t.insert("SP".to_owned(), SP);
    t.insert("LCL".to_owned(), LCL);
    t.insert("ARG".to_owned(), ARG);
    t.insert("THIS".to_owned(), THIS);
    t.insert("THAT".to_owned(), THAT);
    t.insert("TEMP".to_owned(), TEMP);
    t.insert("R0".to_owned(), R0);
    t.insert("R1".to_owned(), R1);
    t.insert("R2".to_owned(), R2);
    t.insert("R3".to_owned(), R3);
    t.insert("R4".to_owned(), R4);
    t.insert("R5".to_owned(), R5);
    t.insert("R6".to_owned(), R6);
    t.insert("R7".to_owned(), R7);
    t.insert("R8".to_owned(), R8);
    t.insert("R9".to_owned(), R9);
    t.insert("R10".to_owned(), R10);
    t.insert("R11".to_owned(), R11);
    t.insert("R12".to_owned(), R12);
    t.insert("R13".to_owned(), R13);
    t.insert("R14".to_owned(), R14);
    t.insert("R15".to_owned(), R15);
    t
}

/// The predefined symbols, by address, leaving out `R0` to `R5` so that each
/// address has one name.
pub fn by_address() -> (t: AddressTable)
    ensures
        t@ == base_address_map(),
{
    let mut t = AddressTable { entries: Vec::new() };
    t.insert(SCREEN, "SCREEN".to_owned());
    t.insert(KBD, "KBD".to_owned());
    t.insert(SP, "SP".to_owned());
    t.insert(LCL, "LCL".to_owned());
    t.insert(ARG, "ARG".to_owned());
    t.insert(THIS, "THIS".to_owned());
    t.insert(THAT, "THAT".to_owned());
    t.insert(TEMP, "TEMP".to_owned());
    t.insert(R6, "R6".to_owned());
    t.insert(R7, "R7".to_owned());
    t.insert(R8, "R8".to_owned());
    t.insert(R9, "R9".to_owned());
    t.insert(R10, "R10".to_owned());
    t.insert(R11, "R11".to_owned());
    t.insert(R12, "R12".to_owned());
    t.insert(R13, "R13".to_owned());
    t.insert(R14, "R14".to_owned());
    t.insert(R15, "R15".to_owned());
    t
}

/// The map that a sequence of `(address, name)` entries denotes, later entries
/// overriding earlier ones.
pub open spec fn address_entries_map(s: Seq<(u16, String)>) -> Map<u16, Seq<char>>
    decreases s.len(),
{
    if s.len() == 0 {
        Map::empty()
    } else {
        address_entries_map(s.drop_last()).insert(s.last().0, s.last().1@)
    }
}

/// Names keyed by address.
pub struct AddressTable {
    entries: Vec<(u16, String)>,
}

impl View for AddressTable {
    type V = Map<u16, Seq<char>>;

    closed spec fn view(&self) -> Map<u16, Seq<char>> {
        address_entries_map(self.entries@)
    }
}

proof fn lemma_address_entries_suffix(s: Seq<(u16, String)>, i: int, k: u16)
    requires
        0 <= i <= s.len(),
        forall|j: int| i <= j < s.len() ==> (#[trigger] s[j]).0 != k,
    ensures
        address_entries_map(s).contains_key(k) == address_entries_map(s.take(i)).contains_key(k),
        address_entries_map(s).contains_key(k) ==> address_entries_map(s)[k] == address_entries_map(s.take(i))[k],
    decreases s.len() - i,
{
    if i < s.len() {
        lemma_address_entries_suffix(s.drop_last(), i, k);
        assert(s.drop_last().take(i) =~= s.take(i));
    } else {
        assert(s.take(i) =~= s);
    }
}

impl AddressTable {
    fn insert(&mut self, address: u16, name: String)
        ensures
            final(self)@ == old(self)@.insert(address, name@),
    {
        assert(self.entries@.push((address, name)).drop_last() =~= self.entries@);
        self.entries.push((address, name));
    }

    /// The name of `address`, if it has one.
    pub fn get(&self, address: u16) -> (r: Option<&String>)
        ensures
            match r {
                Some(n) => self@.contains_key(address) && n@ == self@[address],
                None => !self@.contains_key(address),
            },
    {
        let mut i = self.entries.len();
        while i > 0
            invariant
                i <= self.entries.len(),
                forall|j: int| i <= j < self.entries@.len() ==> (#[trigger] self.entries@[j]).0 != address,
            decreases i,
        {
            if self.entries[i - 1].0 == address {
                proof {
                    let s = self.entries@;
                    lemma_address_entries_suffix(s, i as int, address);
                    assert(s.take(i as int).drop_last() =~= s.take(i - 1));
                }
                return Some(&self.entries[i - 1].1);
            }
            i = i - 1;
        }
        proof {
            lemma_address_entries_suffix(self.entries@, 0, address);
        }
        None
    }
}

/// The operator that loads `address`: by its predefined name when it has one,
/// as a number otherwise.
pub open spec fn spec_sym(address: u16) -> OpSpec {
    if base_address_map().contains_key(address) {
        OpSpec::Symbol(base_address_map()[address])
    } else {
        OpSpec::Address(address)
    }
}

/// One of the registers `R0` to `R5`, which share their addresses with `SP`,
/// `LCL`, `ARG`, `THIS`, `THAT` and `TEMP`.
pub open spec fn is_shadowed_register(name: Seq<char>) -> bool {
    name == "R0"@ || name == "R1"@ || name == "R2"@ || name == "R3"@ || name == "R4"@ || name == "R5"@
}

/// `by_address` inverts `by_name`: each preferred name is a predefined symbol
/// for its address, and each predefined symbol other than `R0` to `R5` is the
/// preferred name of its address.
pub proof fn lemma_by_address_inverts_by_name()
    ensures
        forall|a: u16| #[trigger] base_address_map().contains_key(a) ==> base_symbol_map().contains_key(base_address_map()[a])
            && base_symbol_map()[base_address_map()[a]] == a,
        forall|n: Seq<char>| #[trigger] base_symbol_map().contains_key(n) && !is_shadowed_register(n)
            ==> base_address_map().contains_key(base_symbol_map()[n]) && base_address_map()[base_symbol_map()[n]] == n,
{
    reveal_strlit("SCREEN");
    assert("SCREEN"@ =~= seq!['S', 'C', 'R', 'E', 'E', 'N']);
    reveal_strlit("KBD");
    assert("KBD"@ =~= seq!['K', 'B', 'D']);
    reveal_strlit("SP");
    assert("SP"@ =~= seq!['S', 'P']);
    reveal_strlit("LCL");
    assert("LCL"@ =~= seq!['L', 'C', 'L']);
    reveal_strlit("ARG");
    assert("ARG"@ =~= seq!['A', 'R', 'G']);
    reveal_strlit("THIS");
    assert("THIS"@ =~= seq!['T', 'H', 'I', 'S']);
    reveal_strlit("THAT");
    assert("THAT"@ =~= seq!['T', 'H', 'A', 'T']);
    reveal_strlit("TEMP");
    assert("TEMP"@ =~= seq!['T', 'E', 'M', 'P']);
    reveal_strlit("R0");
    assert("R0"@ =~= seq!['R', '0']);
    reveal_strlit("R1");
    assert("R1"@ =~= seq!['R', '1']);
    reveal_strlit("R2");
    assert("R2"@ =~= seq!['R', '2']);
    reveal_strlit("R3");
    assert("R3"@ =~= seq!['R', '3']);
    reveal_strlit("R4");
    assert("R4"@ =~= seq!['R', '4']);
    reveal_strlit("R5");
    assert("R5"@ =~= seq!['R', '5']);
    reveal_strlit("R6");
    assert("R6"@ =~= seq!['R', '6']);
    reveal_strlit("R7");
    assert("R7"@ =~= seq!['R', '7']);
    reveal_strlit("R8");
    assert("R8"@ =~= seq!['R', '8']);
    reveal_strlit("R9");
    assert("R9"@ =~= seq!['R', '9']);
    reveal_strlit("R10");
    assert("R10"@ =~= seq!['R', '1', '0']);
    reveal_strlit("R11");
    assert("R11"@ =~= seq!['R', '1', '1']);
    reveal_strlit("R12");
    assert("R12"@ =~= seq!['R', '1', '2']);
    reveal_strlit("R13");
    assert("R13"@ =~= seq!['R', '1', '3']);
    reveal_strlit("R14");
    assert("R14"@ =~= seq!['R', '1', '4']);
    reveal_strlit("R15");
    assert("R15"@ =~= seq!['R', '1', '5']);
}

/// The name of register `k`: `R` and the decimal numeral of `k`.
pub open spec fn register_name(k: nat) -> Seq<char> {
    seq!['R'] + decimal(k)
}

/// The names of the registers below 16, spelled out.
pub proof fn lemma_register_names()
    ensures
        register_name(0) == seq!['R', '0'],
        register_name(1) == seq!['R', '1'],
        register_name(2) == seq!['R', '2'],
        register_name(3) == seq!['R', '3'],
        register_name(4) == seq!['R', '4'],
        register_name(5) == seq!['R', '5'],
        register_name(6) == seq!['R', '6'],
        register_name(7) == seq!['R', '7'],
        register_name(8) == seq!['R', '8'],
        register_name(9) == seq!['R', '9'],
        register_name(10) == seq!['R', '1', '0'],
        register_name(11) == seq!['R', '1', '1'],
        register_name(12) == seq!['R', '1', '2'],
        register_name(13) == seq!['R', '1', '3'],
        register_name(14) == seq!['R', '1', '4'],
        register_name(15) == seq!['R', '1', '5'],
{
    reveal_with_fuel(decimal, 2);
    assert(register_name(0) =~= seq!['R', '0']);
    assert(register_name(1) =~= seq!['R', '1']);
    assert(register_name(2) =~= seq!['R', '2']);
    assert(register_name(3) =~= seq!['R', '3']);
    assert(register_name(4) =~= seq!['R', '4']);
    assert(register_name(5) =~= seq!['R', '5']);
    assert(register_name(6) =~= seq!['R', '6']);
    assert(register_name(7) =~= seq!['R', '7']);
    assert(register_name(8) =~= seq!['R', '8']);
    assert(register_name(9) =~= seq!['R', '9']);
    assert(register_name(10) =~= seq!['R', '1', '0']);
    assert(register_name(11) =~= seq!['R', '1', '1']);
    assert(register_name(12) =~= seq!['R', '1', '2']);
    assert(register_name(13) =~= seq!['R', '1', '3']);
    assert(register_name(14) =~= seq!['R', '1', '4']);
    assert(register_name(15) =~= seq!['R', '1', '5']);
}

/// The predefined symbols are the Hack platform's: every register `R0` to
/// `R15` at its own number; `SP`, `LCL`, `ARG`, `THIS`, `THAT` and `TEMP` at
/// 0 to 5; `SCREEN` at 16384 and `KBD` at 24576; and no other name.
pub proof fn lemma_platform_symbols()
    ensures
        forall|k: nat| k < 16 ==> base_symbol_map().contains_key(#[trigger] register_name(k)) && base_symbol_map()[register_name(k)] == k,
        base_symbol_map().contains_key(seq!['S', 'P']) && base_symbol_map()[seq!['S', 'P']] == 0,
        base_symbol_map().contains_key(seq!['L', 'C', 'L']) && base_symbol_map()[seq!['L', 'C', 'L']] == 1,
        base_symbol_map().contains_key(seq!['A', 'R', 'G']) && base_symbol_map()[seq!['A', 'R', 'G']] == 2,
        base_symbol_map().contains_key(seq!['T', 'H', 'I', 'S']) && base_symbol_map()[seq!['T', 'H', 'I', 'S']] == 3,
        base_symbol_map().contains_key(seq!['T', 'H', 'A', 'T']) && base_symbol_map()[seq!['T', 'H', 'A', 'T']] == 4,
        base_symbol_map().contains_key(seq!['T', 'E', 'M', 'P']) && base_symbol_map()[seq!['T', 'E', 'M', 'P']] == 5,
        base_symbol_map().contains_key(seq!['S', 'C', 'R', 'E', 'E', 'N']) && base_symbol_map()[seq!['S', 'C', 'R', 'E', 'E', 'N']] == 16384,
        base_symbol_map().contains_key(seq!['K', 'B', 'D']) && base_symbol_map()[seq!['K', 'B', 'D']] == 24576,
        forall|n: Seq<char>| #[trigger] base_symbol_map().contains_key(n) ==> (exists|k: nat| k < 16 && n == #[trigger] register_name(k)) || n == seq!['S', 'P'] || n == seq!['L', 'C', 'L'] || n == seq!['A', 'R', 'G'] || n == seq!['T', 'H', 'I', 'S'] || n == seq!['T', 'H', 'A', 'T'] || n == seq!['T', 'E', 'M', 'P'] || n == seq!['S', 'C', 'R', 'E', 'E', 'N'] || n == seq!['K', 'B', 'D'],
{
    lemma_register_names();
    reveal_strlit("R0");
    reveal_strlit("R1");
    reveal_strlit("R2");
    reveal_strlit("R3");
    reveal_strlit("R4");
    reveal_strlit("R5");
    reveal_strlit("R6");
    reveal_strlit("R7");
    reveal_strlit("R8");
    reveal_strlit("R9");
    reveal_strlit("R10");
    reveal_strlit("R11");
    reveal_strlit("R12");
    reveal_strlit("R13");
    reveal_strlit("R14");
    reveal_strlit("R15");
    reveal_strlit("SP");
    assert("SP"@ =~= seq!['S', 'P']);
    reveal_strlit("LCL");
    assert("LCL"@ =~= seq!['L', 'C', 'L']);
    reveal_strlit("ARG");
    assert("ARG"@ =~= seq!['A', 'R', 'G']);
    reveal_strlit("THIS");
    assert("THIS"@ =~= seq!['T', 'H', 'I', 'S']);
    reveal_strlit("THAT");
    assert("THAT"@ =~= seq!['T', 'H', 'A', 'T']);
    reveal_strlit("TEMP");
    assert("TEMP"@ =~= seq!['T', 'E', 'M', 'P']);
    reveal_strlit("SCREEN");
    assert("SCREEN"@ =~= seq!['S', 'C', 'R', 'E', 'E', 'N']);
    reveal_strlit("KBD");
    assert("KBD"@ =~= seq!['K', 'B', 'D']);
    assert forall|k: nat| k < 16 implies base_symbol_map().contains_key(#[trigger] register_name(k)) && base_symbol_map()[register_name(k)] == k by {
        if k == 0 { assert(register_name(0) == "R0"@); }
        if k == 1 { assert(register_name(1) == "R1"@); }
        if k == 2 { assert(register_name(2) == "R2"@); }
        if k == 3 { assert(register_name(3) == "R3"@); }
        if k == 4 { assert(register_name(4) == "R4"@); }
        if k == 5 { assert(register_name(5) == "R5"@); }
        if k == 6 { assert(register_name(6) == "R6"@); }
        if k == 7 { assert(register_name(7) == "R7"@); }
        if k == 8 { assert(register_name(8) == "R8"@); }
        if k == 9 { assert(register_name(9) == "R9"@); }
        if k == 10 { assert(register_name(10) == "R10"@); }
        if k == 11 { assert(register_name(11) == "R11"@); }
        if k == 12 { assert(register_name(12) == "R12"@); }
        if k == 13 { assert(register_name(13) == "R13"@); }
        if k == 14 { assert(register_name(14) == "R14"@); }
        if k == 15 { assert(register_name(15) == "R15"@); }
    }
    assert forall|n: Seq<char>| #[trigger] base_symbol_map().contains_key(n) implies (exists|k: nat| k < 16 && n == #[trigger] register_name(k)) || n == seq!['S', 'P'] || n == seq!['L', 'C', 'L'] || n == seq!['A', 'R', 'G'] || n == seq!['T', 'H', 'I', 'S'] || n == seq!['T', 'H', 'A', 'T'] || n == seq!['T', 'E', 'M', 'P'] || n == seq!['S', 'C', 'R', 'E', 'E', 'N'] || n == seq!['K', 'B', 'D'] by {
        if n == "R0"@ { assert(register_name(0) == n); }
        if n == "R1"@ { assert(register_name(1) == n); }
        if n == "R2"@ { assert(register_name(2) == n); }
        if n == "R3"@ { assert(register_name(3) == n); }
        if n == "R4"@ { assert(register_name(4) == n); }
        if n == "R5"@ { assert(register_name(5) == n); }
        if n == "R6"@ { assert(register_name(6) == n); }
        if n == "R7"@ { assert(register_name(7) == n); }
        if n == "R8"@ { assert(register_name(8) == n); }
        if n == "R9"@ { assert(register_name(9) == n); }
        if n == "R10"@ { assert(register_name(10) == n); }
        if n == "R11"@ { assert(register_name(11) == n); }
        if n == "R12"@ { assert(register_name(12) == n); }
        if n == "R13"@ { assert(register_name(13) == n); }
        if n == "R14"@ { assert(register_name(14) == n); }
        if n == "R15"@ { assert(register_name(15) == n); }
    }
}

} // verus!
