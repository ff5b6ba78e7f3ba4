//! Encoding operators as 16-bit Hack machine words.
use vstd::prelude::*;
use super::error::{InstructionError, InstructionErrorKind};
use super::{CompFlags, DestFlags, JumpFlags, OpSpec, OperatorKind};
use crate::symbol_table::SymbolTable;

verus! {

/// The word of a C-instruction, `111accccccdddjjj`.
pub open spec fn comp_word(dest: DestFlags, comp: CompFlags, jump: JumpFlags) -> u16 {
    (0xE000 + comp.spec_bits() * 64 + dest.spec_bits() * 8 + jump.spec_bits()) as u16
}

/// The word an operator assembles to, given the addresses of the symbols:
/// `Some(None)` for a label (no word), `None` when a symbol has no address.
pub open spec fn spec_op_word(op: OpSpec, symbols: Map<Seq<char>, u16>) -> Option<Option<u16>> {
    match op {
        OpSpec::Address(a) => Some(Some(a)),
        OpSpec::Symbol(s) => if symbols.contains_key(s) {
            Some(Some(symbols[s]))
        } else {
            None
        },
        OpSpec::Comp(d, c, j) => Some(Some(comp_word(d, c, j))),
        OpSpec::Label(_) => Some(None),
    }
}

/// Something that assembles to at most one machine word.
pub trait OpcodeGenerator {
    /// The word, given the symbol addresses; `None` when a symbol is missing.
    spec fn spec_opcode(&self, symbols: Map<Seq<char>, u16>) -> Option<Option<u16>>;

    /// The missing symbol that makes the encoding fail.
    spec fn spec_missing_symbol(&self) -> Seq<char>;

    /// The line that an encoding error is reported on.
    spec fn spec_error_line(&self) -> u32;

    fn get_opcode(&self, symbols: &SymbolTable) -> (r: Result<Option<u16>, InstructionError>)
        ensures
            match r {
                Ok(w) => self.spec_opcode(symbols@) == Some(w),
                Err(e) => self.spec_opcode(symbols@) is None && e.line_number == self.spec_error_line()
                    && (e.kind matches
                    InstructionErrorKind::UndefinedSymbol { symbol } && symbol@
                    == self.spec_missing_symbol()),
            },
    ;
}

impl OpcodeGenerator for OperatorKind {
    open spec fn spec_opcode(&self, symbols: Map<Seq<char>, u16>) -> Option<Option<u16>> {
        spec_op_word(self@, symbols)
    }

    open spec fn spec_missing_symbol(&self) -> Seq<char> {
        match self@ {
            OpSpec::Symbol(s) => s,
            _ => Seq::empty(),
        }
    }

    open spec fn spec_error_line(&self) -> u32 {
        0
    }

    fn get_opcode(&self, symbols: &SymbolTable) -> (r: Result<Option<u16>, InstructionError>) {
        match self {
            OperatorKind::Address(address) => Ok(Some(*address)),
            OperatorKind::Symbol(symbol) => match lookup_symbol_address(symbols, symbol) {
                Ok(a) => Ok(Some(a)),
                Err(e) => Err(e),
            },
            OperatorKind::Comp(dest, comp, jump) => Ok(Some(get_comp_opcode(comp, dest, jump))),
            OperatorKind::Label(_) => Ok(None),
        }
    }
}

/// The address of `symbol`, or an `UndefinedSymbol` error (reported on line 0).
pub fn lookup_symbol_address(symbols: &SymbolTable, symbol: &String) -> (r: Result<u16, InstructionError>)
    ensures
        match r {
            Ok(a) => symbols@.contains_key(symbol@) && a == symbols@[symbol@],
            Err(e) => !symbols@.contains_key(symbol@) && e.line_number == 0 && (e.kind matches
                InstructionErrorKind::UndefinedSymbol { symbol: s } && s@ == symbol@),
        },
{
    match symbols.get(symbol) {
        Some(a) => Ok(a),
        None => Err(
            InstructionError {
                line_number: 0,
                kind: InstructionErrorKind::UndefinedSymbol { symbol: symbol.clone() },
            },
        ),
    }
}

/// The word of a C-instruction: `111`, then the seven comp bits, the three
/// dest bits and the three jump bits.
pub fn get_comp_opcode(comp: &CompFlags, dest: &DestFlags, jump: &JumpFlags) -> (r: u16)
    ensures
        r == comp_word(*dest, *comp, *jump),
        r >> 13u16 == 7,
        (r >> 6u16) & 0x7F == comp.spec_bits(),
        (r >> 3u16) & 7 == dest.spec_bits(),
        r & 7 == jump.spec_bits(),
{
    let j = jump.bits();
    let d = dest.bits();
    let c = comp.bits();
    let r = j | (d << 3u16) | (c << 6u16) | (0b111u16 << 13u16);
    assert(r == (0xE000 + c * 64 + d * 8 + j) as u16
        && r >> 13u16 == 7
        && (r >> 6u16) & 0x7F == c
        && (r >> 3u16) & 7 == d
        && r & 7 == j) by (bit_vector)
        requires
            j < 8 && d < 8 && c < 128 && r == j | (d << 3u16) | (c << 6u16) | (0b111u16 << 13u16),
    ;
    r
}

} // verus!
