//! Encoding the instructions of the line-by-line reader, reporting errors with
//! their source line.
use vstd::prelude::*;
use crate::assembler::instructions::{Instruction, OperatorKind};
use crate::instructions::error::{InstructionError, InstructionErrorKind};
use crate::instructions::opcodes::spec_op_word;
use crate::instructions::OpSpec;
use crate::symbol_table::SymbolTable;

pub use crate::instructions::opcodes::{get_comp_opcode, OpcodeGenerator};

verus! {

impl OpcodeGenerator for Instruction {
    open spec fn spec_opcode(&self, symbols: Map<Seq<char>, u16>) -> Option<Option<u16>> {
        spec_op_word(self.operator@, symbols)
    }

    open spec fn spec_missing_symbol(&self) -> Seq<char> {
        match self.operator@ {
            OpSpec::Symbol(s) => s,
            _ => Seq::empty(),
        }
    }

    open spec fn spec_error_line(&self) -> u32 {
        self.line_number
    }

    fn get_opcode(&self, symbols: &SymbolTable) -> (r: Result<Option<u16>, InstructionError>) {
        let opcode = match &self.operator {
            OperatorKind::Address { address } => Some(*address),
            OperatorKind::Symbol { symbol } => match lookup_symbol_address(symbols, symbol, self.line_number) {
                Ok(a) => Some(a),
                Err(e) => {
                    return Err(e);
                },
            },
            OperatorKind::Comp { comp, dest, jump } => Some(get_comp_opcode(comp, dest, jump)),
            OperatorKind::Label { label: _ } => None,
        };
        Ok(opcode)
    }
}

/// The address of `symbol`, or an `UndefinedSymbol` error on `line_number`.
pub fn lookup_symbol_address(symbols: &SymbolTable, symbol: &String, line_number: u32) -> (r: Result<u16, InstructionError>)
    ensures
        match r {
            Ok(a) => symbols@.contains_key(symbol@) && a == symbols@[symbol@],
            Err(e) => !symbols@.contains_key(symbol@) && e.line_number == line_number && (e.kind matches
                InstructionErrorKind::UndefinedSymbol { symbol: s } && s@ == symbol@),
        },
{
    match symbols.get(symbol) {
        Some(a) => Ok(a),
        None => Err(
            InstructionError {
                line_number,
                kind: InstructionErrorKind::UndefinedSymbol { symbol: symbol.clone() },
            },
        ),
    }
}

} // verus!
