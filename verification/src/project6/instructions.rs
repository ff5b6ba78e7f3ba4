//! The instructions of the stand-alone assembler: an address operand is kept
//! as written, a number or a name.
use vstd::prelude::*;

pub use crate::instructions::flags::{CompFlags, DestFlags, JumpFlags};

verus! {

/// An assembly line: `@symbol`, `(symbol)` or `dest=comp;jump`.
#[derive(Debug)]
pub enum Instruction {
    Addr { symbol: String },
    Label { symbol: String },
    Comp { dest: DestFlags, comp: CompFlags, jump: JumpFlags },
}

/// The mathematical value of an [`Instruction`].
pub enum InstrSpec {
    Addr(Seq<char>),
    Label(Seq<char>),
    Comp(DestFlags, CompFlags, JumpFlags),
}

impl View for Instruction {
    type V = InstrSpec;

    open spec fn view(&self) -> InstrSpec {
        match self {
            Instruction::Addr { symbol } => InstrSpec::Addr(symbol@),
            Instruction::Label { symbol } => InstrSpec::Label(symbol@),
            Instruction::Comp { dest, comp, jump } => InstrSpec::Comp(*dest, *comp, *jump),
        }
    }
}

/// The views of a sequence of instructions.
pub open spec fn instr_views(s: Seq<Instruction>) -> Seq<InstrSpec> {
    s.map_values(|i: Instruction| i@)
}

} // verus!
