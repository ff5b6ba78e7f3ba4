//! Instructions with named fields, as the line-by-line reader produces them.
use vstd::prelude::*;
use crate::instructions::OpSpec;

pub mod flags;

pub use flags::{CompFlags, DestFlags, JumpFlags};

verus! {

/// An instruction with the source line it came from.
#[derive(Debug)]
pub struct Instruction {
    pub line_number: u32,
    pub operator: OperatorKind,
}

/// The four kinds of Hack assembly lines.
#[derive(Debug)]
pub enum OperatorKind {
    Address { address: u16 },
    Symbol { symbol: String },
    Label { label: String },
    Comp { comp: CompFlags, dest: DestFlags, jump: JumpFlags },
}

impl View for OperatorKind {
    type V = OpSpec;

    open spec fn view(&self) -> OpSpec {
        match self {
            OperatorKind::Address { address } => OpSpec::Address(*address),
            OperatorKind::Symbol { symbol } => OpSpec::Symbol(symbol@),
            OperatorKind::Label { label } => OpSpec::Label(label@),
            OperatorKind::Comp { comp, dest, jump } => OpSpec::Comp(*dest, *comp, *jump),
        }
    }
}

} // verus!
