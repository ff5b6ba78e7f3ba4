//! Errors found while reading or encoding instructions.
use vstd::prelude::*;

verus! {

/// An error, with the source line it was found on.
#[derive(Debug)]
pub struct InstructionError {
    pub line_number: u32,
    pub kind: InstructionErrorKind,
}

/// What went wrong; each variant carries the offending text.
#[derive(Debug)]
pub enum InstructionErrorKind {
    UndefinedSymbol { symbol: String },
    InvalidComp { comp: String },
    InvalidJump { jump: String },
    InvalidDest { dest: String },
}

/// The mathematical value of an [`InstructionErrorKind`].
pub enum ErrorKindSpec {
    UndefinedSymbol(Seq<char>),
    InvalidComp(Seq<char>),
    InvalidJump(Seq<char>),
    InvalidDest(Seq<char>),
}

impl View for InstructionErrorKind {
    type V = ErrorKindSpec;

    open spec fn view(&self) -> ErrorKindSpec {
        match self {
            InstructionErrorKind::UndefinedSymbol { symbol } => ErrorKindSpec::UndefinedSymbol(symbol@),
            InstructionErrorKind::InvalidComp { comp } => ErrorKindSpec::InvalidComp(comp@),
            InstructionErrorKind::InvalidJump { jump } => ErrorKindSpec::InvalidJump(jump@),
            InstructionErrorKind::InvalidDest { dest } => ErrorKindSpec::InvalidDest(dest@),
        }
    }
}

} // verus!
