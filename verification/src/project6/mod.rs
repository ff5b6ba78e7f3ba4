//! The stand-alone assembler: a line-by-line reader and an encoder over
//! instructions whose address operands are kept as text.
pub mod code;
pub mod instructions;
pub mod opcodes;
pub mod parser;
