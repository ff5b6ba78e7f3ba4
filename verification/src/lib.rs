pub mod assembler;
pub mod instructions;
pub mod project6;
pub mod scan;
pub mod symbol_table;
pub mod text_util;
pub mod vm_translator;
