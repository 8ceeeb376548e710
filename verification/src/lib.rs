pub mod assembler;
pub mod instruction;
pub mod repl;
pub mod vm;
