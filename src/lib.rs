//! Bytecode container, stack machine and disassembler of a small
//! arithmetic language, together with its scanner.
pub mod instruction;
pub mod chunk;
pub mod vm;
pub mod debug;
pub mod scanner;
pub mod compiler;
