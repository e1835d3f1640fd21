//! Toolchain for the Verdigris register machine: an assembly lexer, parser
//! and two-phase assembler, and the bytecode VM that executes the result.

pub mod assembler;
pub mod codec;
pub mod instruction;
pub mod lexer;
pub mod parser;
pub mod repl;
pub mod strings;
pub mod vm;
