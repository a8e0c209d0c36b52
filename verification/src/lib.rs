//! An interpreter for a small assembly-like language. Source text is
//! scanned, one line at a time, into a flat sequence of tokens; the machine
//! then runs the tokens against its registers, calling the instructions
//! that the host has registered.

pub mod asm_definition;
pub mod asm_value;
pub mod laws;
pub mod scanner;
pub mod semantics;
pub mod table;
pub mod text;

pub use asm_definition::{ASMDefinition, ASTNode, Instruction, Pending};
pub use asm_value::ASMValue;
