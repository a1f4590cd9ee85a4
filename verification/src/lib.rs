//! A small scripting-language core: an AST with type inference, a bytecode
//! builder that mirrors the runtime stack at compile time and tracks ownership
//! of heap values, a fixed-width opcode encoding, and a stack+heap virtual
//! machine that executes the encoded program.

pub mod ast;
pub mod built_ins;
pub mod bytecode;
pub mod bytecode_builder;
pub mod compiler;
pub mod data;
pub mod final_bytecode;
pub mod heap;
pub mod opcode;
pub mod scopes;
pub mod type_inference;
pub mod vm;
pub mod types;
pub mod utils;
