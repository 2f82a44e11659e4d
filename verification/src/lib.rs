//! A Lua-dialect compiler and register-based bytecode virtual machine.
//!
//! The pipeline runs from source text to tokens (`lexer`), to a syntax tree
//! (`parser`, `ast`), to an intermediate representation (`compiler`, `ir`),
//! to packed 32-bit bytecode (`ir_generator`, `bytecode`), which the `vm`
//! interprets one instruction at a time.

pub mod bytecode;
pub mod errors;
pub mod text;
pub mod utils;
pub mod ir;
pub mod ir_generator;
pub mod token;
pub mod lexer;
pub mod ast;
pub mod parser;
pub mod compiler;
pub mod lowering;
pub mod value;
pub mod table;
pub mod heap;
pub mod names;
pub mod vm;
pub mod context;
pub mod runnable;
pub mod jumps;
pub mod disasm;
pub mod lua;
pub mod gc;
pub mod scoping;
