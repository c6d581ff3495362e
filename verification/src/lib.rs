//! A bytecode compiler and stack-based virtual machine for a small
//! dynamically typed scripting language: a single-pass Pratt compiler that
//! emits bytecode into a chunk, and a stack machine that executes it, with
//! an open-addressing hash table for globals and interned strings.

pub mod chunk;
pub mod compiler;
pub mod debug;
pub mod number;
pub mod scanner;
pub mod table;
pub mod text;
pub mod value;
pub mod vm;
