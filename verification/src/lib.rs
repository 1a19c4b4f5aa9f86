//! A small bytecode virtual machine for a dynamically typed scripting
//! language: a scanner that turns source text into tokens, a chunk of
//! bytecode with its constant pool, and a stack machine that runs a chunk.

pub mod chunk;
pub mod stack;
pub mod scanner;
pub mod vm;
pub mod compiler;
