//! A small bytecode toolchain for arithmetic expressions: a lexer, a
//! single-pass Pratt compiler that emits bytecode into a [`chunk::Chunk`],
//! and a stack machine that runs it.
//!
//! Numbers are IEEE-754 doubles. Inside the library a number is carried as
//! its 64-bit pattern (`u64`); the arithmetic on those patterns is done in
//! software by `rustc_apfloat`.
pub mod chunk;
pub mod scanner;
pub mod value;
pub mod expr;
pub mod compiler;
pub mod vm;
pub mod debug;
