//! A compiler for a small subset of C: lexing, parsing, lowering to a
//! three-address intermediate form (TACKY), assembly generation, and
//! emission of assembly text for x86-64 and ARM64.
//!
//! Every stage states what it computes in its contract, and the laws of
//! the stages are proved: lexing and parsing invert writing a program out,
//! and each lowering step preserves the value the program returns.

pub mod chars;
pub mod semantics;

pub mod lexer;
pub mod ast;
pub mod parser;
pub mod tacky;
pub mod assembly_ast;
pub mod codegen;
pub mod codegen_correctness;
pub mod emit;
pub mod emit_arm64;
pub mod emit_x86_64;
