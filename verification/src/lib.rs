//! Lexical analysis for an assembly language: source text in, typed tokens
//! with exact source ranges out, or the first lexical error.

pub mod chars;
pub mod coordinates;
pub mod fidelity;
pub mod grammar;
pub mod laws;
pub mod lexer;
pub mod mnemonics;
pub mod register;
pub mod text_mapping;
pub mod token;
