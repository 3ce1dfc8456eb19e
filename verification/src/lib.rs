//! A small compiler pipeline for a C-like language: source model, lexer,
//! diagnostics, parser, code generation and assembly text emission.
pub mod utils;
pub mod source;
pub mod literal;
pub mod lexer;
pub mod ast;
pub mod assembly;
pub mod codegen;
pub mod diagnostics;
pub mod parser;
pub mod driver;
