//! Compilation pipeline of the Gneurshk language: source text is scanned into
//! tokens, tokens are parsed into a program, the program is analyzed for
//! semantic problems and lowered to a low-level intermediate representation.
//! Every stage is a total function with a proved contract.
pub mod analyzer;
pub mod ast;
pub mod compiler;
pub mod lexer;
pub mod parser;
pub mod pipeline;
pub mod text;
pub mod tokens;
pub mod types;
