//! Compiles Protocol Buffers definitions into zod validation schemas.
//!
//! The pipeline is `parser::parse` (text to syntax tree), then
//! `typescript::to_schema` (syntax tree to schema text), which resolves type
//! references through the symbol table of `context`.

pub mod ast;
pub mod cli;
pub mod context;
pub mod errors;
pub mod lexer;
pub mod parser;
pub mod text;
pub mod typescript;
