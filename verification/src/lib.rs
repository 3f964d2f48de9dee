//! The Sapphire compiler front end, verified with Verus.
//!
//! The stages are layered so that each consumes the previous one's
//! output: `lexer` (bytes to tokens), `layout` (off-side rule to
//! explicit braces), `parser` (tokens to the surface AST in `ast`).
//! `error` unifies the per-stage errors and `analyze` runs the whole
//! front end in one call.
#![allow(unused_imports)]

pub mod span;
pub mod ast;
pub mod layout;
pub mod lexer;
pub mod parser;
pub mod text;
pub mod error;
pub mod analyze;
pub mod resolver;
pub mod codegen;
pub mod typeck;
