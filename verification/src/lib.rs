//! Xiao: validated source text, tokens, lexer, syntax tree and the runtime's value, table and container rules.

pub mod source;
pub mod utf8_layout;
pub mod diagnostics;
pub mod token;
pub mod ast;
pub mod selectors;
pub mod imports;
pub mod text;
pub mod l0_lexer;
pub mod lexer;
pub mod parser;
pub mod runtime;
