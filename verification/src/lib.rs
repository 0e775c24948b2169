//! A lexical analyzer that turns the raw bytes of a source file into a
//! stream of tokens annotated with 1-based row/column locations.
//!
//! The caller loads the bytes (reading the file is the caller's business),
//! builds a [`lexer::Lexer`] over them, and calls [`lexer::Lexer::next`]
//! until it reports end of input. Each call skips leading whitespace, then
//! matches a fixed symbol (single-character operators, or `<=`, `>=`, `=>`
//! by one-byte lookahead), or else scans a maximal alphanumeric run.

pub mod lexer;
pub mod token;
