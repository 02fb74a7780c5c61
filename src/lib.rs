//! A lexical scanner for a small C-like scripting language: it turns source
//! text into a stream of typed tokens, one per call.
pub mod lexer;
pub mod stream;
pub mod token;
