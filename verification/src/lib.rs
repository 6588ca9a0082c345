//! A lexical analyzer for a small C-like scripting language: source text in, an
//! ordered sequence of tokens (or the first lexical error) out.
//!
//! * [`grammar`] says, as mathematics, which tokens a text holds;
//! * [`tokenizer`] holds the lexer, which is proved to return just those;
//! * [`token`] and [`error`] hold what the lexer returns;
//! * [`keywords`] holds the reserved words, [`chars`] the character classes, and
//!   [`text`] what is needed to cut a lexeme out of a text;
//! * [`laws`] proves what holds of every lexing.

pub mod chars;
pub mod error;
pub mod grammar;
pub mod keywords;
pub mod laws;
pub mod text;
pub mod token;
pub mod tokenizer;
