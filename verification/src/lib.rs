//! A lexical scanner for a small C-like scripting language.
//!
//! The scanner turns source text into a stream of tokens: keywords,
//! identifiers, integer literals, operators and delimiters.  It is pulled
//! one token at a time through [`lexer::Lexer::next_token`] until the
//! input is exhausted.

pub mod lexer;
pub mod token;
