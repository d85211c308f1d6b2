//! A verified lexical front-end for a small interactive language.
//!
//! The scanner turns a source string into an ordered sequence of classified
//! tokens, terminated by an end-of-input sentinel; on the first invalid
//! lexeme it aborts, discards the tokens collected so far, and records a
//! diagnostic that the caller may render.  Every position is a character
//! offset from the start of the input, and every line number counts the
//! newlines consumed before the lexeme began.

pub mod diag;
pub mod laws;
pub mod lexer;
pub mod logger;
pub mod scanner;
pub mod text;
pub mod token;
pub mod util;
