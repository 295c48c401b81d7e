//! The lexical front end of a small interpreted language: source text in,
//! classified tokens out.
//!
//! `token` holds the kinds of tokens and the token itself, `scan` the
//! grammar as specification, `theory` what is proved of the grammar, and
//! `lexer` the scanner that is verified against it.

pub mod lexer;
pub mod scan;
pub mod theory;
pub mod token;
