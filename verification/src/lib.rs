//! A lexical scanner for a small Lisp-like language.
//!
//! The scanner walks a source text character by character and classifies
//! runs of characters into punctuation, arithmetic operators, string
//! literals, numeric literals, identifiers and keywords.  Its behaviour is
//! specified by the pure model in [`model`], and every scanning routine is
//! proved to follow that model.

pub mod builtins;
pub mod laws;
pub mod lexer;
pub mod numerals;
pub mod model;
pub mod text;
pub mod token;
