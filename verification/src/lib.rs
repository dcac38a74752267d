//! A single-pass tokenizer for a small programming language.
//!
//! The scanner walks the source text character by character, tracking the
//! current line for diagnostics, and classifies punctuation, operators,
//! string and numeric literals, identifiers and the reserved keyword `def`,
//! while skipping comments and whitespace.  The intended output is pinned
//! down by a mathematical scanner (`model::spec_scan`) over the character
//! sequence of the source, and the executable scanner is proved to return
//! exactly that.

pub mod laws;
pub mod lexer;
pub mod model;
pub mod token;
