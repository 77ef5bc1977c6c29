//! Lexical front end for a small dynamically-typed scripting language.
//!
//! The scanner turns a source string into an ordered sequence of classified
//! tokens, tracking 1-based line numbers for diagnostics, and stops at the
//! first invalid input with a positioned error. The whole scan is specified
//! by a mathematical model of the token stream (`model::scan_spec`), and the
//! executable scanner is proved to compute exactly that model.

pub mod error;
pub mod keywords;
pub mod model;
pub mod scanner;
pub mod token;
