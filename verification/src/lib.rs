//! Evaluator for arithmetic expressions in a letter-coded token alphabet.
//!
//! Digits `0`-`9` stand for themselves; the letters `a`, `b`, `c`, `d` stand
//! for addition, subtraction, multiplication and division; `e` and `f` open
//! and close a parenthesized group. Outside parentheses, operators apply
//! strictly left to right with no precedence. Whitespace may appear anywhere.

pub mod eval;
pub mod laws;
pub mod semantics;
pub mod token;
