//! Scanning, parsing and level-order rendering of arithmetic expressions.
//!
//! One line of text at a time is tokenized by [`scanner::Scanner`], parsed
//! against a fixed LL(1) grammar by [`parser::Parser`], and the resulting
//! concrete parse tree is rendered breadth first, one line per depth level.

pub mod line;
pub mod parser;
pub mod render;
pub mod scanner;
pub mod token;
