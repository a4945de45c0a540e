//! A small lambda-calculus front end: a lexer, a backtracking parser with
//! delimiter tracking and error recovery, and a unification-based type checker.

pub mod diag;
pub mod lexer;
pub mod parser;
pub mod text;
pub mod token;
pub mod types;
pub mod typy;
pub mod check;
pub mod syntax;
pub mod skim;
pub mod program;
pub mod table;
pub mod parsers;
