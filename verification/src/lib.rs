//! A small configuration predicate language: expressions such as
//! `all(not(windows), target_env = "musl")` are parsed into a postfix
//! instruction sequence and evaluated against a caller-supplied valuation
//! of each atomic predicate, under a pluggable logic algebra. Platform
//! predicates can be matched against a concrete target description, or
//! against the alternate triple representation of the `target_lexicon`
//! crate with its documented naming irregularities.

pub mod alt;
pub mod expr;
pub mod laws;
pub mod lexer;
pub mod parser;
pub mod targets;
pub mod text;

pub use expr::{Expression, Func, Logic, Predicate, TargetPredicate};
pub use parser::{ParseError, ParseReason};
