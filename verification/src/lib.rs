//! A verified lexical scanner for a small scripting language.
//!
//! The scanner turns a finite sequence of characters into a flat sequence of
//! typed tokens for a downstream parser.  The module [`rules`] gives the
//! mathematical description of the scan as recursive spec functions; the
//! module [`lexer`] holds the executable scanner, proved to return exactly
//! what the rules say; the module [`laws`] states and proves the general
//! properties of the scan (round trips, greedy matching, keyword precedence).

pub mod laws;
pub mod lexer;
pub mod rules;
pub mod token;
