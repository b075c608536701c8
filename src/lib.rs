//! The front half of a tree-walking interpreter for a small C-like
//! scripting language: a scanner, a recursive-descent parser and an
//! evaluator with lexically scoped variables. Each function states its
//! result over a mathematical model (`scan_source`, `parse_tokens`, `eval`,
//! `exec_stmt`), and Verus proves the code against it.
//!
//! Numbers are exact fractions, not floating point: a sign, and a
//! numerator and a denominator that are naturals of any size
//! (`natural`, `number::Num`). So:
//! - every numeric literal scans, to exactly the decimal it spells;
//! - `+`, `-`, `*` and `/` on numbers always give a number, exact and
//!   unrounded, except division by zero, which is a runtime error;
//! - `0.1 + 0.2 == 0.3` holds;
//! - a number is written with at most 16 decimals, truncated, so terminating
//!   decimals print as written ("46.6") and others are cut
//!   ("0.3333333333333333").

pub mod text;
pub mod number;
pub mod natural;
pub mod token;
pub mod error;
pub mod scanner;
pub mod expr;
pub mod ast_printer;
pub mod stmt;
pub mod parser;
pub mod typer;
pub mod environment;
pub mod interpreter;
pub mod runner;
pub mod arith;

pub use runner::Runner;
