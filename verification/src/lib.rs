//! An arithmetic-expression compiler: parenthesis auto-balancing, lexing,
//! infix-to-postfix conversion (shunting-yard) and postfix well-formedness
//! checking, with exact contracts over a token-level model.
//!
//! Numeric literals travel through the pipeline as their source text; the
//! caller performs the floating-point arithmetic on the compiled postfix
//! program.

pub mod balance;
pub mod error;
pub mod eval;
pub mod lex;
pub mod parse;
pub mod token;
