//! The error taxonomy shared by every stage of the pipeline. A stage's
//! failure short-circuits the stages after it; the caller presents the
//! message.

use vstd::prelude::*;
use crate::token::FnKind;

verus! {

/// What went wrong, with a descriptive message.
///
/// * `Help` — the caller asked for usage text; not a failure.
/// * `Syntax` — malformed structure: mismatched parentheses, misplaced
///   comma, an unrecognized character.
/// * `Parser` — structurally valid tokens in an invalid arrangement:
///   operand-stack underflow or leftovers, too few function arguments.
/// * `Lexer` — an unknown name, a malformed numeric literal, or use of the
///   previous answer when none is available.
#[derive(Clone, Debug, PartialEq)]
pub enum CalcError {
    Help,
    Syntax(String),
    Parser(String),
    Lexer(String),
}

/// The mathematical image of a `CalcError`: messages become character
/// sequences.
pub enum ErrView {
    Help,
    Syntax(Seq<char>),
    Parser(Seq<char>),
    Lexer(Seq<char>),
}

impl View for CalcError {
    type V = ErrView;

    open spec fn view(&self) -> ErrView {
        match self {
            CalcError::Help => ErrView::Help,
            CalcError::Syntax(m) => ErrView::Syntax(m@),
            CalcError::Parser(m) => ErrView::Parser(m@),
            CalcError::Lexer(m) => ErrView::Lexer(m@),
        }
    }
}

/// Message for a close parenthesis with no matching open, or an open one
/// the parser never saw closed.
pub open spec fn msg_mismatched_parens() -> Seq<char> {
    "Mismatched parentheses!"@
}

/// Message for an operand-stack underflow or leftover during postfix
/// checking.
pub open spec fn msg_stack_arity() -> Seq<char> {
    "Too many operators, Too little operands"@
}

/// Message for a comma standing outside a function call's parentheses.
pub open spec fn msg_comma_misuse() -> Seq<char> {
    "Comma without matching function call!"@
}

/// Message for a character no token starts with.
pub open spec fn msg_unexpected_char() -> Seq<char> {
    "Unexpected character!"@
}

/// Message for a word that names no function or constant.
pub open spec fn msg_unknown_word() -> Seq<char> {
    "Unknown function or constant!"@
}

/// Message for a numeric literal that is not a number.
pub open spec fn msg_bad_number() -> Seq<char> {
    "Could not parse number!"@
}

/// Message for `_` when the caller supplied no previous answer.
pub open spec fn msg_no_prev_ans() -> Seq<char> {
    "No previous answer!"@
}

/// Message for a two-argument function called with a single argument.
pub open spec fn msg_too_few_args(f: FnKind) -> Seq<char> {
    match f {
        FnKind::Nroot => "Too few arguments (1) for function nroot (requires 2)!"@,
        FnKind::Log => "Too few arguments (1) for function log (requires 2)!"@,
        FnKind::Min => "Too few arguments (1) for function min (requires 2)!"@,
        FnKind::Max => "Too few arguments (1) for function max (requires 2)!"@,
        _ => "Too few arguments for function!"@,
    }
}

pub fn err_mismatched_parens() -> (e: CalcError)
    ensures
        e@ == ErrView::Syntax(msg_mismatched_parens()),
{
    CalcError::Syntax("Mismatched parentheses!".to_owned())
}

pub fn err_stack_arity() -> (e: CalcError)
    ensures
        e@ == ErrView::Parser(msg_stack_arity()),
{
    CalcError::Parser("Too many operators, Too little operands".to_owned())
}

pub fn err_comma_misuse() -> (e: CalcError)
    ensures
        e@ == ErrView::Syntax(msg_comma_misuse()),
{
    CalcError::Syntax("Comma without matching function call!".to_owned())
}

pub fn err_unexpected_char() -> (e: CalcError)
    ensures
        e@ == ErrView::Syntax(msg_unexpected_char()),
{
    CalcError::Syntax("Unexpected character!".to_owned())
}

pub fn err_unknown_word() -> (e: CalcError)
    ensures
        e@ == ErrView::Lexer(msg_unknown_word()),
{
    CalcError::Lexer("Unknown function or constant!".to_owned())
}

pub fn err_bad_number() -> (e: CalcError)
    ensures
        e@ == ErrView::Lexer(msg_bad_number()),
{
    CalcError::Lexer("Could not parse number!".to_owned())
}

pub fn err_no_prev_ans() -> (e: CalcError)
    ensures
        e@ == ErrView::Lexer(msg_no_prev_ans()),
{
    CalcError::Lexer("No previous answer!".to_owned())
}

pub fn err_too_few_args(f: FnKind) -> (e: CalcError)
    ensures
        e@ == ErrView::Parser(msg_too_few_args(f)),
{
    match f {
        FnKind::Nroot => CalcError::Parser(
            "Too few arguments (1) for function nroot (requires 2)!".to_owned(),
        ),
        FnKind::Log => CalcError::Parser(
            "Too few arguments (1) for function log (requires 2)!".to_owned(),
        ),
        FnKind::Min => CalcError::Parser(
            "Too few arguments (1) for function min (requires 2)!".to_owned(),
        ),
        FnKind::Max => CalcError::Parser(
            "Too few arguments (1) for function max (requires 2)!".to_owned(),
        ),
        _ => CalcError::Parser("Too few arguments for function!".to_owned()),
    }
}

impl CalcError {
    /// The message a caller should present for this error.
    pub fn message(&self) -> (m: String)
        ensures
            match self@ {
                ErrView::Help => true,
                ErrView::Syntax(s) => m@ == s,
                ErrView::Parser(s) => m@ == s,
                ErrView::Lexer(s) => m@ == s,
            },
    {
        match self {
            CalcError::Help => "enter an expression to evaluate it".to_owned(),
            CalcError::Syntax(m) => m.clone(),
            CalcError::Parser(m) => m.clone(),
            CalcError::Lexer(m) => m.clone(),
        }
    }
}

} // verus!
