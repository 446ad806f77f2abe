//! The token alphabet shared by the lexer, the parser and the postfix
//! checker, together with the precedence / associativity / arity tables.

use vstd::prelude::*;

verus! {

/// Operator symbols. `Neg` is the unary minus that the parser resolves from
/// a `-` found in operand position; the lexer itself only emits `Sub`.
#[derive(Clone, Copy, Debug, PartialEq, Eq, Structural)]
pub enum OpKind {
    Add,
    Sub,
    Mul,
    Div,
    Pow,
    Neg,
}

/// The fixed table of named functions.
#[derive(Clone, Copy, Debug, PartialEq, Eq, Structural)]
pub enum FnKind {
    Sin,
    Cos,
    Tan,
    Asin,
    Acos,
    Atan,
    Deg,
    Rad,
    Sqrt,
    Cbrt,
    Ln,
    Log10,
    Exp,
    Exp2,
    Abs,
    Ceil,
    Floor,
    Round,
    Nroot,
    Log,
    Min,
    Max,
}

/// The named constants.
#[derive(Clone, Copy, Debug, PartialEq, Eq, Structural)]
pub enum ConstKind {
    E,
    Pi,
}

/// A lexed token. A `Number` carries the characters of its literal exactly
/// as they stood in the input; the caller turns them into a machine number
/// only after the pipeline has succeeded.
#[derive(Clone, Debug, PartialEq)]
pub enum Token {
    Number(Vec<char>),
    PrevAns,
    Constant(ConstKind),
    Operator(OpKind),
    Function(FnKind),
    LParen,
    RParen,
    Comma,
}

/// The mathematical image of a `Token`: the literal text becomes a sequence
/// of characters.
pub enum TokenView {
    Number(Seq<char>),
    PrevAns,
    Constant(ConstKind),
    Operator(OpKind),
    Function(FnKind),
    LParen,
    RParen,
    Comma,
}

impl View for Token {
    type V = TokenView;

    open spec fn view(&self) -> TokenView {
        match self {
            Token::Number(s) => TokenView::Number(s@),
            Token::PrevAns => TokenView::PrevAns,
            Token::Constant(c) => TokenView::Constant(*c),
            Token::Operator(o) => TokenView::Operator(*o),
            Token::Function(f) => TokenView::Function(*f),
            Token::LParen => TokenView::LParen,
            Token::RParen => TokenView::RParen,
            Token::Comma => TokenView::Comma,
        }
    }
}

/// The views of a token sequence, in order.
pub open spec fn toks_view(ts: Seq<Token>) -> Seq<TokenView> {
    ts.map_values(|t: Token| t@)
}

pub proof fn lemma_toks_view_push(a: Seq<Token>, t: Token)
    ensures
        toks_view(a.push(t)) == toks_view(a).push(t@),
{
    assert(toks_view(a.push(t)) =~= toks_view(a).push(t@));
}


/// Binding strength of an operator; a larger number binds tighter.
pub open spec fn op_prec(op: OpKind) -> nat {
    match op {
        OpKind::Add => 2,
        OpKind::Sub => 2,
        OpKind::Mul => 3,
        OpKind::Div => 3,
        OpKind::Pow => 4,
        OpKind::Neg => 5,
    }
}

/// Left-associative operators group left to right; `Pow` and `Neg` group
/// right to left.
pub open spec fn op_left_assoc(op: OpKind) -> bool {
    match op {
        OpKind::Add => true,
        OpKind::Sub => true,
        OpKind::Mul => true,
        OpKind::Div => true,
        OpKind::Pow => false,
        OpKind::Neg => false,
    }
}

/// Number of operands an operator consumes.
pub open spec fn op_arity(op: OpKind) -> nat {
    match op {
        OpKind::Neg => 1,
        _ => 2,
    }
}

/// Number of arguments a function requires.
pub open spec fn fn_arity(f: FnKind) -> nat {
    match f {
        FnKind::Nroot => 2,
        FnKind::Log => 2,
        FnKind::Min => 2,
        FnKind::Max => 2,
        _ => 1,
    }
}

impl OpKind {
    /// Executable twin of [`op_prec`].
    pub fn prec(self) -> (r: u32)
        ensures
            r as nat == op_prec(self),
    {
        match self {
            OpKind::Add => 2,
            OpKind::Sub => 2,
            OpKind::Mul => 3,
            OpKind::Div => 3,
            OpKind::Pow => 4,
            OpKind::Neg => 5,
        }
    }

    /// Executable twin of [`op_left_assoc`].
    pub fn left_assoc(self) -> (r: bool)
        ensures
            r == op_left_assoc(self),
    {
        match self {
            OpKind::Add => true,
            OpKind::Sub => true,
            OpKind::Mul => true,
            OpKind::Div => true,
            OpKind::Pow => false,
            OpKind::Neg => false,
        }
    }

    /// Executable twin of [`op_arity`].
    pub fn arity(self) -> (r: u32)
        ensures
            r as nat == op_arity(self),
    {
        match self {
            OpKind::Neg => 1,
            _ => 2,
        }
    }
}

impl FnKind {
    /// Executable twin of [`fn_arity`].
    pub fn arity(self) -> (r: u32)
        ensures
            r as nat == fn_arity(self),
    {
        match self {
            FnKind::Nroot => 2,
            FnKind::Log => 2,
            FnKind::Min => 2,
            FnKind::Max => 2,
            _ => 1,
        }
    }
}

} // verus!
