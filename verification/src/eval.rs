//! The postfix well-formedness check and the compilation entry point.
//!
//! Running a postfix sequence pushes one value for every number, constant or
//! previous-answer token and replaces an operator's or function's operands
//! by one result. The check simulates exactly those stack heights: a pop
//! from too short a stack, or an end with anything but exactly one value,
//! is the operand-count error; what passes the check evaluates cleanly.

use vstd::prelude::*;
use crate::balance::{
    autobalance_parens, balance_scan, close_parens, lemma_autobalance_balanced,
    lemma_ltrim_append, lemma_remove_spaces_append, lemma_remove_spaces_closes, ltrim, normalize,
    normalize_view, remove_spaces, rtrim, spec_balance, str_chars,
};
use crate::error::{err_stack_arity, msg_mismatched_parens, msg_stack_arity, CalcError, ErrView};
use crate::lex::{lexer, spec_lex, word_eq};
use crate::parse::{lemma_postfix_no_group_tokens, no_group_tokens, spec_to_postfix, to_postfix};
use crate::token::{fn_arity, op_arity, toks_view, Token, TokenView};

verus! {

/// Whether a token pushes a value onto the evaluation stack.
pub open spec fn tv_pushes_value(t: TokenView) -> bool {
    t is Number || t is PrevAns || t is Constant
}

/// How many operands a token pops from the evaluation stack.
pub open spec fn tv_arity(t: TokenView) -> nat {
    match t {
        TokenView::Operator(op) => op_arity(op),
        TokenView::Function(f) => fn_arity(f),
        _ => 0,
    }
}

/// The evaluation-stack height after running the postfix tokens from `i` on,
/// starting at height `h`; `None` when some token pops more operands than
/// the stack holds.
pub open spec fn rpn_run(ts: Seq<TokenView>, i: int, h: nat) -> Option<nat>
    decreases ts.len() - i,
{
    if i < 0 || i >= ts.len() {
        Some(h)
    } else {
        let t = ts[i];
        if tv_pushes_value(t) {
            rpn_run(ts, i + 1, h + 1)
        } else if h >= tv_arity(t) {
            rpn_run(ts, i + 1, (h - tv_arity(t) + 1) as nat)
        } else {
            None
        }
    }
}

/// A postfix sequence is well-formed exactly when running it underflows
/// nowhere and leaves exactly one value.
pub open spec fn rpn_ok(ts: Seq<TokenView>) -> bool {
    rpn_run(ts, 0, 0) == Some(1nat)
}

/// Check that the postfix sequence evaluates to exactly one value.
///
/// Returns `Ok` precisely on the well-formed sequences; everything else —
/// too many operators, too few operands, leftover values — gets the one
/// operand-count error.
#[verifier::loop_isolation(false)]
pub fn check_postfix(ts: &Vec<Token>) -> (r: Result<(), CalcError>)
    ensures
        r is Ok <==> rpn_ok(toks_view(ts@)),
        r matches Err(e) ==> e@ == ErrView::Parser(msg_stack_arity()),
{
    let ghost xs = toks_view(ts@);
    let total = ts.len();
    proof {
        assert(xs.len() == total as int);
    }
    let mut h: usize = 0;
    let mut i: usize = 0;
    while i < total
        invariant
            i <= total,
            h <= i,
            rpn_run(xs, 0, 0) == rpn_run(xs, i as int, h as nat),
        decreases total - i,
    {
        proof {
            assert(toks_view(ts@)[i as int] == ts@[i as int]@);
        }
        match &ts[i] {
            Token::Number(_) => {
                h = h + 1;
            },
            Token::PrevAns => {
                h = h + 1;
            },
            Token::Constant(_) => {
                h = h + 1;
            },
            Token::Operator(op) => {
                let a = op.arity() as usize;
                if h < a {
                    proof {
                        assert(rpn_run(xs, i as int, h as nat) is None);
                    }
                    return Err(err_stack_arity());
                }
                h = h - a + 1;
            },
            Token::Function(f) => {
                let a = f.arity() as usize;
                if h < a {
                    proof {
                        assert(rpn_run(xs, i as int, h as nat) is None);
                    }
                    return Err(err_stack_arity());
                }
                h = h - a + 1;
            },
            Token::LParen => {
                h = h + 1;
            },
            Token::RParen => {
                h = h + 1;
            },
            Token::Comma => {
                h = h + 1;
            },
        }
        i = i + 1;
    }
    proof {
        assert(rpn_run(xs, i as int, h as nat) == Some(h as nat));
    }
    if h == 1 {
        Ok(())
    } else {
        Err(err_stack_arity())
    }
}

/// What compilation produces: nothing to evaluate (empty input stands for
/// zero), or a well-formed postfix program.
pub enum Compiled {
    Empty,
    Program(Vec<Token>),
}

/// The mathematical image of a compilation result.
pub enum CompiledView {
    Empty,
    Program(Seq<TokenView>),
}

impl View for Compiled {
    type V = CompiledView;

    open spec fn view(&self) -> CompiledView {
        match self {
            Compiled::Empty => CompiledView::Empty,
            Compiled::Program(ts) => CompiledView::Program(toks_view(ts@)),
        }
    }
}

/// The whole pipeline on the raw input: normalize the whitespace, answer
/// `help`, read empty input as zero, balance the parentheses, lex, convert
/// to postfix, and check the postfix stack discipline.
pub open spec fn spec_compile(s: Seq<char>, has_prev: bool) -> Result<CompiledView, ErrView> {
    let n = normalize_view(s);
    if n == "help"@ {
        Err(ErrView::Help)
    } else if n.len() == 0 {
        Ok(CompiledView::Empty)
    } else {
        match spec_balance(n) {
            None => Err(ErrView::Syntax(msg_mismatched_parens())),
            Some(b) => match spec_lex(b, has_prev) {
                Err(e) => Err(e),
                Ok(ts) => match spec_to_postfix(ts) {
                    Err(e) => Err(e),
                    Ok(ps) => if rpn_ok(ps) {
                        Ok(CompiledView::Program(ps))
                    } else {
                        Err(ErrView::Parser(msg_stack_arity()))
                    },
                },
            },
        }
    }
}

/// Compile a raw expression into a postfix program ready for evaluation.
///
/// `has_prev` says whether a previous answer exists for `_` to refer to.
/// The result is exactly the image of the four-stage pipeline: the first
/// stage that fails decides the error, and a returned program is well-formed.
pub fn compile(input: &str, has_prev: bool) -> (r: Result<Compiled, CalcError>)
    ensures
        match r {
            Ok(c) => spec_compile(input@, has_prev) == Ok::<_, ErrView>(c@),
            Err(e) => spec_compile(input@, has_prev) == Err::<CompiledView, _>(e@),
        },
{
    let chars = str_chars(input);
    let n = normalize(&chars);
    if word_eq(&n, "help") {
        return Err(CalcError::Help);
    }
    if n.len() == 0 {
        return Ok(Compiled::Empty);
    }
    let balanced = match autobalance_parens(n) {
        Ok(b) => b,
        Err(e) => {
            return Err(e);
        },
    };
    let tokens = match lexer(&balanced, has_prev) {
        Ok(ts) => ts,
        Err(e) => {
            return Err(e);
        },
    };
    let postfix = match to_postfix(tokens) {
        Ok(ps) => ps,
        Err(e) => {
            return Err(e);
        },
    };
    match check_postfix(&postfix) {
        Ok(_) => Ok(Compiled::Program(postfix)),
        Err(e) => Err(e),
    }
}


/// Unclosed parentheses are auto-closed: an expression whose open
/// parentheses are left unclosed compiles exactly as the same expression
/// with the missing close parentheses written out, because the preprocessor
/// appends them before any later stage reads the text. The input may not
/// carry trailing whitespace, which writing characters after it would turn
/// into interior whitespace.
pub proof fn lemma_auto_close(s: Seq<char>, has_prev: bool)
    requires
        rtrim(ltrim(remove_spaces(s))) == ltrim(remove_spaces(s)),
        balance_scan(normalize_view(s), 0, 0) is Some,
    ensures
        spec_compile(s + close_parens(balance_scan(normalize_view(s), 0, 0)->Some_0), has_prev)
            == spec_compile(s, has_prev),
{
    let n = normalize_view(s);
    let d = balance_scan(n, 0, 0)->Some_0;
    let cp = close_parens(d);
    if d == 0 {
        assert(cp =~= Seq::<char>::empty());
        assert(s + cp =~= s);
    } else {
        assert(cp[0] == ')');
        assert(cp.last() == ')');
        lemma_remove_spaces_append(s, cp);
        lemma_remove_spaces_closes(d);
        lemma_ltrim_append(remove_spaces(s), cp);
        assert(n == ltrim(remove_spaces(s)));
        assert(ltrim(remove_spaces(s + cp)) == n + cp);
        assert((n + cp).last() == ')');
        assert(rtrim(n + cp) == n + cp);
        assert(normalize_view(s + cp) == n + cp);
        // The normalized forms are neither empty nor the help keyword.
        if n.len() == 0 {
            assert(balance_scan(n, 0, 0) == Some(0nat));
            assert(false);
        }
        proof_help_has_no_paren(n, d);
        if n + cp == "help"@ {
            reveal_strlit("help");
            assert((n + cp).last() == 'p');
            assert(false);
        }
        // Both sides balance to the same string.
        lemma_autobalance_balanced(n);
        assert(spec_balance(n) == Some(n + cp));
        assert(spec_balance(n + cp) == Some((n + cp)));
        assert(spec_compile(s + cp, has_prev) == spec_compile(s, has_prev));
    }
}

/// `help` holds no parenthesis, so its scan leaves depth zero.
proof fn proof_help_has_no_paren(n: Seq<char>, d: nat)
    requires
        balance_scan(n, 0, 0) == Some(d),
        d > 0,
    ensures
        n != "help"@,
{
    if n == "help"@ {
        reveal_strlit("help");
        assert(n.len() == 4);
        assert(balance_scan(n, 0, 0) == balance_scan(n, 1, 0));
        assert(balance_scan(n, 1, 0) == balance_scan(n, 2, 0));
        assert(balance_scan(n, 2, 0) == balance_scan(n, 3, 0));
        assert(balance_scan(n, 3, 0) == balance_scan(n, 4, 0));
        assert(balance_scan(n, 4, 0) == Some(0nat));
        assert(false);
    }
}


/// A program that compilation returns is ready to run: it holds no
/// parenthesis and no comma, and running it on an empty stack underflows
/// nowhere and leaves exactly one value. An evaluator may therefore pop
/// every operand unconditionally and return the one value that remains.
pub proof fn lemma_compiled_program_runs(s: Seq<char>, has_prev: bool)
    ensures
        spec_compile(s, has_prev) matches Ok(c) ==> (c matches CompiledView::Program(ps) ==> {
            &&& rpn_ok(ps)
            &&& no_group_tokens(ps)
        }),
{
    let n = normalize_view(s);
    if !(n == "help"@) && n.len() != 0 {
        match spec_balance(n) {
            Some(b) => {
                match spec_lex(b, has_prev) {
                    Ok(ts) => {
                        lemma_postfix_no_group_tokens(ts);
                    },
                    Err(_) => {},
                }
            },
            None => {},
        }
    }
}

} // verus!
