//! The parser: converts the infix token sequence into a postfix
//! (reverse-Polish) sequence by the shunting-yard algorithm, resolving
//! precedence, associativity, unary minus and function-argument grouping.
//!
//! A comma is accepted only where its enclosing parenthesis belongs to a
//! function call; one directly inside a grouping parenthesis that follows an
//! operator is rejected here, while one in other positions surfaces later as
//! an operand-count error when the postfix sequence is checked. A
//! two-argument function closed after a single argument is rejected with an
//! error naming the function; surplus arguments likewise surface at the
//! postfix check.

use vstd::prelude::*;
use crate::error::{
    err_comma_misuse, err_mismatched_parens, err_too_few_args, msg_comma_misuse,
    msg_mismatched_parens, msg_too_few_args, CalcError, ErrView,
};
use crate::token::{
    fn_arity, lemma_toks_view_push, op_left_assoc, op_prec, toks_view, FnKind, OpKind, Token,
    TokenView,
};

verus! {

/// The shunting-yard state: the output queue, the operator stack, the
/// comma count of each open parenthesis scope (innermost last), and the
/// previous input token, which decides whether a `-` is unary.
pub struct SyState {
    pub out: Seq<TokenView>,
    pub ops: Seq<TokenView>,
    pub argc: Seq<nat>,
    pub prev: Option<TokenView>,
}

/// A `-` is unary at the start of the expression, after `(`, after a comma,
/// or after another operator.
pub open spec fn unary_context(prev: Option<TokenView>) -> bool {
    match prev {
        None => true,
        Some(t) => t is LParen || t is Comma || t is Operator,
    }
}

/// Pop operators that bind at least as tightly as `op` onto the output.
pub open spec fn pop_higher(out: Seq<TokenView>, ops: Seq<TokenView>, op: OpKind) -> (
    Seq<TokenView>,
    Seq<TokenView>,
)
    decreases ops.len(),
{
    if ops.len() > 0 && ops.last() is Operator && (op_prec(ops.last()->Operator_0) > op_prec(op)
        || (op_prec(ops.last()->Operator_0) == op_prec(op) && op_left_assoc(op))) {
        pop_higher(out.push(ops.last()), ops.drop_last(), op)
    } else {
        (out, ops)
    }
}

/// Pop operators onto the output until an open parenthesis is on top, or
/// `None` if there is none anywhere on the stack.
pub open spec fn pop_to_lparen(out: Seq<TokenView>, ops: Seq<TokenView>) -> Option<
    (Seq<TokenView>, Seq<TokenView>),
>
    decreases ops.len(),
{
    if ops.len() == 0 {
        None
    } else if ops.last() is LParen {
        Some((out, ops))
    } else {
        pop_to_lparen(out.push(ops.last()), ops.drop_last())
    }
}

/// One shunting-yard step on one input token.
pub open spec fn sy_step(st: SyState, t: TokenView) -> Result<SyState, ErrView> {
    if t is Number || t is PrevAns || t is Constant {
        Ok(SyState { out: st.out.push(t), ops: st.ops, argc: st.argc, prev: Some(t) })
    } else if t is Function {
        Ok(SyState { out: st.out, ops: st.ops.push(t), argc: st.argc, prev: Some(t) })
    } else if t is LParen {
        Ok(
            SyState {
                out: st.out,
                ops: st.ops.push(t),
                argc: st.argc.push(0),
                prev: Some(t),
            },
        )
    } else if t is Comma {
        match pop_to_lparen(st.out, st.ops) {
            None => Err(ErrView::Syntax(msg_comma_misuse())),
            Some((out2, ops2)) => {
                if ops2.len() >= 2 && ops2[ops2.len() - 2] is Operator {
                    Err(ErrView::Syntax(msg_comma_misuse()))
                } else if st.argc.len() == 0 {
                    Err(ErrView::Syntax(msg_comma_misuse()))
                } else {
                    Ok(
                        SyState {
                            out: out2,
                            ops: ops2,
                            argc: st.argc.update(st.argc.len() - 1, (st.argc.last() + 1) as nat),
                            prev: Some(t),
                        },
                    )
                }
            },
        }
    } else if t is RParen {
        match pop_to_lparen(st.out, st.ops) {
            None => Err(ErrView::Syntax(msg_mismatched_parens())),
            Some((out2, ops2)) => {
                let ops3 = ops2.drop_last();
                let commas: nat = if st.argc.len() > 0 {
                    st.argc.last()
                } else {
                    0
                };
                let argc3 = if st.argc.len() > 0 {
                    st.argc.drop_last()
                } else {
                    st.argc
                };
                if ops3.len() > 0 && ops3.last() is Function {
                    let f = ops3.last()->Function_0;
                    if commas + 1 < fn_arity(f) {
                        Err(ErrView::Parser(msg_too_few_args(f)))
                    } else {
                        Ok(
                            SyState {
                                out: out2.push(ops3.last()),
                                ops: ops3.drop_last(),
                                argc: argc3,
                                prev: Some(t),
                            },
                        )
                    }
                } else {
                    Ok(SyState { out: out2, ops: ops3, argc: argc3, prev: Some(t) })
                }
            },
        }
    } else {
        let op0 = t->Operator_0;
        let op = if op0 is Sub && unary_context(st.prev) {
            OpKind::Neg
        } else {
            op0
        };
        let popped = pop_higher(st.out, st.ops, op);
        Ok(
            SyState {
                out: popped.0,
                ops: popped.1.push(TokenView::Operator(op)),
                argc: st.argc,
                prev: Some(t),
            },
        )
    }
}

/// The empty starting state.
pub open spec fn sy_init() -> SyState {
    SyState { out: Seq::empty(), ops: Seq::empty(), argc: Seq::empty(), prev: None }
}

/// Run the shunting-yard steps from token `i` on.
pub open spec fn sy_run(ts: Seq<TokenView>, i: int, st: SyState) -> Result<SyState, ErrView>
    decreases ts.len() - i,
{
    if i < 0 || i >= ts.len() {
        Ok(st)
    } else {
        match sy_step(st, ts[i]) {
            Ok(st2) => sy_run(ts, i + 1, st2),
            Err(e) => Err(e),
        }
    }
}

/// Drain the operator stack onto the output; a leftover open parenthesis is
/// a syntax error.
pub open spec fn sy_drain(out: Seq<TokenView>, ops: Seq<TokenView>) -> Result<
    Seq<TokenView>,
    ErrView,
>
    decreases ops.len(),
{
    if ops.len() == 0 {
        Ok(out)
    } else if ops.last() is LParen {
        Err(ErrView::Syntax(msg_mismatched_parens()))
    } else {
        sy_drain(out.push(ops.last()), ops.drop_last())
    }
}

/// The postfix sequence of an infix token sequence, or the first error.
pub open spec fn spec_to_postfix(ts: Seq<TokenView>) -> Result<Seq<TokenView>, ErrView> {
    match sy_run(ts, 0, sy_init()) {
        Ok(st) => sy_drain(st.out, st.ops),
        Err(e) => Err(e),
    }
}

/// The state the executable parser's vectors stand for.
pub open spec fn sy_abs(
    out: Seq<Token>,
    ops: Seq<Token>,
    argc: Seq<usize>,
    prev: Option<TokenView>,
) -> SyState {
    SyState {
        out: toks_view(out),
        ops: toks_view(ops),
        argc: argc.map_values(|n: usize| n as nat),
        prev,
    }
}

/// The parsing loop invariant: running the remaining tokens from the
/// current state finishes exactly as running them all from the start.
pub open spec fn sy_inv(ts: Seq<TokenView>, st: SyState, i: int) -> bool {
    match sy_run(ts, i, st) {
        Ok(st2) => sy_run(ts, 0, sy_init()) == Ok::<SyState, ErrView>(st2),
        Err(e) => sy_run(ts, 0, sy_init()) == Err::<SyState, _>(e),
    }
}

proof fn lemma_sy_inv_step(ts: Seq<TokenView>, st: SyState, st2: SyState, i: int)
    requires
        0 <= i < ts.len(),
        sy_inv(ts, st, i),
        sy_step(st, ts[i]) == Ok::<SyState, ErrView>(st2),
    ensures
        sy_inv(ts, st2, i + 1),
{
}

proof fn lemma_sy_inv_err(ts: Seq<TokenView>, st: SyState, i: int, e: ErrView)
    requires
        0 <= i < ts.len(),
        sy_inv(ts, st, i),
        sy_step(st, ts[i]) == Err::<SyState, ErrView>(e),
    ensures
        spec_to_postfix(ts) == Err::<Seq<TokenView>, ErrView>(e),
{
    assert(sy_run(ts, i, st) == Err::<SyState, ErrView>(e));
}

/// Whether the stack's top operator binds at least as tightly as `op`.
fn should_pop(ops: &Vec<Token>, op: OpKind) -> (r: bool)
    ensures
        r == (toks_view(ops@).len() > 0 && toks_view(ops@).last() is Operator && (op_prec(
            toks_view(ops@).last()->Operator_0,
        ) > op_prec(op) || (op_prec(toks_view(ops@).last()->Operator_0) == op_prec(op)
            && op_left_assoc(op)))),
{
    if ops.len() == 0 {
        return false;
    }
    match &ops[ops.len() - 1] {
        Token::Operator(top) => {
            let t = *top;
            t.prec() > op.prec() || (t.prec() == op.prec() && op.left_assoc())
        },
        _ => false,
    }
}

/// Whether the stack still has something above its next open parenthesis.
fn top_not_lparen(ops: &Vec<Token>) -> (r: bool)
    ensures
        r == (ops@.len() > 0 && !(toks_view(ops@).last() is LParen)),
{
    if ops.len() == 0 {
        return false;
    }
    match &ops[ops.len() - 1] {
        Token::LParen => false,
        _ => true,
    }
}

/// Convert the infix token sequence into a postfix sequence.
///
/// On success the result is exactly the shunting-yard image of the input;
/// on failure the error is the algorithm's first: a comma outside a function
/// call, an unmatched parenthesis, or a two-argument function closed after a
/// single argument.
#[verifier::loop_isolation(false)]
pub fn to_postfix(tokens: Vec<Token>) -> (r: Result<Vec<Token>, CalcError>)
    ensures
        match r {
            Ok(v) => spec_to_postfix(toks_view(tokens@)) == Ok::<_, ErrView>(toks_view(v@)),
            Err(e) => spec_to_postfix(toks_view(tokens@)) == Err::<Seq<TokenView>, _>(e@),
        },
{
    let ghost xs = toks_view(tokens@);
    let mut tokens = tokens;
    let total = tokens.len();
    proof {
        assert(xs.len() == total as int);
    }
    let mut out: Vec<Token> = Vec::new();
    let mut ops: Vec<Token> = Vec::new();
    let mut argc: Vec<usize> = Vec::new();
    let ghost mut prevg: Option<TokenView> = None;
    let mut unary = true;
    let mut i: usize = 0;
    proof {
        assert(toks_view(out@) =~= Seq::<TokenView>::empty());
        assert(toks_view(ops@) =~= Seq::<TokenView>::empty());
        assert(argc@.map_values(|n: usize| n as nat) =~= Seq::<nat>::empty());
        assert(sy_abs(out@, ops@, argc@, prevg) == sy_init());
        assert(toks_view(tokens@) =~= xs.skip(0));
    }
    while tokens.len() > 0
        invariant
            0 <= i <= xs.len(),
            xs.len() <= usize::MAX,
            i + tokens@.len() == xs.len(),
            toks_view(tokens@) == xs.skip(i as int),
            sy_inv(xs, sy_abs(out@, ops@, argc@, prevg), i as int),
            unary == unary_context(prevg),
            forall|k: int| 0 <= k < argc@.len() ==> #[trigger] argc@[k] <= i,
        decreases tokens@.len(),
    {
        let ghost st = sy_abs(out@, ops@, argc@, prevg);
        let ghost tsb = tokens@;
        let t = tokens.remove(0);
        proof {
            assert(tsb.remove(0) =~= tsb.drop_first());
            assert(toks_view(tsb.drop_first()) =~= toks_view(tsb).drop_first());
            assert(xs.skip(i as int).drop_first() =~= xs.skip(i as int + 1));
            assert(t == tsb[0]);
            assert(toks_view(tsb)[0] == tsb[0]@);
            assert(toks_view(tsb)[0] == xs.skip(i as int)[0]);
            assert(xs.skip(i as int)[0] == xs[i as int]);
            assert(t@ == xs[i as int]);
            assert(i < xs.len());
        }
        let ghost tv = t@;
        let next_unary = match &t {
            Token::LParen => true,
            Token::Comma => true,
            Token::Operator(_) => true,
            _ => false,
        };
        match t {
            Token::Number(_) | Token::PrevAns | Token::Constant(_) => {
                let ghost out0 = out@;
                out.push(t);
                proof {
                    lemma_toks_view_push(out0, t);
                    prevg = Some(tv);
                    assert(sy_step(st, tv) == Ok::<SyState, ErrView>(
                        sy_abs(out@, ops@, argc@, prevg),
                    ));
                    lemma_sy_inv_step(xs, st, sy_abs(out@, ops@, argc@, prevg), i as int);
                }
            },
            Token::Function(_) => {
                let ghost ops0 = ops@;
                ops.push(t);
                proof {
                    lemma_toks_view_push(ops0, t);
                    prevg = Some(tv);
                    assert(sy_step(st, tv) == Ok::<SyState, ErrView>(
                        sy_abs(out@, ops@, argc@, prevg),
                    ));
                    lemma_sy_inv_step(xs, st, sy_abs(out@, ops@, argc@, prevg), i as int);
                }
            },
            Token::LParen => {
                let ghost ops0 = ops@;
                let ghost argc0 = argc@;
                ops.push(Token::LParen);
                argc.push(0);
                proof {
                    lemma_toks_view_push(ops0, Token::LParen);
                    assert(argc@.map_values(|n: usize| n as nat) =~= argc0.map_values(
                        |n: usize| n as nat,
                    ).push(0));
                    prevg = Some(tv);
                    assert(sy_step(st, tv) == Ok::<SyState, ErrView>(
                        sy_abs(out@, ops@, argc@, prevg),
                    ));
                    lemma_sy_inv_step(xs, st, sy_abs(out@, ops@, argc@, prevg), i as int);
                }
            },
            Token::Comma => {
                while top_not_lparen(&ops)
                    invariant
                        pop_to_lparen(st.out, st.ops) == pop_to_lparen(
                            toks_view(out@),
                            toks_view(ops@),
                        ),
                        sy_inv(xs, st, i as int),
                        0 <= i < xs.len(),
                        xs.len() <= usize::MAX,
                        xs[i as int] == tv,
                        st.argc == argc@.map_values(|n: usize| n as nat),
                        forall|k: int| 0 <= k < argc@.len() ==> #[trigger] argc@[k] <= i,
                    decreases ops@.len(),
                {
                    let ghost out0 = out@;
                    let ghost ops0 = ops@;
                    match ops.pop() {
                        Some(x) => {
                            out.push(x);
                            proof {
                                lemma_toks_view_push(out0, x);
                                assert(toks_view(ops@) =~= toks_view(ops0).drop_last());
                                assert(toks_view(ops0).last() == x@);
                            }
                        },
                        None => {
                            proof {
                                assert(false);
                            }
                        },
                    }
                }
                if ops.len() == 0 {
                    proof {
                        assert(pop_to_lparen(st.out, st.ops) is None);
                        assert(sy_step(st, tv) == Err::<SyState, ErrView>(
                            ErrView::Syntax(msg_comma_misuse()),
                        ));
                        lemma_sy_inv_err(xs, st, i as int, ErrView::Syntax(msg_comma_misuse()));
                    }
                    return Err(err_comma_misuse());
                }
                proof {
                    assert(toks_view(ops@).last() is LParen);
                    assert(pop_to_lparen(st.out, st.ops) == Some(
                        (toks_view(out@), toks_view(ops@)),
                    ));
                }
                let below_is_op = if ops.len() >= 2 {
                    match &ops[ops.len() - 2] {
                        Token::Operator(_) => true,
                        _ => false,
                    }
                } else {
                    false
                };
                if below_is_op {
                    proof {
                        assert(sy_step(st, tv) == Err::<SyState, ErrView>(
                            ErrView::Syntax(msg_comma_misuse()),
                        ));
                        lemma_sy_inv_err(xs, st, i as int, ErrView::Syntax(msg_comma_misuse()));
                    }
                    return Err(err_comma_misuse());
                }
                // The scope was opened by a parenthesis, so a comma count is
                // on record for it.
                proof {
                    assert(st.argc.len() == argc@.len());
                }
                if argc.len() == 0 {
                    proof {
                        assert(sy_step(st, tv) == Err::<SyState, ErrView>(
                            ErrView::Syntax(msg_comma_misuse()),
                        ));
                        lemma_sy_inv_err(xs, st, i as int, ErrView::Syntax(msg_comma_misuse()));
                    }
                    return Err(err_comma_misuse());
                }
                let ghost argc0 = argc@;
                let n = match argc.pop() {
                    Some(n) => n,
                    None => 0,
                };
                proof {
                    assert(n <= i);
                }
                argc.push(n + 1);
                proof {
                    assert(argc@ =~= argc0.update(argc0.len() - 1, (n + 1) as usize));
                    assert(argc@.map_values(|m: usize| m as nat) =~= argc0.map_values(
                        |m: usize| m as nat,
                    ).update(argc0.len() - 1, (n + 1) as nat));
                    prevg = Some(tv);
                    assert(sy_step(st, tv) == Ok::<SyState, ErrView>(
                        sy_abs(out@, ops@, argc@, prevg),
                    ));
                    lemma_sy_inv_step(xs, st, sy_abs(out@, ops@, argc@, prevg), i as int);
                }
            },
            Token::RParen => {
                while top_not_lparen(&ops)
                    invariant
                        pop_to_lparen(st.out, st.ops) == pop_to_lparen(
                            toks_view(out@),
                            toks_view(ops@),
                        ),
                        sy_inv(xs, st, i as int),
                        0 <= i < xs.len(),
                        xs.len() <= usize::MAX,
                        xs[i as int] == tv,
                        st.argc == argc@.map_values(|n: usize| n as nat),
                        forall|k: int| 0 <= k < argc@.len() ==> #[trigger] argc@[k] <= i,
                    decreases ops@.len(),
                {
                    let ghost out0 = out@;
                    let ghost ops0 = ops@;
                    match ops.pop() {
                        Some(x) => {
                            out.push(x);
                            proof {
                                lemma_toks_view_push(out0, x);
                                assert(toks_view(ops@) =~= toks_view(ops0).drop_last());
                                assert(toks_view(ops0).last() == x@);
                            }
                        },
                        None => {
                            proof {
                                assert(false);
                            }
                        },
                    }
                }
                if ops.len() == 0 {
                    proof {
                        assert(pop_to_lparen(st.out, st.ops) is None);
                        assert(sy_step(st, tv) == Err::<SyState, ErrView>(
                            ErrView::Syntax(msg_mismatched_parens()),
                        ));
                        lemma_sy_inv_err(
                            xs,
                            st,
                            i as int,
                            ErrView::Syntax(msg_mismatched_parens()),
                        );
                    }
                    return Err(err_mismatched_parens());
                }
                proof {
                    assert(toks_view(ops@).last() is LParen);
                    assert(pop_to_lparen(st.out, st.ops) == Some(
                        (toks_view(out@), toks_view(ops@)),
                    ));
                }
                let ghost ops_with_paren = ops@;
                let _lparen = ops.pop();
                proof {
                    assert(toks_view(ops@) =~= toks_view(ops_with_paren).drop_last());
                }
                let ghost argc0 = argc@;
                let commas = match argc.pop() {
                    Some(n) => n,
                    None => 0,
                };
                proof {
                    if argc0.len() > 0 {
                        assert(argc@.map_values(|m: usize| m as nat) =~= argc0.map_values(
                            |m: usize| m as nat,
                        ).drop_last());
                        assert(commas as nat == st.argc.last());
                    } else {
                        assert(argc@.map_values(|m: usize| m as nat) =~= argc0.map_values(
                            |m: usize| m as nat,
                        ));
                    }
                }
                let mut fn_below: Option<crate::token::FnKind> = None;
                if ops.len() > 0 {
                    match &ops[ops.len() - 1] {
                        Token::Function(f) => {
                            fn_below = Some(*f);
                        },
                        _ => {},
                    }
                }
                match fn_below {
                    Some(f) => {
                        if commas == 0 && f.arity() == 2 {
                            proof {
                                assert(sy_step(st, tv) == Err::<SyState, ErrView>(
                                    ErrView::Parser(msg_too_few_args(f)),
                                ));
                                lemma_sy_inv_err(
                                    xs,
                                    st,
                                    i as int,
                                    ErrView::Parser(msg_too_few_args(f)),
                                );
                            }
                            return Err(err_too_few_args(f));
                        }
                        let ghost out0 = out@;
                        let ghost ops0 = ops@;
                        match ops.pop() {
                            Some(x) => {
                                out.push(x);
                                proof {
                                    lemma_toks_view_push(out0, x);
                                    assert(toks_view(ops@) =~= toks_view(ops0).drop_last());
                                    assert(toks_view(ops0).last() == x@);
                                }
                            },
                            None => {
                                proof {
                                    assert(false);
                                }
                            },
                        }
                        proof {
                            prevg = Some(tv);
                            assert(sy_step(st, tv) == Ok::<SyState, ErrView>(
                                sy_abs(out@, ops@, argc@, prevg),
                            ));
                            lemma_sy_inv_step(xs, st, sy_abs(out@, ops@, argc@, prevg), i as int);
                        }
                    },
                    None => {
                        proof {
                            prevg = Some(tv);
                            assert(sy_step(st, tv) == Ok::<SyState, ErrView>(
                                sy_abs(out@, ops@, argc@, prevg),
                            ));
                            lemma_sy_inv_step(xs, st, sy_abs(out@, ops@, argc@, prevg), i as int);
                        }
                    },
                }
            },
            Token::Operator(op0) => {
                let op = if op0 == OpKind::Sub && unary {
                    OpKind::Neg
                } else {
                    op0
                };
                while should_pop(&ops, op)
                    invariant
                        pop_higher(st.out, st.ops, op) == pop_higher(
                            toks_view(out@),
                            toks_view(ops@),
                            op,
                        ),
                        sy_inv(xs, st, i as int),
                        0 <= i < xs.len(),
                        xs.len() <= usize::MAX,
                        xs[i as int] == tv,
                        st.argc == argc@.map_values(|n: usize| n as nat),
                        op == (if tv->Operator_0 is Sub && unary_context(st.prev) {
                            OpKind::Neg
                        } else {
                            tv->Operator_0
                        }),
                        tv is Operator,
                    decreases ops@.len(),
                {
                    let ghost out0 = out@;
                    let ghost ops0 = ops@;
                    match ops.pop() {
                        Some(x) => {
                            out.push(x);
                            proof {
                                lemma_toks_view_push(out0, x);
                                assert(toks_view(ops@) =~= toks_view(ops0).drop_last());
                                assert(toks_view(ops0).last() == x@);
                            }
                        },
                        None => {
                            proof {
                                assert(false);
                            }
                        },
                    }
                }
                proof {
                    assert(pop_higher(st.out, st.ops, op) == (toks_view(out@), toks_view(ops@)));
                }
                let ghost ops1 = ops@;
                ops.push(Token::Operator(op));
                proof {
                    lemma_toks_view_push(ops1, Token::Operator(op));
                    prevg = Some(tv);
                    assert(sy_step(st, tv) == Ok::<SyState, ErrView>(
                        sy_abs(out@, ops@, argc@, prevg),
                    ));
                    lemma_sy_inv_step(xs, st, sy_abs(out@, ops@, argc@, prevg), i as int);
                }
            },
        }
        unary = next_unary;
        i = i + 1;
    }
    proof {
        assert(sy_run(xs, i as int, sy_abs(out@, ops@, argc@, prevg)) == Ok::<SyState, ErrView>(
            sy_abs(out@, ops@, argc@, prevg),
        ));
        assert(sy_run(xs, 0, sy_init()) == Ok::<SyState, ErrView>(
            sy_abs(out@, ops@, argc@, prevg),
        ));
    }
    let ghost stf = sy_abs(out@, ops@, argc@, prevg);
    // Drain the remaining operators.
    while ops.len() > 0
        invariant
            sy_drain(stf.out, stf.ops) == sy_drain(toks_view(out@), toks_view(ops@)),
            sy_run(xs, 0, sy_init()) == Ok::<SyState, ErrView>(stf),
        decreases ops@.len(),
    {
        let ghost out0 = out@;
        let ghost ops0 = ops@;
        let is_lparen = match &ops[ops.len() - 1] {
            Token::LParen => true,
            _ => false,
        };
        if is_lparen {
            proof {
                assert(sy_drain(stf.out, stf.ops) == Err::<Seq<TokenView>, ErrView>(
                    ErrView::Syntax(msg_mismatched_parens()),
                ));
                assert(sy_run(xs, 0, sy_init()) == Ok::<SyState, ErrView>(stf));
                assert(spec_to_postfix(xs) == Err::<Seq<TokenView>, ErrView>(
                    ErrView::Syntax(msg_mismatched_parens()),
                ));
            }
            return Err(err_mismatched_parens());
        }
        match ops.pop() {
            Some(x) => {
                out.push(x);
                proof {
                    lemma_toks_view_push(out0, x);
                    assert(toks_view(ops@) =~= toks_view(ops0).drop_last());
                    assert(toks_view(ops0).last() == x@);
                }
            },
            None => {
                proof {
                    assert(false);
                }
            },
        }
    }
    proof {
        assert(toks_view(ops@) =~= Seq::<TokenView>::empty());
        assert(sy_drain(stf.out, stf.ops) == Ok::<_, ErrView>(toks_view(out@)));
        assert(sy_run(xs, 0, sy_init()) == Ok::<SyState, ErrView>(stf));
        assert(spec_to_postfix(xs) == Ok::<_, ErrView>(toks_view(out@)));
    }
    Ok(out)
}

/// No parenthesis or comma stands among these tokens.
pub open spec fn no_group_tokens(ts: Seq<TokenView>) -> bool {
    forall|k: int|
        0 <= k < ts.len() ==> !(#[trigger] ts[k] is LParen || ts[k] is RParen || ts[k] is Comma)
}

/// The shunting-yard stacks stay clean: the output holds no parenthesis or
/// comma, and the operator stack holds no close parenthesis or comma.
pub open spec fn sy_clean(st: SyState) -> bool {
    &&& no_group_tokens(st.out)
    &&& forall|k: int|
        0 <= k < st.ops.len() ==> !(#[trigger] st.ops[k] is RParen || st.ops[k] is Comma)
}

proof fn lemma_pop_higher_clean(out: Seq<TokenView>, ops: Seq<TokenView>, op: OpKind)
    requires
        no_group_tokens(out),
        forall|k: int| 0 <= k < ops.len() ==> !(#[trigger] ops[k] is RParen || ops[k] is Comma),
    ensures
        no_group_tokens(pop_higher(out, ops, op).0),
        forall|k: int|
            0 <= k < pop_higher(out, ops, op).1.len() ==> !(#[trigger] pop_higher(
                out,
                ops,
                op,
            ).1[k] is RParen || pop_higher(out, ops, op).1[k] is Comma),
    decreases ops.len(),
{
    if ops.len() > 0 && ops.last() is Operator && (op_prec(ops.last()->Operator_0) > op_prec(op)
        || (op_prec(ops.last()->Operator_0) == op_prec(op) && op_left_assoc(op))) {
        assert(no_group_tokens(out.push(ops.last()))) by {
            assert(forall|k: int|
                0 <= k < out.len() ==> out.push(ops.last())[k] == #[trigger] out[k]);
        }
        lemma_pop_higher_clean(out.push(ops.last()), ops.drop_last(), op);
    }
}

proof fn lemma_pop_to_lparen_clean(out: Seq<TokenView>, ops: Seq<TokenView>)
    requires
        no_group_tokens(out),
        forall|k: int| 0 <= k < ops.len() ==> !(#[trigger] ops[k] is RParen || ops[k] is Comma),
    ensures
        pop_to_lparen(out, ops) matches Some(r) ==> {
            &&& no_group_tokens(r.0)
            &&& forall|k: int|
                0 <= k < r.1.len() ==> !(#[trigger] r.1[k] is RParen || r.1[k] is Comma)
            &&& r.1.len() > 0
            &&& r.1.last() is LParen
        },
    decreases ops.len(),
{
    if ops.len() == 0 {
    } else if ops.last() is LParen {
    } else {
        assert(no_group_tokens(out.push(ops.last()))) by {
            assert(forall|k: int|
                0 <= k < out.len() ==> out.push(ops.last())[k] == #[trigger] out[k]);
        }
        lemma_pop_to_lparen_clean(out.push(ops.last()), ops.drop_last());
    }
}

proof fn lemma_sy_step_clean(st: SyState, t: TokenView)
    requires
        sy_clean(st),
    ensures
        sy_step(st, t) matches Ok(st2) ==> sy_clean(st2),
{
    if t is Number || t is PrevAns || t is Constant {
        assert(no_group_tokens(st.out.push(t))) by {
            assert(forall|k: int| 0 <= k < st.out.len() ==> st.out.push(t)[k] == #[trigger] st.out[k]);
        }
    } else if t is Function {
    } else if t is LParen {
    } else if t is Comma {
        lemma_pop_to_lparen_clean(st.out, st.ops);
    } else if t is RParen {
        lemma_pop_to_lparen_clean(st.out, st.ops);
        match pop_to_lparen(st.out, st.ops) {
            Some((out2, ops2)) => {
                let ops3 = ops2.drop_last();
                if ops3.len() > 0 && ops3.last() is Function {
                    assert(no_group_tokens(out2.push(ops3.last()))) by {
                        assert(forall|k: int|
                            0 <= k < out2.len() ==> out2.push(ops3.last())[k]
                                == #[trigger] out2[k]);
                    }
                }
            },
            None => {},
        }
    } else {
        lemma_pop_higher_clean(st.out, st.ops, if t->Operator_0 is Sub && unary_context(st.prev) {
            OpKind::Neg
        } else {
            t->Operator_0
        });
    }
}

proof fn lemma_sy_run_clean(ts: Seq<TokenView>, i: int, st: SyState)
    requires
        sy_clean(st),
    ensures
        sy_run(ts, i, st) matches Ok(st2) ==> sy_clean(st2),
    decreases ts.len() - i,
{
    if 0 <= i < ts.len() {
        lemma_sy_step_clean(st, ts[i]);
        match sy_step(st, ts[i]) {
            Ok(st2) => {
                lemma_sy_run_clean(ts, i + 1, st2);
            },
            Err(_) => {},
        }
    }
}

proof fn lemma_sy_drain_clean(out: Seq<TokenView>, ops: Seq<TokenView>)
    requires
        no_group_tokens(out),
        forall|k: int| 0 <= k < ops.len() ==> !(#[trigger] ops[k] is RParen || ops[k] is Comma),
    ensures
        sy_drain(out, ops) matches Ok(ps) ==> no_group_tokens(ps),
    decreases ops.len(),
{
    if ops.len() == 0 {
    } else if ops.last() is LParen {
    } else {
        assert(no_group_tokens(out.push(ops.last()))) by {
            assert(forall|k: int|
                0 <= k < out.len() ==> out.push(ops.last())[k] == #[trigger] out[k]);
        }
        lemma_sy_drain_clean(out.push(ops.last()), ops.drop_last());
    }
}

/// The parser's postfix output contains no parenthesis and no comma: the
/// shunting-yard pass consumes every grouping token it accepts.
pub proof fn lemma_postfix_no_group_tokens(ts: Seq<TokenView>)
    ensures
        spec_to_postfix(ts) matches Ok(ps) ==> no_group_tokens(ps),
{
    lemma_sy_run_clean(ts, 0, sy_init());
    match sy_run(ts, 0, sy_init()) {
        Ok(st) => {
            lemma_sy_drain_clean(st.out, st.ops);
        },
        Err(_) => {},
    }
}


/// Exponentiation is right-associative: `x ^ y ^ z` compiles to the postfix
/// `x y z ^ ^`, which evaluates the right power first — `x ^ (y ^ z)`, not
/// `(x ^ y) ^ z`. `**` lexes to the same operator as `^`.
pub proof fn lemma_pow_right_assoc(x: Seq<char>, y: Seq<char>, z: Seq<char>)
    ensures
        spec_to_postfix(
            seq![
                TokenView::Number(x),
                TokenView::Operator(OpKind::Pow),
                TokenView::Number(y),
                TokenView::Operator(OpKind::Pow),
                TokenView::Number(z),
            ],
        ) == Ok::<Seq<TokenView>, ErrView>(
            seq![
                TokenView::Number(x),
                TokenView::Number(y),
                TokenView::Number(z),
                TokenView::Operator(OpKind::Pow),
                TokenView::Operator(OpKind::Pow),
            ],
        ),
{
    let pow = TokenView::Operator(OpKind::Pow);
    let ts = seq![TokenView::Number(x), pow, TokenView::Number(y), pow, TokenView::Number(z)];
    let ps = seq![TokenView::Number(x), TokenView::Number(y), TokenView::Number(z), pow, pow];
    let e: Seq<TokenView> = Seq::empty();
    let st0 = sy_init();
    let st1 = SyState { out: seq![ts[0]], ops: e, argc: Seq::<nat>::empty(), prev: Some(ts[0]) };
    assert(sy_step(st0, ts[0]) == Ok::<SyState, ErrView>(st1)) by {
        assert(st0.out.push(ts[0]) =~= st1.out);
    }
    let st2 = SyState { out: st1.out, ops: seq![pow], argc: Seq::<nat>::empty(), prev: Some(pow) };
    assert(sy_step(st1, ts[1]) == Ok::<SyState, ErrView>(st2)) by {
        assert(pop_higher(st1.out, st1.ops, OpKind::Pow) == (st1.out, st1.ops));
        assert(st1.ops.push(pow) =~= st2.ops);
    }
    let st3 = SyState {
        out: seq![ts[0], ts[2]],
        ops: st2.ops,
        argc: Seq::<nat>::empty(),
        prev: Some(ts[2]),
    };
    assert(sy_step(st2, ts[2]) == Ok::<SyState, ErrView>(st3)) by {
        assert(st2.out.push(ts[2]) =~= st3.out);
    }
    let st4 = SyState { out: st3.out, ops: seq![pow, pow], argc: Seq::<nat>::empty(), prev: Some(pow) };
    assert(sy_step(st3, ts[3]) == Ok::<SyState, ErrView>(st4)) by {
        assert(st3.ops.last() == pow);
        assert(!op_left_assoc(OpKind::Pow));
        assert(pop_higher(st3.out, st3.ops, OpKind::Pow) == (st3.out, st3.ops));
        assert(st3.ops.push(pow) =~= st4.ops);
    }
    let st5 = SyState {
        out: seq![ts[0], ts[2], ts[4]],
        ops: st4.ops,
        argc: Seq::<nat>::empty(),
        prev: Some(ts[4]),
    };
    assert(sy_step(st4, ts[4]) == Ok::<SyState, ErrView>(st5)) by {
        assert(st4.out.push(ts[4]) =~= st5.out);
    }
    assert(sy_run(ts, 0, st0) == sy_run(ts, 1, st1));
    assert(sy_run(ts, 1, st1) == sy_run(ts, 2, st2));
    assert(sy_run(ts, 2, st2) == sy_run(ts, 3, st3));
    assert(sy_run(ts, 3, st3) == sy_run(ts, 4, st4));
    assert(sy_run(ts, 4, st4) == sy_run(ts, 5, st5));
    assert(sy_run(ts, 5, st5) == Ok::<SyState, ErrView>(st5));
    let o1 = st5.out.push(pow);
    let p1 = st5.ops.drop_last();
    assert(p1 =~= seq![pow]);
    assert(sy_drain(st5.out, st5.ops) == sy_drain(o1, p1)) by {
        assert(st5.ops.last() == pow);
    }
    let o2 = o1.push(pow);
    let p2 = p1.drop_last();
    assert(p2 =~= e);
    assert(sy_drain(o1, p1) == sy_drain(o2, p2)) by {
        assert(p1.last() == pow);
    }
    assert(sy_drain(o2, p2) == Ok::<Seq<TokenView>, ErrView>(o2));
    assert(o2 =~= ps);
}


/// Subtraction is left-associative: `x - y - z` compiles to the postfix
/// `x y - z -`, which groups as `(x - y) - z`. A `-` after a number is the
/// binary operator, not the unary minus.
pub proof fn lemma_sub_left_assoc(x: Seq<char>, y: Seq<char>, z: Seq<char>)
    ensures
        spec_to_postfix(
            seq![
                TokenView::Number(x),
                TokenView::Operator(OpKind::Sub),
                TokenView::Number(y),
                TokenView::Operator(OpKind::Sub),
                TokenView::Number(z),
            ],
        ) == Ok::<Seq<TokenView>, ErrView>(
            seq![
                TokenView::Number(x),
                TokenView::Number(y),
                TokenView::Operator(OpKind::Sub),
                TokenView::Number(z),
                TokenView::Operator(OpKind::Sub),
            ],
        ),
{
    let sub = TokenView::Operator(OpKind::Sub);
    let ts = seq![TokenView::Number(x), sub, TokenView::Number(y), sub, TokenView::Number(z)];
    let ps = seq![TokenView::Number(x), TokenView::Number(y), sub, TokenView::Number(z), sub];
    let e: Seq<TokenView> = Seq::empty();
    let st0 = sy_init();
    let st1 = SyState { out: seq![ts[0]], ops: e, argc: Seq::<nat>::empty(), prev: Some(ts[0]) };
    assert(sy_step(st0, ts[0]) == Ok::<SyState, ErrView>(st1)) by {
        assert(st0.out.push(ts[0]) =~= st1.out);
    }
    let st2 = SyState { out: st1.out, ops: seq![sub], argc: Seq::<nat>::empty(), prev: Some(sub) };
    assert(sy_step(st1, ts[1]) == Ok::<SyState, ErrView>(st2)) by {
        assert(!unary_context(st1.prev));
        assert(pop_higher(st1.out, st1.ops, OpKind::Sub) == (st1.out, st1.ops));
        assert(st1.ops.push(sub) =~= st2.ops);
    }
    let st3 = SyState {
        out: seq![ts[0], ts[2]],
        ops: st2.ops,
        argc: Seq::<nat>::empty(),
        prev: Some(ts[2]),
    };
    assert(sy_step(st2, ts[2]) == Ok::<SyState, ErrView>(st3)) by {
        assert(st2.out.push(ts[2]) =~= st3.out);
    }
    let st4 = SyState {
        out: seq![ts[0], ts[2], sub],
        ops: seq![sub],
        argc: Seq::<nat>::empty(),
        prev: Some(sub),
    };
    assert(sy_step(st3, ts[3]) == Ok::<SyState, ErrView>(st4)) by {
        assert(!unary_context(st3.prev));
        assert(st3.ops.last() == sub);
        assert(op_left_assoc(OpKind::Sub));
        assert(st3.out.push(sub) =~= st4.out);
        assert(st3.ops.drop_last() =~= e);
        assert(pop_higher(st3.out.push(sub), e, OpKind::Sub) == (st3.out.push(sub), e));
        assert(pop_higher(st3.out, st3.ops, OpKind::Sub) == (st4.out, e));
        assert(e.push(sub) =~= st4.ops);
    }
    let st5 = SyState {
        out: seq![ts[0], ts[2], sub, ts[4]],
        ops: st4.ops,
        argc: Seq::<nat>::empty(),
        prev: Some(ts[4]),
    };
    assert(sy_step(st4, ts[4]) == Ok::<SyState, ErrView>(st5)) by {
        assert(st4.out.push(ts[4]) =~= st5.out);
    }
    assert(sy_run(ts, 0, st0) == sy_run(ts, 1, st1));
    assert(sy_run(ts, 1, st1) == sy_run(ts, 2, st2));
    assert(sy_run(ts, 2, st2) == sy_run(ts, 3, st3));
    assert(sy_run(ts, 3, st3) == sy_run(ts, 4, st4));
    assert(sy_run(ts, 4, st4) == sy_run(ts, 5, st5));
    assert(sy_run(ts, 5, st5) == Ok::<SyState, ErrView>(st5));
    let o1 = st5.out.push(sub);
    let p1 = st5.ops.drop_last();
    assert(p1 =~= e);
    assert(sy_drain(st5.out, st5.ops) == sy_drain(o1, p1)) by {
        assert(st5.ops.last() == sub);
    }
    assert(sy_drain(o1, p1) == Ok::<Seq<TokenView>, ErrView>(o1));
    assert(o1 =~= ps);
}


/// A two-argument function closed after a single argument is rejected with
/// the error naming that function: `f(x)` never parses when `f` requires
/// two arguments, whatever the argument is.
pub proof fn lemma_two_arg_fn_needs_two(f: FnKind, x: Seq<char>)
    requires
        fn_arity(f) == 2,
    ensures
        spec_to_postfix(
            seq![
                TokenView::Function(f),
                TokenView::LParen,
                TokenView::Number(x),
                TokenView::RParen,
            ],
        ) == Err::<Seq<TokenView>, ErrView>(ErrView::Parser(msg_too_few_args(f))),
{
    let fv = TokenView::Function(f);
    let ts = seq![fv, TokenView::LParen, TokenView::Number(x), TokenView::RParen];
    let e: Seq<TokenView> = Seq::empty();
    let en: Seq<nat> = Seq::empty();
    let st0 = sy_init();
    let st1 = SyState { out: e, ops: seq![fv], argc: en, prev: Some(fv) };
    assert(sy_step(st0, ts[0]) == Ok::<SyState, ErrView>(st1)) by {
        assert(st0.ops.push(fv) =~= st1.ops);
    }
    let st2 = SyState {
        out: e,
        ops: seq![fv, TokenView::LParen],
        argc: seq![0nat],
        prev: Some(ts[1]),
    };
    assert(sy_step(st1, ts[1]) == Ok::<SyState, ErrView>(st2)) by {
        assert(st1.ops.push(ts[1]) =~= st2.ops);
        assert(st1.argc.push(0) =~= st2.argc);
    }
    let st3 = SyState {
        out: seq![ts[2]],
        ops: st2.ops,
        argc: st2.argc,
        prev: Some(ts[2]),
    };
    assert(sy_step(st2, ts[2]) == Ok::<SyState, ErrView>(st3)) by {
        assert(st2.out.push(ts[2]) =~= st3.out);
    }
    assert(sy_step(st3, ts[3]) == Err::<SyState, ErrView>(ErrView::Parser(msg_too_few_args(f))))
        by {
        assert(st3.ops.last() is LParen);
        assert(pop_to_lparen(st3.out, st3.ops) == Some((st3.out, st3.ops)));
        assert(st3.ops.drop_last() =~= seq![fv]);
        assert(st3.argc.last() == 0nat);
    }
    assert(sy_run(ts, 0, st0) == sy_run(ts, 1, st1));
    assert(sy_run(ts, 1, st1) == sy_run(ts, 2, st2));
    assert(sy_run(ts, 2, st2) == sy_run(ts, 3, st3));
    assert(sy_run(ts, 3, st3) == Err::<SyState, ErrView>(ErrView::Parser(msg_too_few_args(f))));
}

} // verus!
