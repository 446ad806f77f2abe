//! The lexer: turns the balanced input string into the token sequence the
//! parser consumes.
//!
//! Numeric literals keep their source text. Words resolve against the fixed
//! function and constant tables; a constant name followed by digits, such as
//! `e2`, resolves to the constant and the number. A second pass inserts the
//! implicit multiplication between a number-like token and a following
//! number, constant, function or open parenthesis, so that `2(3+4)` reads as
//! `2*(3+4)`.

use vstd::prelude::*;
use crate::error::{
    err_bad_number, err_no_prev_ans, err_unexpected_char, err_unknown_word, msg_bad_number,
    msg_no_prev_ans, msg_unexpected_char, msg_unknown_word, CalcError, ErrView,
};
use crate::token::{
    lemma_toks_view_push, toks_view, ConstKind, FnKind, OpKind, Token, TokenView,
};

verus! {

/// A decimal digit.
pub open spec fn is_digit(c: char) -> bool {
    '0' <= c && c <= '9'
}

/// A character a numeric literal is made of.
pub open spec fn is_numchar(c: char) -> bool {
    is_digit(c) || c == '.'
}

/// A letter, as words are made of.
pub open spec fn is_alpha(c: char) -> bool {
    ('a' <= c && c <= 'z') || ('A' <= c && c <= 'Z')
}

/// A character that may continue a word: letters, and digits so that names
/// such as `log10` stay one word.
pub open spec fn is_wordchar(c: char) -> bool {
    is_alpha(c) || is_digit(c)
}

/// First position at or after `i` that does not continue a numeric literal.
pub open spec fn num_end(s: Seq<char>, i: int) -> int
    decreases s.len() - i,
{
    if 0 <= i && i < s.len() && is_numchar(s[i]) {
        num_end(s, i + 1)
    } else {
        i
    }
}

/// First position at or after `i` that does not continue a word.
pub open spec fn word_end(s: Seq<char>, i: int) -> int
    decreases s.len() - i,
{
    if 0 <= i && i < s.len() && is_wordchar(s[i]) {
        word_end(s, i + 1)
    } else {
        i
    }
}

pub proof fn lemma_num_end_span(s: Seq<char>, i: int)
    requires
        0 <= i <= s.len(),
    ensures
        i <= num_end(s, i) <= s.len(),
        i < s.len() && is_numchar(s[i]) ==> i + 1 <= num_end(s, i),
    decreases s.len() - i,
{
    if i < s.len() && is_numchar(s[i]) {
        lemma_num_end_span(s, i + 1);
    }
}

pub proof fn lemma_word_end_span(s: Seq<char>, i: int)
    requires
        0 <= i <= s.len(),
    ensures
        i <= word_end(s, i) <= s.len(),
        i < s.len() && is_wordchar(s[i]) ==> i + 1 <= word_end(s, i),
    decreases s.len() - i,
{
    if i < s.len() && is_wordchar(s[i]) {
        lemma_word_end_span(s, i + 1);
    }
}

/// A well-formed numeric literal: non-empty, at least one digit, at most one
/// decimal point, and nothing else (literals are scanned out of digits and
/// points only).
pub open spec fn valid_number(w: Seq<char>) -> bool {
    &&& w.len() > 0
    &&& exists|k: int| 0 <= k < w.len() && is_digit(#[trigger] w[k])
    &&& forall|k1: int, k2: int|
        0 <= k1 < w.len() && 0 <= k2 < w.len() && #[trigger] w[k1] == '.' && #[trigger] w[k2]
            == '.' ==> k1 == k2
}

/// Every character is a digit.
pub open spec fn all_digits(w: Seq<char>) -> bool {
    forall|k: int| 0 <= k < w.len() ==> is_digit(#[trigger] w[k])
}

/// The function named by a word, if any.
pub open spec fn spec_function_of(w: Seq<char>) -> Option<FnKind> {
    if w == "sin"@ {
        Some(FnKind::Sin)
    } else if w == "cos"@ {
        Some(FnKind::Cos)
    } else if w == "tan"@ {
        Some(FnKind::Tan)
    } else if w == "asin"@ {
        Some(FnKind::Asin)
    } else if w == "acos"@ {
        Some(FnKind::Acos)
    } else if w == "atan"@ {
        Some(FnKind::Atan)
    } else if w == "deg"@ {
        Some(FnKind::Deg)
    } else if w == "rad"@ {
        Some(FnKind::Rad)
    } else if w == "sqrt"@ {
        Some(FnKind::Sqrt)
    } else if w == "cbrt"@ {
        Some(FnKind::Cbrt)
    } else if w == "ln"@ {
        Some(FnKind::Ln)
    } else if w == "log10"@ {
        Some(FnKind::Log10)
    } else if w == "exp"@ {
        Some(FnKind::Exp)
    } else if w == "exp2"@ {
        Some(FnKind::Exp2)
    } else if w == "abs"@ {
        Some(FnKind::Abs)
    } else if w == "ceil"@ {
        Some(FnKind::Ceil)
    } else if w == "floor"@ {
        Some(FnKind::Floor)
    } else if w == "round"@ {
        Some(FnKind::Round)
    } else if w == "nroot"@ {
        Some(FnKind::Nroot)
    } else if w == "log"@ {
        Some(FnKind::Log)
    } else if w == "min"@ {
        Some(FnKind::Min)
    } else if w == "max"@ {
        Some(FnKind::Max)
    } else {
        None
    }
}

/// The tokens a word stands for: a function, a constant, or a constant
/// followed by the digits written against it (`e2` is `e` then `2`).
pub open spec fn resolve_word(w: Seq<char>) -> Result<Seq<TokenView>, ErrView> {
    if spec_function_of(w) is Some {
        Ok(seq![TokenView::Function(spec_function_of(w)->Some_0)])
    } else if w == "e"@ {
        Ok(seq![TokenView::Constant(ConstKind::E)])
    } else if w == "pi"@ {
        Ok(seq![TokenView::Constant(ConstKind::Pi)])
    } else if w.len() > 1 && w[0] == 'e' && all_digits(w.skip(1)) {
        Ok(seq![TokenView::Constant(ConstKind::E), TokenView::Number(w.skip(1))])
    } else if w.len() > 2 && w[0] == 'p' && w[1] == 'i' && all_digits(w.skip(2)) {
        Ok(seq![TokenView::Constant(ConstKind::Pi), TokenView::Number(w.skip(2))])
    } else {
        Err(ErrView::Lexer(msg_unknown_word()))
    }
}

/// The raw token sequence of `s` from position `i` on: literals, words,
/// operator symbols (`**` reads as `^`), parentheses, the comma, and the
/// previous-answer symbol `_`, which requires a previous answer to exist.
pub open spec fn lex_raw(s: Seq<char>, i: int, has_prev: bool) -> Result<Seq<TokenView>, ErrView>
    decreases s.len() - i,
{
    if i < 0 || i >= s.len() {
        Ok(Seq::empty())
    } else {
        let c = s[i];
        if is_numchar(c) {
            proof {
                lemma_num_end_span(s, i);
            }
            let j = num_end(s, i);
            let w = s.subrange(i, j);
            if valid_number(w) {
                match lex_raw(s, j, has_prev) {
                    Ok(rest) => Ok(seq![TokenView::Number(w)] + rest),
                    Err(e) => Err(e),
                }
            } else {
                Err(ErrView::Lexer(msg_bad_number()))
            }
        } else if is_alpha(c) {
            proof {
                lemma_word_end_span(s, i);
            }
            let j = word_end(s, i);
            match resolve_word(s.subrange(i, j)) {
                Ok(ws) => match lex_raw(s, j, has_prev) {
                    Ok(rest) => Ok(ws + rest),
                    Err(e) => Err(e),
                },
                Err(e) => Err(e),
            }
        } else if c == '+' || c == '-' || c == '/' || c == '^' || c == '(' || c == ')' || c == ','
            || c == '_' {
            let t = if c == '+' {
                Some(TokenView::Operator(OpKind::Add))
            } else if c == '-' {
                Some(TokenView::Operator(OpKind::Sub))
            } else if c == '/' {
                Some(TokenView::Operator(OpKind::Div))
            } else if c == '^' {
                Some(TokenView::Operator(OpKind::Pow))
            } else if c == '(' {
                Some(TokenView::LParen)
            } else if c == ')' {
                Some(TokenView::RParen)
            } else if c == ',' {
                Some(TokenView::Comma)
            } else if has_prev {
                Some(TokenView::PrevAns)
            } else {
                None
            };
            match t {
                Some(tv) => match lex_raw(s, i + 1, has_prev) {
                    Ok(rest) => Ok(seq![tv] + rest),
                    Err(e) => Err(e),
                },
                None => Err(ErrView::Lexer(msg_no_prev_ans())),
            }
        } else if c == '*' {
            if i + 1 < s.len() && s[i + 1] == '*' {
                match lex_raw(s, i + 2, has_prev) {
                    Ok(rest) => Ok(seq![TokenView::Operator(OpKind::Pow)] + rest),
                    Err(e) => Err(e),
                }
            } else {
                match lex_raw(s, i + 1, has_prev) {
                    Ok(rest) => Ok(seq![TokenView::Operator(OpKind::Mul)] + rest),
                    Err(e) => Err(e),
                }
            }
        } else {
            Err(ErrView::Syntax(msg_unexpected_char()))
        }
    }
}

/// Tokens after which a multiplication is understood when a factor follows.
pub open spec fn left_joins(t: TokenView) -> bool {
    t is Number || t is PrevAns || t is Constant || t is RParen
}

/// Tokens before which a multiplication is understood when a value precedes.
pub open spec fn right_joins(t: TokenView) -> bool {
    t is Number || t is PrevAns || t is Constant || t is Function || t is LParen
}

/// The token sequence with the implicit `*` inserted between every adjacent
/// pair where a value ends and a factor begins.
pub open spec fn insert_mult(ts: Seq<TokenView>) -> Seq<TokenView>
    decreases ts.len(),
{
    if ts.len() < 2 {
        ts
    } else if left_joins(ts[0]) && right_joins(ts[1]) {
        seq![ts[0], TokenView::Operator(OpKind::Mul)] + insert_mult(ts.drop_first())
    } else {
        seq![ts[0]] + insert_mult(ts.drop_first())
    }
}

/// What the lexer returns: the raw tokens with implicit multiplication
/// inserted, or the first lexical error.
pub open spec fn spec_lex(s: Seq<char>, has_prev: bool) -> Result<Seq<TokenView>, ErrView> {
    match lex_raw(s, 0, has_prev) {
        Ok(ts) => Ok(insert_mult(ts)),
        Err(e) => Err(e),
    }
}

fn ch_is_numchar(c: char) -> (r: bool)
    ensures
        r == is_numchar(c),
{
    (c >= '0' && c <= '9') || c == '.'
}

fn ch_is_alpha(c: char) -> (r: bool)
    ensures
        r == is_alpha(c),
{
    (c >= 'a' && c <= 'z') || (c >= 'A' && c <= 'Z')
}

fn ch_is_wordchar(c: char) -> (r: bool)
    ensures
        r == is_wordchar(c),
{
    ch_is_alpha(c) || (c >= '0' && c <= '9')
}

/// Whether the word equals the pattern, character for character.
pub fn word_eq(w: &Vec<char>, pat: &str) -> (r: bool)
    ensures
        r == (w@ == pat@),
{
    let n = pat.unicode_len();
    if w.len() != n {
        return false;
    }
    let mut i: usize = 0;
    while i < n
        invariant
            i <= n,
            n == pat@.len(),
            w@.len() == n,
            forall|m: int| 0 <= m < i ==> w@[m] == pat@[m],
        decreases n - i,
    {
        if w[i] != pat.get_char(i) {
            return false;
        }
        i = i + 1;
    }
    proof {
        assert(w@ =~= pat@);
    }
    true
}

fn lookup_function(w: &Vec<char>) -> (r: Option<FnKind>)
    ensures
        r == spec_function_of(w@),
{
    if word_eq(w, "sin") {
        Some(FnKind::Sin)
    } else if word_eq(w, "cos") {
        Some(FnKind::Cos)
    } else if word_eq(w, "tan") {
        Some(FnKind::Tan)
    } else if word_eq(w, "asin") {
        Some(FnKind::Asin)
    } else if word_eq(w, "acos") {
        Some(FnKind::Acos)
    } else if word_eq(w, "atan") {
        Some(FnKind::Atan)
    } else if word_eq(w, "deg") {
        Some(FnKind::Deg)
    } else if word_eq(w, "rad") {
        Some(FnKind::Rad)
    } else if word_eq(w, "sqrt") {
        Some(FnKind::Sqrt)
    } else if word_eq(w, "cbrt") {
        Some(FnKind::Cbrt)
    } else if word_eq(w, "ln") {
        Some(FnKind::Ln)
    } else if word_eq(w, "log10") {
        Some(FnKind::Log10)
    } else if word_eq(w, "exp") {
        Some(FnKind::Exp)
    } else if word_eq(w, "exp2") {
        Some(FnKind::Exp2)
    } else if word_eq(w, "abs") {
        Some(FnKind::Abs)
    } else if word_eq(w, "ceil") {
        Some(FnKind::Ceil)
    } else if word_eq(w, "floor") {
        Some(FnKind::Floor)
    } else if word_eq(w, "round") {
        Some(FnKind::Round)
    } else if word_eq(w, "nroot") {
        Some(FnKind::Nroot)
    } else if word_eq(w, "log") {
        Some(FnKind::Log)
    } else if word_eq(w, "min") {
        Some(FnKind::Min)
    } else if word_eq(w, "max") {
        Some(FnKind::Max)
    } else {
        None
    }
}

/// Whether the literal is a well-formed number.
fn check_number(w: &Vec<char>) -> (r: bool)
    ensures
        r == valid_number(w@),
{
    if w.len() == 0 {
        return false;
    }
    let mut found_digit = false;
    let mut found_dot = false;
    let mut dot_at: usize = 0;
    let mut k: usize = 0;
    while k < w.len()
        invariant
            k <= w@.len(),
            found_digit <==> exists|m: int| 0 <= m < k && is_digit(#[trigger] w@[m]),
            found_dot ==> dot_at < k && w@[dot_at as int] == '.',
            forall|m: int| 0 <= m < k && #[trigger] w@[m] == '.' ==> found_dot && m == dot_at,
        decreases w@.len() - k,
    {
        let c = w[k];
        if c == '.' {
            if found_dot {
                proof {
                    assert(w@[dot_at as int] == '.' && w@[k as int] == '.' && dot_at != k);
                }
                return false;
            }
            found_dot = true;
            dot_at = k;
        } else if c >= '0' && c <= '9' {
            proof {
                assert(is_digit(w@[k as int]));
            }
            found_digit = true;
        }
        k = k + 1;
    }
    if !found_digit {
        return false;
    }
    true
}

/// Whether every character from `from` on is a digit.
fn digits_from(w: &Vec<char>, from: usize) -> (r: bool)
    requires
        from <= w@.len(),
    ensures
        r == all_digits(w@.skip(from as int)),
{
    let mut k = from;
    while k < w.len()
        invariant
            from <= k <= w@.len(),
            forall|m: int| from <= m < k ==> is_digit(#[trigger] w@[m]),
        decreases w@.len() - k,
    {
        if !(w[k] >= '0' && w[k] <= '9') {
            proof {
                assert(w@.skip(from as int)[k - from] == w@[k as int]);
            }
            return false;
        }
        k = k + 1;
    }
    proof {
        assert forall|m: int| 0 <= m < w@.skip(from as int).len() implies is_digit(
            #[trigger] w@.skip(from as int)[m],
        ) by {
            assert(w@.skip(from as int)[m] == w@[m + from]);
        }
    }
    true
}

/// The characters of `w` from `from` on, as their own vector.
fn tail_vec(w: &Vec<char>, from: usize) -> (r: Vec<char>)
    requires
        from <= w@.len(),
    ensures
        r@ == w@.skip(from as int),
{
    let mut r: Vec<char> = Vec::new();
    let mut k = from;
    while k < w.len()
        invariant
            from <= k <= w@.len(),
            r@ == w@.subrange(from as int, k as int),
        decreases w@.len() - k,
    {
        r.push(w[k]);
        proof {
            assert(r@ =~= w@.subrange(from as int, k as int + 1));
        }
        k = k + 1;
    }
    proof {
        assert(r@ =~= w@.skip(from as int));
    }
    r
}

/// The tokens a word stands for; consumes the scanned word.
fn resolve_word_tokens(w: Vec<char>) -> (r: Result<Vec<Token>, CalcError>)
    ensures
        match r {
            Ok(v) => resolve_word(w@) == Ok::<_, ErrView>(toks_view(v@)),
            Err(e) => resolve_word(w@) == Err::<Seq<TokenView>, _>(e@),
        },
{
    let mut out: Vec<Token> = Vec::new();
    if let Some(f) = lookup_function(&w) {
        out.push(Token::Function(f));
        proof {
            assert(toks_view(out@) =~= seq![TokenView::Function(f)]);
        }
        return Ok(out);
    }
    if word_eq(&w, "e") {
        out.push(Token::Constant(ConstKind::E));
        proof {
            assert(toks_view(out@) =~= seq![TokenView::Constant(ConstKind::E)]);
        }
        return Ok(out);
    }
    if word_eq(&w, "pi") {
        out.push(Token::Constant(ConstKind::Pi));
        proof {
            assert(toks_view(out@) =~= seq![TokenView::Constant(ConstKind::Pi)]);
        }
        return Ok(out);
    }
    if w.len() > 1 && w[0] == 'e' && digits_from(&w, 1) {
        let digits = tail_vec(&w, 1);
        out.push(Token::Constant(ConstKind::E));
        out.push(Token::Number(digits));
        proof {
            assert(toks_view(out@) =~= seq![
                TokenView::Constant(ConstKind::E),
                TokenView::Number(w@.skip(1)),
            ]);
        }
        return Ok(out);
    }
    if w.len() > 2 && w[0] == 'p' && w[1] == 'i' && digits_from(&w, 2) {
        let digits = tail_vec(&w, 2);
        out.push(Token::Constant(ConstKind::Pi));
        out.push(Token::Number(digits));
        proof {
            assert(toks_view(out@) =~= seq![
                TokenView::Constant(ConstKind::Pi),
                TokenView::Number(w@.skip(2)),
            ]);
        }
        return Ok(out);
    }
    Err(err_unknown_word())
}

/// The raw-lexing loop invariant: what has been read so far, prepended to
/// whatever raw lexing yields from position `i` on, is the raw lexing of the
/// whole input.
pub open spec fn lex_inv(s: Seq<char>, has_prev: bool, acc: Seq<Token>, i: int) -> bool {
    match lex_raw(s, i, has_prev) {
        Ok(rest) => lex_raw(s, 0, has_prev) == Ok::<_, ErrView>(toks_view(acc) + rest),
        Err(e) => lex_raw(s, 0, has_prev) == Err::<Seq<TokenView>, _>(e),
    }
}

proof fn lemma_lex_inv_step(
    s: Seq<char>,
    has_prev: bool,
    acc: Seq<Token>,
    add: Seq<TokenView>,
    acc2: Seq<Token>,
    i: int,
    j: int,
)
    requires
        lex_inv(s, has_prev, acc, i),
        toks_view(acc2) == toks_view(acc) + add,
        lex_raw(s, i, has_prev) == (match lex_raw(s, j, has_prev) {
            Ok(rest) => Ok::<_, ErrView>(add + rest),
            Err(e) => Err::<Seq<TokenView>, _>(e),
        }),
    ensures
        lex_inv(s, has_prev, acc2, j),
{
    match lex_raw(s, j, has_prev) {
        Ok(rest) => {
            assert(toks_view(acc2) + rest =~= toks_view(acc) + (add + rest));
        },
        Err(e) => {},
    }
}

/// Scan the input into raw tokens, left to right.
fn lex_raw_tokens(input: &Vec<char>, has_prev: bool) -> (r: Result<Vec<Token>, CalcError>)
    ensures
        match r {
            Ok(v) => lex_raw(input@, 0, has_prev) == Ok::<_, ErrView>(toks_view(v@)),
            Err(e) => lex_raw(input@, 0, has_prev) == Err::<Seq<TokenView>, _>(e@),
        },
{
    let ghost s = input@;
    let mut acc: Vec<Token> = Vec::new();
    let mut i: usize = 0;
    proof {
        assert(toks_view(acc@) =~= Seq::<TokenView>::empty());
        if lex_raw(s, 0, has_prev) is Ok {
            assert(toks_view(acc@) + lex_raw(s, 0, has_prev)->Ok_0 =~= lex_raw(
                s,
                0,
                has_prev,
            )->Ok_0);
        }
    }
    while i < input.len()
        invariant
            i <= s.len(),
            s == input@,
            lex_inv(s, has_prev, acc@, i as int),
        decreases s.len() - i,
    {
        let ghost acc0 = acc@;
        let c = input[i];
        if ch_is_numchar(c) {
            let mut j = i;
            let mut buf: Vec<char> = Vec::new();
            proof {
                assert(buf@ =~= s.subrange(i as int, i as int));
            }
            while j < input.len() && ch_is_numchar(input[j])
                invariant
                    i <= j <= s.len(),
                    s == input@,
                    buf@ == s.subrange(i as int, j as int),
                    num_end(s, i as int) == num_end(s, j as int),
                decreases s.len() - j,
            {
                buf.push(input[j]);
                proof {
                    assert(buf@ =~= s.subrange(i as int, j as int + 1));
                }
                j = j + 1;
            }
            proof {
                assert(num_end(s, j as int) == j as int);
                assert(j > i);
            }
            if !check_number(&buf) {
                proof {
                    assert(lex_raw(s, i as int, has_prev) == Err::<Seq<TokenView>, _>(
                        ErrView::Lexer(msg_bad_number()),
                    ));
                }
                return Err(err_bad_number());
            }
            let ghost w = buf@;
            acc.push(Token::Number(buf));
            proof {
                lemma_toks_view_push(acc0, Token::Number(buf));
                assert(toks_view(acc@) =~= toks_view(acc0) + seq![TokenView::Number(w)]);
                lemma_lex_inv_step(
                    s,
                    has_prev,
                    acc0,
                    seq![TokenView::Number(w)],
                    acc@,
                    i as int,
                    j as int,
                );
            }
            i = j;
        } else if ch_is_alpha(c) {
            let mut j = i;
            let mut buf: Vec<char> = Vec::new();
            proof {
                assert(buf@ =~= s.subrange(i as int, i as int));
            }
            while j < input.len() && ch_is_wordchar(input[j])
                invariant
                    i <= j <= s.len(),
                    s == input@,
                    buf@ == s.subrange(i as int, j as int),
                    word_end(s, i as int) == word_end(s, j as int),
                decreases s.len() - j,
            {
                buf.push(input[j]);
                proof {
                    assert(buf@ =~= s.subrange(i as int, j as int + 1));
                }
                j = j + 1;
            }
            proof {
                assert(word_end(s, j as int) == j as int);
                assert(j > i);
            }
            let ghost w = buf@;
            match resolve_word_tokens(buf) {
                Ok(ts) => {
                    let ghost add = toks_view(ts@);
                    let mut ts = ts;
                    while ts.len() > 0
                        invariant
                            toks_view(acc@) + toks_view(ts@) == toks_view(acc0) + add,
                        decreases ts@.len(),
                    {
                        let ghost accb = acc@;
                        let ghost tsb = ts@;
                        let t = ts.remove(0);
                        acc.push(t);
                        proof {
                            assert(tsb.remove(0) =~= tsb.drop_first());
                            lemma_toks_view_push(accb, t);
                            assert(toks_view(accb.push(t)) + toks_view(tsb.drop_first())
                                =~= toks_view(accb) + toks_view(tsb));
                        }
                    }
                    proof {
                        assert(toks_view(ts@) =~= Seq::<TokenView>::empty());
                        assert(toks_view(acc@) =~= toks_view(acc@) + toks_view(ts@));
                        assert(toks_view(acc@) == toks_view(acc0) + add);
                        lemma_lex_inv_step(s, has_prev, acc0, add, acc@, i as int, j as int);
                    }
                },
                Err(e) => {
                    proof {
                        assert(lex_raw(s, i as int, has_prev) == Err::<Seq<TokenView>, _>(e@));
                    }
                    return Err(e);
                },
            }
            i = j;
        } else if c == '+' || c == '-' || c == '/' || c == '^' || c == '(' || c == ')' || c == ','
            || c == '_' {
            if c == '_' && !has_prev {
                proof {
                    assert(lex_raw(s, i as int, has_prev) == Err::<Seq<TokenView>, _>(
                        ErrView::Lexer(msg_no_prev_ans()),
                    ));
                }
                return Err(err_no_prev_ans());
            }
            let t = if c == '+' {
                Token::Operator(OpKind::Add)
            } else if c == '-' {
                Token::Operator(OpKind::Sub)
            } else if c == '/' {
                Token::Operator(OpKind::Div)
            } else if c == '^' {
                Token::Operator(OpKind::Pow)
            } else if c == '(' {
                Token::LParen
            } else if c == ')' {
                Token::RParen
            } else if c == ',' {
                Token::Comma
            } else {
                Token::PrevAns
            };
            let ghost tv = t@;
            acc.push(t);
            proof {
                lemma_toks_view_push(acc0, t);
                assert(toks_view(acc@) =~= toks_view(acc0) + seq![tv]);
                lemma_lex_inv_step(s, has_prev, acc0, seq![tv], acc@, i as int, i as int + 1);
            }
            i = i + 1;
        } else if c == '*' {
            if i + 1 < input.len() && input[i + 1] == '*' {
                acc.push(Token::Operator(OpKind::Pow));
                proof {
                    lemma_toks_view_push(acc0, Token::Operator(OpKind::Pow));
                    assert(toks_view(acc@) =~= toks_view(acc0) + seq![
                        TokenView::Operator(OpKind::Pow),
                    ]);
                    lemma_lex_inv_step(
                        s,
                        has_prev,
                        acc0,
                        seq![TokenView::Operator(OpKind::Pow)],
                        acc@,
                        i as int,
                        i as int + 2,
                    );
                }
                i = i + 2;
            } else {
                acc.push(Token::Operator(OpKind::Mul));
                proof {
                    lemma_toks_view_push(acc0, Token::Operator(OpKind::Mul));
                    assert(toks_view(acc@) =~= toks_view(acc0) + seq![
                        TokenView::Operator(OpKind::Mul),
                    ]);
                    lemma_lex_inv_step(
                        s,
                        has_prev,
                        acc0,
                        seq![TokenView::Operator(OpKind::Mul)],
                        acc@,
                        i as int,
                        i as int + 1,
                    );
                }
                i = i + 1;
            }
        } else {
            proof {
                assert(lex_raw(s, i as int, has_prev) == Err::<Seq<TokenView>, _>(
                    ErrView::Syntax(msg_unexpected_char()),
                ));
            }
            return Err(err_unexpected_char());
        }
    }
    proof {
        assert(lex_raw(s, i as int, has_prev) == Ok::<_, ErrView>(Seq::<TokenView>::empty()));
        assert(toks_view(acc@) + Seq::<TokenView>::empty() =~= toks_view(acc@));
    }
    Ok(acc)
}

fn tok_left_joins(t: &Token) -> (r: bool)
    ensures
        r == left_joins(t@),
{
    match t {
        Token::Number(_) => true,
        Token::PrevAns => true,
        Token::Constant(_) => true,
        Token::RParen => true,
        _ => false,
    }
}

fn tok_right_joins(t: &Token) -> (r: bool)
    ensures
        r == right_joins(t@),
{
    match t {
        Token::Number(_) => true,
        Token::PrevAns => true,
        Token::Constant(_) => true,
        Token::Function(_) => true,
        Token::LParen => true,
        _ => false,
    }
}

/// Insert the implicit multiplication operators.
fn insert_implicit_mult(ts: Vec<Token>) -> (r: Vec<Token>)
    ensures
        toks_view(r@) == insert_mult(toks_view(ts@)),
{
    let ghost orig = toks_view(ts@);
    let mut ts = ts;
    let mut out: Vec<Token> = Vec::new();
    proof {
        assert(toks_view(out@) =~= Seq::<TokenView>::empty());
        assert(toks_view(out@) + insert_mult(toks_view(ts@)) =~= insert_mult(orig));
    }
    while ts.len() > 0
        invariant
            toks_view(out@) + insert_mult(toks_view(ts@)) == insert_mult(orig),
        decreases ts@.len(),
    {
        let ghost x = toks_view(ts@);
        let ghost out0 = out@;
        let lj = tok_left_joins(&ts[0]);
        let rj = ts.len() >= 2 && tok_right_joins(&ts[1]);
        let ghost tsb = ts@;
        let t = ts.remove(0);
        proof {
            assert(tsb.remove(0) =~= tsb.drop_first());
            assert(toks_view(tsb.drop_first()) =~= x.drop_first());
        }
        out.push(t);
        if lj && rj {
            let ghost out1 = out@;
            out.push(Token::Operator(OpKind::Mul));
            proof {
                lemma_toks_view_push(out0, t);
                lemma_toks_view_push(out1, Token::Operator(OpKind::Mul));
                assert(insert_mult(x) =~= seq![x[0], TokenView::Operator(OpKind::Mul)]
                    + insert_mult(x.drop_first()));
                assert(toks_view(out@) + insert_mult(toks_view(ts@)) =~= toks_view(out0) + (
                seq![x[0], TokenView::Operator(OpKind::Mul)] + insert_mult(x.drop_first())));
            }
        } else {
            proof {
                lemma_toks_view_push(out0, t);
                if x.len() < 2 {
                    assert(insert_mult(x.drop_first()) =~= x.drop_first());
                    assert(insert_mult(x) =~= seq![x[0]] + insert_mult(x.drop_first()));
                } else {
                    assert(insert_mult(x) =~= seq![x[0]] + insert_mult(x.drop_first()));
                }
                assert(toks_view(out@) + insert_mult(toks_view(ts@)) =~= toks_view(out0) + (
                seq![x[0]] + insert_mult(x.drop_first())));
            }
        }
    }
    proof {
        assert(toks_view(ts@) =~= Seq::<TokenView>::empty());
        assert(toks_view(out@) + insert_mult(toks_view(ts@)) =~= toks_view(out@));
    }
    out
}

/// Turn the balanced input into its token sequence.
///
/// On success the tokens are exactly the raw left-to-right reading of the
/// input with implicit multiplication inserted; on failure the error is the
/// first one the reading meets.
pub fn lexer(input: &Vec<char>, has_prev: bool) -> (r: Result<Vec<Token>, CalcError>)
    ensures
        match r {
            Ok(v) => spec_lex(input@, has_prev) == Ok::<_, ErrView>(toks_view(v@)),
            Err(e) => spec_lex(input@, has_prev) == Err::<Seq<TokenView>, _>(e@),
        },
{
    match lex_raw_tokens(input, has_prev) {
        Ok(raw) => Ok(insert_implicit_mult(raw)),
        Err(e) => Err(e),
    }
}

} // verus!
