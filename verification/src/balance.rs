//! The preprocessor: whitespace normalization and parenthesis
//! auto-balancing.
//!
//! A close parenthesis with no matching open is never recoverable and is
//! rejected at once; opens still unclosed at the end of the input are
//! closed by appending exactly that many `)` characters, so that truncated
//! interactive input such as `tan(45` is read as `tan(45)`.

use vstd::prelude::*;
use crate::error::{err_mismatched_parens, msg_mismatched_parens, CalcError, ErrView};

verus! {

/// Whitespace that survives space removal and is trimmed from the ends.
pub open spec fn is_trim_ws(c: char) -> bool {
    c == '\t' || c == '\n' || c == '\r'
}

/// The input with every space character removed.
pub open spec fn remove_spaces(s: Seq<char>) -> Seq<char>
    decreases s.len(),
{
    if s.len() == 0 {
        Seq::empty()
    } else if s[0] == ' ' {
        remove_spaces(s.drop_first())
    } else {
        seq![s[0]] + remove_spaces(s.drop_first())
    }
}

/// The input with leading trim whitespace removed.
pub open spec fn ltrim(s: Seq<char>) -> Seq<char>
    decreases s.len(),
{
    if s.len() > 0 && is_trim_ws(s[0]) {
        ltrim(s.drop_first())
    } else {
        s
    }
}

/// The input with trailing trim whitespace removed.
pub open spec fn rtrim(s: Seq<char>) -> Seq<char>
    decreases s.len(),
{
    if s.len() > 0 && is_trim_ws(s.last()) {
        rtrim(s.drop_last())
    } else {
        s
    }
}

/// What the pipeline works on: the input with all spaces removed and the
/// remaining whitespace trimmed from both ends.
pub open spec fn normalize_view(s: Seq<char>) -> Seq<char> {
    rtrim(ltrim(remove_spaces(s)))
}

/// Open-parenthesis depth left after scanning `s` from position `i` with
/// starting depth `d`, or `None` if some close parenthesis has no matching
/// open.
pub open spec fn balance_scan(s: Seq<char>, i: int, d: nat) -> Option<nat>
    decreases s.len() - i,
{
    if i < 0 || i >= s.len() {
        Some(d)
    } else if s[i] == '(' {
        balance_scan(s, i + 1, d + 1)
    } else if s[i] == ')' {
        if d == 0 {
            None
        } else {
            balance_scan(s, i + 1, (d - 1) as nat)
        }
    } else {
        balance_scan(s, i + 1, d)
    }
}

/// `n` close parentheses.
pub open spec fn close_parens(n: nat) -> Seq<char> {
    Seq::new(n, |i: int| ')')
}

/// The balanced form of `s`: `s` itself with one `)` appended for every
/// open parenthesis still unclosed at the end, or `None` if a close
/// parenthesis has no matching open.
pub open spec fn spec_balance(s: Seq<char>) -> Option<Seq<char>> {
    match balance_scan(s, 0, 0) {
        Some(d) => Some(s + close_parens(d)),
        None => None,
    }
}

/// The characters of a string slice, in order.
pub fn str_chars(s: &str) -> (v: Vec<char>)
    ensures
        v@ == s@,
{
    let n = s.unicode_len();
    let mut v: Vec<char> = Vec::new();
    let mut i: usize = 0;
    while i < n
        invariant
            i <= n,
            n == s@.len(),
            v@ == s@.take(i as int),
        decreases n - i,
    {
        v.push(s.get_char(i));
        proof {
            assert(v@ =~= s@.take(i as int + 1));
        }
        i = i + 1;
    }
    proof {
        assert(s@.take(n as int) =~= s@);
    }
    v
}

/// Remove every space character.
fn strip_spaces(v: &Vec<char>) -> (r: Vec<char>)
    ensures
        r@ == remove_spaces(v@),
{
    let mut r: Vec<char> = Vec::new();
    let mut i: usize = 0;
    proof {
        assert(v@.skip(0) =~= v@);
        assert(r@ + remove_spaces(v@) =~= remove_spaces(v@));
    }
    while i < v.len()
        invariant
            i <= v@.len(),
            remove_spaces(v@) == r@ + remove_spaces(v@.skip(i as int)),
        decreases v@.len() - i,
    {
        proof {
            assert(v@.skip(i as int).drop_first() =~= v@.skip(i as int + 1));
            assert(v@.skip(i as int)[0] == v@[i as int]);
        }
        if v[i] != ' ' {
            let ghost r0 = r@;
            r.push(v[i]);
            proof {
                assert(remove_spaces(v@.skip(i as int)) =~= seq![v@[i as int]] + remove_spaces(
                    v@.skip(i as int + 1),
                ));
                assert(r@ + remove_spaces(v@.skip(i as int + 1)) =~= r0 + remove_spaces(
                    v@.skip(i as int),
                )) by {
                    assert(r@ =~= r0 + seq![v@[i as int]]);
                }
            }
        }
        i = i + 1;
    }
    proof {
        assert(v@.skip(v@.len() as int) =~= Seq::<char>::empty());
        assert(remove_spaces(v@) =~= r@);
    }
    r
}

/// Trim whitespace from both ends.
fn trim_ends(v: Vec<char>) -> (r: Vec<char>)
    ensures
        r@ == rtrim(ltrim(v@)),
{
    let ghost orig = v@;
    let mut v = v;
    // Drop the leading whitespace by finding the first real character.
    let mut start: usize = 0;
    proof {
        assert(orig.skip(0) =~= orig);
    }
    while start < v.len() && (v[start] == '\t' || v[start] == '\n' || v[start] == '\r')
        invariant
            start <= v@.len(),
            v@ == orig,
            ltrim(orig) == ltrim(orig.skip(start as int)),
        decreases v@.len() - start,
    {
        proof {
            assert(orig.skip(start as int).drop_first() =~= orig.skip(start as int + 1));
        }
        start = start + 1;
    }
    proof {
        assert(ltrim(orig) == orig.skip(start as int));
    }
    let mut r: Vec<char> = Vec::new();
    let mut i: usize = start;
    while i < v.len()
        invariant
            start <= i <= v@.len(),
            v@ == orig,
            r@ == orig.skip(start as int).take(i - start),
        decreases v@.len() - i,
    {
        r.push(v[i]);
        proof {
            assert(r@ =~= orig.skip(start as int).take(i + 1 - start));
        }
        i = i + 1;
    }
    proof {
        assert(r@ =~= orig.skip(start as int));
    }
    // Drop the trailing whitespace.
    let ghost lt = r@;
    while r.len() > 0 && (r[r.len() - 1] == '\t' || r[r.len() - 1] == '\n' || r[r.len() - 1]
        == '\r')
        invariant
            rtrim(lt) == rtrim(r@),
        decreases r@.len(),
    {
        proof {
            assert(r@.drop_last() =~= r@.subrange(0, r@.len() - 1));
        }
        r.pop();
    }
    r
}

/// Normalize the raw input: remove spaces, trim the ends.
pub fn normalize(v: &Vec<char>) -> (r: Vec<char>)
    ensures
        r@ == normalize_view(v@),
{
    trim_ends(strip_spaces(v))
}

/// Validate and auto-complete the parenthesis balance of the input.
///
/// Returns the input with exactly as many `)` appended as there are
/// unclosed `(`, or a syntax error if some `)` has no matching `(`.
pub fn autobalance_parens(v: Vec<char>) -> (r: Result<Vec<char>, CalcError>)
    ensures
        match r {
            Ok(out) => spec_balance(v@) == Some(out@),
            Err(e) => spec_balance(v@) is None && e@ == ErrView::Syntax(msg_mismatched_parens()),
        },
{
    let mut d: usize = 0;
    let mut i: usize = 0;
    while i < v.len()
        invariant
            i <= v@.len(),
            d <= i,
            balance_scan(v@, 0, 0) == balance_scan(v@, i as int, d as nat),
        decreases v@.len() - i,
    {
        if v[i] == '(' {
            d = d + 1;
        } else if v[i] == ')' {
            if d == 0 {
                return Err(err_mismatched_parens());
            }
            d = d - 1;
        }
        i = i + 1;
    }
    let mut out = v;
    let ghost base = out@;
    let mut k: usize = 0;
    while k < d
        invariant
            k <= d,
            out@ == base + close_parens(k as nat),
        decreases d - k,
    {
        out.push(')');
        proof {
            assert(out@ =~= base + close_parens(k as nat + 1));
        }
        k = k + 1;
    }
    Ok(out)
}

/// The string the preprocessor returns is balanced: scanning it leaves
/// depth zero and never finds an unmatched close parenthesis. Auto-closing
/// therefore yields exactly what writing the missing parentheses by hand
/// would have.
pub proof fn lemma_autobalance_balanced(s: Seq<char>)
    requires
        spec_balance(s) is Some,
    ensures
        balance_scan(spec_balance(s)->Some_0, 0, 0) == Some(0nat),
        spec_balance(spec_balance(s)->Some_0) == Some(spec_balance(s)->Some_0),
{
    let d = balance_scan(s, 0, 0)->Some_0;
    let t = s + close_parens(d);
    lemma_scan_append(s, close_parens(d), 0, 0);
    lemma_scan_closes(d);
    assert(balance_scan(t, 0, 0) == Some(0nat));
    assert(t + close_parens(0) =~= t);
}

/// Scanning a concatenation scans the first part, then the second with the
/// depth the first part left.
pub proof fn lemma_scan_append(s: Seq<char>, t: Seq<char>, i: int, d: nat)
    requires
        0 <= i <= s.len(),
    ensures
        balance_scan(s + t, i, d) == match balance_scan(s, i, d) {
            Some(m) => balance_scan(t, 0, m),
            None => None::<nat>,
        },
    decreases s.len() - i,
{
    let st = s + t;
    if i < s.len() {
        assert(st[i] == s[i]);
        if s[i] == '(' {
            lemma_scan_append(s, t, i + 1, d + 1);
        } else if s[i] == ')' {
            if d != 0 {
                lemma_scan_append(s, t, i + 1, (d - 1) as nat);
            }
        } else {
            lemma_scan_append(s, t, i + 1, d);
        }
    } else {
        lemma_scan_shift(s, t, 0, d);
    }
}

/// Scanning the tail of a concatenation is scanning the second part alone.
proof fn lemma_scan_shift(s: Seq<char>, t: Seq<char>, j: int, d: nat)
    requires
        0 <= j <= t.len(),
    ensures
        balance_scan(s + t, s.len() + j, d) == balance_scan(t, j, d),
    decreases t.len() - j,
{
    let st = s + t;
    if j < t.len() {
        assert(st[s.len() + j] == t[j]);
        if t[j] == '(' {
            lemma_scan_shift(s, t, j + 1, d + 1);
        } else if t[j] == ')' {
            if d != 0 {
                lemma_scan_shift(s, t, j + 1, (d - 1) as nat);
            }
        } else {
            lemma_scan_shift(s, t, j + 1, d);
        }
    }
}

/// Scanning `d` close parentheses from depth `d` ends balanced.
proof fn lemma_scan_closes(d: nat)
    ensures
        balance_scan(close_parens(d), 0, d) == Some(0nat),
    decreases d,
{
    if d > 0 {
        lemma_scan_closes_from(d, 0, d);
    }
}

/// Scanning the remaining closes from position `j` with the matching depth.
proof fn lemma_scan_closes_from(d: nat, j: int, r: nat)
    requires
        0 <= j <= d,
        r == d - j,
    ensures
        balance_scan(close_parens(d), j, r) == Some(0nat),
    decreases r,
{
    if j < d {
        assert(close_parens(d)[j] == ')');
        lemma_scan_closes_from(d, j + 1, (r - 1) as nat);
    }
}


/// Removing spaces distributes over concatenation.
pub proof fn lemma_remove_spaces_append(a: Seq<char>, b: Seq<char>)
    ensures
        remove_spaces(a + b) == remove_spaces(a) + remove_spaces(b),
    decreases a.len(),
{
    if a.len() == 0 {
        assert(a + b =~= b);
        assert(remove_spaces(a) + remove_spaces(b) =~= remove_spaces(b));
    } else {
        assert((a + b)[0] == a[0]);
        assert((a + b).drop_first() =~= a.drop_first() + b);
        lemma_remove_spaces_append(a.drop_first(), b);
        if a[0] != ' ' {
            assert(seq![a[0]] + (remove_spaces(a.drop_first()) + remove_spaces(b)) =~= (seq![a[0]]
                + remove_spaces(a.drop_first())) + remove_spaces(b));
        }
    }
}

/// Close parentheses contain no space to remove.
pub proof fn lemma_remove_spaces_closes(n: nat)
    ensures
        remove_spaces(close_parens(n)) == close_parens(n),
    decreases n,
{
    if n == 0 {
        assert(close_parens(0) =~= Seq::<char>::empty());
    } else {
        assert(close_parens(n).drop_first() =~= close_parens((n - 1) as nat));
        lemma_remove_spaces_closes((n - 1) as nat);
        assert(seq![close_parens(n)[0]] + close_parens((n - 1) as nat) =~= close_parens(n));
    }
}

/// Leading trim passes over a suffix that starts with a real character.
pub proof fn lemma_ltrim_append(a: Seq<char>, b: Seq<char>)
    requires
        b.len() > 0,
        !is_trim_ws(b[0]),
    ensures
        ltrim(a + b) == ltrim(a) + b,
    decreases a.len(),
{
    if a.len() == 0 {
        assert(a + b =~= b);
        assert(ltrim(a) + b =~= b);
    } else if is_trim_ws(a[0]) {
        assert((a + b)[0] == a[0]);
        assert((a + b).drop_first() =~= a.drop_first() + b);
        lemma_ltrim_append(a.drop_first(), b);
    } else {
        assert((a + b)[0] == a[0]);
    }
}

} // verus!
