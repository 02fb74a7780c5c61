//! The token stream that a fresh lexer hands out, call after call, and the
//! facts that hold of it for every input.
use crate::lexer::{
    eof_literal, in_run, is_digit, is_letter, is_whitespace, run_end, scan, skip_whitespace, Scan,
};
use crate::token::TokenKind;
use vstd::prelude::*;

verus! {

/// The cursor position after `n` calls of `next_token` on a lexer fresh over `s`.
pub open spec fn cursor_after(s: Seq<char>, n: nat) -> int
    decreases n,
{
    if n == 0 {
        0
    } else {
        scan(s, cursor_after(s, (n - 1) as nat)).end
    }
}

/// What call number `n` (counting from 0) of `next_token` returns on a lexer
/// fresh over `s`.
pub open spec fn nth_scan(s: Seq<char>, n: nat) -> Scan {
    scan(s, cursor_after(s, n))
}

/// Skipping whitespace stops in the text, on a character that is not
/// whitespace, with only whitespace passed over.
pub proof fn lemma_skip_whitespace(s: Seq<char>, i: int)
    requires
        0 <= i <= s.len(),
    ensures
        i <= skip_whitespace(s, i) <= s.len(),
        skip_whitespace(s, i) < s.len() ==> !is_whitespace(s[skip_whitespace(s, i)]),
        forall|k: int| i <= k < skip_whitespace(s, i) ==> is_whitespace(#[trigger] s[k]),
    decreases s.len() - i,
{
    if i < s.len() && is_whitespace(s[i]) {
        lemma_skip_whitespace(s, i + 1);
    }
}

/// A run stops in the text, on a character outside the run, with only run
/// characters passed over.
pub proof fn lemma_run_end(s: Seq<char>, i: int, digits: bool)
    requires
        0 <= i <= s.len(),
    ensures
        i <= run_end(s, i, digits) <= s.len(),
        run_end(s, i, digits) < s.len() ==> !in_run(s[run_end(s, i, digits)], digits),
        forall|k: int| i <= k < run_end(s, i, digits) ==> in_run(#[trigger] s[k], digits),
    decreases s.len() - i,
{
    if i < s.len() && in_run(s[i], digits) {
        lemma_run_end(s, i + 1, digits);
    }
}

/// Each scan moves the cursor forward and keeps it in the text; only the
/// end-of-input token leaves it where it was, at the end.
pub proof fn lemma_scan_progress(s: Seq<char>, i: int)
    requires
        0 <= i <= s.len(),
    ensures
        i <= scan(s, i).end <= s.len(),
        scan(s, i).kind != TokenKind::EndOfInput ==> i < scan(s, i).end,
        scan(s, i).kind == TokenKind::EndOfInput <==> skip_whitespace(s, i) >= s.len(),
        scan(s, i).kind == TokenKind::EndOfInput ==> scan(s, i).end == s.len(),
{
    lemma_skip_whitespace(s, i);
    let j = skip_whitespace(s, i);
    if j < s.len() {
        lemma_run_end(s, j, false);
        lemma_run_end(s, j, true);
        assert(is_letter(s[j]) ==> in_run(s[j], false));
        assert(is_digit(s[j]) ==> in_run(s[j], true));
    }
}

/// The cursor of a fresh lexer never leaves the text.
pub proof fn lemma_cursor_in_text(s: Seq<char>, n: nat)
    ensures
        0 <= cursor_after(s, n) <= s.len(),
    decreases n,
{
    if n > 0 {
        lemma_cursor_in_text(s, (n - 1) as nat);
        lemma_scan_progress(s, cursor_after(s, (n - 1) as nat));
    }
}

/// Once the stream has reached its end it stays there.
proof fn lemma_end_is_absorbing(s: Seq<char>, k: nat, n: nat)
    requires
        k <= n,
        nth_scan(s, k).kind == TokenKind::EndOfInput,
    ensures
        nth_scan(s, n).kind == TokenKind::EndOfInput,
    decreases n - k,
{
    if k < n {
        lemma_end_is_absorbing(s, k, (n - 1) as nat);
        lemma_cursor_in_text(s, (n - 1) as nat);
        lemma_scan_progress(s, cursor_after(s, (n - 1) as nat));
        lemma_skip_whitespace(s, s.len() as int);
    }
}

/// While no end-of-input token has come, each call moves the cursor at
/// least one character on.
proof fn lemma_first_end(s: Seq<char>, n: nat) -> (k: nat)
    requires
        n <= cursor_after(s, n),
        forall|m: nat| m < n ==> nth_scan(s, m).kind != TokenKind::EndOfInput,
    ensures
        n <= k <= s.len(),
        nth_scan(s, k).kind == TokenKind::EndOfInput,
        forall|m: nat| m < k ==> nth_scan(s, m).kind != TokenKind::EndOfInput,
    decreases s.len() - n,
{
    lemma_cursor_in_text(s, n);
    lemma_scan_progress(s, cursor_after(s, n));
    if nth_scan(s, n).kind == TokenKind::EndOfInput {
        n
    } else {
        assert(cursor_after(s, n + 1) == scan(s, cursor_after(s, n)).end);
        lemma_cursor_in_text(s, n + 1);
        assert forall|m: nat| m < n + 1 implies nth_scan(s, m).kind != TokenKind::EndOfInput by {
            if m < n {
            }
        }
        lemma_first_end(s, n + 1)
    }
}

/// The first `k` tokens of the stream over `s` are not the end-of-input
/// token, and every token from then on is, with the end-of-input literal.
pub open spec fn ends_after(s: Seq<char>, k: nat) -> bool {
    &&& forall|n: nat| n < k ==> #[trigger] nth_scan(s, n).kind != TokenKind::EndOfInput
    &&& forall|n: nat|
        k <= n ==> #[trigger] nth_scan(s, n).kind == TokenKind::EndOfInput && nth_scan(
            s,
            n,
        ).literal == eof_literal()
}

/// Scanning always ends: for every input the stream is a run of at most as
/// many tokens as the text has characters, none of them the end-of-input
/// token, followed by end-of-input tokens for ever.
pub proof fn lemma_stream_ends(s: Seq<char>)
    ensures
        exists|k: nat| k <= s.len() && #[trigger] ends_after(s, k),
{
    let k = lemma_first_end(s, 0);
    assert forall|n: nat| k <= n implies #[trigger] nth_scan(s, n).kind == TokenKind::EndOfInput
        && nth_scan(s, n).literal == eof_literal() by {
        lemma_end_is_absorbing(s, k, n);
    }
    assert(ends_after(s, k));
}

/// Every character of `w` is whitespace.
pub open spec fn all_whitespace(w: Seq<char>) -> bool {
    forall|k: int| 0 <= k < w.len() ==> is_whitespace(#[trigger] w[k])
}

proof fn lemma_concat_index(w1: Seq<char>, s: Seq<char>, w2: Seq<char>)
    ensures
        (w1 + s + w2).len() == w1.len() + s.len() + w2.len(),
        forall|k: int| 0 <= k < w1.len() ==> (w1 + s + w2)[k] == #[trigger] w1[k],
        forall|k: int| 0 <= k < s.len() ==> (w1 + s + w2)[k + w1.len()] == #[trigger] s[k],
        forall|k: int|
            0 <= k < w2.len() ==> (w1 + s + w2)[k + w1.len() + s.len()] == #[trigger] w2[k],
{
    assert forall|k: int| 0 <= k < s.len() implies (w1 + s + w2)[k + w1.len()] == #[trigger] s[k] by {
        assert((w1 + s)[k + w1.len()] == s[k]);
    }
}

/// From a point past which the text holds only whitespace, skipping runs to the end.
proof fn lemma_skip_to_end(t: Seq<char>, j: int)
    requires
        0 <= j <= t.len(),
        forall|k: int| j <= k < t.len() ==> is_whitespace(#[trigger] t[k]),
    ensures
        skip_whitespace(t, j) == t.len(),
    decreases t.len() - j,
{
    if j < t.len() {
        lemma_skip_to_end(t, j + 1);
    }
}

/// Skipping from `j` passes over whitespace up to `a` and goes on from there.
proof fn lemma_skip_through(t: Seq<char>, j: int, a: int)
    requires
        0 <= j <= a <= t.len(),
        forall|k: int| j <= k < a ==> is_whitespace(#[trigger] t[k]),
    ensures
        skip_whitespace(t, j) == skip_whitespace(t, a),
    decreases a - j,
{
    if j < a {
        lemma_skip_through(t, j + 1, a);
    }
}

/// Skipping in `w1 + s + w2` follows skipping in `s`, shifted by `w1`, and
/// runs to the end where `s` has nothing left.
proof fn lemma_skip_shift(w1: Seq<char>, s: Seq<char>, w2: Seq<char>, i: int)
    requires
        all_whitespace(w2),
        0 <= i <= s.len(),
    ensures
        skip_whitespace(w1 + s + w2, i + w1.len()) == if skip_whitespace(s, i) < s.len() {
            skip_whitespace(s, i) + w1.len()
        } else {
            (w1 + s + w2).len() as int
        },
    decreases s.len() - i,
{
    let t = w1 + s + w2;
    lemma_concat_index(w1, s, w2);
    if i < s.len() {
        assert(t[i + w1.len()] == s[i]);
        if is_whitespace(s[i]) {
            lemma_skip_shift(w1, s, w2, i + 1);
        }
    } else {
        assert forall|k: int| i + w1.len() <= k < t.len() implies is_whitespace(#[trigger] t[k]) by {
            assert(t[(k - w1.len() - s.len()) + w1.len() + s.len()] == w2[k - w1.len() - s.len()]);
        }
        lemma_skip_to_end(t, i + w1.len());
    }
}

/// A run in `w1 + s + w2` is the run in `s`, shifted by `w1`: whitespace ends it.
proof fn lemma_run_shift(w1: Seq<char>, s: Seq<char>, w2: Seq<char>, i: int, digits: bool)
    requires
        all_whitespace(w2),
        0 <= i <= s.len(),
    ensures
        run_end(w1 + s + w2, i + w1.len(), digits) == run_end(s, i, digits) + w1.len(),
    decreases s.len() - i,
{
    let t = w1 + s + w2;
    lemma_concat_index(w1, s, w2);
    if i < s.len() {
        assert(t[i + w1.len()] == s[i]);
        if in_run(s[i], digits) {
            lemma_run_end(s, i + 1, digits);
            lemma_run_shift(w1, s, w2, i + 1, digits);
        }
    } else if i + w1.len() < t.len() {
        assert(t[0int + w1.len() + s.len()] == w2[0]);
    }
}

/// A scan of `w1 + s + w2` from a shifted position yields what the scan of
/// `s` yields; a token's end is shifted too, while the end of input is at the
/// end of the longer text.
proof fn lemma_scan_shift(w1: Seq<char>, s: Seq<char>, w2: Seq<char>, i: int)
    requires
        all_whitespace(w2),
        0 <= i <= s.len(),
    ensures
        scan(w1 + s + w2, i + w1.len()).kind == scan(s, i).kind,
        scan(w1 + s + w2, i + w1.len()).literal == scan(s, i).literal,
        scan(w1 + s + w2, i + w1.len()).end == if scan(s, i).kind == TokenKind::EndOfInput {
            (w1 + s + w2).len() as int
        } else {
            scan(s, i).end + w1.len()
        },
{
    let t = w1 + s + w2;
    let a = w1.len() as int;
    lemma_concat_index(w1, s, w2);
    lemma_skip_shift(w1, s, w2, i);
    lemma_skip_whitespace(s, i);
    let j = skip_whitespace(s, i);
    if j < s.len() {
        assert(t[j + a] == s[j]);
        lemma_run_end(s, j, false);
        lemma_run_end(s, j, true);
        lemma_run_shift(w1, s, w2, j, false);
        lemma_run_shift(w1, s, w2, j, true);
        assert(t.subrange(j + a, run_end(s, j, false) + a) =~= s.subrange(j, run_end(s, j, false)))
            by {
            assert forall|k: int| 0 <= k < run_end(s, j, false) - j implies t.subrange(
                j + a,
                run_end(s, j, false) + a,
            )[k] == s.subrange(j, run_end(s, j, false))[k] by {
                assert(t[(j + k) + a] == s[j + k]);
            }
        }
        assert(t.subrange(j + a, run_end(s, j, true) + a) =~= s.subrange(j, run_end(s, j, true)))
            by {
            assert forall|k: int| 0 <= k < run_end(s, j, true) - j implies t.subrange(
                j + a,
                run_end(s, j, true) + a,
            )[k] == s.subrange(j, run_end(s, j, true))[k] by {
                assert(t[(j + k) + a] == s[j + k]);
            }
        }
    }
}

/// The cursors of the two streams stay in step: at each call, skipping from
/// the cursor over `w1 + s + w2` lands where skipping from the shifted cursor
/// over `s` does.
proof fn lemma_stream_shift(w1: Seq<char>, s: Seq<char>, w2: Seq<char>, n: nat)
    requires
        all_whitespace(w1),
        all_whitespace(w2),
    ensures
        0 <= cursor_after(s, n) <= s.len(),
        skip_whitespace(w1 + s + w2, cursor_after(w1 + s + w2, n)) == skip_whitespace(
            w1 + s + w2,
            cursor_after(s, n) + w1.len(),
        ),
    decreases n,
{
    let t = w1 + s + w2;
    lemma_concat_index(w1, s, w2);
    lemma_cursor_in_text(s, n);
    if n == 0 {
        lemma_skip_through(t, 0, w1.len() as int);
    } else {
        let p = (n - 1) as nat;
        lemma_stream_shift(w1, s, w2, p);
        lemma_cursor_in_text(s, p);
        lemma_scan_shift(w1, s, w2, cursor_after(s, p));
        assert(scan(t, cursor_after(t, p)) == scan(t, cursor_after(s, p) + w1.len()));
        if scan(s, cursor_after(s, p)).kind == TokenKind::EndOfInput {
            lemma_scan_progress(s, cursor_after(s, p));
            lemma_skip_shift(w1, s, w2, s.len() as int);
            lemma_skip_whitespace(t, t.len() as int);
            lemma_skip_whitespace(s, s.len() as int);
        }
    }
}

/// Whitespace before and after the text adds no token and changes no
/// literal: every call yields the same kind and literal as over the text alone.
pub proof fn lemma_whitespace_transparent(w1: Seq<char>, s: Seq<char>, w2: Seq<char>, n: nat)
    requires
        all_whitespace(w1),
        all_whitespace(w2),
    ensures
        nth_scan(w1 + s + w2, n).kind == nth_scan(s, n).kind,
        nth_scan(w1 + s + w2, n).literal == nth_scan(s, n).literal,
{
    let t = w1 + s + w2;
    lemma_stream_shift(w1, s, w2, n);
    lemma_scan_shift(w1, s, w2, cursor_after(s, n));
    assert(scan(t, cursor_after(t, n)) == scan(t, cursor_after(s, n) + w1.len()));
}

/// The kinds of token that a multi-character run makes.
pub open spec fn is_run_kind(kind: TokenKind) -> bool {
    kind == TokenKind::Integer || kind == TokenKind::Identifier || kind == TokenKind::Function
        || kind == TokenKind::Let
}

/// Integers and words are scanned whole: the literal is a non-empty run of
/// digits (of letters, for words), and the character after it, if there is
/// one, cannot extend it.
pub proof fn lemma_maximal_munch(s: Seq<char>, i: int)
    requires
        0 <= i <= s.len(),
        is_run_kind(scan(s, i).kind),
    ensures
        scan(s, i).literal.len() > 0,
        forall|k: int|
            0 <= k < scan(s, i).literal.len() ==> in_run(
                #[trigger] scan(s, i).literal[k],
                scan(s, i).kind == TokenKind::Integer,
            ),
        scan(s, i).end == s.len() || !in_run(
            s[scan(s, i).end],
            scan(s, i).kind == TokenKind::Integer,
        ),
{
    lemma_skip_whitespace(s, i);
    let j = skip_whitespace(s, i);
    lemma_run_end(s, j, false);
    lemma_run_end(s, j, true);
    if j < s.len() {
        assert(is_letter(s[j]) ==> in_run(s[j], false));
        assert(is_digit(s[j]) ==> in_run(s[j], true));
    }
}

} // verus!
