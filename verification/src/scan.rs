//! The mathematical model of scanning: which characters belong to which
//! token class, the value of a digit run, the length of a maximal run, and
//! `spec_scan`, which says exactly what tokens one line of text holds and
//! where a scan stops.

use crate::token::{ScanError, TokenView};
use vstd::prelude::*;

verus! {

/// A decimal digit.
pub open spec fn is_digit_char(c: char) -> bool {
    '0' <= c && c <= '9'
}

/// A lowercase ASCII letter, the only kind of character a name may hold.
pub open spec fn is_name_char(c: char) -> bool {
    'a' <= c && c <= 'z'
}

/// The numeric value of one decimal digit.
pub open spec fn digit_value(c: char) -> int {
    c as int - '0' as int
}

/// The base-10 value of a run of digits, most significant digit first.
pub open spec fn digits_value(s: Seq<char>) -> int
    decreases s.len(),
{
    if s.len() == 0 {
        0
    } else {
        digits_value(s.drop_last()) * 10 + digit_value(s.last())
    }
}

/// Membership in the digit class, as a predicate value.
pub open spec fn digit_pred() -> spec_fn(char) -> bool {
    |c: char| is_digit_char(c)
}

/// Membership in the name class, as a predicate value.
pub open spec fn name_pred() -> spec_fn(char) -> bool {
    |c: char| is_name_char(c)
}

/// The length of the longest prefix of `s` whose characters all satisfy `p`.
pub open spec fn run_len(s: Seq<char>, p: spec_fn(char) -> bool) -> nat
    decreases s.len(),
{
    if s.len() == 0 || !p(s[0]) {
        0
    } else {
        1 + run_len(s.skip(1), p)
    }
}

/// The length of the maximal digit run at the head of `s`.
pub open spec fn digit_run_len(s: Seq<char>) -> nat {
    run_len(s, digit_pred())
}

/// The length of the maximal name run at the head of `s`.
pub open spec fn name_run_len(s: Seq<char>) -> nat {
    run_len(s, name_pred())
}

/// A maximal run is no longer than the line, all its characters satisfy the
/// predicate, and the character just past it (if any) does not.
pub proof fn lemma_run_len_bounds(s: Seq<char>, p: spec_fn(char) -> bool)
    ensures
        run_len(s, p) <= s.len(),
        forall|i: int| 0 <= i < run_len(s, p) ==> p(#[trigger] s[i]),
        run_len(s, p) < s.len() ==> !p(s[run_len(s, p) as int]),
    decreases s.len(),
{
    if s.len() != 0 && p(s[0]) {
        lemma_run_len_bounds(s.skip(1), p);
        assert forall|i: int| 0 <= i < run_len(s, p) implies p(#[trigger] s[i]) by {
            if i > 0 {
                assert(s.skip(1)[i - 1] == s[i]);
            }
        }
        if run_len(s, p) < s.len() {
            assert(s.skip(1)[run_len(s, p) - 1] == s[run_len(s, p) as int]);
        }
    }
}

/// A prefix length that satisfies the predicate throughout and ends at the
/// line's end or at a character outside the class is the maximal run length.
pub proof fn lemma_run_len_is(s: Seq<char>, p: spec_fn(char) -> bool, n: int)
    requires
        0 <= n <= s.len(),
        forall|i: int| 0 <= i < n ==> p(#[trigger] s[i]),
        n == s.len() || !p(s[n]),
    ensures
        run_len(s, p) == n,
    decreases s.len(),
{
    if n == 0 {
    } else {
        assert(p(s[0]));
        assert forall|i: int| 0 <= i < n - 1 implies p(#[trigger] s.skip(1)[i]) by {
            assert(s.skip(1)[i] == s[i + 1]);
        }
        if n < s.len() {
            assert(s.skip(1)[n - 1] == s[n]);
        }
        lemma_run_len_is(s.skip(1), p, n - 1);
    }
}

/// The value of a digit run is never negative.
pub proof fn lemma_digits_value_nonneg(s: Seq<char>)
    requires
        forall|i: int| 0 <= i < s.len() ==> is_digit_char(#[trigger] s[i]),
    ensures
        digits_value(s) >= 0,
    decreases s.len(),
{
    if s.len() > 0 {
        assert forall|i: int| 0 <= i < s.drop_last().len() implies is_digit_char(
            #[trigger] s.drop_last()[i],
        ) by {
            assert(s.drop_last()[i] == s[i]);
        }
        lemma_digits_value_nonneg(s.drop_last());
        assert(is_digit_char(s.last()));
    }
}

/// What scanning a line yields: the tokens recognized left to right, and,
/// where the scan stopped before the line's end, the reason. A digit run
/// becomes one `Number` token when its value fits in 32 signed bits and
/// otherwise stops the scan; a name run becomes one `Name` token; spaces are
/// skipped; a newline ends the scan quietly; any other character ends it
/// with a diagnostic.
pub open spec fn spec_scan(s: Seq<char>) -> (Seq<TokenView>, Option<ScanError>)
    decreases s.len(),
    via spec_scan_decreases
{
    if s.len() == 0 {
        (Seq::<TokenView>::empty(), None::<ScanError>)
    } else if is_digit_char(s[0]) {
        let n = digit_run_len(s) as int;
        let v = digits_value(s.take(n));
        if v <= i32::MAX as int {
            let rest = spec_scan(s.skip(n));
            (seq![TokenView::Number(v)] + rest.0, rest.1)
        } else {
            (Seq::<TokenView>::empty(), Some(ScanError::NumericOverflow))
        }
    } else if is_name_char(s[0]) {
        let n = name_run_len(s) as int;
        let rest = spec_scan(s.skip(n));
        (seq![TokenView::Name(s.take(n))] + rest.0, rest.1)
    } else if s[0] == ' ' {
        spec_scan(s.skip(1))
    } else if s[0] == '\n' {
        (Seq::<TokenView>::empty(), None::<ScanError>)
    } else {
        (Seq::<TokenView>::empty(), Some(ScanError::UnrecognizedCharacter(s[0])))
    }
}

#[via_fn]
proof fn spec_scan_decreases(s: Seq<char>) {
    if s.len() != 0 {
        if is_digit_char(s[0]) {
            lemma_run_len_bounds(s, digit_pred());
        } else if is_name_char(s[0]) {
            lemma_run_len_bounds(s, name_pred());
        }
    }
}

} // verus!
