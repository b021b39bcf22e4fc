//! The scanner's general laws, stated over `spec_scan` — the very function
//! `tokenize`'s contract equates its result with — and proved here.

use crate::scan::{
    digit_pred, digits_value, is_digit_char, is_name_char, lemma_run_len_bounds, lemma_run_len_is,
    name_pred, run_len, spec_scan,
};
use crate::token::{ScanError, TokenView};
use vstd::prelude::*;

verus! {

/// Law: a nonempty line consisting only of decimal digits scans to exactly
/// one `Number` token holding the base-10 value of the whole run, with no
/// diagnostic — provided that value fits in 32 signed bits.
pub proof fn lemma_scan_all_digits(s: Seq<char>)
    requires
        s.len() > 0,
        forall|i: int| 0 <= i < s.len() ==> is_digit_char(#[trigger] s[i]),
        digits_value(s) <= i32::MAX as int,
    ensures
        spec_scan(s).0 == seq![TokenView::Number(digits_value(s))],
        spec_scan(s).1 is None,
{
    lemma_scan_digit_run_prefix(s, Seq::<char>::empty());
    assert(s + Seq::<char>::empty() =~= s);
    assert(seq![TokenView::Number(digits_value(s))] + Seq::<TokenView>::empty() =~= seq![
        TokenView::Number(digits_value(s)),
    ]);
}

/// Law: a nonempty line consisting only of lowercase letters scans to
/// exactly one `Name` token equal to the whole line, with no diagnostic.
pub proof fn lemma_scan_all_name_chars(s: Seq<char>)
    requires
        s.len() > 0,
        forall|i: int| 0 <= i < s.len() ==> is_name_char(#[trigger] s[i]),
    ensures
        spec_scan(s).0 == seq![TokenView::Name(s)],
        spec_scan(s).1 is None,
{
    lemma_scan_name_run_prefix(s, Seq::<char>::empty());
    assert(s + Seq::<char>::empty() =~= s);
    assert(seq![TokenView::Name(s)] + Seq::<TokenView>::empty() =~= seq![TokenView::Name(s)]);
}

/// Law: a maximal digit run followed by anything that does not extend it
/// contributes exactly one `Number` token, ahead of whatever the remainder
/// scans to.
pub proof fn lemma_scan_digit_run_prefix(a: Seq<char>, b: Seq<char>)
    requires
        a.len() > 0,
        forall|i: int| 0 <= i < a.len() ==> is_digit_char(#[trigger] a[i]),
        digits_value(a) <= i32::MAX as int,
        b.len() == 0 || !is_digit_char(b[0]),
    ensures
        spec_scan(a + b).0 == seq![TokenView::Number(digits_value(a))] + spec_scan(b).0,
        spec_scan(a + b).1 == spec_scan(b).1,
{
    let s = a + b;
    assert forall|i: int| 0 <= i < a.len() implies digit_pred()(#[trigger] s[i]) by {
        assert(s[i] == a[i]);
    }
    if b.len() > 0 {
        assert(s[a.len() as int] == b[0]);
    }
    lemma_run_len_is(s, digit_pred(), a.len() as int);
    assert(s.take(a.len() as int) =~= a);
    assert(s.skip(a.len() as int) =~= b);
}

/// Law: a maximal lowercase run followed by anything that does not extend
/// it contributes exactly one `Name` token, ahead of whatever the remainder
/// scans to.
pub proof fn lemma_scan_name_run_prefix(a: Seq<char>, b: Seq<char>)
    requires
        a.len() > 0,
        forall|i: int| 0 <= i < a.len() ==> is_name_char(#[trigger] a[i]),
        b.len() == 0 || !is_name_char(b[0]),
    ensures
        spec_scan(a + b).0 == seq![TokenView::Name(a)] + spec_scan(b).0,
        spec_scan(a + b).1 == spec_scan(b).1,
{
    let s = a + b;
    assert forall|i: int| 0 <= i < a.len() implies name_pred()(#[trigger] s[i]) by {
        assert(s[i] == a[i]);
    }
    if b.len() > 0 {
        assert(s[a.len() as int] == b[0]);
    }
    lemma_run_len_is(s, name_pred(), a.len() as int);
    assert(s.take(a.len() as int) =~= a);
    assert(s.skip(a.len() as int) =~= b);
}

/// Law: a leading space is skipped and contributes no token.
pub proof fn lemma_scan_space_prefix(s: Seq<char>)
    ensures
        spec_scan(seq![' '] + s).0 == spec_scan(s).0,
        spec_scan(seq![' '] + s).1 == spec_scan(s).1,
{
    assert((seq![' '] + s)[0] == ' ');
    assert(!is_digit_char(' '));
    assert(!is_name_char(' '));
    assert((seq![' '] + s).skip(1) =~= s);
}

/// Law: the scan never looks past the first stopping character — a newline
/// or a character outside the accepted set — so whatever follows it changes
/// nothing.
pub proof fn lemma_scan_stops(s: Seq<char>, c: char, t: Seq<char>)
    requires
        !is_digit_char(c),
        !is_name_char(c),
        c != ' ',
    ensures
        spec_scan(s.push(c) + t).0 == spec_scan(s.push(c)).0,
        spec_scan(s.push(c) + t).1 == spec_scan(s.push(c)).1,
    decreases s.len(),
{
    let u = s.push(c) + t;
    let v = s.push(c);
    if s.len() == 0 {
        assert(u[0] == c);
        assert(v[0] == c);
    } else {
        let d = s[0];
        assert(u[0] == d && v[0] == d);
        if is_digit_char(d) || is_name_char(d) {
            let p = if is_digit_char(d) {
                digit_pred()
            } else {
                name_pred()
            };
            assert(p(d));
            lemma_run_len_bounds(v, p);
            let n = run_len(v, p) as int;
            assert(n <= s.len()) by {
                if n == s.len() + 1 {
                    assert(p(v[s.len() as int]));
                }
            }
            assert forall|i: int| 0 <= i < n implies p(#[trigger] u[i]) by {
                assert(u[i] == v[i]);
            }
            assert(!p(u[n])) by {
                if n < s.len() {
                    assert(u[n] == v[n]);
                } else {
                    assert(u[n] == c);
                }
            }
            lemma_run_len_is(u, p, n);
            assert(n >= 1);
            assert(u.take(n) =~= v.take(n));
            assert(u.skip(n) =~= s.skip(n).push(c) + t);
            assert(v.skip(n) =~= s.skip(n).push(c));
            lemma_scan_stops(s.skip(n), c, t);
        } else if d == ' ' {
            assert(u.skip(1) =~= s.skip(1).push(c) + t);
            assert(v.skip(1) =~= s.skip(1).push(c));
            lemma_scan_stops(s.skip(1), c, t);
        }
    }
}

/// Law: when a line scans cleanly — no diagnostic and no newline in it —
/// appending one stopping character keeps exactly the tokens already found:
/// a newline stops the scan quietly, any other character outside the
/// accepted set stops it and is reported.
pub proof fn lemma_scan_at_stopper(s: Seq<char>, c: char)
    requires
        !is_digit_char(c),
        !is_name_char(c),
        c != ' ',
        spec_scan(s).1 is None,
        forall|i: int| 0 <= i < s.len() ==> #[trigger] s[i] != '\n',
    ensures
        spec_scan(s.push(c)).0 == spec_scan(s).0,
        spec_scan(s.push(c)).1 == (if c == '\n' {
            None::<ScanError>
        } else {
            Some(ScanError::UnrecognizedCharacter(c))
        }),
    decreases s.len(),
{
    let v = s.push(c);
    if s.len() == 0 {
        assert(v[0] == c);
    } else {
        let d = s[0];
        assert(v[0] == d);
        if is_digit_char(d) || is_name_char(d) {
            let p = if is_digit_char(d) {
                digit_pred()
            } else {
                name_pred()
            };
            assert(p(d));
            lemma_run_len_bounds(s, p);
            let n = run_len(s, p) as int;
            assert forall|i: int| 0 <= i < n implies p(#[trigger] v[i]) by {
                assert(v[i] == s[i]);
            }
            assert(!p(v[n])) by {
                if n < s.len() {
                    assert(v[n] == s[n]);
                } else {
                    assert(v[n] == c);
                }
            }
            lemma_run_len_is(v, p, n);
            assert(n >= 1);
            assert(v.take(n) =~= s.take(n));
            assert(v.skip(n) =~= s.skip(n).push(c));
            assert forall|i: int| 0 <= i < s.skip(n).len() implies #[trigger] s.skip(n)[i]
                != '\n' by {
                assert(s.skip(n)[i] == s[n + i]);
            }
            lemma_scan_at_stopper(s.skip(n), c);
        } else if d == ' ' {
            assert(v.skip(1) =~= s.skip(1).push(c));
            assert forall|i: int| 0 <= i < s.skip(1).len() implies #[trigger] s.skip(1)[i]
                != '\n' by {
                assert(s.skip(1)[i] == s[1 + i]);
            }
            lemma_scan_at_stopper(s.skip(1), c);
        } else {
            assert(d != '\n');
        }
    }
}

/// Law: the empty line scans to no tokens and no diagnostic.
pub proof fn lemma_scan_empty()
    ensures
        spec_scan(Seq::<char>::empty()).0 == Seq::<TokenView>::empty(),
        spec_scan(Seq::<char>::empty()).1 is None,
{
}

/// Law: a line beginning with a newline scans to no tokens and no
/// diagnostic.
pub proof fn lemma_scan_leading_newline(s: Seq<char>)
    requires
        s.len() > 0,
        s[0] == '\n',
    ensures
        spec_scan(s).0 == Seq::<TokenView>::empty(),
        spec_scan(s).1 is None,
{
    assert(!is_digit_char('\n'));
    assert(!is_name_char('\n'));
}

} // verus!
