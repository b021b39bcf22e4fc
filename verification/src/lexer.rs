//! The executable lexer: the character-class tests, the two greedy
//! consumption routines, and `tokenize`, which is proved to return exactly
//! what `spec_scan` says the line holds.

use crate::scan::{
    digit_pred, digit_run_len, digit_value, digits_value, is_digit_char, is_name_char,
    lemma_digits_value_nonneg, lemma_run_len_bounds, lemma_run_len_is, name_pred, name_run_len,
    spec_scan,
};
use crate::token::{Position, ScanError, Token, TokenView, token_views};
use vstd::prelude::*;
use vstd::string::StrSliceExecFns;

verus! {

/// Decide whether `c` is a decimal digit.
fn is_digit(c: char) -> (r: bool)
    ensures
        r == is_digit_char(c),
{
    '0' <= c && c <= '9'
}

/// Decide whether `c` is a lowercase ASCII letter.
fn is_name(c: char) -> (r: bool)
    ensures
        r == is_name_char(c),
{
    'a' <= c && c <= 'z'
}

/// The numeric value of one decimal digit.
fn digit_to_value(c: char) -> (d: u32)
    requires
        is_digit_char(c),
    ensures
        d as int == digit_value(c),
        d <= 9,
{
    (c as u32) - ('0' as u32)
}

/// Decide whether the character of `line` at `i` is a decimal digit.
fn digit_at(line: &str, i: usize) -> (r: bool)
    requires
        i < line@.len(),
    ensures
        r == is_digit_char(line@[i as int]),
{
    is_digit(line.get_char(i))
}

/// Consume the maximal run of decimal digits of `line` that begins at
/// `from`, reading it as a base-10 integer, most significant digit first.
/// The first component of the result is the run's value, or nothing when
/// that value does not fit in an `i32`; the second is the offset just past
/// the run. The position's frontier advances by one per consumed character,
/// and after a completed token the next token's start is synchronized to it.
pub fn consume_number(line: &str, from: usize, pos: &mut Position) -> (r: (Option<i32>, usize))
    requires
        from < line@.len(),
        line@.len() <= u32::MAX,
        is_digit_char(line@[from as int]),
        old(pos).wf(),
        old(pos).end as int <= from as int,
    ensures
        r.1 == from + digit_run_len(line@.skip(from as int)),
        ({
            let v = digits_value(line@.subrange(from as int, r.1 as int));
            &&& (r.0 matches Some(x) ==> v <= i32::MAX as int && x as int == v)
            &&& (r.0 is None ==> v > i32::MAX as int)
        }),
        final(pos).line == old(pos).line,
        final(pos).end as int == old(pos).end as int + (r.1 - from),
        r.0 is Some ==> final(pos).start == final(pos).end,
        r.0 is None ==> final(pos).start == old(pos).start,
        final(pos).wf(),
{
    let len = line.unicode_len();
    let mut j: usize = from;
    let mut val: i32 = 0;
    let mut overflow: bool = false;
    while j < len && digit_at(line, j)
        invariant
            from <= j <= len,
            len == line@.len(),
            line@.len() <= u32::MAX,
            forall|k: int| from <= k < j ==> is_digit_char(#[trigger] line@[k]),
            0 <= val,
            !overflow ==> val as int == digits_value(line@.subrange(from as int, j as int)),
            overflow ==> digits_value(line@.subrange(from as int, j as int)) > i32::MAX as int,
        decreases len - j,
    {
        let c = line.get_char(j);
        let d = digit_to_value(c);
        let ghost prefix = line@.subrange(from as int, j as int);
        let ghost grown = line@.subrange(from as int, j as int + 1);
        proof {
            assert(grown.drop_last() =~= prefix);
            assert(grown.last() == line@[j as int]);
            assert(digits_value(grown) == digits_value(prefix) * 10 + digit_value(c));
            assert forall|i: int| 0 <= i < prefix.len() implies is_digit_char(
                #[trigger] prefix[i],
            ) by {
                assert(prefix[i] == line@[from + i]);
            }
            lemma_digits_value_nonneg(prefix);
        }
        if overflow {
            proof {
                assert(digits_value(prefix) * 10 >= digits_value(prefix));
                assert(digits_value(grown) > i32::MAX as int);
            }
        } else {
            let limit = (i32::MAX - (d as i32)) / 10;
            if val > limit {
                proof {
                    let m = i32::MAX as int - d as int;
                    assert(m == 10 * (m / 10) + m % 10) by {
                        vstd::arithmetic::div_mod::lemma_fundamental_div_mod(m, 10);
                    }
                    assert(val as int * 10 + d as int > i32::MAX as int) by (nonlinear_arith)
                        requires
                            val as int > m / 10,
                            m == 10 * (m / 10) + m % 10,
                            0 <= m % 10 < 10,
                            m == i32::MAX as int - d as int,
                    ;
                }
                overflow = true;
            } else {
                proof {
                    let m = i32::MAX as int - d as int;
                    assert(m == 10 * (m / 10) + m % 10) by {
                        vstd::arithmetic::div_mod::lemma_fundamental_div_mod(m, 10);
                    }
                    assert(val as int * 10 + d as int <= i32::MAX as int) by (nonlinear_arith)
                        requires
                            val as int <= m / 10,
                            m == 10 * (m / 10) + m % 10,
                            0 <= m % 10 < 10,
                            m == i32::MAX as int - d as int,
                    ;
                }
                val = val * 10 + (d as i32);
            }
        }
        j = j + 1;
    }
    proof {
        let s0 = line@.skip(from as int);
        assert forall|i: int| 0 <= i < j - from implies digit_pred()(#[trigger] s0[i]) by {
            assert(s0[i] == line@[from + i]);
        }
        if j < len {
            assert(s0[j - from] == line@[j as int]);
        }
        lemma_run_len_is(s0, digit_pred(), j - from);
    }
    pos.end = pos.end + ((j - from) as u32);
    if overflow {
        (None, j)
    } else {
        pos.start = pos.end;
        (Some(val), j)
    }
}

/// Decide whether the character of `line` at `i` is a lowercase letter.
fn name_at(line: &str, i: usize) -> (r: bool)
    requires
        i < line@.len(),
    ensures
        r == is_name_char(line@[i as int]),
{
    is_name(line.get_char(i))
}

/// Consume the maximal run of lowercase letters of `line` that begins at
/// `from` and return it as a name, together with the offset just past the
/// run. The position's frontier advances by one per consumed character, and
/// the next token's start is synchronized to it.
pub fn consume_name(line: &str, from: usize, pos: &mut Position) -> (r: (String, usize))
    requires
        from < line@.len(),
        line@.len() <= u32::MAX,
        is_name_char(line@[from as int]),
        old(pos).wf(),
        old(pos).end as int <= from as int,
    ensures
        r.1 == from + name_run_len(line@.skip(from as int)),
        r.0@ == line@.subrange(from as int, r.1 as int),
        final(pos).line == old(pos).line,
        final(pos).end as int == old(pos).end as int + (r.1 - from),
        final(pos).start == final(pos).end,
        final(pos).wf(),
{
    let len = line.unicode_len();
    let mut j: usize = from;
    while j < len && name_at(line, j)
        invariant
            from <= j <= len,
            len == line@.len(),
            line@.len() <= u32::MAX,
            forall|k: int| from <= k < j ==> is_name_char(#[trigger] line@[k]),
        decreases len - j,
    {
        j = j + 1;
    }
    proof {
        let s0 = line@.skip(from as int);
        assert forall|i: int| 0 <= i < j - from implies name_pred()(#[trigger] s0[i]) by {
            assert(s0[i] == line@[from + i]);
        }
        if j < len {
            assert(s0[j - from] == line@[j as int]);
        }
        lemma_run_len_is(s0, name_pred(), j - from);
    }
    let name = line.substring_char(from, j).to_owned();
    pos.end = pos.end + ((j - from) as u32);
    pos.start = pos.end;
    (name, j)
}

/// Scan one line into its tokens, left to right: digit runs become `Number`
/// tokens, lowercase runs become `Name` tokens, spaces are skipped, and the
/// scan stops at the first newline (quietly), at the first character outside
/// the accepted set (reporting it), or at a digit run whose value does not
/// fit in an `i32` (reporting the overflow). The tokens recognized before
/// the stop are returned in scan order, exactly as `spec_scan` says.
pub fn tokenize(code: String) -> (r: (Vec<Token>, Option<ScanError>))
    requires
        code@.len() <= u32::MAX,
    ensures
        token_views(r.0@) == spec_scan(code@).0,
        r.1 == spec_scan(code@).1,
{
    let line: &str = code.as_str();
    let len = line.unicode_len();
    let mut tokens: Vec<Token> = Vec::new();
    let mut pos = Position::new();
    let mut i: usize = 0;
    proof {
        assert(code@.skip(0) =~= code@);
        assert(token_views(tokens@) + spec_scan(code@).0 =~= spec_scan(code@).0);
    }
    while i < len
        invariant
            i <= len,
            len == line@.len(),
            line@ == code@,
            code@.len() <= u32::MAX,
            spec_scan(code@).0 == token_views(tokens@) + spec_scan(code@.skip(i as int)).0,
            spec_scan(code@).1 == spec_scan(code@.skip(i as int)).1,
            pos.wf(),
            pos.end as int <= i as int,
            pos.line == 0,
        decreases len - i,
    {
        let c = line.get_char(i);
        let ghost rest = code@.skip(i as int);
        proof {
            assert(rest[0] == code@[i as int]);
        }
        if is_digit(c) {
            let (value, j) = consume_number(line, i, &mut pos);
            proof {
                lemma_run_len_bounds(rest, digit_pred());
                let n = digit_run_len(rest) as int;
                assert(rest.take(n) =~= code@.subrange(i as int, i + n));
                assert(rest.skip(n) =~= code@.skip(i + n));
            }
            match value {
                Some(v) => {
                    tokens.push(Token::Number(v));
                    proof {
                        let ghost j_ = j as int;
                        assert(token_views(tokens@) =~= token_views(tokens@.drop_last()).push(
                            TokenView::Number(v as int),
                        ));
                        assert(token_views(tokens@) + spec_scan(code@.skip(j_)).0
                            =~= token_views(tokens@.drop_last()) + spec_scan(rest).0);
                    }
                    i = j;
                },
                None => {
                    proof {
                        assert(spec_scan(rest).0 =~= Seq::<TokenView>::empty());
                        assert(token_views(tokens@) + Seq::<TokenView>::empty()
                            =~= token_views(tokens@));
                    }
                    return (tokens, Some(ScanError::NumericOverflow));
                },
            }
        } else if is_name(c) {
            let (name, j) = consume_name(line, i, &mut pos);
            proof {
                lemma_run_len_bounds(rest, name_pred());
                let n = name_run_len(rest) as int;
                assert(rest.take(n) =~= code@.subrange(i as int, i + n));
                assert(rest.skip(n) =~= code@.skip(i + n));
            }
            let ghost nv = name@;
            tokens.push(Token::Name(name));
            proof {
                let ghost j_ = j as int;
                assert(token_views(tokens@) =~= token_views(tokens@.drop_last()).push(
                    TokenView::Name(nv),
                ));
                assert(token_views(tokens@) + spec_scan(code@.skip(j_)).0 =~= token_views(
                    tokens@.drop_last(),
                ) + spec_scan(rest).0);
            }
            i = j;
        } else if c == ' ' {
            proof {
                assert(rest.skip(1) =~= code@.skip(i + 1));
            }
            i = i + 1;
        } else if c == '\n' {
            proof {
                assert(token_views(tokens@) + Seq::<TokenView>::empty() =~= token_views(tokens@));
            }
            return (tokens, None);
        } else {
            proof {
                assert(token_views(tokens@) + Seq::<TokenView>::empty() =~= token_views(tokens@));
            }
            return (tokens, Some(ScanError::UnrecognizedCharacter(c)));
        }
    }
    proof {
        assert(code@.skip(len as int) =~= Seq::<char>::empty());
        assert(token_views(tokens@) + Seq::<TokenView>::empty() =~= token_views(tokens@));
    }
    (tokens, None)
}

} // verus!
