//! Durations given on the command line: `300ms`, `300` (milliseconds) or `2.5s`.

use vstd::prelude::*;
use crate::text::{
    chars_of, ends_with_chars, has_suffix, prefix_chars, string_from_chars, to_lowercase, trim,
    unicode_lowercase, unicode_trim,
};

verus! {

/// An ASCII decimal digit.
pub open spec fn is_digit(c: char) -> bool {
    '0' <= c && c <= '9'
}

/// The value of a decimal digit.
pub open spec fn digit_value(c: char) -> int {
    (c as u32) - 48
}

/// Every character is a decimal digit.
pub open spec fn all_digits(s: Seq<char>) -> bool {
    forall|i: int| 0 <= i < s.len() ==> is_digit(#[trigger] s[i])
}

/// The value of a string of decimal digits.
pub open spec fn digits_value(s: Seq<char>) -> int
    decreases s.len(),
{
    if s.len() == 0 {
        0
    } else {
        digits_value(s.drop_last()) * 10 + digit_value(s.last())
    }
}

/// What `i64::from_str` accepts: an optional `+` or `-`, then one or more decimal
/// digits, with the value in range.
pub open spec fn decimal_i64(s: Seq<char>) -> Option<i64> {
    let signed = s.len() > 0 && (s[0] == '+' || s[0] == '-');
    let negative = s.len() > 0 && s[0] == '-';
    let body = if signed {
        s.drop_first()
    } else {
        s
    };
    if body.len() == 0 || !all_digits(body) {
        None
    } else {
        let v = if negative {
            -digits_value(body)
        } else {
            digits_value(body)
        };
        if i64::MIN <= v <= i64::MAX {
            Some(v as i64)
        } else {
            None
        }
    }
}

proof fn lemma_digits_value_nonneg(s: Seq<char>)
    requires
        all_digits(s),
    ensures
        digits_value(s) >= 0,
    decreases s.len(),
{
    if s.len() > 0 {
        assert(all_digits(s.drop_last()));
        lemma_digits_value_nonneg(s.drop_last());
        assert(is_digit(s[s.len() - 1]));
    }
}

/// A prefix of a digit string is worth no more than the whole.
proof fn lemma_digits_value_prefix(s: Seq<char>, k: int)
    requires
        all_digits(s),
        0 <= k <= s.len(),
    ensures
        digits_value(s.subrange(0, k)) <= digits_value(s),
    decreases s.len(),
{
    if k == s.len() {
        assert(s.subrange(0, k) =~= s);
    } else {
        let init = s.drop_last();
        assert(all_digits(init));
        assert(s.subrange(0, k) =~= init.subrange(0, k));
        lemma_digits_value_prefix(init, k);
        lemma_digits_value_nonneg(init);
        assert(is_digit(s[s.len() - 1]));
    }
}

/// Parses a decimal `i64` as `i64::from_str` does.
pub fn parse_i64(s: &Vec<char>) -> (r: Option<i64>)
    ensures
        r == decimal_i64(s@),
{
    let n = s.len();
    if n == 0 {
        return None;
    }
    let negative = s[0] == '-';
    let start: usize = if s[0] == '+' || s[0] == '-' {
        1
    } else {
        0
    };
    let ghost body = if start == 1 {
        s@.drop_first()
    } else {
        s@
    };
    assert(body =~= s@.subrange(start as int, n as int));
    if start == n {
        return None;
    }
    let bound: i128 = 9223372036854775808;
    let mut v: i128 = 0;
    let mut i: usize = start;
    while i < n
        invariant
            start <= i <= n,
            n == s@.len(),
            body == s@.subrange(start as int, n as int),
            0 <= v <= bound,
            bound == 9223372036854775808,
            body == (if s@.len() > 0 && (s@[0] == '+' || s@[0] == '-') {
                s@.drop_first()
            } else {
                s@
            }),
            negative == (s@.len() > 0 && s@[0] == '-'),
            all_digits(s@.subrange(start as int, i as int)),
            v == digits_value(s@.subrange(start as int, i as int)),
        decreases n - i,
    {
        let c = s[i];
        if !('0' <= c && c <= '9') {
            assert(body[i - start] == c);
            assert(!is_digit(body[i - start]));
            return None;
        }
        assert(48 <= (c as u32) <= 57);
        let d: i128 = ((c as u32) - 48) as i128;
        assert(0 <= d <= 9);
        let ghost done = s@.subrange(start as int, i + 1);
        assert(done.drop_last() =~= s@.subrange(start as int, i as int));
        assert(all_digits(done));
        v = v * 10 + d;
        if v > bound {
            proof {
                if all_digits(body) {
                    assert(done =~= body.subrange(0, i + 1 - start));
                    lemma_digits_value_prefix(body, i + 1 - start);
                }
            }
            return None;
        }
        i = i + 1;
    }
    assert(s@.subrange(start as int, n as int) =~= body);
    if negative {
        Some((-v) as i64)
    } else if v <= 9223372036854775807 {
        Some(v as i64)
    } else {
        None
    }
}

/// A parsed duration.
#[derive(Debug, Clone)]
pub enum ParsedDuration {
    /// A whole number of milliseconds.
    Millis(i64),
    /// A number of seconds, still as text (it may be fractional).
    Seconds(String),
}

/// Why a duration was refused.
#[derive(Debug, Clone, Copy, PartialEq, Eq)]
pub enum DurationError {
    InvalidNumber,
}

/// The millisecond result for a number text.
pub open spec fn millis_of(num: Seq<char>, r: Result<ParsedDuration, DurationError>) -> bool {
    match decimal_i64(num) {
        Some(v) => r matches Ok(ParsedDuration::Millis(m)) && m == v,
        None => r == Err::<ParsedDuration, DurationError>(DurationError::InvalidNumber),
    }
}

/// `r` is what a normalised duration text parses to: `<n>ms` and a bare `<n>` are
/// whole milliseconds; `<x>s` is seconds, handed back as text.
pub open spec fn is_duration_of(t: Seq<char>, r: Result<ParsedDuration, DurationError>) -> bool {
    if has_suffix(t, "ms"@) {
        millis_of(t.subrange(0, t.len() - 2), r)
    } else if has_suffix(t, "s"@) {
        r matches Ok(ParsedDuration::Seconds(x)) && x@ == t.subrange(0, t.len() - 1)
    } else {
        millis_of(t, r)
    }
}

/// A number given with the `ms` unit means the same as the bare number (for texts
/// that do not themselves end in `s`, whose `ms` form would read differently).
pub proof fn lemma_ms_suffix_is_default_unit(t: Seq<char>, r: Result<ParsedDuration, DurationError>)
    requires
        !has_suffix(t, "s"@),
    ensures
        is_duration_of(t + "ms"@, r) == is_duration_of(t, r),
{
    reveal_strlit("ms");
    reveal_strlit("s");
    let u = t + "ms"@;
    assert(u.subrange(u.len() - 2, u.len() as int) =~= "ms"@);
    assert(u.subrange(0, u.len() - 2) =~= t);
    if has_suffix(t, "ms"@) {
        assert(t.subrange(t.len() - 2, t.len() as int)[1] == t[t.len() - 1]);
        assert(t[t.len() - 1] == 's');
        assert(t.subrange(t.len() - 1, t.len() as int) =~= "s"@);
    }
}

/// Parses an already trimmed, lower-case duration text.
pub fn parse_duration_text(t: &str) -> (r: Result<ParsedDuration, DurationError>)
    ensures
        is_duration_of(t@, r),
{
    let c = chars_of(t);
    let ms = chars_of("ms");
    let sec = chars_of("s");
    proof {
        reveal_strlit("ms");
        reveal_strlit("s");
    }
    if ends_with_chars(&c, &ms) {
        let num = prefix_chars(&c, c.len() - 2);
        match parse_i64(&num) {
            Some(v) => Ok(ParsedDuration::Millis(v)),
            None => Err(DurationError::InvalidNumber),
        }
    } else if ends_with_chars(&c, &sec) {
        let num = prefix_chars(&c, c.len() - 1);
        Ok(ParsedDuration::Seconds(string_from_chars(&num)))
    } else {
        match parse_i64(&c) {
            Some(v) => Ok(ParsedDuration::Millis(v)),
            None => Err(DurationError::InvalidNumber),
        }
    }
}

/// Parses a duration: surrounding white space is ignored and letter case does not
/// matter.
pub fn parse_duration_ms(s: &str) -> (r: Result<ParsedDuration, DurationError>)
    ensures
        is_duration_of(unicode_lowercase(unicode_trim(s@)), r),
{
    let t = trim(s);
    let lower = to_lowercase(t);
    parse_duration_text(lower.as_str())
}

} // verus!
