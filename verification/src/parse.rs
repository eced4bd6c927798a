//! Decimal integer parsing for the channel and signal-strength fields.
//!
//! The wire format carries the radio channel and the RSSI reading as
//! decimal text.  The parsers here mirror the behaviour of Rust's
//! standard integer parsing — an optional sign, then one or more digits,
//! rejected on overflow — so that the decoder's fallback policy ("default
//! on parse failure") can be stated exactly.

use vstd::prelude::*;
use crate::text::str_chars;

verus! {

/// `c` is a decimal digit.
pub open spec fn is_digit(c: char) -> bool {
    48 <= c as u32 <= 57
}

/// Numeric value of one decimal digit.
pub open spec fn digit_value(c: char) -> int {
    c as u32 - 48
}

/// Every character of `s` is a decimal digit.
pub open spec fn all_digits(s: Seq<char>) -> bool {
    forall|i: int| 0 <= i < s.len() ==> is_digit(#[trigger] s[i])
}

/// The number written by a sequence of decimal digits (0 for the empty
/// sequence).
pub open spec fn digits_value(s: Seq<char>) -> int
    decreases s.len(),
{
    if s.len() == 0 {
        0
    } else {
        digits_value(s.drop_last()) * 10 + digit_value(s.last())
    }
}

/// A digit string never denotes a negative number.
pub proof fn lemma_digits_value_nonneg(s: Seq<char>)
    requires
        all_digits(s),
    ensures
        digits_value(s) >= 0,
    decreases s.len(),
{
    if s.len() > 0 {
        assert(all_digits(s.drop_last()));
        lemma_digits_value_nonneg(s.drop_last());
    }
}

/// Reading more digits never makes the number smaller.
pub proof fn lemma_digits_value_take_le(s: Seq<char>, k: int)
    requires
        all_digits(s),
        0 <= k <= s.len(),
    ensures
        digits_value(s.take(k)) <= digits_value(s),
    decreases s.len() - k,
{
    if k < s.len() {
        assert(all_digits(s.take(k + 1)));
        assert(s.take(k + 1).drop_last() =~= s.take(k));
        lemma_digits_value_nonneg(s.take(k));
        lemma_digits_value_take_le(s, k + 1);
    } else {
        assert(s.take(k) =~= s);
    }
}

/// `s` without its optional leading sign character.
pub open spec fn sign_body(s: Seq<char>, sign: char) -> Seq<char> {
    if s.len() > 0 && s[0] == sign {
        s.skip(1)
    } else {
        s
    }
}

/// What Rust's `str::parse::<u32>` returns on `s`: the value of an
/// optional `+` sign followed by one or more decimal digits, provided it
/// fits in 32 bits; nothing otherwise.
pub open spec fn spec_parse_u32(s: Seq<char>) -> Option<u32> {
    let body = sign_body(s, '+');
    if body.len() > 0 && all_digits(body) && digits_value(body) <= u32::MAX {
        Some(digits_value(body) as u32)
    } else {
        None
    }
}

/// What Rust's `str::parse::<i32>` returns on `s`: the value of an
/// optional `+` or `-` sign followed by one or more decimal digits,
/// provided it fits in a signed 32-bit integer; nothing otherwise.
pub open spec fn spec_parse_i32(s: Seq<char>) -> Option<i32> {
    if s.len() > 0 && s[0] == '-' {
        let body = s.skip(1);
        if body.len() > 0 && all_digits(body) && digits_value(body) <= 0x8000_0000 {
            Some((-digits_value(body)) as i32)
        } else {
            None
        }
    } else {
        let body = sign_body(s, '+');
        if body.len() > 0 && all_digits(body) && digits_value(body) <= i32::MAX {
            Some(digits_value(body) as i32)
        } else {
            None
        }
    }
}

/// Reads the digits of `chars` from `start` on and accumulates their
/// value, failing on a non-digit, on an empty digit string, and on any
/// value above `limit`.
fn parse_digits(chars: &Vec<char>, start: usize, limit: u64) -> (r: Option<u64>)
    requires
        start <= chars@.len(),
        limit <= 0xFFFF_FFFF,
    ensures
        ({
            let body = chars@.skip(start as int);
            match r {
                Some(v) => body.len() > 0 && all_digits(body) && digits_value(body) == v
                    && v <= limit,
                None => !(body.len() > 0 && all_digits(body) && digits_value(body) <= limit),
            }
        }),
{
    let ghost body = chars@.skip(start as int);
    let n = chars.len();
    if start == n {
        return None;
    }
    let mut acc: u64 = 0;
    let mut i: usize = start;
    while i < n
        invariant
            start <= i <= n,
            n == chars@.len(),
            body == chars@.skip(start as int),
            all_digits(body.take(i - start)),
            acc == digits_value(body.take(i - start)),
            acc <= limit,
            limit <= 0xFFFF_FFFF,
        decreases n - i,
    {
        let c = chars[i];
        let u = c as u32;
        if !(48 <= u && u <= 57) {
            assert(body[i - start] == chars@[i as int]);
            assert(!all_digits(body));
            return None;
        }
        assert(is_digit(body[i - start]));
        let d = (u - 48) as u64;
        let next = acc * 10 + d;
        proof {
            assert(body.take(i - start + 1).drop_last() =~= body.take(i - start));
            assert(body.take(i - start + 1).last() == body[i - start]);
            assert(all_digits(body.take(i - start + 1)));
            assert(digits_value(body.take(i - start + 1)) == acc * 10 + d);
        }
        if next > limit {
            proof {
                if all_digits(body) && digits_value(body) <= limit {
                    lemma_digits_value_take_le(body, i - start + 1);
                }
            }
            return None;
        }
        acc = next;
        i = i + 1;
    }
    proof {
        assert(body.take(n - start) =~= body);
    }
    Some(acc)
}

/// Parses `s` exactly as Rust's `str::parse::<u32>` does.
pub fn parse_u32(s: &str) -> (r: Option<u32>)
    ensures
        r == spec_parse_u32(s@),
{
    let chars = str_chars(s);
    let n = chars.len();
    let start: usize = if n > 0 && chars[0] == '+' {
        1
    } else {
        0
    };
    assert(chars@.skip(start as int) == sign_body(s@, '+'));
    match parse_digits(&chars, start, 0xFFFF_FFFF) {
        Some(v) => Some(v as u32),
        None => None,
    }
}

/// Parses `s` exactly as Rust's `str::parse::<i32>` does.
pub fn parse_i32(s: &str) -> (r: Option<i32>)
    ensures
        r == spec_parse_i32(s@),
{
    let chars = str_chars(s);
    let n = chars.len();
    if n > 0 && chars[0] == '-' {
        assert(chars@.skip(1) == s@.skip(1));
        match parse_digits(&chars, 1, 0x8000_0000) {
            Some(v) => {
                if v == 0x8000_0000 {
                    Some(i32::MIN)
                } else {
                    Some(-(v as i32))
                }
            },
            None => None,
        }
    } else {
        let start: usize = if n > 0 && chars[0] == '+' {
            1
        } else {
            0
        };
        assert(chars@.skip(start as int) == sign_body(s@, '+'));
        match parse_digits(&chars, start, 0x7FFF_FFFF) {
            Some(v) => Some(v as i32),
            None => None,
        }
    }
}

} // verus!
