//! Whole numbers in decimal notation: an optional sign, then digits only.

use vstd::prelude::*;
use crate::text::Text;

verus! {

pub open spec fn is_digit(c: char) -> bool {
    '0' <= c <= '9'
}

pub open spec fn digit_value(c: char) -> nat {
    if is_digit(c) {
        (c as int - '0' as int) as nat
    } else {
        0
    }
}

pub open spec fn all_digits(s: Seq<char>) -> bool {
    forall|i: int| 0 <= i < s.len() ==> is_digit(#[trigger] s[i])
}

/// The number that a run of digits denotes, most significant digit first.
pub open spec fn digits_value(s: Seq<char>) -> nat
    decreases s.len(),
{
    if s.len() == 0 {
        0
    } else {
        digits_value(s.drop_last()) * 10 + digit_value(s.last())
    }
}

/// What follows the sign of `s`, where `s` starts with one that is allowed.
pub open spec fn magnitude_part(s: Seq<char>, minus_allowed: bool) -> Seq<char> {
    if s.len() > 0 && (s[0] == '+' || (minus_allowed && s[0] == '-')) {
        s.drop_first()
    } else {
        s
    }
}

/// The unsigned number that `s` denotes: an optional `+`, then at least one
/// digit and nothing else, with a value of at most `max`.
pub open spec fn unsigned_of(s: Seq<char>, max: nat) -> Option<nat> {
    let digits = magnitude_part(s, false);
    if digits.len() > 0 && all_digits(digits) && digits_value(digits) <= max {
        Some(digits_value(digits))
    } else {
        None
    }
}

/// The signed number that `s` denotes: an optional `+` or `-`, then at least
/// one digit and nothing else, with a value from `min` to `max`.
pub open spec fn signed_of(s: Seq<char>, min: int, max: int) -> Option<int> {
    let digits = magnitude_part(s, true);
    let value = if s.len() > 0 && s[0] == '-' {
        -(digits_value(digits) as int)
    } else {
        digits_value(digits) as int
    };
    if digits.len() > 0 && all_digits(digits) && min <= value <= max {
        Some(value)
    } else {
        None
    }
}

/// A run of digits denotes at least what any of its beginnings denotes.
pub proof fn lemma_digits_prefix(s: Seq<char>, k: int)
    requires
        0 <= k <= s.len(),
    ensures
        digits_value(s.subrange(0, k)) <= digits_value(s),
    decreases s.len(),
{
    if k == s.len() {
        assert(s.subrange(0, k) =~= s);
    } else {
        lemma_digits_prefix(s.drop_last(), k);
        assert(s.drop_last().subrange(0, k) =~= s.subrange(0, k));
    }
}

/// Reads the digits of `text` from `from` to `to` as a number of at most `max`.
pub fn parse_digits(text: &Text, from: usize, to: usize, max: u64) -> (r: Option<u64>)
    requires
        text.wf(),
        from <= to <= text@.len(),
    ensures
        ({
            let s = text@.subrange(from as int, to as int);
            match r {
                Some(v) => s.len() > 0 && all_digits(s) && digits_value(s) == v && v <= max,
                None => !(s.len() > 0 && all_digits(s) && digits_value(s) <= max),
            }
        }),
{
    let ghost s = text@.subrange(from as int, to as int);
    if from == to {
        return None;
    }
    let mut acc: u128 = 0;
    let mut i: usize = from;
    while i < to
        invariant
            text.wf(),
            from <= i <= to <= text@.len(),
            s == text@.subrange(from as int, to as int),
            all_digits(s.subrange(0, i - from)),
            acc == digits_value(s.subrange(0, i - from)),
            acc <= max,
        decreases to - i,
    {
        let c = text.char_at(i);
        if c < '0' || c > '9' {
            assert(!is_digit(s[i - from]));
            return None;
        }
        let d: u128 = (c as u32 - '0' as u32) as u128;
        acc = acc * 10 + d;
        proof {
            let p = s.subrange(0, i - from + 1);
            assert(p.drop_last() =~= s.subrange(0, i - from));
            assert(p.last() == c);
            assert(all_digits(p));
        }
        if acc > max as u128 {
            proof {
                lemma_digits_prefix(s, i - from + 1);
            }
            return None;
        }
        i = i + 1;
    }
    assert(s.subrange(0, i - from) =~= s);
    Some(acc as u64)
}

/// Reads `token` as an unsigned number of at most `max`.
pub fn parse_unsigned(token: &str, max: u64) -> (r: Option<u64>)
    ensures
        match r {
            Some(v) => unsigned_of(token@, max as nat) == Some(v as nat),
            None => unsigned_of(token@, max as nat) is None,
        },
{
    let text = Text::new(token);
    let n = text.len();
    let from: usize = if n > 0 && text.char_at(0) == '+' {
        1
    } else {
        0
    };
    assert(magnitude_part(token@, false) =~= token@.subrange(from as int, n as int));
    parse_digits(&text, from, n, max)
}

/// Reads `token` as an unsigned byte.
pub fn parse_u8(token: &str) -> (r: Option<u8>)
    ensures
        match r {
            Some(v) => unsigned_of(token@, 255) == Some(v as nat),
            None => unsigned_of(token@, 255) is None,
        },
{
    match parse_unsigned(token, 255) {
        Some(v) => Some(v as u8),
        None => None,
    }
}

/// Reads `token` as a count of records.
pub fn parse_count(token: &str) -> (r: Option<usize>)
    ensures
        match r {
            Some(v) => unsigned_of(token@, usize::MAX as nat) == Some(v as nat),
            None => unsigned_of(token@, usize::MAX as nat) is None,
        },
{
    match parse_unsigned(token, usize::MAX as u64) {
        Some(v) => Some(v as usize),
        None => None,
    }
}

/// Reads `token` as a signed number of 32 bits.
pub fn parse_i32(token: &str) -> (r: Option<i32>)
    ensures
        match r {
            Some(v) => signed_of(token@, i32::MIN as int, i32::MAX as int) == Some(v as int),
            None => signed_of(token@, i32::MIN as int, i32::MAX as int) is None,
        },
{
    let text = Text::new(token);
    let n = text.len();
    let first: char = if n > 0 {
        text.char_at(0)
    } else {
        '0'
    };
    let minus = n > 0 && first == '-';
    let from: usize = if n > 0 && (first == '+' || first == '-') {
        1
    } else {
        0
    };
    assert(magnitude_part(token@, true) =~= token@.subrange(from as int, n as int));
    let max: u64 = if minus {
        2147483648
    } else {
        2147483647
    };
    match parse_digits(&text, from, n, max) {
        Some(v) => {
            if minus {
                Some((-(v as i64)) as i32)
            } else {
                Some(v as i32)
            }
        },
        None => None,
    }
}

} // verus!
