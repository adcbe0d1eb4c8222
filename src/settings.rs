//! The service's settings, read from environment values, and its access
//! check.
use crate::addressing::same_text;
use vstd::prelude::*;

verus! {

/// The number of shards where `N_SHARDS` is not set.
pub const DEFAULT_N_SHARDS: u32 = 48;

/// The longest phrase YAKE forms where `YAKE_NGRAMS` is not set.
pub const DEFAULT_YAKE_NGRAMS: u8 = 3;

/// The shortest keyword YAKE keeps where `YAKE_MINIMUM_CHARS` is not set.
pub const DEFAULT_YAKE_MIN_CHARS: u8 = 2;

pub open spec fn is_digit(c: char) -> bool {
    '0' <= c && c <= '9'
}

/// The value of a string of decimal digits.
pub open spec fn digits_value(s: Seq<char>) -> nat
    decreases s.len(),
{
    if s.len() == 0 {
        0
    } else {
        digits_value(s.drop_last()) * 10 + ((s.last() as u32) - ('0' as u32)) as nat
    }
}

/// An unsigned integer in decimal, as Rust's `parse` reads it: an optional
/// `+`, then one or more digits, whose value is at most `max`.
pub open spec fn parsed_unsigned(s: Seq<char>, max: nat) -> Option<nat> {
    if unsigned_digits(s).len() > 0 && all_digits(unsigned_digits(s)) && digits_value(
        unsigned_digits(s),
    ) <= max {
        Some(digits_value(unsigned_digits(s)))
    } else {
        None
    }
}

/// `s` without its leading `+`, if any.
pub open spec fn unsigned_digits(s: Seq<char>) -> Seq<char> {
    if s.len() > 0 && s[0] == '+' {
        s.skip(1)
    } else {
        s
    }
}

pub open spec fn all_digits(d: Seq<char>) -> bool {
    forall|i: int| 0 <= i < d.len() ==> is_digit(#[trigger] d[i])
}

/// Reads an unsigned integer of at most `max` in decimal.
pub fn parse_unsigned(s: &str, max: u32) -> (r: Option<u32>)
    ensures
        match parsed_unsigned(s@, max as nat) {
            Some(v) => r == Some(v as u32),
            None => r is None,
        },
{
    let n = s.unicode_len();
    let start: usize = if n > 0 && s.get_char(0) == '+' {
        1
    } else {
        0
    };
    let ghost d = unsigned_digits(s@);
    assert(d =~= s@.subrange(start as int, n as int));
    if start >= n {
        return None;
    }
    let mut value: u64 = 0;
    let mut over = false;
    let mut i: usize = start;
    while i < n
        invariant
            n == s@.len(),
            start <= i <= n,
            d == s@.subrange(start as int, n as int),
            d == unsigned_digits(s@),
            forall|j: int| start <= j < i ==> is_digit(#[trigger] s@[j]),
            !over ==> value == digits_value(s@.subrange(start as int, i as int)) && value <= max,
            over ==> digits_value(s@.subrange(start as int, i as int)) > max,
        decreases n - i,
    {
        let c = s.get_char(i);
        if !('0' <= c && c <= '9') {
            assert(d[i - start] == c);
            assert(!is_digit(d[i - start]));
            assert(!all_digits(d));
            return None;
        }
        let ghost before = digits_value(s@.subrange(start as int, i as int));
        assert(s@.subrange(start as int, i + 1).drop_last() =~= s@.subrange(start as int, i as int));
        let ghost after = digits_value(s@.subrange(start as int, i + 1));
        assert(after == before * 10 + ((c as u32) - ('0' as u32)) as nat);
        assert(after >= before) by (nonlinear_arith)
            requires
                after == before * 10 + ((c as u32) - ('0' as u32)) as nat,
        ;
        if !over {
            let next = value * 10 + ((c as u32) - ('0' as u32)) as u64;
            if next > max as u64 {
                over = true;
            } else {
                value = next;
            }
        }
        i = i + 1;
    }
    assert(all_digits(d)) by {
        assert forall|k: int| 0 <= k < d.len() implies is_digit(#[trigger] d[k]) by {
            assert(d[k] == s@[start + k]);
        }
    }
    if over {
        None
    } else {
        Some(value as u32)
    }
}

/// A setting's value: the default where it is unset, the number where it
/// reads as one of at most `max`, else `None`.
pub open spec fn setting_value(value: Option<Seq<char>>, default: nat, max: nat) -> Option<nat> {
    match value {
        None => Some(default),
        Some(v) => parsed_unsigned(v, max),
    }
}

/// The number of shards from `N_SHARDS`: 48 where unset; `None` where the
/// value is not a number of at most `u32::MAX`.
pub fn get_n_shards(value: Option<&str>) -> (r: Option<u32>)
    ensures
        match setting_value(
            match value {
                Some(v) => Some(v@),
                None => None,
            },
            DEFAULT_N_SHARDS as nat,
            u32::MAX as nat,
        ) {
            Some(n) => r == Some(n as u32),
            None => r is None,
        },
{
    match value {
        None => Some(DEFAULT_N_SHARDS),
        Some(v) => parse_unsigned(v, u32::MAX),
    }
}

/// A YAKE setting: `default` where unset or not a number of at most 255.
pub fn yake_setting(value: Option<&str>, default: u8) -> (r: u8)
    ensures
        r as nat == match value {
            Some(v) => match parsed_unsigned(v@, 255) {
                Some(n) => n,
                None => default as nat,
            },
            None => default as nat,
        },
{
    match value {
        None => default,
        Some(v) => match parse_unsigned(v, 255) {
            Some(n) => n as u8,
            None => default,
        },
    }
}

/// Access is open where no API key is configured; else the request must
/// carry exactly that key.
pub fn check_auth(expected: Option<&str>, given: Option<&str>) -> (r: bool)
    ensures
        r == match expected {
            None => true,
            Some(k) => match given {
                Some(g) => g@ == k@,
                None => false,
            },
        },
{
    match expected {
        None => true,
        Some(k) => match given {
            Some(g) => same_text(g, k),
            None => false,
        },
    }
}

} // verus!
