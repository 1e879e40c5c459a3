//! Verified text helpers: character-wise string equality and decimal
//! parsing of signed integers, used by the session resolver.

use vstd::prelude::*;
use crate::expiration::{all_digits, digits_value, lemma_digits_value_grows};

verus! {

/// Character-wise equality of two string slices.
pub fn str_eq(a: &str, b: &str) -> (r: bool)
    ensures
        r == (a@ == b@),
{
    let an = a.unicode_len();
    let bn = b.unicode_len();
    if an != bn {
        return false;
    }
    let mut i: usize = 0;
    while i < an
        invariant
            an == a@.len(),
            an == b@.len(),
            0 <= i <= an,
            forall|j: int| 0 <= j < i ==> a@[j] == b@[j],
        decreases an - i,
    {
        if a.get_char(i) != b.get_char(i) {
            return false;
        }
        i = i + 1;
    }
    proof {
        assert(a@ =~= b@);
    }
    true
}

/// What a token parses to as a signed 64-bit decimal integer: an
/// optional sign, then at least one digit, with the value in range —
/// the grammar of `i64` parsing from a string.
pub open spec fn parse_i64_spec(s: Seq<char>) -> Option<i64> {
    if s.len() > 0 && (s[0] == '+' || s[0] == '-') {
        let digits = s.drop_first();
        if digits.len() > 0 && all_digits(digits) {
            if s[0] == '-' {
                if digits_value(digits) <= i64::MAX as int + 1 {
                    Some((-digits_value(digits)) as i64)
                } else {
                    None
                }
            } else {
                if digits_value(digits) <= i64::MAX {
                    Some(digits_value(digits) as i64)
                } else {
                    None
                }
            }
        } else {
            None
        }
    } else if s.len() > 0 && all_digits(s) {
        if digits_value(s) <= i64::MAX {
            Some(digits_value(s) as i64)
        } else {
            None
        }
    } else {
        None
    }
}

/// Read the decimal value of the characters of `s` from `from` on:
/// `Some` of their value where they are a non-empty run of digits
/// whose value fits in a `u64`, `None` otherwise.
fn parse_digits_u64(s: &str, from: usize) -> (r: Option<u64>)
    requires
        from <= s@.len(),
    ensures
        match r {
            Some(v) => {
                let digits = s@.skip(from as int);
                digits.len() > 0 && all_digits(digits) && v == digits_value(digits)
            },
            None => {
                let digits = s@.skip(from as int);
                digits.len() == 0 || !all_digits(digits) || digits_value(digits) > u64::MAX
            },
        },
{
    let ghost digits = s@.skip(from as int);
    let n = s.unicode_len();
    if from == n {
        return None;
    }
    let mut acc: u64 = 0;
    let mut i: usize = from;
    while i < n
        invariant
            from < n,
            n == s@.len(),
            from <= i <= n,
            digits == s@.skip(from as int),
            all_digits(digits.take(i - from)),
            acc == digits_value(digits.take(i - from)),
        decreases n - i,
    {
        let c = s.get_char(i);
        assert(digits[i - from] == s@[i as int]);
        if c < '0' || c > '9' {
            assert(!all_digits(digits));
            return None;
        }
        let d = (c as u32 - '0' as u32) as u64;
        assert(0 <= d <= 9);
        proof {
            assert(digits.take(i - from + 1).drop_last() == digits.take(i - from));
            assert(digits.take(i - from + 1).last() == digits[i - from]);
        }
        if acc > (u64::MAX - d) / 10 {
            // The value exceeds u64::MAX; it can only grow from here.
            proof {
                assert(acc * 10 + d > u64::MAX) by (nonlinear_arith)
                    requires acc > (u64::MAX - d) / 10, 0 <= d <= 9, acc >= 0;
                if all_digits(digits) {
                    lemma_digits_value_grows(digits, i - from + 1);
                }
            }
            return None;
        }
        proof {
            assert(acc * 10 + d <= u64::MAX) by (nonlinear_arith)
                requires acc <= (u64::MAX - d) / 10, 0 <= d <= 9, acc >= 0;
            assert(acc * 10 >= 0) by (nonlinear_arith)
                requires acc >= 0;
        }
        acc = acc * 10 + d;
        i = i + 1;
    }
    proof {
        assert(digits.take(i - from) =~= digits);
    }
    Some(acc)
}

/// Parse a string as a signed 64-bit decimal integer, accepting an
/// optional leading sign.
pub fn parse_i64(s: &str) -> (r: Option<i64>)
    ensures
        r == parse_i64_spec(s@),
{
    let n = s.unicode_len();
    if n == 0 {
        return None;
    }
    let first = s.get_char(0);
    let signed = first == '+' || first == '-';
    let from: usize = if signed { 1 } else { 0 };
    let magnitude = parse_digits_u64(s, from);
    proof {
        if signed {
            assert(s@.skip(1) =~= s@.drop_first());
        } else {
            assert(s@.skip(0) =~= s@);
        }
    }
    match magnitude {
        None => None,
        Some(v) => {
            if first == '-' {
                if v <= i64::MAX as u64 {
                    Some(-(v as i64))
                } else if v == i64::MAX as u64 + 1 {
                    Some(i64::MIN)
                } else {
                    None
                }
            } else {
                if v <= i64::MAX as u64 {
                    Some(v as i64)
                } else {
                    None
                }
            }
        },
    }
}

} // verus!
