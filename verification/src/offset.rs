//! Resolution of the starting page index from a configuration value.
//!
//! The value is the byte string of an environment-style setting. An absent
//! value, or one that is not a non-negative decimal integer that fits the
//! machine word, silently resolves to the default starting index.

use vstd::prelude::*;
use crate::canonical::DIGIT_ZERO;

verus! {

/// The starting index used when no valid configuration value is given.
pub const DEFAULT_PAGE_OFFSET: usize = 1;

/// The ASCII digit `9`.
pub const DIGIT_NINE: u8 = 57;

/// The ASCII `+` sign, accepted before the digits.
pub const PLUS: u8 = 43;

/// Whether `b` is an ASCII decimal digit.
pub open spec fn is_digit(b: u8) -> bool {
    DIGIT_ZERO <= b <= DIGIT_NINE
}

/// Whether every byte of `s` is an ASCII decimal digit.
pub open spec fn all_digits(s: Seq<u8>) -> bool {
    forall|k: int| 0 <= k < s.len() ==> is_digit(#[trigger] s[k])
}

/// The numeric value of a digit string, most significant digit first.
pub open spec fn digits_val(s: Seq<u8>) -> nat
    decreases s.len(),
{
    if s.len() == 0 {
        0
    } else {
        (digits_val(s.drop_last()) * 10 + (s.last() - DIGIT_ZERO)) as nat
    }
}

/// The digit part of the value: everything after an optional leading `+`.
pub open spec fn numeric_body(s: Seq<u8>) -> Seq<u8> {
    if s.len() > 0 && s[0] == PLUS {
        s.drop_first()
    } else {
        s
    }
}

/// Whether the value parses as a non-negative integer that fits `usize`.
pub open spec fn is_valid_offset(s: Seq<u8>) -> bool {
    &&& numeric_body(s).len() > 0
    &&& all_digits(numeric_body(s))
    &&& digits_val(numeric_body(s)) <= usize::MAX as nat
}

/// The starting index that a configuration value resolves to: its numeric
/// value where it is a valid non-negative integer, the default otherwise.
pub open spec fn offset_spec(v: Option<Seq<u8>>) -> nat {
    match v {
        Some(s) => if is_valid_offset(s) {
            digits_val(numeric_body(s))
        } else {
            DEFAULT_PAGE_OFFSET as nat
        },
        None => DEFAULT_PAGE_OFFSET as nat,
    }
}

/// A digit string is worth at least as much as any of its prefixes.
proof fn lemma_digits_val_prefix(s: Seq<u8>, m: int)
    requires
        0 <= m <= s.len(),
        all_digits(s),
    ensures
        digits_val(s) >= digits_val(s.take(m)),
    decreases s.len() - m,
{
    if m == s.len() {
        assert(s.take(m) =~= s);
    } else {
        lemma_digits_val_prefix(s, m + 1);
        assert(s.take(m + 1).drop_last() =~= s.take(m));
        assert(is_digit(s[m]));
        assert(digits_val(s.take(m + 1)) >= digits_val(s.take(m)));
    }
}

/// Parse the digit part of a value, falling back to the default on any
/// non-digit byte or on overflow.
fn parse_offset_bytes(s: &Vec<u8>) -> (r: usize)
    ensures
        r as nat == offset_spec(Some(s@)),
{
    let n = s.len();
    let start: usize = if n > 0 && s[0] == PLUS {
        1
    } else {
        0
    };
    let ghost body = numeric_body(s@);
    proof {
        assert(body =~= s@.subrange(start as int, n as int));
    }
    if start == n {
        return DEFAULT_PAGE_OFFSET;
    }
    let mut acc: usize = 0;
    let mut k: usize = start;
    while k < n
        invariant
            start <= k <= n,
            start < n,
            n == s@.len(),
            body == numeric_body(s@),
            body =~= s@.subrange(start as int, n as int),
            all_digits(body.take(k - start)),
            acc as nat == digits_val(body.take(k - start)),
        decreases n - k,
    {
        let b = s[k];
        if b < DIGIT_ZERO || b > DIGIT_NINE {
            proof {
                assert(body[k - start] == s@[k as int]);
                assert(!all_digits(body));
            }
            return DEFAULT_PAGE_OFFSET;
        }
        let d = (b - DIGIT_ZERO) as usize;
        proof {
            assert(body.take(k - start + 1).drop_last() =~= body.take(k - start));
            assert(body.take(k - start + 1).last() == s@[k as int]);
        }
        if acc > (usize::MAX - d) / 10 {
            proof {
                assert(10 * ((usize::MAX - d) / 10) <= usize::MAX - d);
                assert(acc * 10 + d > usize::MAX);
                assert(digits_val(body.take(k - start + 1)) > usize::MAX as nat);
                if all_digits(body) {
                    lemma_digits_val_prefix(body, k - start + 1);
                    assert(digits_val(body) > usize::MAX as nat);
                }
            }
            return DEFAULT_PAGE_OFFSET;
        }
        acc = acc * 10 + d;
        k = k + 1;
    }
    proof {
        assert(body.take(n - start) =~= body);
        assert(is_valid_offset(s@));
    }
    acc
}

/// Resolve the starting page index from an optional configuration value.
/// An absent or invalid value resolves silently to the default.
pub fn resolve_page_offset(value: Option<Vec<u8>>) -> (r: usize)
    ensures
        r as nat == offset_spec(
            match value {
                Some(v) => Some(v@),
                None => None,
            },
        ),
{
    match value {
        None => DEFAULT_PAGE_OFFSET,
        Some(s) => parse_offset_bytes(&s),
    }
}

/// Offset resolution is deterministic: equal configuration values always
/// resolve to the same starting index, so repeated runs with the same
/// setting begin numbering at the same place.
pub proof fn lemma_offset_resolution_deterministic(a: Option<Seq<u8>>, b: Option<Seq<u8>>)
    requires
        a == b,
    ensures
        offset_spec(a) == offset_spec(b),
{
}

} // verus!
