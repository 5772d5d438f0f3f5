//! Identifier parsing.
//!
//! A record identifier travels in request paths and bodies as a decimal
//! string. Parsing accepts exactly the non-empty all-digit strings whose
//! value fits the identifier type, and never interprets anything else: a
//! malformed identifier is reported as such, not spliced into a query.

use vstd::prelude::*;

verus! {

/// An ASCII decimal digit.
pub open spec fn is_digit(c: char) -> bool {
    '0' <= c && c <= '9'
}

/// The numeric value of an ASCII decimal digit.
pub open spec fn digit_val(c: char) -> int {
    c as int - '0' as int
}

/// The value of a digit string read most-significant first.
pub open spec fn digits_val(s: Seq<char>) -> int
    decreases s.len(),
{
    if s.len() == 0 {
        0
    } else {
        digits_val(s.drop_last()) * 10 + digit_val(s.last())
    }
}

/// The parse of an identifier string: its value when the string is non-empty,
/// all digits, and in range; absent otherwise.
pub open spec fn parse_spec(s: Seq<char>) -> Option<u64> {
    if s.len() > 0 && (forall|i: int| 0 <= i < s.len() ==> is_digit(#[trigger] s[i]))
        && digits_val(s) <= u64::MAX {
        Some(digits_val(s) as u64)
    } else {
        None
    }
}

/// The value of an all-digit string is never negative.
proof fn lemma_digits_val_nonneg(s: Seq<char>)
    requires
        forall|i: int| 0 <= i < s.len() ==> is_digit(#[trigger] s[i]),
    ensures
        digits_val(s) >= 0,
    decreases s.len(),
{
    if s.len() > 0 {
        lemma_digits_val_nonneg(s.drop_last());
    }
}

/// The value of an all-digit string is at least the value of any of its
/// prefixes.
proof fn lemma_digits_val_prefix(s: Seq<char>, k: int)
    requires
        0 <= k <= s.len(),
        forall|i: int| 0 <= i < s.len() ==> is_digit(#[trigger] s[i]),
    ensures
        digits_val(s) >= digits_val(s.subrange(0, k)),
    decreases s.len() - k,
{
    if k < s.len() {
        let p = s.subrange(0, k);
        let q = s.subrange(0, k + 1);
        assert(q.drop_last() =~= p);
        assert(forall|i: int| 0 <= i < p.len() ==> is_digit(#[trigger] p[i]));
        lemma_digits_val_nonneg(p);
        assert(digits_val(q) == digits_val(p) * 10 + digit_val(q.last()));
        assert(digits_val(q) >= digits_val(p));
        lemma_digits_val_prefix(s, k + 1);
    } else {
        assert(s.subrange(0, k) =~= s);
    }
}

/// Parses a decimal identifier: accepted exactly when the string is
/// non-empty, consists solely of ASCII digits, and its value fits.
pub fn parse_id(s: &str) -> (r: Option<u64>)
    ensures
        r == parse_spec(s@),
{
    let n = s.unicode_len();
    if n == 0 {
        return None;
    }
    let mut acc: u64 = 0;
    let mut i: usize = 0;
    proof {
        assert(s@.subrange(0, 0) =~= Seq::<char>::empty());
    }
    while i < n
        invariant
            n == s@.len(),
            i <= n,
            forall|p: int| 0 <= p < i ==> is_digit(#[trigger] s@[p]),
            acc == digits_val(s@.subrange(0, i as int)),
        decreases n - i,
    {
        let c = s.get_char(i);
        if !('0' <= c && c <= '9') {
            return None;
        }
        let d = (c as u32) - ('0' as u32);
        proof {
            assert(s@.subrange(0, i + 1).drop_last() =~= s@.subrange(0, i as int));
            assert(s@.subrange(0, i + 1).last() == s@[i as int]);
        }
        let step = match acc.checked_mul(10) {
            Some(x) => x.checked_add(d as u64),
            None => None,
        };
        match step {
            Some(x) => {
                acc = x;
            },
            None => {
                proof {
                    if forall|p: int| 0 <= p < s@.len() ==> is_digit(#[trigger] s@[p]) {
                        lemma_digits_val_prefix(s@, i + 1);
                        assert(digits_val(s@.subrange(0, i + 1)) > u64::MAX);
                    }
                }
                return None;
            },
        }
        i = i + 1;
    }
    proof {
        assert(s@.subrange(0, n as int) =~= s@);
        lemma_digits_val_nonneg(s@);
    }
    Some(acc)
}

} // verus!
