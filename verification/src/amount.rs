//! Amounts as a user writes them: a whole number of satoshis in decimal
//! digits.

use vstd::prelude::*;

verus! {

/// The text is no amount: it is empty, holds something other than the
/// digits 0 to 9, or names a number that does not fit in 64 bits.
#[derive(Clone, Copy, PartialEq, Eq, Structural, Debug)]
pub struct InvalidAmount;

/// The digit that a character stands for.
pub open spec fn digit_of(c: char) -> Option<nat> {
    if '0' <= c && c <= '9' {
        Some((c as u32 - '0' as u32) as nat)
    } else {
        None
    }
}

/// The number that a sequence of digits stands for; `None` where a
/// character is no digit. The empty sequence stands for 0.
pub open spec fn digits_value(s: Seq<char>) -> Option<nat>
    decreases s.len(),
{
    if s.len() == 0 {
        Some(0)
    } else {
        match (digits_value(s.drop_last()), digit_of(s.last())) {
            (Some(v), Some(d)) => Some(v * 10 + d),
            _ => None,
        }
    }
}

/// The amount that a text stands for.
pub open spec fn spec_amount(s: Seq<char>) -> Option<u64> {
    match digits_value(s) {
        Some(v) => if s.len() >= 1 && v <= u64::MAX {
            Some(v as u64)
        } else {
            None
        },
        None => None,
    }
}

/// A text that is no number as far as it was read is no number.
proof fn lemma_digits_prefix(s: Seq<char>, n: int)
    requires
        0 <= n <= s.len(),
        digits_value(s.subrange(0, n)) is None,
    ensures
        digits_value(s) is None,
    decreases s.len() - n,
{
    if n == s.len() {
        assert(s.subrange(0, n) =~= s);
    } else {
        assert(s.subrange(0, n + 1).drop_last() =~= s.subrange(0, n));
        lemma_digits_prefix(s, n + 1);
    }
}

/// More digits make a number no smaller.
proof fn lemma_digits_grow(s: Seq<char>, n: int)
    requires
        0 <= n <= s.len(),
    ensures
        digits_value(s) matches Some(v) ==> (digits_value(s.subrange(0, n)) matches Some(p) && p
            <= v),
    decreases s.len() - n,
{
    if n == s.len() {
        assert(s.subrange(0, n) =~= s);
    } else {
        assert(s.subrange(0, n + 1).drop_last() =~= s.subrange(0, n));
        lemma_digits_grow(s, n + 1);
    }
}

/// Reads an amount of satoshis written in decimal digits.
pub fn parse_amount(text: &str) -> (r: Result<u64, InvalidAmount>)
    ensures
        match r {
            Ok(v) => spec_amount(text@) == Some(v),
            Err(_) => spec_amount(text@) is None,
        },
{
    let n = text.unicode_len();
    if n == 0 {
        return Err(InvalidAmount);
    }
    let mut value: u64 = 0;
    let mut i: usize = 0;
    while i < n
        invariant
            n == text@.len(),
            i <= n,
            digits_value(text@.subrange(0, i as int)) == Some(value as nat),
        decreases n - i,
    {
        let c = text.get_char(i);
        proof {
            assert(text@.subrange(0, i as int + 1).drop_last() =~= text@.subrange(0, i as int));
            lemma_digits_grow(text@, i as int + 1);
        }
        if c < '0' || c > '9' {
            proof {
                lemma_digits_prefix(text@, i as int + 1);
            }
            return Err(InvalidAmount);
        }
        let digit: u64 = (c as u32 - '0' as u32) as u64;
        let next = match value.checked_mul(10) {
            Some(tenfold) => tenfold.checked_add(digit),
            None => None,
        };
        match next {
            Some(v) => {
                value = v;
            },
            None => {
                return Err(InvalidAmount);
            },
        }
        i += 1;
    }
    assert(text@.subrange(0, n as int) =~= text@);
    Ok(value)
}

} // verus!
