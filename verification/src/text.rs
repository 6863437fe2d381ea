//! Decoding of single fields from their text: whole numbers, amounts and
//! names compared without regard to case.

use vstd::prelude::*;

verus! {

/// The digit `0`.
pub const ZERO: u8 = 0x30;

/// The digit `9`.
pub const NINE: u8 = 0x39;

/// The sign `+`.
pub const PLUS: u8 = 0x2b;

/// The sign `-`.
pub const MINUS: u8 = 0x2d;

/// The decimal point.
pub const DOT: u8 = 0x2e;

/// A decimal digit.
pub open spec fn is_digit(b: u8) -> bool {
    ZERO <= b <= NINE
}

/// A text of decimal digits only.
pub open spec fn all_digits(s: Seq<u8>) -> bool {
    forall|i: int| 0 <= i < s.len() ==> is_digit(#[trigger] s[i])
}

/// The number that a run of decimal digits writes.
pub open spec fn digits_value(s: Seq<u8>) -> int
    decreases s.len(),
{
    if s.len() == 0 {
        0
    } else {
        digits_value(s.drop_last()) * 10 + (s.last() - ZERO)
    }
}

/// The whole number that a text writes: an optional sign, then one or more
/// digits and nothing else, with a value that a 64-bit signed integer holds.
pub open spec fn integer_of(s: Seq<u8>) -> Option<int> {
    let signed = s.len() > 0 && (s[0] == PLUS || s[0] == MINUS);
    let digits = if signed { s.skip(1) } else { s };
    let value = if signed && s[0] == MINUS {
        -digits_value(digits)
    } else {
        digits_value(digits)
    };
    if digits.len() > 0 && all_digits(digits) && i64::MIN <= value <= i64::MAX {
        Some(value)
    } else {
        None
    }
}

/// Index of the first byte at or after `from` that is no digit, or the
/// length of the text if there is none.
pub open spec fn digits_end(s: Seq<u8>, from: int) -> int
    decreases s.len() - from,
{
    if 0 <= from < s.len() && is_digit(s[from]) {
        digits_end(s, from + 1)
    } else {
        from
    }
}

/// Hundredths written by the digits after the decimal point.
pub open spec fn hundredths(frac: Seq<u8>) -> int {
    if frac.len() == 0 {
        0
    } else if frac.len() == 1 {
        (frac[0] - ZERO) * 10
    } else {
        (frac[0] - ZERO) * 10 + (frac[1] - ZERO)
    }
}

/// The amount, in hundredths, that a text writes: one or more digits, then
/// optionally a point and at most two more digits. There is no sign, so the
/// amount is never negative, and it must fit a 64-bit signed integer.
pub open spec fn amount_of(s: Seq<u8>) -> Option<int> {
    let end = digits_end(s, 0);
    let whole = digits_value(s.take(end));
    let frac = s.skip(end + 1);
    let value = if end == s.len() { whole * 100 } else { whole * 100 + hundredths(frac) };
    if 0 < end && (end == s.len() || (s[end] == DOT && frac.len() <= 2 && all_digits(frac)))
        && value <= i64::MAX {
        Some(value)
    } else {
        None
    }
}

/// A letter in lower case, any other byte as it is.
pub open spec fn lower(b: u8) -> u8 {
    if 0x41 <= b <= 0x5a { (b + 0x20) as u8 } else { b }
}

/// Two texts that differ at most in the case of their letters.
pub open spec fn same_ignoring_case(a: Seq<u8>, b: Seq<u8>) -> bool {
    &&& a.len() == b.len()
    &&& forall|i: int| 0 <= i < a.len() ==> lower(#[trigger] a[i]) == lower(b[i])
}

/// One more digit multiplies the value by ten and adds the digit.
proof fn digits_value_push(s: Seq<u8>, i: int)
    requires
        0 <= i < s.len(),
    ensures
        digits_value(s.take(i + 1)) == digits_value(s.take(i)) * 10 + (s[i] - ZERO),
{
    assert(s.take(i + 1).drop_last() =~= s.take(i));
}

/// The value of a run of digits is not negative and does not shrink as the
/// run gets longer.
proof fn digits_value_grows(s: Seq<u8>, i: int, j: int)
    requires
        0 <= i <= j <= s.len(),
        all_digits(s.take(j)),
    ensures
        0 <= digits_value(s.take(i)) <= digits_value(s.take(j)),
    decreases j - i, j,
{
    if i == j {
        if 0 < j {
            assert(s.take(j)[j - 1] == s[j - 1]);
            digits_value_push(s, j - 1);
            assert forall|k: int| 0 <= k < j - 1 implies is_digit(#[trigger] s.take(j - 1)[k]) by {
                assert(s.take(j)[k] == s[k]);
            }
            digits_value_grows(s, j - 1, j - 1);
        }
    } else {
        assert(s.take(j)[j - 1] == s[j - 1]);
        digits_value_push(s, j - 1);
        assert forall|k: int| 0 <= k < j - 1 implies is_digit(#[trigger] s.take(j - 1)[k]) by {
            assert(s.take(j)[k] == s[k]);
        }
        digits_value_grows(s, i, j - 1);
    }
}

/// A run of digits ends where the first byte that is no digit stands.
proof fn digits_end_is(s: Seq<u8>, from: int, end: int)
    requires
        0 <= from <= end <= s.len(),
        forall|k: int| from <= k < end ==> is_digit(#[trigger] s[k]),
        end < s.len() ==> !is_digit(s[end]),
    ensures
        digits_end(s, from) == end,
    decreases end - from,
{
    if from < end {
        digits_end_is(s, from + 1, end);
    }
}

/// The digit at a position of a text, if a digit stands there.
fn digit_at(text: &[u8], i: usize) -> (digit: Option<u8>)
    requires
        i < text@.len(),
    ensures
        digit matches Some(d) ==> is_digit(text@[i as int]) && d == text@[i as int] - ZERO,
        digit is None ==> !is_digit(text@[i as int]),
{
    let b = text[i];
    if ZERO <= b && b <= NINE {
        Some(b - ZERO)
    } else {
        None
    }
}

/// Reads a whole number.
#[verifier::loop_isolation(false)]
pub fn parse_integer(text: &[u8]) -> (value: Option<i64>)
    ensures
        (match value {
            Some(v) => integer_of(text@) == Some(v as int),
            None => integer_of(text@) is None,
        }),
{
    let n = text.len();
    if n == 0 {
        return None;
    }
    let negative = text[0] == MINUS;
    let start: usize = if text[0] == PLUS || text[0] == MINUS { 1 } else { 0 };
    if start == n {
        return None;
    }
    let ghost digits = text@.skip(start as int);
    assert(text@.skip(0) =~= text@);
    let limit: u64 = 0x8000_0000_0000_0000;
    let mut acc: u64 = 0;
    let mut i: usize = start;
    while i < n
        invariant
            start <= i <= n,
            n == text@.len(),
            digits == text@.skip(start as int),
            all_digits(digits.take(i - start)),
            acc == digits_value(digits.take(i - start)),
            acc <= limit,
            limit == 0x8000_0000_0000_0000,
        decreases n - i,
    {
        let d = match digit_at(text, i) {
            Some(d) => d,
            None => {
                assert(digits[i - start] == text@[i as int]);
                return None;
            },
        };
        proof {
            assert(digits[i - start] == text@[i as int]);
            digits_value_push(digits, i - start);
            assert forall|k: int| 0 <= k < i - start + 1 implies is_digit(
                #[trigger] digits.take(i - start + 1)[k],
            ) by {
                if k < i - start {
                    assert(digits.take(i - start)[k] == digits[k]);
                }
            }
        }
        if acc > (limit - d as u64) / 10 {
            proof {
                if all_digits(digits) {
                    assert(digits.take(digits.len() as int) =~= digits);
                    digits_value_grows(digits, i - start + 1, digits.len() as int);
                }
            }
            return None;
        }
        acc = acc * 10 + d as u64;
        i = i + 1;
    }
    proof {
        assert(digits.take(digits.len() as int) =~= digits);
    }
    if negative {
        if acc == limit {
            Some(i64::MIN)
        } else {
            Some(-(acc as i64))
        }
    } else if acc == limit {
        None
    } else {
        Some(acc as i64)
    }
}

/// Reads an amount and gives it in hundredths. What it gives is never
/// negative.
pub fn parse_amount(text: &[u8]) -> (value: Option<i64>)
    ensures
        (match value {
            Some(v) => amount_of(text@) == Some(v as int) && v >= 0,
            None => amount_of(text@) is None,
        }),
{
    let n = text.len();
    let limit: u64 = 0x7fff_ffff_ffff_ffff;
    let mut acc: u64 = 0;
    let mut i: usize = 0;
    while i < n
        invariant
            i <= n,
            n == text@.len(),
            forall|k: int| 0 <= k < i ==> is_digit(#[trigger] text@[k]),
            acc == digits_value(text@.take(i as int)),
            acc <= limit / 100,
            limit == 0x7fff_ffff_ffff_ffff,
        ensures
            i == n || !is_digit(text@[i as int]),
        decreases n - i,
    {
        let d = match digit_at(text, i) {
            Some(d) => d,
            None => { break ; },
        };
        proof {
            digits_value_push(text@, i as int);
        }
        if acc > (limit / 100 - d as u64) / 10 {
            proof {
                let end = digits_end(text@, 0);
                if 0 <= end <= text@.len() && end > i {
                    assert forall|k: int| 0 <= k < end implies is_digit(
                        #[trigger] text@.take(end)[k],
                    ) by {
                        digits_end_covers(text@, 0, k);
                    }
                    digits_value_grows(text@, i + 1, end);
                } else {
                    digits_end_bounds(text@, 0);
                    digits_end_covers(text@, 0, i as int);
                }
            }
            return None;
        }
        acc = acc * 10 + d as u64;
        i = i + 1;
    }
    proof {
        digits_end_is(text@, 0, i as int);
    }
    if i == 0 {
        return None;
    }
    let whole: u64 = acc * 100;
    if i == n {
        return Some(whole as i64);
    }
    if text[i] != DOT || n - i > 3 {
        return None;
    }
    let ghost frac = text@.skip(i + 1);
    let mut cents: u64 = 0;
    if n - i >= 2 {
        match digit_at(text, i + 1) {
            Some(d) => { cents = d as u64 * 10; },
            None => {
                assert(frac[0] == text@[i + 1]);
                return None;
            },
        }
        assert(frac[0] == text@[i + 1]);
    }
    if n - i == 3 {
        match digit_at(text, i + 2) {
            Some(d) => { cents = cents + d as u64; },
            None => {
                assert(frac[1] == text@[i + 2]);
                return None;
            },
        }
        assert(frac[1] == text@[i + 2]);
    }
    if whole + cents > limit {
        return None;
    }
    Some((whole + cents) as i64)
}

/// A run of digits ends within the text, at a byte that is no digit.
proof fn digits_end_bounds(s: Seq<u8>, from: int)
    requires
        0 <= from <= s.len(),
    ensures
        from <= digits_end(s, from) <= s.len(),
        digits_end(s, from) < s.len() ==> !is_digit(s[digits_end(s, from)]),
    decreases s.len() - from,
{
    if from < s.len() && is_digit(s[from]) {
        digits_end_bounds(s, from + 1);
    }
}

/// Every byte of a run of digits is a digit.
proof fn digits_end_covers(s: Seq<u8>, from: int, k: int)
    requires
        0 <= from <= k < digits_end(s, from),
    ensures
        k < s.len(),
        is_digit(s[k]),
    decreases s.len() - from,
{
    if 0 <= from < s.len() && is_digit(s[from]) {
        if from < k {
            digits_end_covers(s, from + 1, k);
        }
    }
}

/// An amount taken apart for display: its sign, its whole units and the
/// hundredths beyond them.
#[derive(Clone, Copy, Debug, PartialEq, Eq, Structural)]
pub struct AmountParts {
    pub negative: bool,
    pub units: u128,
    pub hundredths: u8,
}

/// The amount that the parts of a display stand for.
pub open spec fn amount_from_parts(parts: AmountParts) -> int {
    if parts.negative {
        -(parts.units * 100 + parts.hundredths)
    } else {
        parts.units * 100 + parts.hundredths
    }
}

/// Takes a signed amount in hundredths apart for display. Zero has no sign.
pub fn amount_parts(amount: i128) -> (parts: AmountParts)
    ensures
        amount_from_parts(parts) == amount,
        parts.hundredths < 100,
        parts.negative == (amount < 0),
{
    let negative = amount < 0;
    let magnitude: u128 = if negative { (-(amount + 1)) as u128 + 1 } else { amount as u128 };
    AmountParts { negative, units: magnitude / 100, hundredths: (magnitude % 100) as u8 }
}

/// Compares two texts without regard to the case of their letters.
pub fn eq_ignoring_case(a: &[u8], b: &[u8]) -> (same: bool)
    ensures
        same == same_ignoring_case(a@, b@),
{
    if a.len() != b.len() {
        return false;
    }
    let n = a.len();
    let mut i: usize = 0;
    while i < n
        invariant
            i <= n,
            n == a@.len(),
            n == b@.len(),
            forall|k: int| 0 <= k < i ==> lower(#[trigger] a@[k]) == lower(b@[k]),
        decreases n - i,
    {
        if to_lower(a[i]) != to_lower(b[i]) {
            return false;
        }
        i = i + 1;
    }
    true
}

/// A letter in lower case, any other byte as it is.
fn to_lower(b: u8) -> (l: u8)
    ensures
        l == lower(b),
{
    if 0x41 <= b && b <= 0x5a {
        b + 0x20
    } else {
        b
    }
}

} // verus!
