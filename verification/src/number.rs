//! Numbers as they stand in a fixed-width field. A year is an optional sign
//! followed by digits; every other field is digits and nothing else.

use vstd::prelude::*;

verus! {

/// The byte `0`.
pub const ASCII_ZERO: u8 = 48;

/// The byte `9`.
pub const ASCII_NINE: u8 = 57;

/// The byte `+`.
pub const ASCII_PLUS: u8 = 43;

/// The byte `-`.
pub const ASCII_MINUS: u8 = 45;

/// Whether `b` is one of the ASCII digits `0` to `9`.
pub open spec fn is_digit(b: u8) -> bool {
    ASCII_ZERO <= b <= ASCII_NINE
}

/// The value of the digit `b`, and 0 for any other byte.
pub open spec fn digit_value(b: u8) -> nat {
    if is_digit(b) {
        (b - ASCII_ZERO) as nat
    } else {
        0
    }
}

/// Whether every byte of `s` is a digit.
pub open spec fn all_digits(s: Seq<u8>) -> bool {
    forall|i: int| 0 <= i < s.len() ==> is_digit(#[trigger] s[i])
}

/// The number that the digits of `s` denote in base ten, most significant
/// digit first. The empty sequence denotes 0.
pub open spec fn digits_value(s: Seq<u8>) -> nat
    decreases s.len(),
{
    if s.len() == 0 {
        0
    } else {
        digits_value(s.drop_last()) * 10 + digit_value(s.last())
    }
}

/// The magnitude that `s` denotes: `s` must be one or more digits.
pub open spec fn magnitude(s: Seq<u8>) -> Option<nat> {
    if s.len() > 0 && all_digits(s) {
        Some(digits_value(s))
    } else {
        None
    }
}

/// The integer that `s` denotes: an optional `+` or `-`, then one or more
/// digits.
pub open spec fn decimal(s: Seq<u8>) -> Option<int> {
    if s.len() == 0 {
        None
    } else if s[0] == ASCII_PLUS {
        match magnitude(s.skip(1)) {
            Some(m) => Some(m as int),
            None => None,
        }
    } else if s[0] == ASCII_MINUS {
        match magnitude(s.skip(1)) {
            Some(m) => Some(-(m as int)),
            None => None,
        }
    } else {
        match magnitude(s) {
            Some(m) => Some(m as int),
            None => None,
        }
    }
}

/// The `i32` that `s` denotes with an optional sign, if it denotes an
/// integer that fits.
pub open spec fn signed_number(s: Seq<u8>) -> Option<i32> {
    match decimal(s) {
        Some(v) => if i32::MIN <= v <= i32::MAX {
            Some(v as i32)
        } else {
            None
        },
        None => None,
    }
}

/// The `u32` that the digits of `s` denote, if `s` is one or more digits and
/// the number fits. A sign is no digit: `+2` denotes nothing.
pub open spec fn digits_number(s: Seq<u8>) -> Option<u32> {
    match magnitude(s) {
        Some(m) => if m <= u32::MAX {
            Some(m as u32)
        } else {
            None
        },
        None => None,
    }
}

/// Appending digits never makes the denoted number smaller.
pub proof fn lemma_digits_value_grows(s: Seq<u8>, k: int)
    requires
        0 <= k <= s.len(),
    ensures
        digits_value(s.take(k)) <= digits_value(s),
    decreases s.len(),
{
    if k == s.len() {
        assert(s.take(k) =~= s);
    } else {
        assert(s.drop_last().take(k) =~= s.take(k));
        lemma_digits_value_grows(s.drop_last(), k);
    }
}

/// Ten to the power `n`.
pub open spec fn pow10(n: nat) -> nat
    decreases n,
{
    if n == 0 {
        1
    } else {
        10 * pow10((n - 1) as nat)
    }
}

/// A number of `n` digits is below ten to the power `n`.
pub proof fn lemma_digits_value_bound(s: Seq<u8>)
    ensures
        digits_value(s) < pow10(s.len()),
    decreases s.len(),
{
    if s.len() > 0 {
        lemma_digits_value_bound(s.drop_last());
    }
}

/// A signed literal of `n` bytes denotes a number below ten to the power `n`
/// and above minus ten to the power `n - 1`, since the sign takes one byte.
pub proof fn lemma_decimal_bound(s: Seq<u8>)
    requires
        decimal(s).is_some(),
    ensures
        -pow10((s.len() - 1) as nat) < decimal(s).unwrap() < pow10(s.len()),
{
    lemma_digits_value_bound(s);
    lemma_digits_value_bound(s.skip(1));
}

/// The numbers that a year of four bytes and a field of two digits can hold.
pub proof fn lemma_field_bounds(s: Seq<u8>)
    ensures
        s.len() == 4 ==> match signed_number(s) {
            Some(v) => -999 <= v <= 9999,
            None => true,
        },
        s.len() == 2 ==> match digits_number(s) {
            Some(v) => v <= 99,
            None => true,
        },
{
    reveal_with_fuel(pow10, 5);
    lemma_digits_value_bound(s);
    if decimal(s).is_some() {
        lemma_decimal_bound(s);
    }
}

/// A field of two or four digits denotes the number that its digits give,
/// read as a year or as any other field.
pub proof fn lemma_digit_field(s: Seq<u8>)
    requires
        s.len() == 2 || s.len() == 4,
        all_digits(s),
    ensures
        s.len() == 2 ==> digits_value(s) <= 99,
        digits_value(s) <= 9999,
        signed_number(s) == Some(digits_value(s) as i32),
        digits_number(s) == Some(digits_value(s) as u32),
{
    reveal_with_fuel(pow10, 5);
    lemma_digits_value_bound(s);
    assert(is_digit(s[0]));
}

/// A field of two bytes denotes a number exactly when both bytes are digits,
/// and then ten times the first digit plus the second.
pub proof fn lemma_two_digits(s: Seq<u8>)
    requires
        s.len() == 2,
    ensures
        digits_number(s) == if is_digit(s[0]) && is_digit(s[1]) {
            Some((digit_value(s[0]) * 10 + digit_value(s[1])) as u32)
        } else {
            None
        },
{
    reveal_with_fuel(digits_value, 3);
    assert(s.drop_last().drop_last() =~= Seq::<u8>::empty());
    assert(s.drop_last()[0] == s[0]);
    if is_digit(s[0]) && is_digit(s[1]) {
        assert(all_digits(s));
    } else {
        assert(!all_digits(s));
    }
}

/// Reads the digits of `text` from index `from` to its end and returns the
/// number they denote, provided that there is at least one byte, that all are
/// digits, and that the number does not exceed `limit`.
fn parse_magnitude(text: &[u8], from: usize, limit: u64) -> (r: Option<u64>)
    requires
        from <= text@.len(),
        limit <= 0x1_0000_0000,
    ensures
        r == match magnitude(text@.skip(from as int)) {
            Some(m) => if m <= limit {
                Some(m as u64)
            } else {
                None
            },
            None => None,
        },
{
    let n: usize = text.len();
    let ghost digits = text@.skip(from as int);
    if from == n {
        return None;
    }
    let mut acc: u64 = 0;
    let mut i: usize = from;
    assert(digits.take(0) =~= Seq::<u8>::empty());
    while i < n
        invariant
            from <= i <= n,
            n == text@.len(),
            digits == text@.skip(from as int),
            limit <= 0x1_0000_0000,
            all_digits(digits.take(i - from)),
            acc == digits_value(digits.take(i - from)),
            acc <= limit,
        decreases n - i,
    {
        let b: u8 = text[i];
        if b < ASCII_ZERO || b > ASCII_NINE {
            assert(!is_digit(digits[i - from]));
            return None;
        }
        let next: u64 = acc * 10 + (b - ASCII_ZERO) as u64;
        proof {
            let longer = digits.take(i - from + 1);
            assert(longer.drop_last() =~= digits.take(i - from));
            assert(longer.last() == b);
            assert(next == digits_value(longer));
            assert(all_digits(longer)) by {
                assert forall|j: int| 0 <= j < longer.len() implies is_digit(
                    #[trigger] longer[j],
                ) by {
                    if j < i - from {
                        assert(longer[j] == digits.take(i - from)[j]);
                    }
                }
            }
        }
        if next > limit {
            proof {
                lemma_digits_value_grows(digits, i - from + 1);
            }
            return None;
        }
        acc = next;
        i = i + 1;
    }
    assert(digits.take(i - from) =~= digits);
    Some(acc)
}

/// Parses `text` as an `i32` written in decimal with an optional sign.
pub fn parse_signed(text: &[u8]) -> (r: Option<i32>)
    ensures
        r == signed_number(text@),
{
    if text.len() == 0 {
        return None;
    }
    let first: u8 = text[0];
    if first == ASCII_MINUS {
        match parse_magnitude(text, 1, 0x8000_0000) {
            Some(m) => Some((0 - (m as i64)) as i32),
            None => None,
        }
    } else {
        let from: usize = if first == ASCII_PLUS {
            1
        } else {
            0
        };
        assert(text@.skip(0) =~= text@);
        match parse_magnitude(text, from, 0x7fff_ffff) {
            Some(m) => Some(m as i32),
            None => None,
        }
    }
}

/// Parses `text` as a `u32` written in decimal digits, without any sign.
pub fn parse_digits(text: &[u8]) -> (r: Option<u32>)
    ensures
        r == digits_number(text@),
{
    assert(text@.skip(0) =~= text@);
    match parse_magnitude(text, 0, 0xffff_ffff) {
        Some(m) => Some(m as u32),
        None => None,
    }
}

} // verus!
