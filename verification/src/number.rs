//! Doubles as bit patterns.
//!
//! A number of the language is an IEEE 754 double, kept as the 64 bits that
//! encode it: one sign bit, eleven exponent bits, fifty-two fraction bits.
//! What can be read off the bits is decided here: equality, order, negation
//! and the whole part that serves as a vector index.

use vstd::prelude::*;

verus! {

/// The sign bit.
pub const SIGN_BIT: u64 = 0x8000_0000_0000_0000;

/// Every bit but the sign.
pub const MAGNITUDE_MASK: u64 = 0x7fff_ffff_ffff_ffff;

/// The magnitude of the infinities: all exponent bits set, no fraction.
pub const INFINITY_BITS: u64 = 0x7ff0_0000_0000_0000;

/// The fraction bits.
pub const FRACTION_MASK: u64 = 0x000f_ffff_ffff_ffff;

/// The bit that a normal double has before its fraction.
pub const HIDDEN_BIT: u64 = 0x0010_0000_0000_0000;

/// The bits without the sign.
pub open spec fn magnitude(bits: u64) -> u64 {
    bits & MAGNITUDE_MASK
}

/// The sign bit is set.
pub open spec fn is_negative(bits: u64) -> bool {
    bits & SIGN_BIT != 0
}

/// The bits encode no number.
pub open spec fn is_nan(bits: u64) -> bool {
    magnitude(bits) > INFINITY_BITS
}

/// An integer that orders the doubles as their values do: the magnitude,
/// counted downwards for negative numbers. Both zeros are at 0.
pub open spec fn ordinal(bits: u64) -> int {
    if is_negative(bits) {
        -(magnitude(bits) as int)
    } else {
        magnitude(bits) as int
    }
}

/// IEEE equality: no NaN equals anything, and the two zeros are equal.
pub open spec fn number_eq(a: u64, b: u64) -> bool {
    !is_nan(a) && !is_nan(b) && ordinal(a) == ordinal(b)
}

/// IEEE `<`: false as soon as one side is a NaN.
pub open spec fn number_lt(a: u64, b: u64) -> bool {
    !is_nan(a) && !is_nan(b) && ordinal(a) < ordinal(b)
}

/// IEEE `<=`: false as soon as one side is a NaN.
pub open spec fn number_le(a: u64, b: u64) -> bool {
    !is_nan(a) && !is_nan(b) && ordinal(a) <= ordinal(b)
}

/// The bits of the negated double: the sign bit flipped.
pub open spec fn negated(bits: u64) -> u64 {
    bits ^ SIGN_BIT
}

/// The biased exponent.
pub open spec fn exponent(bits: u64) -> u64 {
    magnitude(bits) >> 52
}

/// The 53 bit significand of a normal double, hidden bit included.
pub open spec fn significand(bits: u64) -> u64 {
    (bits & FRACTION_MASK) | HIDDEN_BIT
}

/// The double truncated toward zero, where the result is a natural number
/// below 2^64. A double strictly between -1 and 1 truncates to zero; one at or
/// below -1, an infinity and a NaN have no whole part here.
pub open spec fn whole_part(bits: u64) -> Option<nat> {
    let e = exponent(bits);
    if e >= 0x7ff {
        None
    } else if e < 1023 {
        Some(0)
    } else if is_negative(bits) {
        None
    } else if e <= 1075 {
        Some((significand(bits) >> ((1075 - e) as u64)) as nat)
    } else if e <= 1086 {
        Some((significand(bits) << ((e - 1075) as u64)) as nat)
    } else {
        None
    }
}

/// Whether the bits encode no number.
pub fn is_nan_bits(bits: u64) -> (r: bool)
    ensures
        r == is_nan(bits),
{
    (bits & MAGNITUDE_MASK) > INFINITY_BITS
}

/// IEEE `==` on two doubles.
pub fn equal_bits(a: u64, b: u64) -> (r: bool)
    ensures
        r == number_eq(a, b),
{
    let ma: u64 = a & MAGNITUDE_MASK;
    let mb: u64 = b & MAGNITUDE_MASK;
    if ma > INFINITY_BITS || mb > INFINITY_BITS {
        false
    } else if (a & SIGN_BIT != 0) == (b & SIGN_BIT != 0) {
        ma == mb
    } else {
        ma == 0 && mb == 0
    }
}

/// IEEE `<` on two doubles.
pub fn less_bits(a: u64, b: u64) -> (r: bool)
    ensures
        r == number_lt(a, b),
{
    let ma: u64 = a & MAGNITUDE_MASK;
    let mb: u64 = b & MAGNITUDE_MASK;
    let na: bool = a & SIGN_BIT != 0;
    let nb: bool = b & SIGN_BIT != 0;
    if ma > INFINITY_BITS || mb > INFINITY_BITS {
        false
    } else if na && nb {
        ma > mb
    } else if na {
        ma != 0 || mb != 0
    } else if nb {
        false
    } else {
        ma < mb
    }
}

/// IEEE `<=` on two doubles.
pub fn less_or_equal_bits(a: u64, b: u64) -> (r: bool)
    ensures
        r == number_le(a, b),
{
    less_bits(a, b) || equal_bits(a, b)
}

/// The negated double.
pub fn negate_bits(bits: u64) -> (r: u64)
    ensures
        r == negated(bits),
{
    bits ^ SIGN_BIT
}

/// The vector index that a number stands for.
pub fn to_index(bits: u64) -> (r: Option<usize>)
    ensures
        r == match whole_part(bits) {
            Some(n) => if n <= usize::MAX { Some(n as usize) } else { None },
            None => None,
        },
{
    let e: u64 = (bits & MAGNITUDE_MASK) >> 52;
    assert(e <= 0x7ff) by (bit_vector)
        requires
            e == (bits & MAGNITUDE_MASK) >> 52,
    ;
    if e >= 0x7ff {
        None
    } else if e < 1023 {
        Some(0)
    } else if bits & SIGN_BIT != 0 {
        None
    } else {
        let s: u64 = (bits & FRACTION_MASK) | HIDDEN_BIT;
        let whole: u64 = if e <= 1075 {
            s >> (1075 - e)
        } else if e <= 1086 {
            s << (e - 1075)
        } else {
            return None;
        };
        if whole > usize::MAX as u64 {
            None
        } else {
            Some(whole as usize)
        }
    }
}

} // verus!
