//! Chapter numbers are fractional (`1.5` for a bonus chapter).  They are carried
//! here as the bit pattern of an IEEE-754 single-precision value, and ordered
//! and compared through integer views of that pattern.

use vstd::prelude::*;

verus! {

/// Sign bit of a single-precision bit pattern.
pub const SIGN_BIT: u32 = 0x8000_0000;

/// Bit pattern of positive infinity; magnitudes above it are NaN.
pub const INFINITY_BITS: u32 = 0x7f80_0000;

/// Bit pattern of negative infinity.
pub const NEG_INFINITY_BITS: u32 = 0xff80_0000;

/// The position of a bit pattern in the IEEE-754 total order (the order of
/// `f32::total_cmp`): non-negative patterns keep their value, patterns with the
/// sign bit set map below zero, the largest magnitude lowest.
pub open spec fn total_order_key(bits: u32) -> int {
    if bits < SIGN_BIT {
        bits as int
    } else {
        -1 - (bits - SIGN_BIT)
    }
}

/// Magnitude of a bit pattern (the pattern without its sign bit).
pub open spec fn magnitude(bits: u32) -> int {
    if bits < SIGN_BIT {
        bits as int
    } else {
        bits - SIGN_BIT
    }
}

/// The pattern encodes a NaN.
pub open spec fn is_nan_bits(bits: u32) -> bool {
    magnitude(bits) > INFINITY_BITS
}

/// The pattern encodes `+0.0` or `-0.0`.
pub open spec fn is_zero_bits(bits: u32) -> bool {
    magnitude(bits) == 0
}

/// IEEE-754 `a < b`: false whenever a NaN is involved, and the two zeros are
/// equal; otherwise the total order.
pub open spec fn float_lt(a: u32, b: u32) -> bool {
    &&& !is_nan_bits(a)
    &&& !is_nan_bits(b)
    &&& !(is_zero_bits(a) && is_zero_bits(b))
    &&& total_order_key(a) < total_order_key(b)
}

/// Integer key of a bit pattern in the total order.
pub fn order_key(bits: u32) -> (k: i32)
    ensures
        k as int == total_order_key(bits),
{
    if bits < SIGN_BIT {
        bits as i32
    } else {
        let m: i32 = (bits - SIGN_BIT) as i32;
        -1 - m
    }
}

/// The total order is a total order on bit patterns: distinct patterns have
/// distinct keys.
pub proof fn lemma_order_key_injective(a: u32, b: u32)
    ensures
        total_order_key(a) == total_order_key(b) <==> a == b,
{
}

/// IEEE-754 `a < b` on two bit patterns.
pub fn float_less(a: u32, b: u32) -> (r: bool)
    ensures
        r == float_lt(a, b),
{
    let ma: u32 = if a < SIGN_BIT { a } else { a - SIGN_BIT };
    let mb: u32 = if b < SIGN_BIT { b } else { b - SIGN_BIT };
    if ma > INFINITY_BITS || mb > INFINITY_BITS {
        false
    } else if ma == 0 && mb == 0 {
        false
    } else {
        order_key(a) < order_key(b)
    }
}

/// Sorting by the total order puts a NaN without the sign bit (the NaN that
/// parsing "NaN" yields) after every other chapter number, and every number
/// with the sign bit set before every number without it.
pub proof fn lemma_nan_sorts_last(nan: u32, x: u32)
    requires
        is_nan_bits(nan),
        nan < SIGN_BIT,
        !is_nan_bits(x) || SIGN_BIT <= x,
    ensures
        total_order_key(x) < total_order_key(nan),
        SIGN_BIT <= x ==> total_order_key(x) < 0,
{
}

/// On numbers that are not NaN, the total order refines IEEE `<`: a number
/// below another in IEEE terms is below it in the sort order too.
pub proof fn lemma_float_lt_implies_key_lt(a: u32, b: u32)
    requires
        float_lt(a, b),
    ensures
        total_order_key(a) < total_order_key(b),
{
}

/// The pattern encodes a finite number (neither infinite nor NaN).
pub open spec fn is_finite_bits(bits: u32) -> bool {
    magnitude(bits) < INFINITY_BITS
}

/// IEEE-754 `a <= b`: false whenever a NaN is involved; the two zeros are
/// equal.
pub open spec fn float_le(a: u32, b: u32) -> bool {
    &&& !is_nan_bits(a)
    &&& !is_nan_bits(b)
    &&& (float_lt(a, b) || a == b || (is_zero_bits(a) && is_zero_bits(b)))
}

} // verus!
