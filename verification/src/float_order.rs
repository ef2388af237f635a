//! Ordering of IEEE-754 binary64 values by their bit patterns.
//!
//! A binary64 value is stored in sign-magnitude form: bit 63 is the sign and
//! the remaining 63 bits, read as an unsigned integer, grow with the absolute
//! value (for the non-NaN values). Mapping a non-NaN pattern to `+magnitude`
//! or `-magnitude` therefore gives an integer whose order is the numeric
//! order of the values, with `+0.0` and `-0.0` mapped to the same key.
use vstd::prelude::*;

verus! {

/// Bit 63 of a binary64 pattern.
pub const SIGN_BIT: u64 = 0x8000_0000_0000_0000u64;

/// The pattern of positive infinity; every larger magnitude is a NaN.
pub const INFINITY_BITS: u64 = 0x7FF0_0000_0000_0000u64;

/// The low 63 bits of a binary64 pattern: exponent and mantissa.
pub open spec fn magnitude(bits: u64) -> int {
    if bits >= SIGN_BIT {
        bits - SIGN_BIT
    } else {
        bits as int
    }
}

/// The sign bit is set.
pub open spec fn is_negative_pattern(bits: u64) -> bool {
    bits >= SIGN_BIT
}

/// All exponent bits set and a non-zero mantissa.
pub open spec fn is_nan_pattern(bits: u64) -> bool {
    magnitude(bits) > INFINITY_BITS
}

/// The key of a pattern: `None` for a NaN, the signed magnitude otherwise.
pub open spec fn order_key(bits: u64) -> Option<int> {
    if is_nan_pattern(bits) {
        None
    } else if is_negative_pattern(bits) {
        Some(-magnitude(bits))
    } else {
        Some(magnitude(bits))
    }
}

/// The view of an optional key as a mathematical integer.
pub open spec fn key_view(k: Option<i64>) -> Option<int> {
    match k {
        Some(v) => Some(v as int),
        None => None,
    }
}

/// `a >= b` between two keys, false when either stands for a NaN: the
/// outcome of `>=` between the two floating-point values.
pub open spec fn key_ge(a: Option<i64>, b: Option<i64>) -> bool {
    match (a, b) {
        (Some(x), Some(y)) => x >= y,
        _ => false,
    }
}

/// `a > b` between two keys, false when either stands for a NaN: the
/// outcome of `>` between the two floating-point values.
pub open spec fn key_gt(a: Option<i64>, b: Option<i64>) -> bool {
    match (a, b) {
        (Some(x), Some(y)) => x > y,
        _ => false,
    }
}

/// The order key of a binary64 bit pattern (as given by `f64::to_bits`).
///
/// `None` stands for a NaN, which compares with nothing; otherwise the key is
/// the magnitude, negated when the sign bit is set.
pub fn float_order_key(bits: u64) -> (key: Option<i64>)
    ensures
        key_view(key) == order_key(bits),
        bits < 0x8000_0000_0000_0000u64 && bits <= 0x7FF0_0000_0000_0000u64 ==> key == Some(
            bits as i64,
        ),
        bits >= 0x8000_0000_0000_0000u64 && bits - 0x8000_0000_0000_0000u64
            <= 0x7FF0_0000_0000_0000u64 ==> key is Some && key->0 == -(bits
            - 0x8000_0000_0000_0000u64),
        (bits < 0x8000_0000_0000_0000u64 && bits > 0x7FF0_0000_0000_0000u64) || (bits
            >= 0x8000_0000_0000_0000u64 && bits - 0x8000_0000_0000_0000u64
            > 0x7FF0_0000_0000_0000u64) ==> key is None,
{
    let negative = bits >= SIGN_BIT;
    let mag: u64 = if negative {
        bits - SIGN_BIT
    } else {
        bits
    };
    if mag > INFINITY_BITS {
        None
    } else if negative {
        Some(-(mag as i64))
    } else {
        Some(mag as i64)
    }
}

/// Two non-NaN patterns with the sign bit clear are ordered by their keys
/// exactly as by their bits; a key is negative only for a pattern with the
/// sign bit set and a non-zero magnitude; and equal keys come from equal
/// patterns, except for the two zeros.
pub proof fn lemma_order_key_properties(a: u64, b: u64)
    requires
        !is_nan_pattern(a),
        !is_nan_pattern(b),
    ensures
        !is_negative_pattern(a) && !is_negative_pattern(b) ==> (order_key(a)->0 <= order_key(
            b,
        )->0 <==> a <= b),
        order_key(a)->0 < 0 <==> (is_negative_pattern(a) && magnitude(a) > 0),
        order_key(a) == order_key(b) ==> (a == b || (magnitude(a) == 0 && magnitude(b) == 0)),
{
}

} // verus!
