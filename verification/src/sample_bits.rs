//! Samples as IEEE-754 `binary64` bit patterns.
//!
//! The library never holds an `f64`: a sample is the `u64` that
//! `f64::to_bits` gives for it. This module states, over those bits, the two
//! facts about floats that the tracker depends on: which patterns are NaN,
//! and the IEEE-754 total order that `f64::total_cmp` implements.
use vstd::prelude::*;

verus! {

/// Sign bit of a `binary64` pattern.
pub const SIGN_BIT: u64 = 0x8000_0000_0000_0000;

/// Pattern of positive infinity: all exponent bits set, zero mantissa.
pub const INFINITY_BITS: u64 = 0x7ff0_0000_0000_0000;

/// `f64::NAN.to_bits()`: the fill sentinel of an empty (or not yet written)
/// ring slot. Recorded samples can never carry it, because NaN samples are
/// rejected before they are stored.
pub const NAN_BITS: u64 = 0x7ff8_0000_0000_0000;

/// The pattern with its sign bit cleared.
pub open spec fn magnitude(bits: u64) -> int {
    if bits >= SIGN_BIT {
        bits - SIGN_BIT
    } else {
        bits as int
    }
}

/// A pattern is NaN exactly when its exponent bits are all set and its
/// mantissa is not zero, whatever its sign.
pub open spec fn is_nan(bits: u64) -> bool {
    magnitude(bits) > INFINITY_BITS
}

/// The position of a pattern in the IEEE-754 total order
/// (`f64::total_cmp`): non-negative patterns keep their integer value,
/// negative ones have their 63 low bits flipped and are read as a
/// two's-complement `i64`.
pub open spec fn total_key(bits: u64) -> int {
    if bits < SIGN_BIT {
        bits as int
    } else {
        SIGN_BIT - 1 - bits
    }
}

/// `a` comes no later than `b` in the IEEE-754 total order.
pub open spec fn key_le(a: u64, b: u64) -> bool {
    total_key(a) <= total_key(b)
}

/// `f64`'s `<=` on the values of two patterns: false when either is NaN;
/// otherwise the total order, except that `-0.0` and `+0.0` are equal.
pub open spec fn float_le(a: u64, b: u64) -> bool {
    &&& !is_nan(a)
    &&& !is_nan(b)
    &&& (magnitude(a) == 0 && magnitude(b) == 0) || key_le(a, b)
}

/// Whether `bits` is a NaN pattern (`f64::is_nan` on the value).
pub fn is_nan_bits(bits: u64) -> (nan: bool)
    ensures
        nan == is_nan(bits),
{
    let magnitude_bits: u64 = if bits >= SIGN_BIT {
        bits - SIGN_BIT
    } else {
        bits
    };
    magnitude_bits > INFINITY_BITS
}

/// The `i64` by which `f64::total_cmp` orders the value whose pattern is
/// `bits`.
pub fn total_order_key(bits: u64) -> (key: i64)
    ensures
        key == total_key(bits),
{
    if bits < SIGN_BIT {
        bits as i64
    } else {
        let low: u64 = bits - SIGN_BIT;
        -1i64 - (low as i64)
    }
}

/// The total order separates every two patterns: distinct patterns have
/// distinct positions, so sorting by it leaves no ties.
pub proof fn lemma_total_key_injective(a: u64, b: u64)
    ensures
        total_key(a) == total_key(b) <==> a == b,
{
}

} // verus!
