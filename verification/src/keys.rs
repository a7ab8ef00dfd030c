//! Integer keys that stand for measured numbers.
//!
//! The library compares distances and coordinates but never computes with
//! them, so it holds each number as an unsigned key that is ordered as the
//! numbers are. A caller that measures in binary64 gets the key from the
//! number's bit pattern: one sign bit, then eleven bits of exponent and
//! fifty-two of fraction, which together form the magnitude. Of two numbers
//! of the same sign the one with the larger magnitude bits is the larger in
//! absolute value, and a pattern whose magnitude bits exceed those of
//! infinity is not a number.

use vstd::prelude::*;

verus! {

/// The sign bit of a bit pattern. It is also the key of zero.
pub const SIGN: u64 = 0x8000_0000_0000_0000;

/// The bits of a pattern that hold the magnitude.
pub const MAGNITUDE: u64 = 0x7fff_ffff_ffff_ffff;

/// The magnitude bits of infinity. Larger magnitude bits are not a number.
pub const INFINITE: u64 = 0x7ff0_0000_0000_0000;

/// The bit pattern of the largest finite number.
pub const LARGEST_FINITE: u64 = 0x7fef_ffff_ffff_ffff;

/// The magnitude bits of a pattern.
pub open spec fn magnitude_of(bits: u64) -> u64 {
    bits & MAGNITUDE
}

/// The sign bit of the pattern is set.
pub open spec fn is_negative(bits: u64) -> bool {
    bits & SIGN != 0
}

/// The pattern is a number: finite or infinite, but not a NaN.
pub open spec fn is_number(bits: u64) -> bool {
    magnitude_of(bits) <= INFINITE
}

/// The magnitude bits with the sign of the pattern. Numbers are ordered as
/// their signed magnitudes are; both zeros have the signed magnitude 0.
pub open spec fn signed_magnitude(bits: u64) -> int {
    if is_negative(bits) {
        -(magnitude_of(bits) as int)
    } else {
        magnitude_of(bits) as int
    }
}

/// The key of a distance that is given by its bit pattern: the pattern
/// itself where the number is finite and not negative, and none where it is
/// a NaN, an infinity or negative. Such a distance is degenerate.
pub fn distance_key(bits: u64) -> (key: Option<u64>)
    ensures
        bits <= LARGEST_FINITE ==> key == Some(bits),
        bits > LARGEST_FINITE ==> key is None,
{
    if bits <= LARGEST_FINITE {
        Some(bits)
    } else {
        None
    }
}

/// The order key of a number: its signed magnitude moved up by the key of zero.
pub open spec fn order_key_of(bits: u64) -> int {
    SIGN + signed_magnitude(bits)
}

/// The key of a coordinate that is given by its bit pattern: the signed
/// magnitude moved up by the key of zero, so that keys are ordered as the
/// numbers are and the two zeros share a key. A NaN has no key.
pub fn order_key(bits: u64) -> (key: Option<u64>)
    ensures
        is_number(bits) ==> key is Some && key->Some_0 == order_key_of(bits),
        !is_number(bits) ==> key is None,
{
    let magnitude: u64 = bits & MAGNITUDE;
    assert(bits & MAGNITUDE <= MAGNITUDE) by (bit_vector);
    if magnitude > INFINITE {
        None
    } else if bits & SIGN != 0 {
        Some(SIGN - magnitude)
    } else {
        Some(SIGN + magnitude)
    }
}

/// Distance keys are ordered as the distances are: of two distances that
/// have a key, the one with the lesser signed magnitude has the lesser key.
pub proof fn lemma_distance_keys_follow_the_order(a: u64, b: u64)
    requires
        a <= LARGEST_FINITE,
        b <= LARGEST_FINITE,
    ensures
        is_number(a) && !is_negative(a),
        is_number(b) && !is_negative(b),
        a < b <==> signed_magnitude(a) < signed_magnitude(b),
{
    assert(a <= LARGEST_FINITE ==> a & MAGNITUDE == a && a & SIGN == 0) by (bit_vector);
    assert(b <= LARGEST_FINITE ==> b & MAGNITUDE == b && b & SIGN == 0) by (bit_vector);
}

/// Order keys fit their sixty-four bits and are ordered as the numbers are:
/// of two numbers, the one with the lesser signed magnitude has the lesser
/// key, and the keys are equal exactly where the signed magnitudes are. Both
/// zeros have the key `SIGN`.
pub proof fn lemma_order_keys_follow_the_order(a: u64, b: u64)
    requires
        is_number(a),
        is_number(b),
    ensures
        0 <= order_key_of(a) <= u64::MAX,
        order_key_of(a) < order_key_of(b) <==> signed_magnitude(a) < signed_magnitude(b),
        order_key_of(a) == order_key_of(b) <==> signed_magnitude(a) == signed_magnitude(b),
        magnitude_of(a) == 0 ==> order_key_of(a) == SIGN,
{
    assert(a & MAGNITUDE <= MAGNITUDE) by (bit_vector);
}

} // verus!
