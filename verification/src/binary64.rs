//! IEEE 754 binary64 values, held as their 64-bit encodings.
//!
//! Every date, velocity and step of the search is a binary64 value. The
//! library carries each one as the `u64` that encodes it (sign bit, 11
//! exponent bits, 52 fraction bits) and decides with integer logic what the
//! IEEE comparisons decide on the values themselves: for two values that are
//! not NaN, `a <= b` holds exactly when the signed magnitude of `a` is at most
//! that of `b`, where the magnitude is the encoding without its sign bit and
//! both zeros have magnitude 0. A comparison with a NaN is false.
use vstd::prelude::*;

verus! {

/// The sign bit of an encoding.
pub const SIGN_BIT: u64 = 0x8000_0000_0000_0000;

/// The magnitude of positive infinity; larger magnitudes are NaNs.
pub const INFINITY_MAGNITUDE: u64 = 0x7FF0_0000_0000_0000;

/// Whether the sign bit is set (negative numbers, `-0.0`, negative NaNs).
pub open spec fn sign_bit(b: u64) -> bool {
    b >= SIGN_BIT
}

/// The encoding with its sign bit cleared: the bits of `|x|`.
pub open spec fn magnitude(b: u64) -> nat {
    (b % SIGN_BIT) as nat
}

/// All exponent bits set and a nonzero fraction.
pub open spec fn is_nan(b: u64) -> bool {
    magnitude(b) > INFINITY_MAGNITUDE
}

/// Neither an infinity nor a NaN.
pub open spec fn is_finite(b: u64) -> bool {
    magnitude(b) < INFINITY_MAGNITUDE
}

/// `+0.0` or `-0.0`.
pub open spec fn is_zero(b: u64) -> bool {
    magnitude(b) == 0
}

/// The position of a value that is not NaN on the number line: the signed
/// magnitude. Both zeros sit at 0.
pub open spec fn order_key(b: u64) -> int {
    if sign_bit(b) {
        -(magnitude(b) as int)
    } else {
        magnitude(b) as int
    }
}

/// The IEEE comparison `a <= b`.
pub open spec fn value_le(a: u64, b: u64) -> bool {
    !is_nan(a) && !is_nan(b) && order_key(a) <= order_key(b)
}

/// The IEEE comparison `a < b`.
pub open spec fn value_lt(a: u64, b: u64) -> bool {
    !is_nan(a) && !is_nan(b) && order_key(a) < order_key(b)
}

/// The encoding of `|x|`.
pub open spec fn abs_bits(b: u64) -> u64 {
    (b % SIGN_BIT) as u64
}

/// The larger of two values; a NaN gives way to the other argument, and of
/// two equal values (`-0.0` and `+0.0`) the first is kept.
pub open spec fn max_value(a: u64, b: u64) -> u64 {
    if is_nan(a) {
        b
    } else if is_nan(b) {
        a
    } else if order_key(a) < order_key(b) {
        b
    } else {
        a
    }
}

/// The encoding of `-x`: the sign bit flipped.
pub open spec fn negated(b: u64) -> u64 {
    if b >= SIGN_BIT {
        (b - SIGN_BIT) as u64
    } else {
        (b + SIGN_BIT) as u64
    }
}

/// Both values are nonzero and carry the same sign bit.
pub open spec fn same_sign_spec(a: u64, b: u64) -> bool {
    !is_zero(a) && !is_zero(b) && sign_bit(a) == sign_bit(b)
}

/// Returns whether the value is finite (neither infinite nor NaN).
pub fn is_finite_bits(b: u64) -> (r: bool)
    ensures
        r == is_finite(b),
{
    b % SIGN_BIT < INFINITY_MAGNITUDE
}

/// Returns whether the value is a NaN.
pub fn is_nan_bits(b: u64) -> (r: bool)
    ensures
        r == is_nan(b),
{
    b % SIGN_BIT > INFINITY_MAGNITUDE
}

/// The IEEE comparison `a <= b` on encodings.
pub fn le(a: u64, b: u64) -> (r: bool)
    ensures
        r == value_le(a, b),
{
    if is_nan_bits(a) || is_nan_bits(b) {
        return false;
    }
    let ma = a % SIGN_BIT;
    let mb = b % SIGN_BIT;
    let na = a >= SIGN_BIT;
    let nb = b >= SIGN_BIT;
    if !na && !nb {
        ma <= mb
    } else if na && !nb {
        true
    } else if !na && nb {
        ma == 0 && mb == 0
    } else {
        mb <= ma
    }
}

/// The IEEE comparison `a < b` on encodings.
pub fn lt(a: u64, b: u64) -> (r: bool)
    ensures
        r == value_lt(a, b),
{
    if is_nan_bits(a) || is_nan_bits(b) {
        return false;
    }
    !le(b, a)
}

/// The larger of two values, as `max_value` describes.
pub fn max(a: u64, b: u64) -> (r: u64)
    ensures
        r == max_value(a, b),
{
    if is_nan_bits(a) {
        b
    } else if is_nan_bits(b) {
        a
    } else if lt(a, b) {
        b
    } else {
        a
    }
}

/// The encoding of `|x|`: the sign bit cleared.
pub fn abs(b: u64) -> (r: u64)
    ensures
        r == abs_bits(b),
{
    b % SIGN_BIT
}

/// Returns `true` when both values are nonzero and have the same sign bit.
/// `+0.0` and `-0.0` have no sign here: a zero on either side gives `false`.
pub fn f64_same_sign(a_bits: u64, b_bits: u64) -> (r: bool)
    ensures
        r == same_sign_spec(a_bits, b_bits),
{
    proof {
        assert((a_bits << 1u64 == 0u64) == (a_bits % 0x8000_0000_0000_0000u64 == 0u64))
            by (bit_vector);
        assert((b_bits << 1u64 == 0u64) == (b_bits % 0x8000_0000_0000_0000u64 == 0u64))
            by (bit_vector);
        assert((((a_bits ^ b_bits) >> 63u64) == 0u64) == ((a_bits >= 0x8000_0000_0000_0000u64)
            == (b_bits >= 0x8000_0000_0000_0000u64))) by (bit_vector);
    }
    if a_bits << 1 == 0 || b_bits << 1 == 0 {
        return false;
    }
    (a_bits ^ b_bits) >> 63 == 0
}

/// The comparison `<=` on values that are not NaN is a total preorder whose
/// only ties are between `-0.0` and `+0.0`: it is reflexive and transitive,
/// any two such values compare one way or the other, and `a <= b <= a` holds
/// only for equal encodings or the two zeros.
pub proof fn lemma_value_order(a: u64, b: u64, c: u64)
    requires
        !is_nan(a),
        !is_nan(b),
        !is_nan(c),
    ensures
        value_le(a, a),
        value_le(a, b) && value_le(b, c) ==> value_le(a, c),
        value_le(a, b) || value_le(b, a),
        value_lt(a, b) <==> !value_le(b, a),
        value_le(a, b) && value_le(b, a) ==> (a == b || (is_zero(a) && is_zero(b))),
{
    if value_le(a, b) && value_le(b, a) {
        if sign_bit(a) == sign_bit(b) {
            assert(magnitude(a) == magnitude(b));
            assert(a == b);
        }
    }
}

} // verus!
