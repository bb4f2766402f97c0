//! Single-precision numbers read as bit patterns.
//!
//! A single-precision number has a sign bit, eight exponent bits and 23
//! fraction bits. Without the sign bit the pattern is the magnitude of the
//! number, and magnitudes order as absolute values do. This module states
//! that reading, so that signs and orders of such numbers can be told from
//! whole numbers alone.

use vstd::prelude::*;
use vstd::arithmetic::power2::{lemma_pow2_pos, lemma_pow2_strictly_increases, lemma_pow2_unfold, pow2};

verus! {

/// The magnitude of infinity. The greater magnitudes encode no number.
pub const INFINITY_BITS: u32 = 0x7f80_0000;

/// The bit pattern without its sign bit.
pub open spec fn magnitude_bits(bits: u32) -> u32 {
    bits & 0x7fff_ffff
}

/// Whether the sign bit is set.
pub open spec fn sign_bit(bits: u32) -> bool {
    bits & 0x8000_0000 != 0
}

/// Whether the pattern encodes a number, finite or infinite.
pub open spec fn is_number(bits: u32) -> bool {
    magnitude_bits(bits) <= INFINITY_BITS
}

/// The eight exponent bits.
pub open spec fn exponent_field(bits: u32) -> u32 {
    (bits >> 23) & 0xff
}

/// The 23 fraction bits.
pub open spec fn fraction_field(bits: u32) -> u32 {
    bits & 0x007f_ffff
}

/// The absolute value of the encoded number, in units of the least
/// positive number, two to the power of -149. With exponent bits 0 the
/// fraction counts these units; else the fraction, with a leading one before
/// it, counts units that double with each step of the exponent. Infinity
/// stands as the number one exponent step beyond the greatest finite ones.
pub open spec fn scaled_magnitude(bits: u32) -> int {
    if exponent_field(bits) == 0 {
        fraction_field(bits) as int
    } else {
        (0x80_0000 + fraction_field(bits)) * pow2((exponent_field(bits) - 1) as nat)
    }
}

/// The encoded number, in units of the least positive number.
pub open spec fn scaled_value(bits: u32) -> int {
    if sign_bit(bits) {
        -scaled_magnitude(bits)
    } else {
        scaled_magnitude(bits)
    }
}

/// The magnitude is the exponent bits followed by the fraction bits.
pub proof fn lemma_magnitude_fields(bits: u32)
    ensures
        magnitude_bits(bits) == exponent_field(bits) * 0x80_0000 + fraction_field(bits),
        exponent_field(bits) <= 255,
        fraction_field(bits) < 0x80_0000,
        exponent_field(bits) == exponent_field(magnitude_bits(bits)),
        fraction_field(bits) == fraction_field(magnitude_bits(bits)),
{
    assert((bits & 0x7fff_ffff) == ((bits >> 23) & 0xff) * 0x80_0000 + (bits & 0x007f_ffff))
        by (bit_vector);
    assert(((bits >> 23) & 0xff) <= 255) by (bit_vector);
    assert((bits & 0x007f_ffff) < 0x80_0000) by (bit_vector);
    assert(((bits >> 23) & 0xff) == (((bits & 0x7fff_ffff) >> 23) & 0xff)) by (bit_vector);
    assert((bits & 0x007f_ffff) == ((bits & 0x7fff_ffff) & 0x007f_ffff)) by (bit_vector);
}

/// A product with a positive factor grows with the other factor.
proof fn lemma_scale_grows(x: int, y: int, p: int)
    by (nonlinear_arith)
    requires
        x < y,
        p > 0,
    ensures
        x * p < y * p,
{
}

/// A product with a nonnegative factor does not shrink when the other
/// factor grows.
proof fn lemma_scale_does_not_shrink(x: int, p: int, q: int)
    by (nonlinear_arith)
    requires
        p <= q,
        x >= 0,
    ensures
        x * p <= x * q,
{
}

/// Magnitudes order as absolute values do: the pattern with the smaller
/// magnitude encodes the number with the smaller absolute value.
pub proof fn lemma_magnitudes_order_as_values(a: u32, b: u32)
    requires
        magnitude_bits(a) < magnitude_bits(b),
    ensures
        scaled_magnitude(a) < scaled_magnitude(b),
{
    lemma_magnitude_fields(a);
    lemma_magnitude_fields(b);
    let ea = exponent_field(a) as nat;
    let eb = exponent_field(b) as nat;
    let fa = fraction_field(a) as int;
    let fb = fraction_field(b) as int;
    assert(ea <= eb);
    if ea == eb {
        assert(fa < fb);
        if ea > 0 {
            let p = pow2((ea - 1) as nat) as int;
            lemma_pow2_pos((ea - 1) as nat);
            lemma_scale_grows(0x80_0000 + fa, 0x80_0000 + fb, p);
        }
    } else {
        // below the least value of the next exponent step
        assert(scaled_magnitude(a) < 0x80_0000 * pow2(ea)) by {
            if ea == 0 {
                assert(pow2(0) == 1) by {
                    lemma_pow2_unfold(1);
                    lemma_pow2_pos(0);
                    vstd::arithmetic::power2::lemma2_to64();
                }
            } else {
                let p = pow2((ea - 1) as nat) as int;
                lemma_pow2_pos((ea - 1) as nat);
                lemma_pow2_unfold(ea);
                lemma_scale_grows(0x80_0000 + fa, 0x100_0000, p);
                assert(0x100_0000 * p == 0x80_0000 * (2 * p)) by (nonlinear_arith);
            }
        }
        // which is no greater than the least value of any later step
        let q = pow2((eb - 1) as nat) as int;
        lemma_pow2_pos((eb - 1) as nat);
        assert(pow2(ea) <= q) by {
            if ea < eb - 1 {
                lemma_pow2_strictly_increases(ea, (eb - 1) as nat);
            }
        }
        lemma_scale_does_not_shrink(0x80_0000, pow2(ea) as int, q);
        assert(0x80_0000 * q <= scaled_magnitude(b)) by {
            assert(scaled_magnitude(b) == (0x80_0000 + fb) * q);
            if fb > 0 {
                lemma_scale_grows(0x80_0000, 0x80_0000 + fb, q);
            }
        }
    }
}

/// No absolute value is negative, and only the magnitude 0 encodes an
/// absolute value of 0.
pub proof fn lemma_zero_magnitude(bits: u32)
    ensures
        scaled_magnitude(bits) >= 0,
        scaled_magnitude(bits) == 0 <==> magnitude_bits(bits) == 0,
{
    lemma_magnitude_fields(bits);
    if magnitude_bits(bits) > 0 {
        let zero: u32 = 0;
        assert(magnitude_bits(zero) == 0) by (bit_vector)
            requires
                zero == 0,
        ;
        assert(exponent_field(zero) == 0 && fraction_field(zero) == 0) by (bit_vector)
            requires
                zero == 0,
        ;
        lemma_magnitudes_order_as_values(zero, bits);
    }
}

/// Patterns with equal magnitudes encode numbers of equal absolute value.
pub proof fn lemma_equal_magnitudes(a: u32, b: u32)
    requires
        magnitude_bits(a) == magnitude_bits(b),
    ensures
        scaled_magnitude(a) == scaled_magnitude(b),
{
    lemma_magnitude_fields(a);
    lemma_magnitude_fields(b);
}

} // verus!
