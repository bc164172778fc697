//! `mul_to_int` for binary32 values, with a 64-bit signed result.
use vstd::arithmetic::power2::{lemma2_to64, lemma2_to64_rest, lemma_pow2_adds, lemma_pow2_pos, pow2};
use vstd::arithmetic::mul::lemma_mul_is_associative;
use vstd::bits::lemma_u64_shr_is_div;
use vstd::prelude::*;

use crate::model::{
    aligned, bit_len, exact_trunc_product, lead_exponent, lemma_aligned_product,
    lemma_bit_len_at_most, lemma_bit_len_unique,
    lemma_lead_sum_below_minus_one, lemma_shifted_is_aligned, lemma_sign_flip, lemma_zero_operand,
    mul_to_int_spec, negate_result, trunc_magnitude,
};
use crate::{FloatMulToInt, Overflow};

verus! {

/// Mask of the sign bit of an `i64` held in a `u64`.
const SIGN_MASK_64: u64 = 0x8000_0000_0000_0000;

/// A binary32 (`f32`) value, held as its IEEE 754 bit pattern.
#[derive(Debug, Clone, Copy, PartialEq, Eq, Structural)]
pub struct Float32 {
    pub bits: u32,
}

impl Float32 {
    /// The 8-bit biased exponent field.
    pub open spec fn exponent_field(self) -> u32 {
        (self.bits >> 23) & 0xff
    }

    /// The 23-bit fraction field.
    pub open spec fn fraction_field(self) -> u32 {
        self.bits & 0x7f_ffff
    }

    /// The sign bit is set.
    pub open spec fn negative(self) -> bool {
        (self.bits >> 31) == 1
    }

    /// Integer mantissa: the fraction with the implicit leading bit of a
    /// normal value; the fraction alone for zero and subnormal values.
    pub open spec fn mantissa(self) -> nat {
        if self.exponent_field() == 0 {
            self.fraction_field() as nat
        } else {
            (self.fraction_field() + 0x80_0000) as nat
        }
    }

    /// Exponent of the mantissa's last bit: a finite value is
    /// `(-1)^negative * mantissa * 2^exponent`.
    pub open spec fn exponent(self) -> int {
        if self.exponent_field() == 0 {
            -149
        } else {
            self.exponent_field() - 150
        }
    }

    /// The value is +0.0 or -0.0.
    pub open spec fn is_zero(self) -> bool {
        self.exponent_field() == 0 && self.fraction_field() == 0
    }

    /// The value with its sign flipped.
    pub open spec fn negated(self) -> Float32 {
        Float32 { bits: self.bits ^ 0x8000_0000 }
    }

    pub fn from_bits(bits: u32) -> (r: Float32)
        ensures
            r.bits == bits,
    {
        Float32 { bits }
    }

    pub fn to_bits(self) -> (r: u32)
        ensures
            r == self.bits,
    {
        self.bits
    }

    /// The value is neither infinite nor NaN.
    pub fn is_finite(self) -> (r: bool)
        ensures
            r == self.finite(),
    {
        (self.bits >> 23) & 0xff != 0xff
    }
}

/// What `mul_to_int` returns for two binary32 values.
pub open spec fn mul_to_int_f32_spec(a: Float32, b: Float32) -> Result<int, Overflow> {
    mul_to_int_spec(
        a.negative(),
        a.mantissa(),
        a.exponent(),
        b.negative(),
        b.mantissa(),
        b.exponent(),
        64,
    )
}

/// The exact product of two binary32 values, truncated toward zero.
pub open spec fn exact_product_f32(a: Float32, b: Float32) -> int {
    exact_trunc_product(
        a.negative(),
        a.mantissa(),
        a.exponent(),
        b.negative(),
        b.mantissa(),
        b.exponent(),
    )
}

/// A binary32 value split into sign, exponent of the leading bit, and
/// significand left-aligned in 32 bits (top bit set unless the value is zero).
struct Decomposed32 {
    sign: bool,
    exponent: i32,
    significand: u32,
}

fn decompose_f32(value: Float32) -> (d: Decomposed32)
    requires
        value.finite(),
    ensures
        -149 <= d.exponent <= 127,
        value.mantissa() == 0 ==> d.sign == false && d.exponent == 0 && d.significand == 0,
        value.mantissa() > 0 ==> {
            &&& d.sign == value.negative()
            &&& bit_len(value.mantissa()) <= 32
            &&& d.exponent == lead_exponent(value.mantissa(), value.exponent())
            &&& d.significand == aligned(value.mantissa(), 32)
            &&& d.significand >= 0x8000_0000
        },
{
    let raw = value.bits;
    let exponent_field: u32 = (raw >> 23) & 0xff;
    let fraction: u32 = raw & 0x7f_ffff;
    assert(fraction < 0x80_0000 && exponent_field < 0x100) by (bit_vector)
        requires
            fraction == raw & 0x7f_ffff,
            exponent_field == (raw >> 23) & 0xff,
    ;
    let sign = (raw >> 31) == 1;
    proof {
        lemma2_to64();
    }
    if exponent_field == 0 && fraction == 0 {
        Decomposed32 { sign: false, exponent: 0, significand: 0 }
    } else if exponent_field == 0 {
        // Subnormal: shift the fraction up until its leading bit is the top bit.
        let mut significand: u32 = fraction;
        let mut exponent: i32 = -118;
        let ghost mut k: nat = 0;
        while significand < 0x8000_0000
            invariant
                0 < fraction < 0x80_0000,
                0 < significand,
                significand == fraction * pow2(k),
                pow2(k) <= significand,
                exponent == -118 - k,
                k <= 31,
            decreases 0x1_0000_0000 - significand,
        {
            proof {
                lemma2_to64();
                lemma_pow2_adds(k, 1);
                lemma_mul_is_associative(fraction as int, pow2(k) as int, 2);
            }
            significand = significand * 2;
            exponent = exponent - 1;
            proof {
                k = k + 1;
            }
        }
        proof {
            lemma_shifted_is_aligned(fraction as nat, k, 32);
        }
        Decomposed32 { sign, exponent, significand }
    } else {
        proof {
            lemma_bit_len_unique(value.mantissa(), 24);
        }
        Decomposed32 {
            sign,
            exponent: exponent_field as i32 - 127,
            significand: (fraction + 0x80_0000) * 256,
        }
    }
}

impl FloatMulToInt for Float32 {
    type Output = i64;

    open spec fn finite(&self) -> bool {
        self.exponent_field() != 0xff
    }

    fn mul_to_int(self, other: Float32) -> (r: Result<i64, Overflow>)
        ensures
            r is Ok <==> mul_to_int_f32_spec(self, other) is Ok,
            r matches Ok(v) ==> mul_to_int_f32_spec(self, other) == Ok::<int, Overflow>(v as int),
    {
        let a = decompose_f32(self);
        let b = decompose_f32(other);
        let ghost ma = self.mantissa();
        let ghost mb = other.mantissa();
        let ghost mag = trunc_magnitude(ma * mb, self.exponent() + other.exponent());
        proof {
            lemma2_to64();
            lemma2_to64_rest();
            lemma_pow2_pos(63);
        }
        if a.significand == 0 || b.significand == 0 {
            // A zero operand absorbs the other one.
            proof {
                lemma_zero_operand(ma, mb, self.exponent() + other.exponent());
            }
            return Ok(0);
        }
        proof {
            lemma_aligned_product(ma, self.exponent(), mb, other.exponent(), 32);
        }
        let exponent: i32 = a.exponent + b.exponent;
        if exponent > 62 {
            // The magnitude is at least 2^63.
            Err(Overflow)
        } else if exponent < -1 {
            // The magnitude is below 2^(exponent + 2) <= 1.
            proof {
                lemma_lead_sum_below_minus_one(ma, self.exponent(), mb, other.exponent(), 32);
            }
            Ok(0)
        } else {
            assert(a.significand as u64 * b.significand as u64 <= u64::MAX) by (nonlinear_arith)
                requires
                    a.significand <= u32::MAX,
                    b.significand <= u32::MAX,
            ;
            let significand: u64 = a.significand as u64 * b.significand as u64;
            let shift: u64 = (62 - exponent) as u64;
            let unsigned: u64 = significand >> shift;
            proof {
                lemma_u64_shr_is_div(significand, shift);
                assert(unsigned == mag);
                assert(unsigned & SIGN_MASK_64 != 0 <==> unsigned >= 0x8000_0000_0000_0000u64) by (bit_vector);
                assert(pow2(63) == 0x8000_0000_0000_0000u64);
            }
            if unsigned & SIGN_MASK_64 != 0 {
                // No room left for the sign.
                Err(Overflow)
            } else if a.sign ^ b.sign {
                Ok(-(unsigned as i64))
            } else {
                Ok(unsigned as i64)
            }
        }
    }
}

/// The mantissa of a binary32 value has at most 24 bits, and is 0 only for zero.
proof fn lemma_mantissa_f32(x: Float32)
    ensures
        bit_len(x.mantissa()) <= 24,
        x.is_zero() <==> x.mantissa() == 0,
{
    let bits = x.bits;
    assert(bits & 0x7f_ffff < 0x80_0000) by (bit_vector);
    lemma2_to64();
    lemma_bit_len_at_most(x.mantissa(), 24);
}

/// Flipping the sign bit keeps the exponent and fraction fields.
proof fn lemma_negated_f32(x: Float32)
    ensures
        x.negated().exponent_field() == x.exponent_field(),
        x.negated().fraction_field() == x.fraction_field(),
        x.negated().negative() == !x.negative(),
{
    let b = x.bits;
    assert(((b ^ 0x8000_0000) >> 23) & 0xff == (b >> 23) & 0xff && (b ^ 0x8000_0000) & 0x7f_ffff
        == b & 0x7f_ffff && (((b ^ 0x8000_0000) >> 31) == 1) == !((b >> 31) == 1)) by (bit_vector);
}

/// Sign law: flipping the sign of either operand negates the result, flipping
/// both leaves it unchanged, and an overflow stays an overflow.
pub proof fn law_sign_f32(a: Float32, b: Float32)
    requires
        a.finite(),
        b.finite(),
    ensures
        a.negated().finite(),
        b.negated().finite(),
        mul_to_int_f32_spec(a.negated(), b) == negate_result(mul_to_int_f32_spec(a, b)),
        mul_to_int_f32_spec(a, b.negated()) == negate_result(mul_to_int_f32_spec(a, b)),
        mul_to_int_f32_spec(a.negated(), b.negated()) == mul_to_int_f32_spec(a, b),
{
    lemma_negated_f32(a);
    lemma_negated_f32(b);
    lemma_sign_flip(a.negative(), a.mantissa(), a.exponent(), b.negative(), b.mantissa(), b.exponent(), 64);
    lemma_sign_flip(!a.negative(), a.mantissa(), a.exponent(), b.negative(), b.mantissa(), b.exponent(), 64);
}

/// Zero absorption: zero (of either sign) times any finite value gives 0,
/// in either order.
pub proof fn law_zero_f32(z: Float32, x: Float32)
    requires
        z.finite(),
        x.finite(),
        z.is_zero(),
    ensures
        mul_to_int_f32_spec(z, x) == Ok::<int, Overflow>(0),
        mul_to_int_f32_spec(x, z) == Ok::<int, Overflow>(0),
{
    lemma_mantissa_f32(z);
    lemma_zero_operand(z.mantissa(), x.mantissa(), z.exponent() + x.exponent());
    lemma_zero_operand(x.mantissa(), z.mantissa(), x.exponent() + z.exponent());
    lemma_pow2_pos(63);
}

/// Exactness: whenever the exact product truncated toward zero lies strictly
/// between -2^63 and 2^63, that integer is the result.
pub proof fn law_exact_f32(a: Float32, b: Float32)
    requires
        a.finite(),
        b.finite(),
        -pow2(63) < exact_product_f32(a, b) < pow2(63),
    ensures
        mul_to_int_f32_spec(a, b) == Ok::<int, Overflow>(exact_product_f32(a, b)),
{
}

/// Overflow boundary: the result is an overflow exactly when the exact
/// truncated product is at most -2^63 or at least 2^63.
pub proof fn law_overflow_boundary_f32(a: Float32, b: Float32)
    requires
        a.finite(),
        b.finite(),
    ensures
        mul_to_int_f32_spec(a, b) is Err <==> (exact_product_f32(a, b) <= -pow2(63)
            || exact_product_f32(a, b) >= pow2(63)),
{
}

} // verus!
