//! `mul_to_int` for binary64 values, with a 128-bit signed result.
use vstd::arithmetic::power2::{lemma2_to64, lemma2_to64_rest, lemma_pow2_adds, lemma_pow2_pos, pow2};
use vstd::arithmetic::mul::lemma_mul_is_associative;
use vstd::bits::lemma_u128_shr_is_div;
use vstd::prelude::*;

use crate::model::{
    aligned, bit_len, exact_trunc_product, lead_exponent, lemma_aligned_product,
    lemma_bit_len_at_most, lemma_bit_len_unique,
    lemma_lead_sum_below_minus_one, lemma_shifted_is_aligned, lemma_sign_flip, lemma_zero_operand,
    mul_to_int_spec, negate_result, trunc_magnitude,
};
use crate::{FloatMulToInt, Overflow};

verus! {

/// Mask of the sign bit of an `i128` held in a `u128`.
const SIGN_MASK_128: u128 = 0x8000_0000_0000_0000_0000_0000_0000_0000;

/// A binary64 (`f64`) value, held as its IEEE 754 bit pattern.
#[derive(Debug, Clone, Copy, PartialEq, Eq, Structural)]
pub struct Float64 {
    pub bits: u64,
}

impl Float64 {
    /// The 11-bit biased exponent field.
    pub open spec fn exponent_field(self) -> u64 {
        (self.bits >> 52) & 0x7ff
    }

    /// The 52-bit fraction field.
    pub open spec fn fraction_field(self) -> u64 {
        self.bits & 0xf_ffff_ffff_ffff
    }

    /// The sign bit is set.
    pub open spec fn negative(self) -> bool {
        (self.bits >> 63) == 1
    }

    /// Integer mantissa: the fraction with the implicit leading bit of a
    /// normal value; the fraction alone for zero and subnormal values.
    pub open spec fn mantissa(self) -> nat {
        if self.exponent_field() == 0 {
            self.fraction_field() as nat
        } else {
            (self.fraction_field() + 0x10_0000_0000_0000) as nat
        }
    }

    /// Exponent of the mantissa's last bit: a finite value is
    /// `(-1)^negative * mantissa * 2^exponent`.
    pub open spec fn exponent(self) -> int {
        if self.exponent_field() == 0 {
            -1074
        } else {
            self.exponent_field() - 1075
        }
    }

    /// The value is +0.0 or -0.0.
    pub open spec fn is_zero(self) -> bool {
        self.exponent_field() == 0 && self.fraction_field() == 0
    }

    /// The value with its sign flipped.
    pub open spec fn negated(self) -> Float64 {
        Float64 { bits: self.bits ^ 0x8000_0000_0000_0000 }
    }

    pub fn from_bits(bits: u64) -> (r: Float64)
        ensures
            r.bits == bits,
    {
        Float64 { bits }
    }

    pub fn to_bits(self) -> (r: u64)
        ensures
            r == self.bits,
    {
        self.bits
    }

    /// The value is neither infinite nor NaN.
    pub fn is_finite(self) -> (r: bool)
        ensures
            r == self.finite(),
    {
        (self.bits >> 52) & 0x7ff != 0x7ff
    }
}

/// What `mul_to_int` returns for two binary64 values.
pub open spec fn mul_to_int_f64_spec(a: Float64, b: Float64) -> Result<int, Overflow> {
    mul_to_int_spec(
        a.negative(),
        a.mantissa(),
        a.exponent(),
        b.negative(),
        b.mantissa(),
        b.exponent(),
        128,
    )
}

/// The exact product of two binary64 values, truncated toward zero.
pub open spec fn exact_product_f64(a: Float64, b: Float64) -> int {
    exact_trunc_product(
        a.negative(),
        a.mantissa(),
        a.exponent(),
        b.negative(),
        b.mantissa(),
        b.exponent(),
    )
}

/// A binary64 value split into sign, exponent of the leading bit, and
/// significand left-aligned in 64 bits (top bit set unless the value is zero).
struct Decomposed64 {
    sign: bool,
    exponent: i32,
    significand: u64,
}

fn decompose_f64(value: Float64) -> (d: Decomposed64)
    requires
        value.finite(),
    ensures
        -1074 <= d.exponent <= 1023,
        value.mantissa() == 0 ==> d.sign == false && d.exponent == 0 && d.significand == 0,
        value.mantissa() > 0 ==> {
            &&& d.sign == value.negative()
            &&& bit_len(value.mantissa()) <= 64
            &&& d.exponent == lead_exponent(value.mantissa(), value.exponent())
            &&& d.significand == aligned(value.mantissa(), 64)
            &&& d.significand >= 0x8000_0000_0000_0000
        },
{
    let raw = value.bits;
    let exponent_field: u64 = (raw >> 52) & 0x7ff;
    let fraction: u64 = raw & 0xf_ffff_ffff_ffff;
    assert(fraction < 0x10_0000_0000_0000 && exponent_field < 0x800) by (bit_vector)
        requires
            fraction == raw & 0xf_ffff_ffff_ffff,
            exponent_field == (raw >> 52) & 0x7ff,
    ;
    let sign = (raw >> 63) == 1;
    proof {
        lemma2_to64();
        lemma2_to64_rest();
    }
    if exponent_field == 0 && fraction == 0 {
        Decomposed64 { sign: false, exponent: 0, significand: 0 }
    } else if exponent_field == 0 {
        // Subnormal: shift the fraction up until its leading bit is the top bit.
        let mut significand: u64 = fraction;
        let mut exponent: i32 = -1011;
        let ghost mut k: nat = 0;
        while significand < 0x8000_0000_0000_0000
            invariant
                0 < fraction < 0x10_0000_0000_0000,
                0 < significand,
                significand == fraction * pow2(k),
                pow2(k) <= significand,
                exponent == -1011 - k,
                k <= 63,
            decreases 0x1_0000_0000_0000_0000 - significand,
        {
            proof {
                lemma2_to64();
                lemma_pow2_adds(k, 1);
                lemma_mul_is_associative(fraction as int, pow2(k) as int, 2);
            }
            significand = significand * 2;
            exponent = exponent - 1;
            proof {
                k = k + 1;
            }
        }
        proof {
            lemma_shifted_is_aligned(fraction as nat, k, 64);
        }
        Decomposed64 { sign, exponent, significand }
    } else {
        proof {
            lemma_bit_len_unique(value.mantissa(), 53);
        }
        Decomposed64 {
            sign,
            exponent: exponent_field as i32 - 1023,
            significand: (fraction + 0x10_0000_0000_0000) * 2048,
        }
    }
}

impl FloatMulToInt for Float64 {
    type Output = i128;

    open spec fn finite(&self) -> bool {
        self.exponent_field() != 0x7ff
    }

    fn mul_to_int(self, other: Float64) -> (r: Result<i128, Overflow>)
        ensures
            r is Ok <==> mul_to_int_f64_spec(self, other) is Ok,
            r matches Ok(v) ==> mul_to_int_f64_spec(self, other) == Ok::<int, Overflow>(v as int),
    {
        let a = decompose_f64(self);
        let b = decompose_f64(other);
        let ghost ma = self.mantissa();
        let ghost mb = other.mantissa();
        let ghost mag = trunc_magnitude(ma * mb, self.exponent() + other.exponent());
        proof {
            lemma2_to64();
            lemma2_to64_rest();
            lemma_pow2_pos(127);
        }
        if a.significand == 0 || b.significand == 0 {
            // A zero operand absorbs the other one.
            proof {
                lemma_zero_operand(ma, mb, self.exponent() + other.exponent());
            }
            return Ok(0);
        }
        proof {
            lemma_aligned_product(ma, self.exponent(), mb, other.exponent(), 64);
        }
        let exponent: i32 = a.exponent + b.exponent;
        if exponent > 126 {
            // The magnitude is at least 2^127.
            Err(Overflow)
        } else if exponent < -1 {
            // The magnitude is below 2^(exponent + 2) <= 1.
            proof {
                lemma_lead_sum_below_minus_one(ma, self.exponent(), mb, other.exponent(), 64);
            }
            Ok(0)
        } else {
            assert(a.significand as u128 * b.significand as u128 <= u128::MAX) by (nonlinear_arith)
                requires
                    a.significand <= u64::MAX,
                    b.significand <= u64::MAX,
            ;
            let significand: u128 = a.significand as u128 * b.significand as u128;
            let shift: u128 = (126 - exponent) as u128;
            let unsigned: u128 = significand >> shift;
            proof {
                lemma_u128_shr_is_div(significand, shift);
                assert(unsigned == mag);
                assert(unsigned & SIGN_MASK_128 != 0 <==> unsigned >= 0x8000_0000_0000_0000_0000_0000_0000_0000u128) by (bit_vector);
                lemma_pow2_adds(63, 64);
                    assert(pow2(127) == 0x8000_0000_0000_0000_0000_0000_0000_0000u128);
            }
            if unsigned & SIGN_MASK_128 != 0 {
                // No room left for the sign.
                Err(Overflow)
            } else if a.sign ^ b.sign {
                Ok(-(unsigned as i128))
            } else {
                Ok(unsigned as i128)
            }
        }
    }
}

/// The mantissa of a binary64 value has at most 53 bits, and is 0 only for zero.
proof fn lemma_mantissa_f64(x: Float64)
    ensures
        bit_len(x.mantissa()) <= 53,
        x.is_zero() <==> x.mantissa() == 0,
{
    let bits = x.bits;
    assert(bits & 0xf_ffff_ffff_ffff < 0x10_0000_0000_0000) by (bit_vector);
    lemma2_to64();
    lemma2_to64_rest();
    lemma_bit_len_at_most(x.mantissa(), 53);
}

/// Flipping the sign bit keeps the exponent and fraction fields.
proof fn lemma_negated_f64(x: Float64)
    ensures
        x.negated().exponent_field() == x.exponent_field(),
        x.negated().fraction_field() == x.fraction_field(),
        x.negated().negative() == !x.negative(),
{
    let b = x.bits;
    assert(((b ^ 0x8000_0000_0000_0000) >> 52) & 0x7ff == (b >> 52) & 0x7ff && (b
        ^ 0x8000_0000_0000_0000) & 0xf_ffff_ffff_ffff == b & 0xf_ffff_ffff_ffff && (((b
        ^ 0x8000_0000_0000_0000) >> 63) == 1) == !((b >> 63) == 1)) by (bit_vector);
}

/// Sign law: flipping the sign of either operand negates the result, flipping
/// both leaves it unchanged, and an overflow stays an overflow.
pub proof fn law_sign_f64(a: Float64, b: Float64)
    requires
        a.finite(),
        b.finite(),
    ensures
        a.negated().finite(),
        b.negated().finite(),
        mul_to_int_f64_spec(a.negated(), b) == negate_result(mul_to_int_f64_spec(a, b)),
        mul_to_int_f64_spec(a, b.negated()) == negate_result(mul_to_int_f64_spec(a, b)),
        mul_to_int_f64_spec(a.negated(), b.negated()) == mul_to_int_f64_spec(a, b),
{
    lemma_negated_f64(a);
    lemma_negated_f64(b);
    lemma_sign_flip(a.negative(), a.mantissa(), a.exponent(), b.negative(), b.mantissa(), b.exponent(), 128);
    lemma_sign_flip(!a.negative(), a.mantissa(), a.exponent(), b.negative(), b.mantissa(), b.exponent(), 128);
}

/// Zero absorption: zero (of either sign) times any finite value gives 0,
/// in either order.
pub proof fn law_zero_f64(z: Float64, x: Float64)
    requires
        z.finite(),
        x.finite(),
        z.is_zero(),
    ensures
        mul_to_int_f64_spec(z, x) == Ok::<int, Overflow>(0),
        mul_to_int_f64_spec(x, z) == Ok::<int, Overflow>(0),
{
    lemma_mantissa_f64(z);
    lemma_zero_operand(z.mantissa(), x.mantissa(), z.exponent() + x.exponent());
    lemma_zero_operand(x.mantissa(), z.mantissa(), x.exponent() + z.exponent());
    lemma_pow2_pos(127);
}

/// Exactness: whenever the exact product truncated toward zero lies strictly
/// between -2^127 and 2^127, that integer is the result.
pub proof fn law_exact_f64(a: Float64, b: Float64)
    requires
        a.finite(),
        b.finite(),
        -pow2(127) < exact_product_f64(a, b) < pow2(127),
    ensures
        mul_to_int_f64_spec(a, b) == Ok::<int, Overflow>(exact_product_f64(a, b)),
{
}

/// Overflow boundary: the result is an overflow exactly when the exact
/// truncated product is at most -2^127 or at least 2^127.
pub proof fn law_overflow_boundary_f64(a: Float64, b: Float64)
    requires
        a.finite(),
        b.finite(),
    ensures
        mul_to_int_f64_spec(a, b) is Err <==> (exact_product_f64(a, b) <= -pow2(127)
            || exact_product_f64(a, b) >= pow2(127)),
{
}

} // verus!
