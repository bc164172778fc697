//! The numeric model shared by both floating-point widths.
//!
//! A finite binary floating-point value is `(-1)^negative * mantissa * 2^exponent`
//! with an integer mantissa. The exact product of two such values is again of
//! that form, and its integer part (truncated toward zero) is what
//! `mul_to_int` computes.
use vstd::arithmetic::div_mod::{lemma_basic_div, lemma_div_by_multiple, lemma_div_denominator};
use vstd::arithmetic::mul::{
    lemma_mul_by_zero_is_zero, lemma_mul_inequality, lemma_mul_is_associative,
    lemma_mul_is_commutative, lemma_mul_strict_inequality,
};
use vstd::arithmetic::power2::{
    lemma2_to64, lemma_pow2_adds, lemma_pow2_pos, lemma_pow2_strictly_increases, pow2,
};
use vstd::prelude::*;

use crate::Overflow;

verus! {

/// Number of binary digits of `n`; 0 for 0.
pub open spec fn bit_len(n: nat) -> nat
    decreases n,
{
    if n == 0 {
        0
    } else {
        1 + bit_len(n / 2)
    }
}

/// The magnitude `m * 2^e` truncated toward zero.
pub open spec fn trunc_magnitude(m: nat, e: int) -> nat {
    if e >= 0 {
        m * pow2(e as nat)
    } else {
        m / pow2((-e) as nat)
    }
}

/// Exponent of the leading one bit of `m * 2^e`, that is `floor(log2(m * 2^e))`;
/// 0 for a zero mantissa.
pub open spec fn lead_exponent(m: nat, e: int) -> int {
    if m == 0 {
        0
    } else {
        e + bit_len(m) - 1
    }
}

/// `mag` with the sign `negative` applied.
pub open spec fn signed(negative: bool, mag: nat) -> int {
    if negative {
        -mag
    } else {
        mag as int
    }
}

/// The exact product of `(-1)^na * ma * 2^ea` and `(-1)^nb * mb * 2^eb`,
/// truncated toward zero.
pub open spec fn exact_trunc_product(na: bool, ma: nat, ea: int, nb: bool, mb: nat, eb: int) -> int {
    signed(na != nb, trunc_magnitude(ma * mb, ea + eb))
}

/// What `mul_to_int` returns for two operands given as sign, integer mantissa
/// and exponent, with a signed output of `out_bits` bits: the exact product
/// truncated toward zero, or an overflow when its magnitude reaches
/// `2^(out_bits - 1)`. The magnitude is checked before the sign is applied, so
/// the most negative value of the output type is refused as well.
pub open spec fn mul_to_int_spec(
    na: bool,
    ma: nat,
    ea: int,
    nb: bool,
    mb: nat,
    eb: int,
    out_bits: nat,
) -> Result<int, Overflow> {
    if trunc_magnitude(ma * mb, ea + eb) >= pow2((out_bits - 1) as nat) {
        Err(Overflow)
    } else {
        Ok(exact_trunc_product(na, ma, ea, nb, mb, eb))
    }
}

/// Zero stays zero at any exponent.
pub proof fn lemma_trunc_magnitude_zero(e: int)
    ensures
        trunc_magnitude(0, e) == 0,
{
    if e >= 0 {
        lemma_mul_by_zero_is_zero(pow2(e as nat) as int);
    } else {
        lemma_pow2_pos((-e) as nat);
        lemma_basic_div(0, pow2((-e) as nat) as int);
    }
}

/// A nonzero `m` lies in `[2^(bit_len(m) - 1), 2^bit_len(m))`.
pub proof fn lemma_bit_len_bounds(m: nat)
    requires
        m > 0,
    ensures
        bit_len(m) >= 1,
        pow2((bit_len(m) - 1) as nat) <= m < pow2(bit_len(m)),
    decreases m,
{
    lemma2_to64();
    if m == 1 {
        assert(bit_len(0) == 0);
        assert(bit_len(1) == 1);
    } else {
        lemma_bit_len_bounds(m / 2);
        let l = bit_len(m / 2);
        lemma_pow2_adds((l - 1) as nat, 1);
        lemma_pow2_adds(l, 1);
    }
}

/// A value below `2^n` has at most `n` binary digits.
pub proof fn lemma_bit_len_at_most(m: nat, n: nat)
    requires
        m < pow2(n),
    ensures
        bit_len(m) <= n,
{
    if m > 0 {
        lemma_bit_len_bounds(m);
        if bit_len(m) > n + 1 {
            lemma_pow2_strictly_increases(n, (bit_len(m) - 1) as nat);
        }
    }
}

/// A value in `[2^(l-1), 2^l)` has exactly `l` binary digits.
pub proof fn lemma_bit_len_unique(m: nat, l: nat)
    requires
        l >= 1,
        pow2((l - 1) as nat) <= m < pow2(l),
    ensures
        bit_len(m) == l,
{
    lemma_pow2_pos((l - 1) as nat);
    lemma_bit_len_bounds(m);
    let b = bit_len(m);
    if b < l {
        if b < l - 1 {
            lemma_pow2_strictly_increases(b, (l - 1) as nat);
        }
    } else if b > l + 1 {
        lemma_pow2_strictly_increases(l, (b - 1) as nat);
    }
}

/// The mantissa `m` shifted left until it fills exactly `n` bits: the
/// left-aligned significand, whose top bit is set.
pub open spec fn aligned(m: nat, n: nat) -> nat {
    m * pow2((n - bit_len(m)) as nat)
}

/// A nonzero mantissa of at most `n` bits, aligned to `n` bits, lies in
/// `[2^(n-1), 2^n)`.
pub proof fn lemma_aligned_bounds(m: nat, n: nat)
    requires
        m > 0,
        bit_len(m) <= n,
    ensures
        pow2((n - 1) as nat) <= aligned(m, n) < pow2(n),
{
    lemma_bit_len_bounds(m);
    let l = bit_len(m);
    let k = (n - l) as nat;
    lemma_pow2_pos(k);
    lemma_mul_inequality(pow2((l - 1) as nat) as int, m as int, pow2(k) as int);
    lemma_mul_strict_inequality(m as int, pow2(l) as int, pow2(k) as int);
    lemma_pow2_adds((l - 1) as nat, k);
    lemma_pow2_adds(l, k);
}

/// Multiplying `m` by `2^s` and then truncating by `2^k` is truncating `m * 2^(s - k)`.
pub proof fn lemma_trunc_magnitude_shift(m: nat, s: nat, k: int)
    ensures
        k >= 0 ==> trunc_magnitude(m, s - k) == (m * pow2(s)) / pow2(k as nat),
        k < 0 ==> trunc_magnitude(m, s - k) == (m * pow2(s)) * pow2((-k) as nat),
{
    lemma_pow2_pos(s);
    if k >= 0 {
        let kn = k as nat;
        lemma_pow2_pos(kn);
        if s >= kn {
            let d = (s - kn) as nat;
            lemma_pow2_adds(d, kn);
            lemma_mul_is_associative(m as int, pow2(d) as int, pow2(kn) as int);
            lemma_div_by_multiple((m * pow2(d)) as int, pow2(kn) as int);
        } else {
            let d = (kn - s) as nat;
            lemma_pow2_pos(d);
            lemma_pow2_adds(s, d);
            lemma_div_denominator((m * pow2(s)) as int, pow2(s) as int, pow2(d) as int);
            lemma_div_by_multiple(m as int, pow2(s) as int);
        }
    } else {
        let kn = (-k) as nat;
        lemma_pow2_adds(s, kn);
        lemma_mul_is_associative(m as int, pow2(s) as int, pow2(kn) as int);
    }
}

/// How the product of two aligned significands of `n` bits relates to the
/// exact product of the values they come from. `c` is the sum of the
/// leading-bit exponents and `t = 2n - 2` the position of the radix point in
/// the product.
pub proof fn lemma_aligned_product(ma: nat, ea: int, mb: nat, eb: int, n: nat)
    requires
        ma > 0,
        mb > 0,
        n >= 1,
        bit_len(ma) <= n,
        bit_len(mb) <= n,
    ensures
        ({
            let p = aligned(ma, n) * aligned(mb, n);
            let c = lead_exponent(ma, ea) + lead_exponent(mb, eb);
            let t = 2 * n - 2;
            let mag = trunc_magnitude(ma * mb, ea + eb);
            &&& pow2((2 * n - 2) as nat) <= p < pow2(2 * n)
            &&& c <= t ==> mag == p / pow2((t - c) as nat)
            &&& c > t ==> mag >= pow2((2 * n - 1) as nat)
        }),
{
    let la = bit_len(ma);
    let lb = bit_len(mb);
    let sa = (n - la) as nat;
    let sb = (n - lb) as nat;
    let p = aligned(ma, n) * aligned(mb, n);
    let c = lead_exponent(ma, ea) + lead_exponent(mb, eb);
    let t = 2 * n - 2;
    lemma_aligned_bounds(ma, n);
    lemma_aligned_bounds(mb, n);
    lemma_pow2_pos((n - 1) as nat);
    lemma_pow2_adds((n - 1) as nat, (n - 1) as nat);
    lemma_pow2_adds(n, n);
    let lo = pow2((n - 1) as nat);
    let hi = pow2(n);
    let a = aligned(ma, n);
    let b = aligned(mb, n);
    assert(lo * lo <= a * b && a * b < hi * hi) by (nonlinear_arith)
        requires
            0 < lo <= a < hi,
            lo <= b < hi,
    ;
    assert(((n - 1) as nat + (n - 1) as nat) as nat == (2 * n - 2) as nat);
    assert(pow2((2 * n - 2) as nat) <= p);
    assert(p < pow2(n) * pow2(n));
    assert(p < pow2(2 * n));
    // p == (ma * mb) * 2^(sa + sb)
    assert(p == (ma * mb) * pow2(sa + sb)) by {
        lemma_pow2_adds(sa, sb);
        assert(p == (ma * pow2(sa)) * (mb * pow2(sb)));
        assert((ma * pow2(sa)) * (mb * pow2(sb)) == (ma * mb) * (pow2(sa) * pow2(sb)))
            by (nonlinear_arith);
    }
    assert(ea + eb == (sa + sb) - (t - c));
    lemma_trunc_magnitude_shift(ma * mb, sa + sb, t - c);
    if c > t {
        let d = (c - t) as nat;
        lemma_pow2_adds((2 * n - 2) as nat, 1);
        lemma2_to64();
        if d > 1 {
            lemma_pow2_strictly_increases(1, d);
        }
        lemma_mul_inequality(pow2(1) as int, pow2(d) as int, p as int);
        lemma_mul_inequality(pow2((2 * n - 2) as nat) as int, p as int, pow2(1) as int);
        lemma_mul_is_commutative(p as int, pow2(1) as int);
        lemma_mul_is_commutative(p as int, pow2(d) as int);
    }
}

/// A nonzero `m` that `k` left shifts bring into `[2^(n-1), 2^n)` has
/// `n - k` binary digits, so those shifts align it to `n` bits.
pub proof fn lemma_shifted_is_aligned(m: nat, k: nat, n: nat)
    requires
        m > 0,
        n >= 1,
        pow2((n - 1) as nat) <= m * pow2(k) < pow2(n),
    ensures
        bit_len(m) + k == n,
        aligned(m, n) == m * pow2(k),
{
    lemma_bit_len_bounds(m);
    let l = bit_len(m);
    lemma_pow2_pos(k);
    lemma_mul_inequality(pow2((l - 1) as nat) as int, m as int, pow2(k) as int);
    lemma_mul_strict_inequality(m as int, pow2(l) as int, pow2(k) as int);
    lemma_pow2_adds((l - 1) as nat, k);
    lemma_pow2_adds(l, k);
    if l + k < n {
        if l + k < n - 1 {
            lemma_pow2_strictly_increases(l + k, (n - 1) as nat);
        }
    } else if l + k > n {
        if (l - 1 + k) as nat > n {
            lemma_pow2_strictly_increases(n, (l - 1 + k) as nat);
        }
    }
}

/// `r` with its value negated; an overflow stays an overflow.
pub open spec fn negate_result(r: Result<int, Overflow>) -> Result<int, Overflow> {
    match r {
        Ok(v) => Ok(-v),
        Err(e) => Err(e),
    }
}

/// Flipping the sign of one operand negates the result.
pub proof fn lemma_sign_flip(na: bool, ma: nat, ea: int, nb: bool, mb: nat, eb: int, out_bits: nat)
    ensures
        mul_to_int_spec(!na, ma, ea, nb, mb, eb, out_bits) == negate_result(
            mul_to_int_spec(na, ma, ea, nb, mb, eb, out_bits),
        ),
        mul_to_int_spec(na, ma, ea, !nb, mb, eb, out_bits) == negate_result(
            mul_to_int_spec(na, ma, ea, nb, mb, eb, out_bits),
        ),
{
}

/// The product of a zero operand and any mantissa truncates to 0.
pub proof fn lemma_zero_operand(ma: nat, mb: nat, e: int)
    requires
        ma == 0 || mb == 0,
    ensures
        trunc_magnitude(ma * mb, e) == 0,
{
    lemma_mul_by_zero_is_zero(ma as int);
    lemma_mul_by_zero_is_zero(mb as int);
    lemma_trunc_magnitude_zero(e);
}

/// When the leading-bit exponents of two nonzero values sum to less than -1,
/// their product is below 1 and truncates to 0.
pub proof fn lemma_lead_sum_below_minus_one(ma: nat, ea: int, mb: nat, eb: int, n: nat)
    requires
        ma > 0,
        mb > 0,
        n >= 1,
        bit_len(ma) <= n,
        bit_len(mb) <= n,
        lead_exponent(ma, ea) + lead_exponent(mb, eb) < -1,
    ensures
        trunc_magnitude(ma * mb, ea + eb) == 0,
{
    lemma_aligned_product(ma, ea, mb, eb, n);
    let p = aligned(ma, n) * aligned(mb, n);
    let c = lead_exponent(ma, ea) + lead_exponent(mb, eb);
    let t = 2 * n - 2;
    if (t - c) as nat > 2 * n {
        lemma_pow2_strictly_increases(2 * n, (t - c) as nat);
    }
    lemma_basic_div(p as int, pow2((t - c) as nat) as int);
}

} // verus!
