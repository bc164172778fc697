use fmul_to_int::{Float32, Float64, FloatMulToInt, Overflow};

fn mul32(a: f32, b: f32) -> Result<i64, Overflow> {
    let a = Float32::from_bits(a.to_bits());
    let b = Float32::from_bits(b.to_bits());
    assert!(a.is_finite() && b.is_finite());
    a.mul_to_int(b)
}

fn mul64(a: f64, b: f64) -> Result<i128, Overflow> {
    let a = Float64::from_bits(a.to_bits());
    let b = Float64::from_bits(b.to_bits());
    assert!(a.is_finite() && b.is_finite());
    a.mul_to_int(b)
}

#[test]
fn test_f32() {
    let vectors = [
        (0.0f32, 10000.0f32, 0i64),
        (0.0, -10000.0, 0),
        (0.0, 0.0, 0),
        (2.0, 2.0, 4),
        (1.0, 2.0, 2),
        (20.0, 20.0, 400),
        (11.0, 1_000_000_000.0, 11_000_000_000),
        (0.1234, 1_000_000_000.0, 123_400_002),
        (0.2222, 22222.0, 4937),
        (-2.0, 2.0, -4),
        (1.0, -2.0, -2),
        (20.0, -20.0, -400),
        (11.0, -1_000_000_000.0, -11_000_000_000),
        (-0.1234, 1_000_000_000.0, -123_400_002),
        (-0.2222, 22222.0, -4937),
        (-2.0, -2.0, 4),
    ];

    for (a, b, c) in vectors {
        assert_eq!(mul32(a, b).unwrap(), c);
    }
}

#[test]
fn test_f64() {
    let vectors = [
        (0.0f64, 10000.0f64, 0i128),
        (0.0, -10000.0, 0),
        (0.0, 0.0, 0),
        (2.0, 2.0, 4),
        (1.0, 2.0, 2),
        (20.0, 20.0, 400),
        (11.0, 1_000_000_000.0, 11_000_000_000),
        (0.1234, 1_000_000_000.0, 123_399_999),
        (0.2222, 22222.0, 4937),
        (-2.0, 2.0, -4),
        (1.0, -2.0, -2),
        (20.0, -20.0, -400),
        (11.0, -1_000_000_000.0, -11_000_000_000),
        (-0.1234, 1_000_000_000.0, -123_399_999),
        (-0.2222, 22222.0, -4937),
        (-2.0, -2.0, 4),
    ];

    for (a, b, c) in vectors {
        assert_eq!(mul64(a, b).unwrap(), c);
    }
}

#[test]
fn sign_law_on_concrete_values() {
    assert_eq!(mul32(3.7, -2.5), Ok(-9));
    assert_eq!(mul32(-3.7, -2.5), Ok(9));
    assert_eq!(mul32(-3.7, 2.5), Ok(-9));
    assert_eq!(mul32(3.7, 2.5), Ok(9));
    assert_eq!(mul64(3.7, -2.5), Ok(-9));
    assert_eq!(mul64(-3.7, -2.5), Ok(9));
    assert_eq!(mul64(1e30, 1e30), Err(Overflow));
    assert_eq!(mul64(-1e30, 1e30), Err(Overflow));
}

#[test]
fn zero_absorbs_both_orders() {
    assert_eq!(mul32(0.0, 123.456), Ok(0));
    assert_eq!(mul32(123.456, -0.0), Ok(0));
    assert_eq!(mul32(-0.0, -0.0), Ok(0));
    assert_eq!(mul64(-0.0, 1e18), Ok(0));
    assert_eq!(mul64(1e18, 0.0), Ok(0));
}

#[test]
fn zero_beside_huge_operand_gives_zero() {
    assert_eq!(mul32(0.0, 1e30), Ok(0));
    assert_eq!(mul32(1e30, -0.0), Ok(0));
    assert_eq!(mul32(0.0, f32::MAX), Ok(0));
    assert_eq!(mul32(f32::MAX, 0.0), Ok(0));
    assert_eq!(mul64(0.0, 1e300), Ok(0));
    assert_eq!(mul64(0.0, f64::MAX), Ok(0));
    assert_eq!(mul64(-f64::MAX, -0.0), Ok(0));
}

#[test]
fn product_between_one_and_two_keeps_its_integer_part() {
    // 1.5 * 0.75 = 1.125: the leading-bit exponents sum to -1.
    assert_eq!(mul32(1.5, 0.75), Ok(1));
    assert_eq!(mul64(1.5, 0.75), Ok(1));
    assert_eq!(mul32(-1.5, 0.75), Ok(-1));
    // 0.5 * 0.9 = 0.45 has the same exponent sum and truncates to 0.
    assert_eq!(mul32(0.5, 0.9), Ok(0));
    // 0.25 * 3.0 = 0.75.
    assert_eq!(mul64(-0.25, 3.0), Ok(0));
    // 0.25 * 1.5 = 0.375: exponent sum -2.
    assert_eq!(mul32(0.25, 1.5), Ok(0));
    // Largest binary64 subnormal times 1.5 * 2^1022 is 1.5 - 3 * 2^-53.
    let sub = f64::from_bits(0x000f_ffff_ffff_ffff);
    assert_eq!(mul64(sub, f64::from_bits(0x7fd8_0000_0000_0000)), Ok(1));
}

#[test]
fn f32_overflow_boundary() {
    // (2^24 - 1) * 2^39, the largest binary32 value below 2^63.
    assert_eq!(
        mul32(9_223_371_487_098_961_920.0, 1.0),
        Ok(9_223_371_487_098_961_920)
    );
    assert_eq!(
        mul32(-9_223_371_487_098_961_920.0, 1.0),
        Ok(-9_223_371_487_098_961_920)
    );
    assert_eq!(mul32(9_223_372_036_854_775_808.0, 1.0), Err(Overflow));
    // -2^63 fits an i64 but is refused as well.
    assert_eq!(mul32(-9_223_372_036_854_775_808.0, 1.0), Err(Overflow));
    // 1.5 * 2^62 fits; (1.5 * 2^31)^2 = 2.25 * 2^62 does not.
    assert_eq!(mul32(3.0 * 2f32.powi(61), 1.0), Ok(6_917_529_027_641_081_856));
    assert_eq!(mul32(3_221_225_472.0, 3_221_225_472.0), Err(Overflow));
    assert_eq!(mul32(f32::MAX, f32::MAX), Err(Overflow));
}

#[test]
fn f64_overflow_boundary() {
    let below = 2f64.powi(127) - 2f64.powi(74);
    assert_eq!(
        mul64(below, 1.0),
        Ok(170_141_183_460_469_212_842_221_372_237_303_250_944)
    );
    assert_eq!(
        mul64(-below, 1.0),
        Ok(-170_141_183_460_469_212_842_221_372_237_303_250_944)
    );
    assert_eq!(mul64(2f64.powi(127), 1.0), Err(Overflow));
    assert_eq!(mul64(-2f64.powi(127), 1.0), Err(Overflow));
    assert_eq!(mul64(2f64.powi(64), 2f64.powi(63)), Err(Overflow));
    assert_eq!(mul64(2f64.powi(63), 2f64.powi(63)), Ok(1i128 << 126));
    assert_eq!(mul64(2f64.powi(63), 2f64.powi(62)), Ok(1i128 << 125));
    assert_eq!(mul64(f64::MAX, f64::MAX), Err(Overflow));
}

#[test]
fn subnormal_operands_are_exact() {
    // Largest binary32 subnormal times the largest finite binary32 is 3.99...
    let sub = f32::from_bits(0x007f_ffff);
    assert_eq!(mul32(sub, f32::MAX), Ok(3));
    // Smallest subnormal times 2^127 is 2^-22.
    assert_eq!(mul32(f32::from_bits(1), 2f32.powi(127)), Ok(0));
    let sub = f64::from_bits(0x000f_ffff_ffff_ffff);
    assert_eq!(mul64(sub, f64::MAX), Ok(3));
    assert_eq!(mul64(-sub, f64::MAX), Ok(-3));
}

#[test]
fn truncation_is_toward_zero() {
    assert_eq!(mul32(2.5, 1.5), Ok(3));
    assert_eq!(mul32(-2.5, 1.5), Ok(-3));
    assert_eq!(mul64(7.0, 0.5), Ok(3));
    assert_eq!(mul64(-7.0, 0.5), Ok(-3));
}

#[test]
fn finiteness_of_bit_patterns() {
    assert!(!Float32::from_bits(f32::INFINITY.to_bits()).is_finite());
    assert!(!Float32::from_bits(f32::NEG_INFINITY.to_bits()).is_finite());
    assert!(!Float32::from_bits(f32::NAN.to_bits()).is_finite());
    assert!(Float32::from_bits(f32::MAX.to_bits()).is_finite());
    assert!(!Float64::from_bits(f64::INFINITY.to_bits()).is_finite());
    assert!(!Float64::from_bits(f64::NAN.to_bits()).is_finite());
    assert!(Float64::from_bits(0).is_finite());
    assert_eq!(Float64::from_bits(42).to_bits(), 42);
    assert_eq!(Float32::from_bits(7).to_bits(), 7);
}

#[test]
fn overflow_describes_itself() {
    assert_eq!(Overflow.description(), "integer overflow");
}
