//! Bit-exact comparison of the arithmetic with the native type.

use std::time::Duration;

use kronika_incident::float64::Float64;

/// Zeros, subnormals, powers, ties, limits, infinities, and a NaN.
fn edges() -> Vec<f64> {
    let mut values = vec![
        0.0,
        1.0,
        1.5,
        2.0,
        3.0,
        0.1,
        0.2,
        0.3,
        10.0,
        1_000_000.0,
        1e15,
        9_007_199_254_740_991.0,
        9_007_199_254_740_992.0,
        9_007_199_254_740_993.0,
        1e16,
        1e100,
        1e300,
        1e-100,
        1e-300,
        f64::MAX,
        f64::MIN_POSITIVE,
        f64::MIN_POSITIVE / 2.0,
        f64::from_bits(1),
        f64::from_bits(2),
        f64::from_bits(3),
        f64::from_bits(0x000f_ffff_ffff_ffff),
        f64::EPSILON,
        1.0 + f64::EPSILON,
        1.0 - f64::EPSILON / 2.0,
        f64::INFINITY,
    ];
    let negated: Vec<f64> = values.iter().map(|value| -value).collect();
    values.extend(negated);
    values.push(f64::NAN);
    values
}

/// Bit patterns that cover the exponents, from a fixed linear recurrence.
fn scattered(count: usize) -> Vec<f64> {
    let mut state = 0x9e37_79b9_7f4a_7c15_u64;
    let mut values = Vec::new();
    for _ in 0..count {
        state = state
            .wrapping_mul(6_364_136_223_846_793_005)
            .wrapping_add(1_442_695_040_888_963_407);
        values.push(f64::from_bits(state ^ (state >> 29)));
    }
    values
}

/// Pairs of operands close in magnitude, where cancellation and ties occur.
fn neighbours(count: usize) -> Vec<(f64, f64)> {
    scattered(count)
        .into_iter()
        .filter(|value| value.is_finite())
        .enumerate()
        .map(|(at, value)| {
            let step = (at as u64 % 7) + 1;
            (value, f64::from_bits(value.to_bits() ^ step))
        })
        .collect()
}

fn pairs() -> Vec<(f64, f64)> {
    let edges = edges();
    let mut pairs = Vec::new();
    for left in &edges {
        for right in &edges {
            pairs.push((*left, *right));
        }
    }
    let values = scattered(4_000);
    for at in 1..values.len() {
        pairs.push((values[at - 1], values[at]));
    }
    pairs.extend(neighbours(2_000));
    pairs.extend(neighbours(2_000).into_iter().map(|(a, b)| (a, -b)));
    pairs
}

fn number(value: f64) -> Float64 {
    Float64::from_bits(value.to_bits())
}

fn same(actual: Float64, expected: f64, what: &str) {
    if expected.is_nan() {
        assert!(actual.is_nan(), "{}", what);
    } else {
        assert_eq!(actual.to_bits(), expected.to_bits(), "{}", what);
    }
}

#[test]
fn addition_and_subtraction_match_the_native_type() {
    for (left, right) in pairs() {
        let what = format!("{left:e} {right:e}");
        same(number(left).plus(number(right)), left + right, &what);
        same(number(left).minus(number(right)), left - right, &what);
    }
}

#[test]
fn multiplication_matches_the_native_type() {
    for (left, right) in pairs() {
        let what = format!("{left:e} * {right:e}");
        same(number(left).times(number(right)), left * right, &what);
    }
}

#[test]
fn division_matches_the_native_type() {
    for (left, right) in pairs() {
        let what = format!("{left:e} / {right:e}");
        same(number(left).divided_by(number(right)), left / right, &what);
    }
}

#[test]
fn comparisons_match_the_native_type() {
    for (left, right) in pairs() {
        let a = number(left);
        let b = number(right);
        assert_eq!(a.less(b), left < right);
        assert_eq!(a.less_or_equal(b), left <= right);
        assert_eq!(a.equals(b), left == right);
        if left != right {
            same(a.max(b), left.max(right), "max");
        }
    }
}

#[test]
fn classification_and_sign_match_the_native_type() {
    for value in edges().into_iter().chain(scattered(500)) {
        let a = number(value);
        assert_eq!(a.is_finite(), value.is_finite());
        assert_eq!(a.is_nan(), value.is_nan());
        assert_eq!(a.neg().to_bits(), (-value).to_bits());
        assert_eq!(a.abs().to_bits(), value.abs().to_bits());
    }
}

#[test]
fn integers_convert_as_the_native_cast() {
    let mut values = vec![
        0_i128,
        1,
        -1,
        9_007_199_254_740_991,
        9_007_199_254_740_992,
        9_007_199_254_740_993,
        9_007_199_254_740_994,
        9_007_199_254_740_995,
        i128::from(i64::MAX),
        i128::from(i64::MIN),
        i128::from(u64::MAX),
        i128::MAX,
        i128::MIN,
        i128::MIN + 1,
    ];
    for shift in 0..126 {
        values.push(1_i128 << shift);
        values.push((1_i128 << shift) + 1);
        values.push(-(1_i128 << shift) - 1);
        values.push((3_i128 << shift) - 1);
    }
    for value in values {
        assert_eq!(
            Float64::from_i128(value).to_bits(),
            (value as f64).to_bits(),
            "{value}"
        );
    }
}

#[test]
fn durations_convert_as_seconds() {
    for micros in [
        0,
        1,
        999,
        1_000_000,
        1_500_000,
        60_000_001,
        u64::from(u32::MAX),
        86_400_123_456,
        9_007_199_254_740_993,
        u64::MAX,
    ] {
        assert_eq!(
            Float64::seconds_from_micros(micros).to_bits(),
            Duration::from_micros(micros).as_secs_f64().to_bits(),
            "{micros}"
        );
    }
}

#[test]
fn small_integers_are_exact_and_keep_their_order() {
    let limit = 1_i128 << 53;
    let values = [-limit, -limit + 1, -3, -1, 0, 1, 2, limit - 1, limit];
    for left in values {
        for right in values {
            let a = Float64::from_i128(left);
            let b = Float64::from_i128(right);
            assert_eq!(a.less(b), left < right);
            assert_eq!(a.equals(b), left == right);
            if (-limit..=limit).contains(&(left + right)) {
                assert_eq!(
                    a.plus(b).to_bits(),
                    Float64::from_i128(left + right).to_bits()
                );
            }
        }
    }
}
