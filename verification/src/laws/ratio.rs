//! Ratios and sums of integers, and how they compare with a threshold.

use crate::float64::{
    abs, law_finite_values_round_to_themselves, law_small_integers_add_exactly,
    law_small_integers_are_exact, law_small_integers_keep_their_order, lemma_magnitude_order,
    magnitude, nearest, rounded, Float64, INFINITE, SIGN, UNIT,
};
use vstd::arithmetic::power2::{
    lemma2_to64, lemma2_to64_rest, lemma_pow2_adds, lemma_pow2_pos, pow2,
};
use vstd::prelude::*;

verus! {

/// Whether an ordinal is not past the nearest one.
spec fn reached(n: nat, num: nat, den: nat) -> bool {
    n <= INFINITE && (n == 0 || {
        let low = (magnitude((n - 1) as nat) + magnitude(n)) * den;
        low < 2 * num || (low == 2 * num && n % 2 == 0)
    })
}

proof fn lemma_last_reached(n: nat, num: nat, den: nat) -> (last: nat)
    requires
        reached(n, num, den),
    ensures
        reached(last, num, den),
        last == INFINITE || !reached(last + 1, num, den),
    decreases INFINITE - n,
{
    if n < INFINITE && reached(n + 1, num, den) {
        lemma_last_reached(n + 1, num, den)
    } else {
        n
    }
}

/// Every quotient has a nearest number.
pub proof fn lemma_nearest_exists(num: nat, den: nat)
    requires
        den > 0,
    ensures
        nearest(rounded(num, den), num, den),
{
    let n = lemma_last_reached(0, num, den);
    assert(nearest(n, num, den));
}

/// A quotient is rounded below a number exactly if it lies below the midpoint
/// between that number and the one before it.
proof fn lemma_rounded_below(num: nat, den: nat, t: nat)
    requires
        den > 0,
        0 < t <= INFINITE,
        2 * num != (magnitude((t - 1) as nat) + magnitude(t)) * den,
    ensures
        rounded(num, den) < t <==> 2 * num < (magnitude((t - 1) as nat) + magnitude(t)) * den,
{
    lemma_nearest_exists(num, den);
    let r = rounded(num, den);
    let middle = magnitude((t - 1) as nat) + magnitude(t);
    if r < t {
        lemma_magnitude_order(r, (t - 1) as nat);
        lemma_magnitude_order(r + 1, t);
        let high = magnitude(r) + magnitude(r + 1);
        assert(high * den <= middle * den) by (nonlinear_arith)
            requires
                high <= middle,
        ;
    } else {
        lemma_magnitude_order((t - 1) as nat, (r - 1) as nat);
        lemma_magnitude_order(t, r);
        let low = magnitude((r - 1) as nat) + magnitude(r);
        assert(middle * den <= low * den) by (nonlinear_arith)
            requires
                middle <= low,
        ;
    }
}

/// A small integer as a number: not negative, and ordered as the integer.
pub proof fn lemma_small(a: int)
    requires
        0 <= a <= 0x20_0000_0000_0000,
    ensures
        Float64::of_int(a).finite(),
        !Float64::of_int(a).nan(),
        !Float64::of_int(a).negative(),
        !Float64::of_int(a).below(Float64 { bits: 0 }),
        Float64::of_int(a).at_most(Float64 { bits: 0 }) == (a == 0),
        (Float64::of_int(a).ordinal() == 0) == (a == 0),
        magnitude(Float64::of_int(a).ordinal()) == a * pow2(UNIT as nat),
        Float64::of_int(0) == (Float64 { bits: 0 }),
{
    law_small_integers_are_exact(a);
    law_small_integers_are_exact(0);
    law_finite_values_round_to_themselves(0);
    assert(0 * pow2(UNIT as nat) == 0) by (nonlinear_arith);
    law_small_integers_keep_their_order(a, 0);
    lemma_pow2_pos(UNIT as nat);
    if a > 0 {
        assert(a * pow2(UNIT as nat) > 0) by (nonlinear_arith)
            requires
                a > 0,
                pow2(UNIT as nat) > 0,
        ;
    }
}

/// The difference of small integers is exact.
pub proof fn law_small_integers_subtract_exactly(a: int, b: int)
    requires
        -0x20_0000_0000_0000 <= a <= 0x20_0000_0000_0000,
        0 <= b <= 0x20_0000_0000_0000,
        -0x20_0000_0000_0000 <= a - b <= 0x20_0000_0000_0000,
    ensures
        Float64::of_int(a).sum_with(Float64::of_int(b).negated()) == Float64::of_int(a - b),
{
    lemma_small(b);
    law_small_integers_are_exact(a);
    law_small_integers_are_exact(b);
    if b == 0 {
        lemma_small(0);
        let x = Float64::of_int(a);
        let z = Float64::of_int(b).negated();
        assert(z.ordinal() == 0 && z.negative());
        law_small_integers_add_exactly(a, 0);
        assert(z.exact() == 0);
        assert(x.sum_with(z) == x.sum_with(Float64 { bits: 0 })) by {
            if x.exact() == 0 {
                law_small_integers_keep_their_order(a, 0);
                assert(!x.negative()) by {
                    if a < 0 {
                        assert(x.exact() == a * pow2(UNIT as nat));
                        lemma_pow2_pos(UNIT as nat);
                        assert(a * pow2(UNIT as nat) < 0) by (nonlinear_arith)
                            requires
                                a < 0,
                                pow2(UNIT as nat) > 0,
                        ;
                    }
                }
            }
        }
    } else {
        law_small_integers_are_exact(-b);
        assert(Float64::of_int(b).negated() == Float64::of_int(-b)) by {
            assert(abs(b) == abs(-b));
            let n = rounded(abs(b) * pow2(UNIT as nat), 1);
            lemma_nearest_exists(abs(b) * pow2(UNIT as nat), 1);
            assert(n <= INFINITE < SIGN);
        }
        law_small_integers_add_exactly(a, -b);
        assert(a + (-b) == a - b);
    }
}

/// A ratio of small integers lies below a threshold exactly if it lies below the
/// midpoint between the threshold and the number before it.
pub proof fn lemma_ratio_below(a: int, b: int, t: u64, w: int, s: nat)
    requires
        0 <= a <= 0x20_0000_0000_0000,
        0 < b <= 0x20_0000_0000_0000,
        0 < t < INFINITE,
        s <= 1074,
        magnitude((t - 1) as nat) + magnitude(t as nat) == w * pow2(s),
        2 * a * pow2((1074 - s) as nat) != w * b,
    ensures
        Float64::of_int(a).quotient_by(Float64::of_int(b)).below(Float64 { bits: t }) <==> 2 * a
            * pow2((1074 - s) as nat) < w * b,
        !Float64::of_int(a).quotient_by(Float64::of_int(b)).negative(),
{
    lemma_small(a);
    lemma_small(b);
    let unit = pow2(1074);
    let k = pow2((1074 - s) as nat);
    lemma_pow2_pos(1074);
    lemma_pow2_pos(s);
    lemma_pow2_pos((1074 - s) as nat);
    lemma_pow2_adds(s, (1074 - s) as nat);
    let num = ((a * unit) * unit) as nat;
    let den = (b * unit) as nat;
    assert(num >= 0 && den > 0) by (nonlinear_arith)
        requires
            num == (a * unit) * unit,
            den == b * unit,
            a >= 0,
            b > 0,
            unit > 0,
    ;
    let middle = w * pow2(s);
    let p = pow2(s);
    let x = 2 * a * k;
    let y = w * b;
    assert(2 * num == x * (p * unit) && middle * den == y * (p * unit)) by (nonlinear_arith)
        requires
            num == (a * unit) * unit,
            den == b * unit,
            unit == p * k,
            middle == w * p,
            x == 2 * a * k,
            y == w * b,
    ;
    let c = p * unit;
    assert(c > 0) by (nonlinear_arith)
        requires
            p > 0,
            unit > 0,
            c == p * unit,
    ;
    assert((x * c < y * c <==> x < y) && (x * c == y * c <==> x == y)) by (nonlinear_arith)
        requires
            c > 0,
    ;
    lemma_rounded_below(num, den, t as nat);
    let r = rounded(num, den);
    lemma_nearest_exists(num, den);
    assert(r <= INFINITE < SIGN);
    let q = Float64::of_int(a).quotient_by(Float64::of_int(b));
    assert(a == 0 || b != 0);
    assert(q == Float64 { bits: r as u64 });
    assert(q.ordinal() == r);
}

/// A ratio of small integers is finite.
pub proof fn lemma_ratio_finite(a: int, b: int)
    requires
        0 <= a <= 0x20_0000_0000_0000,
        0 < b <= 0x20_0000_0000_0000,
    ensures
        Float64::of_int(a).quotient_by(Float64::of_int(b)).finite(),
{
    // Twice the largest small integer bounds the ratio.
    let t: u64 = 0x4350_0000_0000_0000;
    assert(t % 0x10_0000_0000_0000 == 0 && t / 0x10_0000_0000_0000 == 0x435);
    let before: u64 = 0x434f_ffff_ffff_ffff;
    assert(before % 0x10_0000_0000_0000 == 0xf_ffff_ffff_ffff && before / 0x10_0000_0000_0000
        == 0x434);
    assert(magnitude(t as nat) == 0x10_0000_0000_0000 * pow2(1076));
    assert(magnitude(before as nat) == 0x1f_ffff_ffff_ffff * pow2(1075));
    lemma2_to64();
    lemma2_to64_rest();
    lemma_pow2_adds(1, 1075);
    lemma_pow2_adds(1, 1074);
    let unit = pow2(1074);
    lemma_pow2_pos(1074);
    lemma_small(a);
    lemma_small(b);
    let num = ((a * unit) * unit) as nat;
    let den = (b * unit) as nat;
    let middle = (magnitude(before as nat) + magnitude(t as nat)) as int;
    assert(middle == 0x7f_ffff_ffff_fffe * unit) by (nonlinear_arith)
        requires
            middle == 0x10_0000_0000_0000 * pow2(1076) + 0x1f_ffff_ffff_ffff * pow2(1075),
            pow2(1076) == 2 * pow2(1075),
            pow2(1075) == 2 * unit,
    ;
    assert(2 * num < middle * den && den > 0) by (nonlinear_arith)
        requires
            num == (a * unit) * unit,
            den == b * unit,
            middle == 0x7f_ffff_ffff_fffe * unit,
            0 <= a <= 0x20_0000_0000_0000,
            b >= 1,
            unit > 0,
    ;
    lemma_rounded_below(num, den, t as nat);
    lemma_nearest_exists(num, den);
    let r = rounded(num, den);
    let q = Float64::of_int(a).quotient_by(Float64::of_int(b));
    assert(q == Float64 { bits: r as u64 });
}

/// A ratio of integers reaches the number nearest to 1/100 exactly if
/// `100 * a >= b`.
pub proof fn law_ratio_reaches_one_hundredth(a: int, b: int)
    requires
        0 <= a <= 0x20_0000_0000_0000,
        0 < b <= 0x100_0000_0000,
    ensures
        Float64::of_int(a).quotient_by(Float64::of_int(b)).below(
            Float64 { bits: 0x3f84_7ae1_47ae_147b },
        ) <==> 100 * a < b,
        Float64::of_int(a).quotient_by(Float64::of_int(b)).finite(),
{
    let t: u64 = 0x3f84_7ae1_47ae_147b;
    let p: u64 = 0x3f84_7ae1_47ae_147a;
    lemma2_to64_rest();
    assert(t % 0x10_0000_0000_0000 == 0x0004_7ae1_47ae_147b && t / 0x10_0000_0000_0000 == 1016);
    assert(p % 0x10_0000_0000_0000 == 0x0004_7ae1_47ae_147a && p / 0x10_0000_0000_0000 == 1016);
    assert(magnitude(t as nat) == 0x0014_7ae1_47ae_147b * pow2(1015));
    assert(magnitude(p as nat) == 0x0014_7ae1_47ae_147a * pow2(1015));
    assert(0x0014_7ae1_47ae_147b * pow2(1015) + 0x0014_7ae1_47ae_147a * pow2(1015)
        == 0x0028_f5c2_8f5c_28f5 * pow2(1015)) by (nonlinear_arith);
    let w: int = 0x0028_f5c2_8f5c_28f5;
    assert(pow2(59) == 0x0800_0000_0000_0000);
    assert(2 * a * pow2(59) == a * 0x1000_0000_0000_0000) by (nonlinear_arith)
        requires
            pow2(59) == 0x0800_0000_0000_0000,
    ;
    assert((a * 0x1000_0000_0000_0000 < w * b <==> 100 * a < b)
        && a * 0x1000_0000_0000_0000 != w * b);
    lemma_ratio_below(a, b, t, w, 1015);
    lemma_ratio_finite(a, b);
}

/// A ratio of integers reaches the number nearest to 1/20 exactly if
/// `20 * a >= b`.
pub proof fn law_ratio_reaches_one_twentieth(a: int, b: int)
    requires
        0 <= a <= 0x20_0000_0000_0000,
        0 < b <= 0x100_0000_0000,
    ensures
        Float64::of_int(a).quotient_by(Float64::of_int(b)).below(
            Float64 { bits: 0x3fa9_9999_9999_999a },
        ) <==> 20 * a < b,
        Float64::of_int(a).quotient_by(Float64::of_int(b)).finite(),
{
    let t: u64 = 0x3fa9_9999_9999_999a;
    let p: u64 = 0x3fa9_9999_9999_9999;
    lemma2_to64_rest();
    assert(t % 0x10_0000_0000_0000 == 0x0009_9999_9999_999a && t / 0x10_0000_0000_0000 == 1018);
    assert(p % 0x10_0000_0000_0000 == 0x0009_9999_9999_9999 && p / 0x10_0000_0000_0000 == 1018);
    assert(magnitude(t as nat) == 0x0019_9999_9999_999a * pow2(1017));
    assert(magnitude(p as nat) == 0x0019_9999_9999_9999 * pow2(1017));
    assert(0x0019_9999_9999_999a * pow2(1017) + 0x0019_9999_9999_9999 * pow2(1017)
        == 0x0033_3333_3333_3333 * pow2(1017)) by (nonlinear_arith);
    let w: int = 0x0033_3333_3333_3333;
    assert(pow2(57) == 0x0200_0000_0000_0000);
    assert(2 * a * pow2(57) == a * 0x0400_0000_0000_0000) by (nonlinear_arith)
        requires
            pow2(57) == 0x0200_0000_0000_0000,
    ;
    assert((a * 0x0400_0000_0000_0000 < w * b <==> 20 * a < b)
        && a * 0x0400_0000_0000_0000 != w * b);
    lemma_ratio_below(a, b, t, w, 1017);
    lemma_ratio_finite(a, b);
}

/// A ratio of integers reaches the number nearest to 1/10 exactly if
/// `10 * a >= b`.
pub proof fn law_ratio_reaches_one_tenth(a: int, b: int)
    requires
        0 <= a <= 0x20_0000_0000_0000,
        0 < b <= 0x100_0000_0000,
    ensures
        Float64::of_int(a).quotient_by(Float64::of_int(b)).below(
            Float64 { bits: 0x3fb9_9999_9999_999a },
        ) <==> 10 * a < b,
        Float64::of_int(a).quotient_by(Float64::of_int(b)).finite(),
{
    let t: u64 = 0x3fb9_9999_9999_999a;
    let p: u64 = 0x3fb9_9999_9999_9999;
    lemma2_to64_rest();
    assert(t % 0x10_0000_0000_0000 == 0x0009_9999_9999_999a && t / 0x10_0000_0000_0000 == 1019);
    assert(p % 0x10_0000_0000_0000 == 0x0009_9999_9999_9999 && p / 0x10_0000_0000_0000 == 1019);
    assert(magnitude(t as nat) == 0x0019_9999_9999_999a * pow2(1018));
    assert(magnitude(p as nat) == 0x0019_9999_9999_9999 * pow2(1018));
    assert(0x0019_9999_9999_999a * pow2(1018) + 0x0019_9999_9999_9999 * pow2(1018)
        == 0x0033_3333_3333_3333 * pow2(1018)) by (nonlinear_arith);
    let w: int = 0x0033_3333_3333_3333;
    assert(pow2(56) == 0x0100_0000_0000_0000);
    assert(2 * a * pow2(56) == a * 0x0200_0000_0000_0000) by (nonlinear_arith)
        requires
            pow2(56) == 0x0100_0000_0000_0000,
    ;
    assert((a * 0x0200_0000_0000_0000 < w * b <==> 10 * a < b)
        && a * 0x0200_0000_0000_0000 != w * b);
    lemma_ratio_below(a, b, t, w, 1018);
    lemma_ratio_finite(a, b);
}

/// A ratio of integers reaches the number nearest to 1/5 exactly if
/// `5 * a >= b`.
pub proof fn law_ratio_reaches_one_fifth(a: int, b: int)
    requires
        0 <= a <= 0x20_0000_0000_0000,
        0 < b <= 0x100_0000_0000,
    ensures
        Float64::of_int(a).quotient_by(Float64::of_int(b)).below(
            Float64 { bits: 0x3fc9_9999_9999_999a },
        ) <==> 5 * a < b,
        Float64::of_int(a).quotient_by(Float64::of_int(b)).finite(),
{
    let t: u64 = 0x3fc9_9999_9999_999a;
    let p: u64 = 0x3fc9_9999_9999_9999;
    lemma2_to64_rest();
    assert(t % 0x10_0000_0000_0000 == 0x0009_9999_9999_999a && t / 0x10_0000_0000_0000 == 1020);
    assert(p % 0x10_0000_0000_0000 == 0x0009_9999_9999_9999 && p / 0x10_0000_0000_0000 == 1020);
    assert(magnitude(t as nat) == 0x0019_9999_9999_999a * pow2(1019));
    assert(magnitude(p as nat) == 0x0019_9999_9999_9999 * pow2(1019));
    assert(0x0019_9999_9999_999a * pow2(1019) + 0x0019_9999_9999_9999 * pow2(1019)
        == 0x0033_3333_3333_3333 * pow2(1019)) by (nonlinear_arith);
    let w: int = 0x0033_3333_3333_3333;
    assert(pow2(55) == 0x0080_0000_0000_0000);
    assert(2 * a * pow2(55) == a * 0x0100_0000_0000_0000) by (nonlinear_arith)
        requires
            pow2(55) == 0x0080_0000_0000_0000,
    ;
    assert((a * 0x0100_0000_0000_0000 < w * b <==> 5 * a < b)
        && a * 0x0100_0000_0000_0000 != w * b);
    lemma_ratio_below(a, b, t, w, 1019);
    lemma_ratio_finite(a, b);
}

/// A ratio of integers reaches the number nearest to 1/2 exactly if
/// `2 * a >= b`.
pub proof fn law_ratio_reaches_one_half(a: int, b: int)
    requires
        0 <= a <= 0x20_0000_0000_0000,
        0 < b <= 0x100_0000_0000,
    ensures
        Float64::of_int(a).quotient_by(Float64::of_int(b)).below(
            Float64 { bits: 0x3fe0_0000_0000_0000 },
        ) <==> 2 * a < b,
        Float64::of_int(a).quotient_by(Float64::of_int(b)).finite(),
{
    let t: u64 = 0x3fe0_0000_0000_0000;
    let p: u64 = 0x3fdf_ffff_ffff_ffff;
    lemma2_to64_rest();
    assert(t % 0x10_0000_0000_0000 == 0x0000 && t / 0x10_0000_0000_0000 == 1022);
    assert(p % 0x10_0000_0000_0000 == 0x000f_ffff_ffff_ffff && p / 0x10_0000_0000_0000 == 1021);
    assert(magnitude(t as nat) == 0x0010_0000_0000_0000 * pow2(1021));
    assert(magnitude(p as nat) == 0x001f_ffff_ffff_ffff * pow2(1020));
    lemma_pow2_adds(1, 1020);
    lemma2_to64();
    assert(0x0010_0000_0000_0000 * pow2(1021) + 0x001f_ffff_ffff_ffff * pow2(1020)
        == 0x003f_ffff_ffff_ffff * pow2(1020))
        by (nonlinear_arith)
        requires
            pow2(1021) == 2 * pow2(1020),
    ;
    let w: int = 0x003f_ffff_ffff_ffff;
    assert(pow2(54) == 0x0040_0000_0000_0000);
    assert(2 * a * pow2(54) == a * 0x0080_0000_0000_0000) by (nonlinear_arith)
        requires
            pow2(54) == 0x0040_0000_0000_0000,
    ;
    assert((a * 0x0080_0000_0000_0000 < w * b <==> 2 * a < b)
        && a * 0x0080_0000_0000_0000 != w * b);
    lemma_ratio_below(a, b, t, w, 1020);
    lemma_ratio_finite(a, b);
}

/// A ratio of integers reaches the number nearest to 4/5 exactly if
/// `5 * a >= 4 * b`.
pub proof fn law_ratio_reaches_four_fifths(a: int, b: int)
    requires
        0 <= a <= 0x20_0000_0000_0000,
        0 < b <= 0x100_0000_0000,
    ensures
        Float64::of_int(a).quotient_by(Float64::of_int(b)).below(
            Float64 { bits: 0x3fe9_9999_9999_999a },
        ) <==> 5 * a < 4 * b,
        Float64::of_int(a).quotient_by(Float64::of_int(b)).finite(),
{
    let t: u64 = 0x3fe9_9999_9999_999a;
    let p: u64 = 0x3fe9_9999_9999_9999;
    lemma2_to64_rest();
    assert(t % 0x10_0000_0000_0000 == 0x0009_9999_9999_999a && t / 0x10_0000_0000_0000 == 1022);
    assert(p % 0x10_0000_0000_0000 == 0x0009_9999_9999_9999 && p / 0x10_0000_0000_0000 == 1022);
    assert(magnitude(t as nat) == 0x0019_9999_9999_999a * pow2(1021));
    assert(magnitude(p as nat) == 0x0019_9999_9999_9999 * pow2(1021));
    assert(0x0019_9999_9999_999a * pow2(1021) + 0x0019_9999_9999_9999 * pow2(1021)
        == 0x0033_3333_3333_3333 * pow2(1021)) by (nonlinear_arith);
    let w: int = 0x0033_3333_3333_3333;
    assert(pow2(53) == 0x0020_0000_0000_0000);
    assert(2 * a * pow2(53) == a * 0x0040_0000_0000_0000) by (nonlinear_arith)
        requires
            pow2(53) == 0x0020_0000_0000_0000,
    ;
    assert((a * 0x0040_0000_0000_0000 < w * b <==> 5 * a < 4 * b)
        && a * 0x0040_0000_0000_0000 != w * b);
    lemma_ratio_below(a, b, t, w, 1021);
    lemma_ratio_finite(a, b);
}

/// A ratio of integers reaches the number nearest to 9/10 exactly if
/// `10 * a >= 9 * b`.
pub proof fn law_ratio_reaches_nine_tenths(a: int, b: int)
    requires
        0 <= a <= 0x20_0000_0000_0000,
        0 < b <= 0x100_0000_0000,
    ensures
        Float64::of_int(a).quotient_by(Float64::of_int(b)).below(
            Float64 { bits: 0x3fec_cccc_cccc_cccd },
        ) <==> 10 * a < 9 * b,
        Float64::of_int(a).quotient_by(Float64::of_int(b)).finite(),
{
    let t: u64 = 0x3fec_cccc_cccc_cccd;
    let p: u64 = 0x3fec_cccc_cccc_cccc;
    lemma2_to64_rest();
    assert(t % 0x10_0000_0000_0000 == 0x000c_cccc_cccc_cccd && t / 0x10_0000_0000_0000 == 1022);
    assert(p % 0x10_0000_0000_0000 == 0x000c_cccc_cccc_cccc && p / 0x10_0000_0000_0000 == 1022);
    assert(magnitude(t as nat) == 0x001c_cccc_cccc_cccd * pow2(1021));
    assert(magnitude(p as nat) == 0x001c_cccc_cccc_cccc * pow2(1021));
    assert(0x001c_cccc_cccc_cccd * pow2(1021) + 0x001c_cccc_cccc_cccc * pow2(1021)
        == 0x0039_9999_9999_9999 * pow2(1021)) by (nonlinear_arith);
    let w: int = 0x0039_9999_9999_9999;
    assert(pow2(53) == 0x0020_0000_0000_0000);
    assert(2 * a * pow2(53) == a * 0x0040_0000_0000_0000) by (nonlinear_arith)
        requires
            pow2(53) == 0x0020_0000_0000_0000,
    ;
    assert((a * 0x0040_0000_0000_0000 < w * b <==> 10 * a < 9 * b)
        && a * 0x0040_0000_0000_0000 != w * b);
    lemma_ratio_below(a, b, t, w, 1021);
    lemma_ratio_finite(a, b);
}

/// A ratio of integers reaches the number nearest to 1/1 exactly if
/// `a >= b`.
pub proof fn law_ratio_reaches_one(a: int, b: int)
    requires
        0 <= a <= 0x20_0000_0000_0000,
        0 < b <= 0x100_0000_0000,
    ensures
        Float64::of_int(a).quotient_by(Float64::of_int(b)).below(
            Float64 { bits: 0x3ff0_0000_0000_0000 },
        ) <==> a < b,
        Float64::of_int(a).quotient_by(Float64::of_int(b)).finite(),
{
    let t: u64 = 0x3ff0_0000_0000_0000;
    let p: u64 = 0x3fef_ffff_ffff_ffff;
    lemma2_to64_rest();
    assert(t % 0x10_0000_0000_0000 == 0x0000 && t / 0x10_0000_0000_0000 == 1023);
    assert(p % 0x10_0000_0000_0000 == 0x000f_ffff_ffff_ffff && p / 0x10_0000_0000_0000 == 1022);
    assert(magnitude(t as nat) == 0x0010_0000_0000_0000 * pow2(1022));
    assert(magnitude(p as nat) == 0x001f_ffff_ffff_ffff * pow2(1021));
    lemma_pow2_adds(1, 1021);
    lemma2_to64();
    assert(0x0010_0000_0000_0000 * pow2(1022) + 0x001f_ffff_ffff_ffff * pow2(1021)
        == 0x003f_ffff_ffff_ffff * pow2(1021))
        by (nonlinear_arith)
        requires
            pow2(1022) == 2 * pow2(1021),
    ;
    let w: int = 0x003f_ffff_ffff_ffff;
    assert(pow2(53) == 0x0020_0000_0000_0000);
    assert(2 * a * pow2(53) == a * 0x0040_0000_0000_0000) by (nonlinear_arith)
        requires
            pow2(53) == 0x0020_0000_0000_0000,
    ;
    assert((a * 0x0040_0000_0000_0000 < w * b <==> a < b) && a * 0x0040_0000_0000_0000 != w * b);
    lemma_ratio_below(a, b, t, w, 1021);
    lemma_ratio_finite(a, b);
}

/// A ratio of integers reaches the number nearest to 20/1 exactly if
/// `a >= 20 * b`.
pub proof fn law_ratio_reaches_twenty(a: int, b: int)
    requires
        0 <= a <= 0x20_0000_0000_0000,
        0 < b <= 0x100_0000_0000,
    ensures
        Float64::of_int(a).quotient_by(Float64::of_int(b)).below(
            Float64 { bits: 0x4034_0000_0000_0000 },
        ) <==> a < 20 * b,
        Float64::of_int(a).quotient_by(Float64::of_int(b)).finite(),
{
    let t: u64 = 0x4034_0000_0000_0000;
    let p: u64 = 0x4033_ffff_ffff_ffff;
    lemma2_to64_rest();
    assert(t % 0x10_0000_0000_0000 == 0x0004_0000_0000_0000 && t / 0x10_0000_0000_0000 == 1027);
    assert(p % 0x10_0000_0000_0000 == 0x0003_ffff_ffff_ffff && p / 0x10_0000_0000_0000 == 1027);
    assert(magnitude(t as nat) == 0x0014_0000_0000_0000 * pow2(1026));
    assert(magnitude(p as nat) == 0x0013_ffff_ffff_ffff * pow2(1026));
    assert(0x0014_0000_0000_0000 * pow2(1026) + 0x0013_ffff_ffff_ffff * pow2(1026)
        == 0x0027_ffff_ffff_ffff * pow2(1026)) by (nonlinear_arith);
    let w: int = 0x0027_ffff_ffff_ffff;
    assert(pow2(48) == 0x0001_0000_0000_0000);
    assert(2 * a * pow2(48) == a * 0x0002_0000_0000_0000) by (nonlinear_arith)
        requires
            pow2(48) == 0x0001_0000_0000_0000,
    ;
    assert((a * 0x0002_0000_0000_0000 < w * b <==> a < 20 * b)
        && a * 0x0002_0000_0000_0000 != w * b);
    lemma_ratio_below(a, b, t, w, 1026);
    lemma_ratio_finite(a, b);
}

/// A ratio of integers reaches the number nearest to 50/1 exactly if
/// `a >= 50 * b`.
pub proof fn law_ratio_reaches_fifty(a: int, b: int)
    requires
        0 <= a <= 0x20_0000_0000_0000,
        0 < b <= 0x100_0000_0000,
    ensures
        Float64::of_int(a).quotient_by(Float64::of_int(b)).below(
            Float64 { bits: 0x4049_0000_0000_0000 },
        ) <==> a < 50 * b,
        Float64::of_int(a).quotient_by(Float64::of_int(b)).finite(),
{
    let t: u64 = 0x4049_0000_0000_0000;
    let p: u64 = 0x4048_ffff_ffff_ffff;
    lemma2_to64_rest();
    assert(t % 0x10_0000_0000_0000 == 0x0009_0000_0000_0000 && t / 0x10_0000_0000_0000 == 1028);
    assert(p % 0x10_0000_0000_0000 == 0x0008_ffff_ffff_ffff && p / 0x10_0000_0000_0000 == 1028);
    assert(magnitude(t as nat) == 0x0019_0000_0000_0000 * pow2(1027));
    assert(magnitude(p as nat) == 0x0018_ffff_ffff_ffff * pow2(1027));
    assert(0x0019_0000_0000_0000 * pow2(1027) + 0x0018_ffff_ffff_ffff * pow2(1027)
        == 0x0031_ffff_ffff_ffff * pow2(1027)) by (nonlinear_arith);
    let w: int = 0x0031_ffff_ffff_ffff;
    assert(pow2(47) == 0x8000_0000_0000);
    assert(2 * a * pow2(47) == a * 0x0001_0000_0000_0000) by (nonlinear_arith)
        requires
            pow2(47) == 0x8000_0000_0000,
    ;
    assert((a * 0x0001_0000_0000_0000 < w * b <==> a < 50 * b)
        && a * 0x0001_0000_0000_0000 != w * b);
    lemma_ratio_below(a, b, t, w, 1027);
    lemma_ratio_finite(a, b);
}

/// A ratio of integers reaches the number nearest to 1_000/1 exactly if
/// `a >= 1_000 * b`.
pub proof fn law_ratio_reaches_one_thousand(a: int, b: int)
    requires
        0 <= a <= 0x20_0000_0000_0000,
        0 < b <= 0x100_0000_0000,
    ensures
        Float64::of_int(a).quotient_by(Float64::of_int(b)).below(
            Float64 { bits: 0x408f_4000_0000_0000 },
        ) <==> a < 1_000 * b,
        Float64::of_int(a).quotient_by(Float64::of_int(b)).finite(),
{
    let t: u64 = 0x408f_4000_0000_0000;
    let p: u64 = 0x408f_3fff_ffff_ffff;
    lemma2_to64_rest();
    assert(t % 0x10_0000_0000_0000 == 0x000f_4000_0000_0000 && t / 0x10_0000_0000_0000 == 1032);
    assert(p % 0x10_0000_0000_0000 == 0x000f_3fff_ffff_ffff && p / 0x10_0000_0000_0000 == 1032);
    assert(magnitude(t as nat) == 0x001f_4000_0000_0000 * pow2(1031));
    assert(magnitude(p as nat) == 0x001f_3fff_ffff_ffff * pow2(1031));
    assert(0x001f_4000_0000_0000 * pow2(1031) + 0x001f_3fff_ffff_ffff * pow2(1031)
        == 0x003e_7fff_ffff_ffff * pow2(1031)) by (nonlinear_arith);
    let w: int = 0x003e_7fff_ffff_ffff;
    assert(pow2(43) == 0x0800_0000_0000);
    assert(2 * a * pow2(43) == a * 0x1000_0000_0000) by (nonlinear_arith)
        requires
            pow2(43) == 0x0800_0000_0000,
    ;
    assert((a * 0x1000_0000_0000 < w * b <==> a < 1_000 * b) && a * 0x1000_0000_0000 != w * b);
    lemma_ratio_below(a, b, t, w, 1031);
    lemma_ratio_finite(a, b);
}

/// A ratio of integers reaches the number nearest to 100_000/1 exactly if
/// `a >= 100_000 * b`.
pub proof fn law_ratio_reaches_one_hundred_thousand(a: int, b: int)
    requires
        0 <= a <= 0x20_0000_0000_0000,
        0 < b <= 0x100_0000_0000,
    ensures
        Float64::of_int(a).quotient_by(Float64::of_int(b)).below(
            Float64 { bits: 0x40f8_6a00_0000_0000 },
        ) <==> a < 100_000 * b,
        Float64::of_int(a).quotient_by(Float64::of_int(b)).finite(),
{
    let t: u64 = 0x40f8_6a00_0000_0000;
    let p: u64 = 0x40f8_69ff_ffff_ffff;
    lemma2_to64_rest();
    assert(t % 0x10_0000_0000_0000 == 0x0008_6a00_0000_0000 && t / 0x10_0000_0000_0000 == 1039);
    assert(p % 0x10_0000_0000_0000 == 0x0008_69ff_ffff_ffff && p / 0x10_0000_0000_0000 == 1039);
    assert(magnitude(t as nat) == 0x0018_6a00_0000_0000 * pow2(1038));
    assert(magnitude(p as nat) == 0x0018_69ff_ffff_ffff * pow2(1038));
    assert(0x0018_6a00_0000_0000 * pow2(1038) + 0x0018_69ff_ffff_ffff * pow2(1038)
        == 0x0030_d3ff_ffff_ffff * pow2(1038)) by (nonlinear_arith);
    let w: int = 0x0030_d3ff_ffff_ffff;
    assert(pow2(36) == 0x0010_0000_0000);
    assert(2 * a * pow2(36) == a * 0x0020_0000_0000) by (nonlinear_arith)
        requires
            pow2(36) == 0x0010_0000_0000,
    ;
    assert((a * 0x0020_0000_0000 < w * b <==> a < 100_000 * b) && a * 0x0020_0000_0000 != w * b);
    lemma_ratio_below(a, b, t, w, 1038);
    lemma_ratio_finite(a, b);
}

} // verus!
