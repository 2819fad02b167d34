//! The integers that thresholds stand for.

use crate::float64::{
    abs, law_finite_values_round_to_themselves, magnitude, Float64, INFINITE, UNIT,
};
use vstd::arithmetic::power2::{lemma2_to64, lemma2_to64_rest, lemma_pow2_adds, pow2};
use vstd::prelude::*;

verus! {

/// A pattern is that of an integer if its magnitude is the integer's.
proof fn lemma_number(n: int, t: u64, m: nat, s: nat)
    requires
        0 < n <= 0x20_0000_0000_0000,
        0 < t < INFINITE,
        s <= 1074,
        magnitude(t as nat) == m * pow2(s),
        m == n * pow2((1074 - s) as nat),
    ensures
        Float64::of_int(n) == (Float64 { bits: t }),
{
    lemma_pow2_adds((1074 - s) as nat, s);
    assert(m * pow2(s) == n * pow2(1074)) by (nonlinear_arith)
        requires
            m == n * pow2((1074 - s) as nat),
            pow2((1074 - s) as nat) * pow2(s) == pow2(1074),
    ;
    law_finite_values_round_to_themselves(t as nat);
    assert(abs(n) * pow2(UNIT as nat) == magnitude(t as nat));
}

pub proof fn lemma_one()
    ensures
        Float64::of_int(1) == (Float64 { bits: 0x3ff0_0000_0000_0000 }),
{
    let t: u64 = 0x3ff0_0000_0000_0000;
    lemma2_to64();
    lemma2_to64_rest();
    assert(t % 0x10_0000_0000_0000 == 0x0000 && t / 0x10_0000_0000_0000 == 1023);
    assert(magnitude(t as nat) == 0x0010_0000_0000_0000 * pow2(1022));
    assert(pow2(52) == 0x0010_0000_0000_0000);
    lemma_number(1, t, 0x0010_0000_0000_0000, 1022);
}

pub proof fn lemma_two()
    ensures
        Float64::of_int(2) == (Float64 { bits: 0x4000_0000_0000_0000 }),
{
    let t: u64 = 0x4000_0000_0000_0000;
    lemma2_to64();
    lemma2_to64_rest();
    assert(t % 0x10_0000_0000_0000 == 0x0000 && t / 0x10_0000_0000_0000 == 1024);
    assert(magnitude(t as nat) == 0x0010_0000_0000_0000 * pow2(1023));
    assert(pow2(51) == 0x0008_0000_0000_0000);
    lemma_number(2, t, 0x0010_0000_0000_0000, 1023);
}

pub proof fn lemma_five()
    ensures
        Float64::of_int(5) == (Float64 { bits: 0x4014_0000_0000_0000 }),
{
    let t: u64 = 0x4014_0000_0000_0000;
    lemma2_to64();
    lemma2_to64_rest();
    assert(t % 0x10_0000_0000_0000 == 0x0004_0000_0000_0000 && t / 0x10_0000_0000_0000 == 1025);
    assert(magnitude(t as nat) == 0x0014_0000_0000_0000 * pow2(1024));
    assert(pow2(50) == 0x0004_0000_0000_0000);
    lemma_number(5, t, 0x0014_0000_0000_0000, 1024);
}

pub proof fn lemma_one_thousand()
    ensures
        Float64::of_int(1000) == (Float64 { bits: 0x408f_4000_0000_0000 }),
{
    let t: u64 = 0x408f_4000_0000_0000;
    lemma2_to64();
    lemma2_to64_rest();
    assert(t % 0x10_0000_0000_0000 == 0x000f_4000_0000_0000 && t / 0x10_0000_0000_0000 == 1032);
    assert(magnitude(t as nat) == 0x001f_4000_0000_0000 * pow2(1031));
    assert(pow2(43) == 0x0800_0000_0000);
    lemma_number(1000, t, 0x001f_4000_0000_0000, 1031);
}

pub proof fn lemma_one_million()
    ensures
        Float64::of_int(1000000) == (Float64 { bits: 0x412e_8480_0000_0000 }),
{
    let t: u64 = 0x412e_8480_0000_0000;
    lemma2_to64();
    lemma2_to64_rest();
    assert(t % 0x10_0000_0000_0000 == 0x000e_8480_0000_0000 && t / 0x10_0000_0000_0000 == 1042);
    assert(magnitude(t as nat) == 0x001e_8480_0000_0000 * pow2(1041));
    assert(pow2(33) == 0x0002_0000_0000);
    lemma_number(1000000, t, 0x001e_8480_0000_0000, 1041);
}

pub proof fn lemma_thirty_million()
    ensures
        Float64::of_int(30000000) == (Float64 { bits: 0x417c_9c38_0000_0000 }),
{
    let t: u64 = 0x417c_9c38_0000_0000;
    lemma2_to64();
    lemma2_to64_rest();
    assert(t % 0x10_0000_0000_0000 == 0x000c_9c38_0000_0000 && t / 0x10_0000_0000_0000 == 1047);
    assert(magnitude(t as nat) == 0x001c_9c38_0000_0000 * pow2(1046));
    assert(pow2(28) == 0x1000_0000);
    lemma_number(30000000, t, 0x001c_9c38_0000_0000, 1046);
}

pub proof fn lemma_sixty_four_mebi()
    ensures
        Float64::of_int(67108864) == (Float64 { bits: 0x4190_0000_0000_0000 }),
{
    let t: u64 = 0x4190_0000_0000_0000;
    lemma2_to64();
    lemma2_to64_rest();
    assert(t % 0x10_0000_0000_0000 == 0x0000 && t / 0x10_0000_0000_0000 == 1049);
    assert(magnitude(t as nat) == 0x0010_0000_0000_0000 * pow2(1048));
    assert(pow2(26) == 0x0400_0000);
    lemma_number(67108864, t, 0x0010_0000_0000_0000, 1048);
}

pub proof fn lemma_three_hundred_million()
    ensures
        Float64::of_int(300000000) == (Float64 { bits: 0x41b1_e1a3_0000_0000 }),
{
    let t: u64 = 0x41b1_e1a3_0000_0000;
    lemma2_to64();
    lemma2_to64_rest();
    assert(t % 0x10_0000_0000_0000 == 0x0001_e1a3_0000_0000 && t / 0x10_0000_0000_0000 == 1051);
    assert(magnitude(t as nat) == 0x0011_e1a3_0000_0000 * pow2(1050));
    assert(pow2(24) == 0x0100_0000);
    lemma_number(300000000, t, 0x0011_e1a3_0000_0000, 1050);
}

/// The pattern of the largest integer up to which all are exact.
pub proof fn lemma_largest_exact()
    ensures
        Float64::of_int(0x20_0000_0000_0000) == (Float64 { bits: 0x4340_0000_0000_0000 }),
{
    let t: u64 = 0x4340_0000_0000_0000;
    lemma2_to64();
    assert(t % 0x10_0000_0000_0000 == 0 && t / 0x10_0000_0000_0000 == 0x434);
    assert(magnitude(t as nat) == 0x10_0000_0000_0000 * pow2(1075));
    lemma_pow2_adds(1, 1074);
    assert(0x10_0000_0000_0000 * pow2(1075)
        == 0x20_0000_0000_0000 * pow2(1074)) by (nonlinear_arith)
        requires
            pow2(1075) == 2 * pow2(1074),
    ;
    assert(pow2(0) == 1);
    lemma_number(0x20_0000_0000_0000, t, 0x20_0000_0000_0000, 1074);
}

} // verus!
