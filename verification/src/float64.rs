//! IEEE 754 binary64 numbers computed over integers.
//!
//! A number is its 64-bit pattern. The 63 low bits order the non-negative
//! numbers, and `magnitude` gives the exact value of such an ordinal in units
//! of the smallest positive number. Every operation returns the number nearest
//! to the exact result, with ties going to the even ordinal.

use vstd::arithmetic::power2::{
    lemma_pow2_adds, lemma_pow2_pos, lemma_pow2_strictly_increases, lemma_pow2_unfold, pow2,
};
use vstd::prelude::*;

verus! {

/// Number of significand patterns per binade.
pub const BINADE: u64 = 0x0010_0000_0000_0000;

/// The sign bit.
pub const SIGN: u64 = 0x8000_0000_0000_0000;

/// Ordinal of infinity. Larger ordinals are not numbers.
pub const INFINITE: u64 = 0x7ff0_0000_0000_0000;

/// The pattern returned where an operation has no numeric result.
pub const QUIET_NAN: u64 = 0x7ff8_0000_0000_0000;

/// Binary exponent bias that keeps scaled exponents non-negative.
const SCALE: u64 = 1100;

/// Exponent of the smallest positive number.
pub const UNIT: u64 = 1074;

/// A binary64 number as its bit pattern.
#[derive(Clone, Copy, PartialEq, Eq, Hash, Debug, Structural)]
pub struct Float64 {
    pub bits: u64,
}

/// The pattern of one.
pub const ONE: u64 = 0x3ff0_0000_0000_0000;

/// Exact value of an ordinal in units of the smallest positive number.
pub open spec fn magnitude(n: nat) -> nat {
    if n < BINADE {
        n
    } else {
        ((BINADE + n % (BINADE as nat)) * pow2((n / (BINADE as nat) - 1) as nat)) as nat
    }
}

/// Whether ordinal `n` is the nearest to `num / den`, ties going to even.
///
/// Infinity stands for every value at or past the midpoint above the largest
/// finite number.
pub open spec fn nearest(n: nat, num: nat, den: nat) -> bool {
    &&& n <= INFINITE
    &&& n > 0 ==> {
        let low = (magnitude((n - 1) as nat) + magnitude(n)) * den;
        low < 2 * num || (low == 2 * num && n % 2 == 0)
    }
    &&& n < INFINITE ==> {
        let high = (magnitude(n) + magnitude(n + 1)) * den;
        2 * num < high || (2 * num == high && n % 2 == 0)
    }
}

/// The ordinal nearest to `num / den`.
pub open spec fn rounded(num: nat, den: nat) -> nat {
    choose|n: nat| nearest(n, num, den)
}

/// The number of the given sign nearest to `num / den`.
pub open spec fn signed_round(negative: bool, num: nat, den: nat) -> Float64 {
    Float64 { bits: (rounded(num, den) + if negative { SIGN as int } else { 0 }) as u64 }
}

impl Float64 {
    /// Whether the sign bit is set.
    pub open spec fn negative(self) -> bool {
        self.bits >= SIGN
    }

    /// The pattern without its sign bit.
    pub open spec fn ordinal(self) -> nat {
        (self.bits % SIGN) as nat
    }

    pub open spec fn nan(self) -> bool {
        self.ordinal() > INFINITE
    }

    pub open spec fn infinite(self) -> bool {
        self.ordinal() == INFINITE
    }

    pub open spec fn finite(self) -> bool {
        self.ordinal() < INFINITE
    }

    /// The ordinal with its sign. Equal for both zeros.
    pub open spec fn signed_ordinal(self) -> int {
        if self.negative() {
            -(self.ordinal() as int)
        } else {
            self.ordinal() as int
        }
    }

    /// Exact value in units of the smallest positive number.
    pub open spec fn exact(self) -> int {
        if self.negative() {
            -(magnitude(self.ordinal()) as int)
        } else {
            magnitude(self.ordinal()) as int
        }
    }

    pub open spec fn quiet() -> Float64 {
        Float64 { bits: QUIET_NAN }
    }

    pub open spec fn zero_of(negative: bool) -> Float64 {
        Float64 { bits: if negative { SIGN } else { 0 } }
    }

    pub open spec fn infinity_of(negative: bool) -> Float64 {
        Float64 { bits: if negative { (SIGN + INFINITE) as u64 } else { INFINITE } }
    }

    pub open spec fn same(self, other: Float64) -> bool {
        !self.nan() && !other.nan() && self.signed_ordinal() == other.signed_ordinal()
    }

    pub open spec fn below(self, other: Float64) -> bool {
        !self.nan() && !other.nan() && self.signed_ordinal() < other.signed_ordinal()
    }

    pub open spec fn at_most(self, other: Float64) -> bool {
        !self.nan() && !other.nan() && self.signed_ordinal() <= other.signed_ordinal()
    }

    pub open spec fn negated(self) -> Float64 {
        Float64 {
            bits: if self.negative() {
                (self.bits - SIGN) as u64
            } else {
                (self.bits + SIGN) as u64
            },
        }
    }

    pub open spec fn sum_with(self, other: Float64) -> Float64 {
        if self.nan() || other.nan() {
            Float64::quiet()
        } else if self.infinite() {
            if other.infinite() && self.negative() != other.negative() {
                Float64::quiet()
            } else {
                self
            }
        } else if other.infinite() {
            other
        } else {
            let total = self.exact() + other.exact();
            if total == 0 {
                Float64::zero_of(self.negative() && other.negative())
            } else {
                signed_round(total < 0, abs(total), 1)
            }
        }
    }

    pub open spec fn product_with(self, other: Float64) -> Float64 {
        let negative = self.negative() != other.negative();
        if self.nan() || other.nan() {
            Float64::quiet()
        } else if self.infinite() || other.infinite() {
            if self.ordinal() == 0 || other.ordinal() == 0 {
                Float64::quiet()
            } else {
                Float64::infinity_of(negative)
            }
        } else {
            signed_round(
                negative,
                magnitude(self.ordinal()) * magnitude(other.ordinal()),
                pow2(UNIT as nat),
            )
        }
    }

    pub open spec fn quotient_by(self, other: Float64) -> Float64 {
        let negative = self.negative() != other.negative();
        if self.nan() || other.nan() || (self.infinite() && other.infinite()) || (self.ordinal()
            == 0 && other.ordinal() == 0) {
            Float64::quiet()
        } else if self.infinite() || other.ordinal() == 0 {
            Float64::infinity_of(negative)
        } else if other.infinite() {
            Float64::zero_of(negative)
        } else {
            signed_round(
                negative,
                magnitude(self.ordinal()) * pow2(UNIT as nat),
                magnitude(other.ordinal()),
            )
        }
    }

    /// The number nearest to an integer.
    pub open spec fn of_int(value: int) -> Float64 {
        signed_round(value < 0, abs(value) * pow2(UNIT as nat), 1)
    }

    /// A duration in microseconds as seconds: the whole seconds plus the
    /// nanoseconds left over divided by their number per second.
    pub open spec fn seconds(micros: u64) -> Float64 {
        Float64::of_int(micros as int / 1_000_000).sum_with(
            Float64::of_int((micros as int % 1_000_000) * 1_000).quotient_by(
                Float64::of_int(1_000_000_000),
            ),
        )
    }

    pub open spec fn absolute(self) -> Float64 {
        Float64 { bits: self.ordinal() as u64 }
    }

    /// The larger number, or the one that is a number.
    pub open spec fn larger(self, other: Float64) -> Float64 {
        if self.nan() || self.below(other) {
            other
        } else {
            self
        }
    }

    /// Position in the total order of patterns.
    pub open spec fn total_rank(self) -> int {
        if self.negative() {
            -1 - self.ordinal()
        } else {
            self.ordinal() as int
        }
    }
}

pub open spec fn abs(value: int) -> nat {
    if value < 0 {
        (-value) as nat
    } else {
        value as nat
    }
}

// Magnitudes.

/// Magnitudes grow with their ordinals.
pub proof fn lemma_magnitude_step(n: nat)
    ensures
        magnitude(n) < magnitude(n + 1),
{
    let b = BINADE as nat;
    if n + 1 < b {
    } else if n + 1 == b {
        assert(n + 1 == b);
        assert((n + 1) % b == 0 && (n + 1) / b == 1);
        assert(pow2(0) == 1) by {
            vstd::arithmetic::power2::lemma2_to64();
        }
        assert(magnitude(n + 1) == (b + 0) * pow2(0));
    } else {
        let e = (n / b - 1) as nat;
        lemma_pow2_pos(e);
        if n % b + 1 < b {
            assert((n + 1) / b == n / b && (n + 1) % b == n % b + 1);
            assert((b + n % b + 1) * pow2(e) == (b + n % b) * pow2(e) + pow2(e))
                by (nonlinear_arith);
        } else {
            assert((n + 1) / b == n / b + 1 && (n + 1) % b == 0);
            lemma_pow2_unfold(e + 1);
            assert(b * (2 * pow2(e)) == (b + (b - 1)) * pow2(e) + pow2(e)) by (nonlinear_arith);
            assert(n % b == b - 1);
        }
    }
}

/// Magnitudes keep the order of their ordinals.
pub proof fn lemma_magnitude_order(a: nat, b: nat)
    ensures
        a < b ==> magnitude(a) < magnitude(b),
        a <= b ==> magnitude(a) <= magnitude(b),
    decreases b,
{
    if a < b {
        lemma_magnitude_step((b - 1) as nat);
        lemma_magnitude_order(a, (b - 1) as nat);
    }
}

/// At most one ordinal is nearest to a value.
pub proof fn lemma_nearest_unique(a: nat, b: nat, num: nat, den: nat)
    requires
        den > 0,
        nearest(a, num, den),
        nearest(b, num, den),
    ensures
        a == b,
{
    lemma_nearest_not_above(a, b, num, den);
    lemma_nearest_not_above(b, a, num, den);
}

proof fn lemma_nearest_not_above(a: nat, b: nat, num: nat, den: nat)
    requires
        den > 0,
        nearest(a, num, den),
        nearest(b, num, den),
    ensures
        b <= a,
{
    if a < b {
        let below = magnitude(a) + magnitude(a + 1);
        let above = magnitude((b - 1) as nat) + magnitude(b);
        lemma_magnitude_order(a, (b - 1) as nat);
        lemma_magnitude_order(a + 1, b);
        assert(above * den <= below * den);
        if a + 1 < b {
            assert(below < above);
            assert(below * den < above * den) by (nonlinear_arith)
                requires
                    below < above,
                    den > 0,
            ;
        }
    }
}

/// A nearest ordinal is the rounded one.
pub proof fn lemma_rounded(n: nat, num: nat, den: nat)
    requires
        den > 0,
        nearest(n, num, den),
    ensures
        rounded(num, den) == n,
{
    lemma_nearest_unique(n, rounded(num, den), num, den);
}

/// The ordinal `q` steps into the grid of spacing `2^e`.
proof fn lemma_place(e: nat, q: nat)
    requires
        q <= 2 * BINADE,
        q >= BINADE || e == 0,
    ensures
        magnitude((e * BINADE + q) as nat) == q * pow2(e),
{
    let b = BINADE as nat;
    let n = (e * b + q) as nat;
    vstd::arithmetic::power2::lemma2_to64();
    if q < b {
        assert(n == q);
        assert(q * pow2(0) == q) by (nonlinear_arith)
            requires
                pow2(0) == 1,
        ;
    } else if q < 2 * b {
        assert(n / b == e + 1 && n % b == q - b) by (nonlinear_arith)
            requires
                n == e * b + q,
                b <= q < 2 * b,
                b > 0,
        ;
    } else {
        assert(n / b == e + 2 && n % b == 0) by (nonlinear_arith)
            requires
                n == e * b + q,
                q == 2 * b,
                b > 0,
        ;
        lemma_pow2_unfold(e + 1);
        assert(b * (2 * pow2(e)) == (2 * b) * pow2(e)) by (nonlinear_arith);
    }
}

/// Rounding of a value that lies in the cell of `q` on the grid of `2^e`.
proof fn lemma_cell(e: nat, q: nat, up: bool, num: nat, den: nat)
    requires
        den > 0,
        q < 2 * BINADE,
        q >= BINADE || e == 0,
        q * pow2(e) * den <= num < (q + 1) * pow2(e) * den,
        up == (2 * num > (2 * q + 1) * pow2(e) * den || (2 * num == (2 * q + 1) * pow2(e) * den && q
            % 2 == 1)),
    ensures
        ({
            let n = e * BINADE + q + if up { 1int } else { 0 };
            nearest(if n < INFINITE { n as nat } else { INFINITE as nat }, num, den)
        }),
{
    let b = BINADE as nat;
    let base = (e * b + q) as nat;
    let p = pow2(e);
    lemma_place(e, q);
    lemma_place(e, q + 1);
    assert(e * b + (q + 1) == base + 1);
    assert(base % 2 == q % 2) by (nonlinear_arith)
        requires
            base == e * b + q,
            b == 0x0010_0000_0000_0000,
    ;
    let lower = magnitude(base);
    let upper = magnitude(base + 1);
    assert((2 * q + 1) * p * den == (lower + upper) * den) by (nonlinear_arith)
        requires
            lower == q * p,
            upper == (q + 1) * p,
    ;
    lemma_magnitude_step(base + 1);
    let beyond = magnitude(base + 2);
    assert(2 * num < (upper + beyond) * den) by (nonlinear_arith)
        requires
            num < upper * den,
            upper < beyond,
            den > 0,
    ;
    if base > 0 {
        lemma_magnitude_step((base - 1) as nat);
        let before = magnitude((base - 1) as nat);
        assert((before + lower) * den < 2 * num) by (nonlinear_arith)
            requires
                lower * den <= num,
                before < lower,
                den > 0,
        ;
    }
    let n = (base + if up { 1int } else { 0 }) as nat;
    if n >= INFINITE {
        let cap = INFINITE as nat;
        lemma_magnitude_order((cap - 1) as nat, (n - 1) as nat);
        lemma_magnitude_order(cap, n);
        let capped = magnitude((cap - 1) as nat) + magnitude(cap);
        let reached = magnitude((n - 1) as nat) + magnitude(n);
        assert(capped * den <= reached * den) by (nonlinear_arith)
            requires
                capped <= reached,
        ;
    }
}

/// Whether `(m + fraction) * 2^e` is `num / den` scaled by `2^SCALE`, where the
/// fraction is zero unless `sticky` is set, and then lies strictly between
/// zero and one.
spec fn scaled(m: nat, e: nat, sticky: bool, num: nat, den: nat) -> bool {
    let unit = pow2(e) * den;
    &&& den > 0
    &&& m * unit <= num * pow2(SCALE as nat) < (m + 1) * unit
    &&& sticky == (m * unit < num * pow2(SCALE as nat))
}

proof fn lemma_scaled_cell(
    m: nat,
    e: nat,
    sticky: bool,
    grid: nat,
    t: nat,
    q: nat,
    num: nat,
    den: nat,
)
    requires
        scaled(m, e, sticky, num, den),
        e + t == grid + SCALE,
        q == m / pow2(t),
        sticky ==> t > 0,
    ensures
        q * pow2(grid) * den <= num < (q + 1) * pow2(grid) * den,
        t > 0 ==> {
            let rest = m % pow2(t);
            let half = pow2((t - 1) as nat);
            &&& rest < half ==> 2 * num < (2 * q + 1) * pow2(grid) * den
            &&& rest > half ==> 2 * num > (2 * q + 1) * pow2(grid) * den
            &&& rest == half && sticky ==> 2 * num > (2 * q + 1) * pow2(grid) * den
            &&& rest == half && !sticky ==> 2 * num == (2 * q + 1) * pow2(grid) * den
        },
        t == 0 ==> 2 * num < (2 * q + 1) * pow2(grid) * den,
{
    let pe = pow2(e);
    let pt = pow2(t);
    let pg = pow2(grid);
    let ps = pow2(SCALE as nat);
    let unit = pe * den;
    let x = num * ps;
    let r = m % pt;
    lemma_pow2_pos(e);
    lemma_pow2_pos(t);
    lemma_pow2_pos(grid);
    lemma_pow2_pos(SCALE as nat);
    lemma_pow2_adds(t, e);
    lemma_pow2_adds(grid, SCALE as nat);
    assert(pt * pe == pg * ps);
    vstd::arithmetic::div_mod::lemma_fundamental_div_mod(m as int, pt as int);
    assert(m == q * pt + r) by (nonlinear_arith)
        requires
            m == pt * (m / pt) + m % pt,
            q == m / pt,
            r == m % pt,
    ;
    assert(r < pt);
    assert(unit > 0) by (nonlinear_arith)
        requires
            pe > 0,
            den > 0,
            unit == pe * den,
    ;
    let cell = pg * den;
    assert(q * pg * den == q * cell) by (nonlinear_arith)
        requires
            cell == pg * den,
    ;
    assert((q + 1) * pg * den == (q + 1) * cell) by (nonlinear_arith)
        requires
            cell == pg * den,
    ;
    assert((2 * q + 1) * pg * den == (2 * q + 1) * cell) by (nonlinear_arith)
        requires
            cell == pg * den,
    ;
    // One cell, scaled, spans 2^t units.
    assert(cell * ps == pt * unit) by (nonlinear_arith)
        requires
            cell == pg * den,
            unit == pe * den,
            pt * pe == pg * ps,
    ;
    assert((q * cell) * ps == (q * pt) * unit) by (nonlinear_arith)
        requires
            cell * ps == pt * unit,
    ;
    assert(((q + 1) * cell) * ps == (q * pt + pt) * unit) by (nonlinear_arith)
        requires
            cell * ps == pt * unit,
    ;
    assert((q * pt) * unit <= m * unit) by (nonlinear_arith)
        requires
            m == q * pt + r,
            unit > 0,
            r >= 0,
    ;
    assert((m + 1) * unit <= (q * pt + pt) * unit) by (nonlinear_arith)
        requires
            m == q * pt + r,
            r + 1 <= pt,
            unit > 0,
    ;
    lemma_cancel(q * cell, num, ps);
    lemma_cancel(num + 0, (q + 1) * cell, ps);
    assert(((2 * q + 1) * cell) * ps == (2 * (q * pt) + pt) * unit) by (nonlinear_arith)
        requires
            cell * ps == pt * unit,
    ;
    assert((2 * num) * ps == 2 * x) by (nonlinear_arith)
        requires
            x == num * ps,
    ;
    if t > 0 {
        let h = pow2((t - 1) as nat);
        lemma_pow2_unfold(t);
        lemma_pow2_pos((t - 1) as nat);
        let mid = ((q * pt) + h) * unit;
        assert((2 * (q * pt) + pt) * unit == 2 * mid) by (nonlinear_arith)
            requires
                pt == 2 * h,
                mid == ((q * pt) + h) * unit,
        ;
        if r < h {
            assert((m + 1) * unit <= mid) by (nonlinear_arith)
                requires
                    m == q * pt + r,
                    r + 1 <= h,
                    unit > 0,
                    mid == ((q * pt) + h) * unit,
            ;
        } else if r > h {
            assert(m * unit > mid) by (nonlinear_arith)
                requires
                    m == q * pt + r,
                    r > h,
                    unit > 0,
                    mid == ((q * pt) + h) * unit,
            ;
        } else {
            assert(m * unit == mid);
        }
    } else {
        vstd::arithmetic::power2::lemma2_to64();
        assert((2 * (q * pt) + pt) * unit > 2 * (m * unit)) by (nonlinear_arith)
            requires
                m == q * pt + r,
                r < pt,
                pt == 1,
                unit > 0,
        ;
    }
    lemma_cancel(2 * num, (2 * q + 1) * cell, ps);
    lemma_cancel((2 * q + 1) * cell, 2 * num, ps);
}

proof fn lemma_cancel(a: nat, b: nat, k: nat)
    requires
        k > 0,
    ensures
        a * k < b * k ==> a < b,
        a * k <= b * k ==> a <= b,
        a * k == b * k ==> a == b,
{
    assert(a * k < b * k ==> a < b) by (nonlinear_arith);
    assert(a * k <= b * k ==> a <= b) by (nonlinear_arith)
        requires
            k > 0,
    ;
    assert(a * k == b * k ==> a == b) by (nonlinear_arith)
        requires
            k > 0,
    ;
}

proof fn lemma_regroup(a: nat, b: nat, c: nat)
    ensures
        a * pow2(b + c) == (a * pow2(b)) * pow2(c),
        pow2(b + c) == pow2(b) * pow2(c),
{
    lemma_pow2_adds(b, c);
    assert(a * (pow2(b) * pow2(c)) == (a * pow2(b)) * pow2(c)) by (nonlinear_arith);
}

/// Fixed powers of two used as bounds.
proof fn lemma_powers()
    ensures
        pow2(52) == BINADE,
        pow2(53) == 2 * BINADE,
        pow2(54) == 4 * BINADE,
        pow2(70) == 0x40_0000_0000_0000_0000,
        pow2(116) == 0x10_0000_0000_0000_0000_0000_0000_0000,
        pow2(123) == 0x0800_0000_0000_0000_0000_0000_0000_0000,
        pow2(124) == 0x1000_0000_0000_0000_0000_0000_0000_0000,
        pow2(126) == 0x4000_0000_0000_0000_0000_0000_0000_0000,
{
    vstd::arithmetic::power2::lemma2_to64();
    vstd::arithmetic::power2::lemma2_to64_rest();
    lemma_pow2_adds(64, 6);
    lemma_pow2_adds(64, 52);
    lemma_pow2_adds(64, 59);
    lemma_pow2_adds(64, 60);
    lemma_pow2_adds(64, 62);
}

/// The power of two `2^t`.
fn power(t: u64) -> (p: u128)
    requires
        t <= 126,
    ensures
        p == pow2(t as nat),
{
    let mut i: u64 = 0;
    let mut p: u128 = 1;
    proof {
        vstd::arithmetic::power2::lemma2_to64();
    }
    while i < t
        invariant
            i <= t <= 126,
            p == pow2(i as nat),
        decreases t - i,
    {
        proof {
            lemma_powers();
            lemma_pow2_unfold((i + 1) as nat);
            if i < 125 {
                lemma_pow2_strictly_increases((i + 1) as nat, 126);
            }
        }
        p = p * 2;
        i = i + 1;
    }
    p
}

/// Number of bits of a positive integer.
fn bit_length(m: u128) -> (l: u64)
    requires
        0 < m < pow2(124),
    ensures
        1 <= l <= 124,
        pow2((l - 1) as nat) <= m < pow2(l as nat),
{
    let mut l: u64 = 1;
    let mut p: u128 = 2;
    proof {
        vstd::arithmetic::power2::lemma2_to64();
    }
    while p <= m
        invariant
            1 <= l <= 124,
            p == pow2(l as nat),
            pow2((l - 1) as nat) <= m < pow2(124),
        decreases 124 - l,
    {
        proof {
            lemma_powers();
            lemma_pow2_unfold((l + 1) as nat);
            if l < 123 {
                lemma_pow2_strictly_increases((l + 1) as nat, 124);
            }
        }
        p = p * 2;
        l = l + 1;
    }
    l
}

proof fn lemma_quotient_range(m: nat, l: nat, t: nat)
    requires
        l >= 1,
        pow2((l - 1) as nat) <= m < pow2(l),
    ensures
        l <= t + 53 ==> m / pow2(t) < 2 * BINADE,
        l == t + 53 ==> m / pow2(t) >= BINADE,
{
    let pt = pow2(t);
    lemma_pow2_pos(t);
    lemma_powers();
    lemma_pow2_adds(t, 53);
    if l < t + 53 {
        lemma_pow2_strictly_increases(l, t + 53);
    }
    if l <= t + 53 {
        assert(m < pt * (2 * BINADE));
        assert(m / pt < 2 * BINADE) by (nonlinear_arith)
            requires
                m < pt * (2 * BINADE),
                pt > 0,
        ;
    }
    if l == t + 53 {
        lemma_pow2_adds(t, 52);
        assert((l - 1) as nat == t + 52);
        assert(m / pt >= BINADE) by (nonlinear_arith)
            requires
                m >= pt * BINADE,
                pt > 0,
        ;
    }
}

/// Rounds a scaled significand to the nearest ordinal.
fn pack(m: u128, e: u64, sticky: bool) -> (n: u64)
    requires
        m < pow2(124),
        e <= 10_000,
        sticky ==> m >= pow2(54),
    ensures
        n <= INFINITE,
        forall|num: nat, den: nat| #[trigger]
            scaled(m as nat, e as nat, sticky, num, den) ==> nearest(n as nat, num, den),
{
    proof {
        lemma_powers();
    }
    if m == 0 {
        assert forall|num: nat, den: nat| #[trigger]
            scaled(m as nat, e as nat, sticky, num, den) implies nearest(0, num, den) by {
            let ps = pow2(SCALE as nat);
            lemma_pow2_pos(SCALE as nat);
            assert(num == 0) by (nonlinear_arith)
                requires
                    num * ps <= 0,
                    ps > 0,
            ;
            assert(magnitude(0) == 0 && magnitude(1) == 1);
            assert((0 + 1) * den > 0) by (nonlinear_arith)
                requires
                    den > 0,
            ;
        }
        return 0;
    }
    let l: u64 = bit_length(m);
    proof {
        if sticky && l < 55 {
            if l < 54 {
                lemma_pow2_strictly_increases(l as nat, 54);
            }
        }
    }
    let grid: u64 = if e + l > SCALE + 53 {
        e + l - SCALE - 53
    } else {
        0
    };
    if grid + SCALE < e {
        let up: u64 = e - grid - SCALE;
        proof {
            assert(up <= 53 - l);
        }
        proof {
            lemma_pow2_adds(up as nat, (53 - up) as nat);
            lemma_pow2_pos(up as nat);
            if l < 53 - up {
                lemma_pow2_strictly_increases(l as nat, (53 - up) as nat);
            }
            assert(m * pow2(up as nat) < pow2(53)) by (nonlinear_arith)
                requires
                    m < pow2((53 - up) as nat),
                    pow2(53) == pow2(up as nat) * pow2((53 - up) as nat),
                    pow2(up as nat) > 0,
            ;
            if grid > 0 {
                lemma_pow2_adds((l - 1) as nat, up as nat);
                assert(m * pow2(up as nat) >= pow2(52)) by (nonlinear_arith)
                    requires
                        m >= pow2((l - 1) as nat),
                        pow2(52) == pow2((l - 1) as nat) * pow2(up as nat),
                ;
            }
        }
        let factor: u128 = power(up);
        let q: u128 = m * factor;
        if grid >= 2046 {
            proof {
                assert forall|num: nat, den: nat| #[trigger]
                    scaled(m as nat, e as nat, sticky, num, den) implies nearest(
                    INFINITE as nat,
                    num,
                    den,
                ) by {
                    lemma_exact_cell(m as nat, e as nat, grid as nat, up as nat, num, den);
                    lemma_cell(grid as nat, q as nat, false, num, den);
                }
            }
            return INFINITE;
        }
        proof {
            assert forall|num: nat, den: nat| #[trigger]
                scaled(m as nat, e as nat, sticky, num, den) implies nearest(
                if grid * BINADE + q < INFINITE {
                    (grid * BINADE + q) as nat
                } else {
                    INFINITE as nat
                },
                num,
                den,
            ) by {
                lemma_exact_cell(m as nat, e as nat, grid as nat, up as nat, num, den);
                lemma_cell(grid as nat, q as nat, false, num, den);
            }
        }
        let n: u64 = grid * BINADE + q as u64;
        return if n < INFINITE {
            n
        } else {
            INFINITE
        };
    }
    let t: u64 = grid + SCALE - e;
    if t >= 126 {
        proof {
            assert(grid == 0);
            assert forall|num: nat, den: nat| #[trigger]
                scaled(m as nat, e as nat, sticky, num, den) implies nearest(0, num, den) by {
                lemma_pow2_pos(t as nat);
                if t > 126 {
                    lemma_pow2_strictly_increases(126, t as nat);
                }
                assert(m as nat / pow2(t as nat) == 0) by {
                    vstd::arithmetic::div_mod::lemma_basic_div(m as int, pow2(t as nat) as int);
                }
                assert(m as nat % pow2(t as nat) == m) by {
                    vstd::arithmetic::div_mod::lemma_small_mod(m as nat, pow2(t as nat));
                }
                lemma_pow2_unfold(t as nat);
                lemma_scaled_cell(m as nat, e as nat, sticky, 0, t as nat, 0, num, den);
                lemma_cell(0, 0, false, num, den);
            }
        }
        return 0;
    }
    let unit: u128 = power(t);
    proof {
        lemma_pow2_pos(t as nat);
    }
    let q: u128 = m / unit;
    let rest: u128 = m % unit;
    let half: u128 = unit / 2;
    let up: bool = t > 0 && (rest > half || (rest == half && (sticky || q % 2 == 1)));
    proof {
        lemma_quotient_range(m as nat, l as nat, t as nat);
        if t > 0 {
            lemma_pow2_unfold(t as nat);
        }
        assert forall|num: nat, den: nat| #[trigger]
            scaled(m as nat, e as nat, sticky, num, den) implies nearest(
            if grid * BINADE + q + (if up { 1int } else { 0 }) < INFINITE {
                (grid * BINADE + q + (if up { 1int } else { 0 })) as nat
            } else {
                INFINITE as nat
            },
            num,
            den,
        ) by {
            lemma_scaled_cell(m as nat, e as nat, sticky, grid as nat, t as nat, q as nat, num, den);
            lemma_cell(grid as nat, q as nat, up, num, den);
        }
    }
    if grid >= 2046 {
        return INFINITE;
    }
    let n: u64 = grid * BINADE + q as u64 + if up {
        1u64
    } else {
        0u64
    };
    if n < INFINITE {
        n
    } else {
        INFINITE
    }
}

/// A value that falls on the grid without remainder.
proof fn lemma_exact_cell(m: nat, e: nat, grid: nat, up: nat, num: nat, den: nat)
    requires
        scaled(m, e, false, num, den),
        e == grid + SCALE + up,
    ensures
        ({
            let q = m * pow2(up);
            &&& q * pow2(grid) * den <= num < (q + 1) * pow2(grid) * den
            &&& 2 * num < (2 * q + 1) * pow2(grid) * den
        }),
{
    let pe = pow2(e);
    let pg = pow2(grid);
    let ps = pow2(SCALE as nat);
    let pu = pow2(up);
    let q = m * pu;
    lemma_pow2_pos(grid);
    lemma_pow2_pos(SCALE as nat);
    lemma_pow2_adds(grid + SCALE as nat, up);
    lemma_pow2_adds(grid, SCALE as nat);
    assert(pe == (pg * ps) * pu);
    assert(m * (pe * den) == (q * pg * den) * ps) by (nonlinear_arith)
        requires
            pe == (pg * ps) * pu,
            q == m * pu,
    ;
    lemma_cancel(q * pg * den, num, ps);
    assert((q + 1) * pg * den > q * pg * den && (2 * q + 1) * pg * den > 2 * (q * pg * den))
        by (nonlinear_arith)
        requires
            pg > 0,
            den > 0,
    ;
}

/// Significand and exponent of a finite ordinal.
fn unpack(n: u64) -> (r: (u64, u64))
    requires
        n < INFINITE,
    ensures
        magnitude(n as nat) == r.0 * pow2(r.1 as nat),
        r.0 < 2 * BINADE,
        r.1 <= 2045,
        r.1 > 0 ==> r.0 >= BINADE,
        r.0 == 0 <==> n == 0,
        r.1 == if n < BINADE {
            0
        } else {
            n / BINADE - 1
        },
{
    if n < BINADE {
        proof {
            vstd::arithmetic::power2::lemma2_to64();
            assert(n * pow2(0) == n) by (nonlinear_arith)
                requires
                    pow2(0) == 1,
            ;
        }
        (n, 0)
    } else {
        (BINADE + n % BINADE, n / BINADE - 1)
    }
}

proof fn lemma_signed(n: u64, negative: bool, num: nat, den: nat)
    requires
        den > 0,
        nearest(n as nat, num, den),
    ensures
        signed_round(negative, num, den) == (Float64 {
            bits: (n + if negative { SIGN as int } else { 0 }) as u64,
        }),
{
    lemma_rounded(n as nat, num, den);
}

/// Two aligned significands share one scaled unit.
proof fn lemma_aligned(ma: nat, ea: nat, mb: nat, eb: nat, k: nat, w: nat)
    requires
        k <= ea,
        ea - k == eb + w,
    ensures
        ({
            let base = pow2((ea - k) as nat);
            let lo = mb / pow2(w);
            let rem = mb % pow2(w);
            &&& ma * pow2(ea) == (ma * pow2(k)) * base
            &&& mb * pow2(eb) == lo * base + rem * pow2(eb)
            &&& 0 <= rem * pow2(eb) < base
            &&& (rem > 0) == (rem * pow2(eb) > 0)
        }),
{
    let base = pow2((ea - k) as nat);
    let lo = mb / pow2(w);
    let rem = mb % pow2(w);
    let pw = pow2(w);
    let pb = pow2(eb);
    lemma_regroup(ma, k, (ea - k) as nat);
    assert(k + (ea - k) as nat == ea);
    lemma_pow2_adds(eb, w);
    lemma_pow2_pos(w);
    lemma_pow2_pos(eb);
    vstd::arithmetic::div_mod::lemma_fundamental_div_mod(mb as int, pw as int);
    assert(mb * pb == lo * (pb * pw) + rem * pb) by (nonlinear_arith)
        requires
            mb == pw * lo + rem,
    ;
    assert(rem * pb < pb * pw) by (nonlinear_arith)
        requires
            rem < pw,
            pb > 0,
    ;
    assert((rem > 0) == (rem * pb > 0)) by (nonlinear_arith)
        requires
            pb > 0,
    ;
}

/// The rounded sum or difference of two magnitudes, the larger one first.
fn combine(a: u64, b: u64, subtract: bool) -> (n: u64)
    requires
        b <= a < INFINITE,
    ensures
        n <= INFINITE,
        nearest(
            n as nat,
            if subtract {
                (magnitude(a as nat) - magnitude(b as nat)) as nat
            } else {
                magnitude(a as nat) + magnitude(b as nat)
            },
            1,
        ),
{
    let (ma, ea) = unpack(a);
    let (mb, eb) = unpack(b);
    proof {
        lemma_powers();
        lemma_magnitude_order(b as nat, a as nat);
        assert(eb <= ea);
    }
    let d: u64 = ea - eb;
    let k: u64 = if d <= 70 {
        d
    } else {
        70
    };
    let w: u64 = d - k;
    let step: u128 = power(k);
    proof {
        if k < 70 {
            lemma_pow2_strictly_increases(k as nat, 70);
        }
        lemma_pow2_pos(k as nat);
        assert(ma * pow2(k as nat) < pow2(123)) by (nonlinear_arith)
            requires
                ma < 2 * BINADE,
                pow2(k as nat) <= pow2(70),
                pow2(70) == 0x40_0000_0000_0000_0000,
                pow2(123) == 0x0800_0000_0000_0000_0000_0000_0000_0000,
        ;
    }
    let hi: u128 = ma as u128 * step;
    let (lo, lost): (u64, bool) = if w >= 64 {
        proof {
            lemma_pow2_strictly_increases(53, w as nat);
            vstd::arithmetic::div_mod::lemma_basic_div(mb as int, pow2(w as nat) as int);
            vstd::arithmetic::div_mod::lemma_small_mod(mb as nat, pow2(w as nat));
        }
        (0, mb > 0)
    } else {
        let span: u128 = power(w);
        proof {
            lemma_pow2_pos(w as nat);
            vstd::arithmetic::div_mod::lemma_div_nonincreasing(mb as int, pow2(w as nat) as int);
        }
        let part: u128 = mb as u128 / span;
        (part as u64, mb as u128 % span > 0)
    };
    proof {
        lemma_aligned(ma as nat, ea as nat, mb as nat, eb as nat, k as nat, w as nat);
        lemma_pow2_adds((ea - k) as nat, SCALE as nat);
        lemma_pow2_pos(SCALE as nat);
        lemma_pow2_pos((ea - k) as nat);
        lemma_pow2_pos(w as nat);
        vstd::arithmetic::div_mod::lemma_div_nonincreasing(mb as int, pow2(w as nat) as int);
        if w == 0 {
            vstd::arithmetic::power2::lemma2_to64();
        }
        if lost {
            assert(w > 0);
            lemma_pow2_adds(52, 70);
            assert(hi >= pow2(122)) by (nonlinear_arith)
                requires
                    hi == ma * pow2(70),
                    ma >= pow2(52),
                    pow2(122) == pow2(52) * pow2(70),
            ;
            lemma_pow2_strictly_increases(54, 122);
            lemma_pow2_strictly_increases(55, 122);
            lemma_pow2_unfold(55);
        }
    }
    let ghost base = pow2((ea - k) as nat);
    let ghost tail = (mb as nat % pow2(w as nat)) * pow2(eb as nat);
    let ghost ps = pow2(SCALE as nat);
    assert(pow2((ea - k + SCALE) as nat) * 1 == base * ps);
    assert(lo == mb as nat / pow2(w as nat));
    assert(lost == (mb as nat % pow2(w as nat) > 0));
    if subtract {
        proof {
            lemma_difference(hi as nat, lo as nat, tail, base, ps);
        }
        let m: u128 = hi - lo as u128 - if lost {
            1u128
        } else {
            0u128
        };
        let ghost num = (magnitude(a as nat) - magnitude(b as nat)) as nat;
        assert(scaled(m as nat, (ea - k + SCALE) as nat, lost, num, 1));
        pack(m, ea - k + SCALE, lost)
    } else {
        proof {
            lemma_sum(hi as nat, lo as nat, tail, base, ps);
        }
        let m: u128 = hi + lo as u128;
        let ghost num = magnitude(a as nat) + magnitude(b as nat);
        assert(scaled(m as nat, (ea - k + SCALE) as nat, lost, num, 1));
        pack(m, ea - k + SCALE, lost)
    }
}

proof fn lemma_sum(hi: nat, lo: nat, tail: nat, base: nat, ps: nat)
    requires
        tail < base,
        ps > 0,
    ensures
        ({
            let m = hi + lo;
            let num = hi * base + (lo * base + tail);
            let unit = base * ps;
            &&& m * unit <= num * ps < (m + 1) * unit
            &&& (m * unit < num * ps) == (tail > 0)
        }),
{
    let m = hi + lo;
    let num = hi * base + (lo * base + tail);
    assert(num * ps == m * (base * ps) + tail * ps) by (nonlinear_arith)
        requires
            m == hi + lo,
            num == hi * base + (lo * base + tail),
    ;
    assert((m + 1) * (base * ps) == m * (base * ps) + base * ps) by (nonlinear_arith);
    lemma_tail(tail, base, ps);
}

proof fn lemma_tail(tail: nat, base: nat, ps: nat)
    requires
        tail < base,
        ps > 0,
    ensures
        tail * ps < base * ps,
        (tail * ps > 0) == (tail > 0),
        (base - tail) * ps == base * ps - tail * ps,
{
    assert(tail * ps < base * ps) by (nonlinear_arith)
        requires
            tail < base,
            ps > 0,
    ;
    assert((tail * ps > 0) == (tail > 0)) by (nonlinear_arith)
        requires
            ps > 0,
    ;
    assert((base - tail) * ps == base * ps - tail * ps) by (nonlinear_arith);
}

proof fn lemma_difference(hi: nat, lo: nat, tail: nat, base: nat, ps: nat)
    requires
        tail < base,
        ps > 0,
        hi * base >= lo * base + tail,
    ensures
        ({
            let m = hi - lo - if tail > 0 { 1int } else { 0 };
            let num = hi * base - (lo * base + tail);
            let unit = base * ps;
            &&& m >= 0
            &&& m * unit <= num * ps < (m + 1) * unit
            &&& (m * unit < num * ps) == (tail > 0)
        }),
{
    let top = hi - lo;
    let num = hi * base - (lo * base + tail);
    assert(top * base >= tail) by (nonlinear_arith)
        requires
            hi * base >= lo * base + tail,
            top == hi - lo,
    ;
    assert(top >= 0 && (tail > 0 ==> top >= 1)) by (nonlinear_arith)
        requires
            top * base >= tail,
            base > 0,
            tail >= 0,
    ;
    let unit = base * ps;
    assert(num * ps == top * unit - tail * ps) by (nonlinear_arith)
        requires
            num == hi * base - (lo * base + tail),
            top == hi - lo,
            unit == base * ps,
    ;
    assert((top - 1) * unit == top * unit - unit) by (nonlinear_arith);
    assert((top + 1) * unit == top * unit + unit) by (nonlinear_arith);
    lemma_tail(tail, base, ps);
}

impl Float64 {
    pub fn from_bits(bits: u64) -> (r: Float64)
        ensures
            r.bits == bits,
    {
        Float64 { bits }
    }

    pub fn to_bits(self) -> (r: u64)
        ensures
            r == self.bits,
    {
        self.bits
    }

    pub fn is_finite(self) -> (r: bool)
        ensures
            r == self.finite(),
    {
        self.bits % SIGN < INFINITE
    }

    pub fn is_nan(self) -> (r: bool)
        ensures
            r == self.nan(),
    {
        self.bits % SIGN > INFINITE
    }

    fn is_negative(self) -> (r: bool)
        ensures
            r == self.negative(),
    {
        self.bits >= SIGN
    }

    /// IEEE equality: both zeros are equal, and nothing equals a NaN.
    pub fn equals(self, other: Float64) -> (r: bool)
        ensures
            r == self.same(other),
    {
        let a: u64 = self.bits % SIGN;
        let b: u64 = other.bits % SIGN;
        a <= INFINITE && b <= INFINITE && (self.bits == other.bits || (a == 0 && b == 0))
    }

    /// IEEE `<`.
    pub fn less(self, other: Float64) -> (r: bool)
        ensures
            r == self.below(other),
    {
        let a: u64 = self.bits % SIGN;
        let b: u64 = other.bits % SIGN;
        if a > INFINITE || b > INFINITE {
            false
        } else if self.is_negative() {
            if other.is_negative() {
                b < a
            } else {
                a > 0 || b > 0
            }
        } else {
            !other.is_negative() && a < b
        }
    }

    /// IEEE `<=`.
    pub fn less_or_equal(self, other: Float64) -> (r: bool)
        ensures
            r == self.at_most(other),
    {
        !self.is_nan() && !other.is_nan() && !other.less(self)
    }

    pub fn neg(self) -> (r: Float64)
        ensures
            r == self.negated(),
    {
        if self.bits >= SIGN {
            Float64 { bits: self.bits - SIGN }
        } else {
            Float64 { bits: self.bits + SIGN }
        }
    }

    pub fn abs(self) -> (r: Float64)
        ensures
            r == self.absolute(),
    {
        Float64 { bits: self.bits % SIGN }
    }

    pub fn max(self, other: Float64) -> (r: Float64)
        ensures
            r == self.larger(other),
    {
        if self.is_nan() || self.less(other) {
            other
        } else {
            self
        }
    }

    /// IEEE addition.
    pub fn plus(self, other: Float64) -> (r: Float64)
        ensures
            r == self.sum_with(other),
    {
        if self.is_nan() || other.is_nan() {
            return Float64 { bits: QUIET_NAN };
        }
        let a: u64 = self.bits % SIGN;
        let b: u64 = other.bits % SIGN;
        if a == INFINITE {
            return if b == INFINITE && self.is_negative() != other.is_negative() {
                Float64 { bits: QUIET_NAN }
            } else {
                self
            };
        }
        if b == INFINITE {
            return other;
        }
        let subtract: bool = self.is_negative() != other.is_negative();
        proof {
            lemma_magnitude_order(a as nat, b as nat);
            lemma_magnitude_order(b as nat, a as nat);
            assert(magnitude(0) == 0);
            lemma_magnitude_order(0, a as nat);
            lemma_magnitude_order(0, b as nat);
        }
        if (subtract && a == b) || (a == 0 && b == 0) {
            return Float64 {
                bits: if self.is_negative() && other.is_negative() {
                    SIGN
                } else {
                    0
                },
            };
        }
        let negative: bool = if a >= b {
            self.is_negative()
        } else {
            other.is_negative()
        };
        let n: u64 = if a >= b {
            combine(a, b, subtract)
        } else {
            combine(b, a, subtract)
        };
        proof {
            let total = self.exact() + other.exact();
            assert(total != 0);
            lemma_signed(n, negative, abs(total), 1);
        }
        Float64 {
            bits: if negative {
                n + SIGN
            } else {
                n
            },
        }
    }

    /// IEEE subtraction.
    pub fn minus(self, other: Float64) -> (r: Float64)
        ensures
            r == self.sum_with(other.negated()),
    {
        self.plus(other.neg())
    }

    /// IEEE multiplication.
    pub fn times(self, other: Float64) -> (r: Float64)
        ensures
            r == self.product_with(other),
    {
        if self.is_nan() || other.is_nan() {
            return Float64 { bits: QUIET_NAN };
        }
        let negative: bool = self.is_negative() != other.is_negative();
        let a: u64 = self.bits % SIGN;
        let b: u64 = other.bits % SIGN;
        if a == INFINITE || b == INFINITE {
            return if a == 0 || b == 0 {
                Float64 { bits: QUIET_NAN }
            } else {
                Float64 {
                    bits: if negative {
                        SIGN + INFINITE
                    } else {
                        INFINITE
                    },
                }
            };
        }
        let (ma, ea) = unpack(a);
        let (mb, eb) = unpack(b);
        proof {
            lemma_powers();
            assert(ma * mb < pow2(124)) by (nonlinear_arith)
                requires
                    ma < 2 * BINADE,
                    mb < 2 * BINADE,
                    pow2(124) == 0x1000_0000_0000_0000_0000_0000_0000_0000,
            ;
            lemma_product(ma as nat, ea as nat, mb as nat, eb as nat);
        }
        let m: u128 = ma as u128 * mb as u128;
        let e: u64 = ea + eb + SCALE - UNIT;
        let ghost num = magnitude(a as nat) * magnitude(b as nat);
        let n: u64 = pack(m, e, false);
        proof {
            assert(scaled(m as nat, e as nat, false, num, pow2(UNIT as nat)));
            lemma_signed(n, negative, num, pow2(UNIT as nat));
        }
        Float64 {
            bits: if negative {
                n + SIGN
            } else {
                n
            },
        }
    }

    /// IEEE division.
    pub fn divided_by(self, other: Float64) -> (r: Float64)
        ensures
            r == self.quotient_by(other),
    {
        let a: u64 = self.bits % SIGN;
        let b: u64 = other.bits % SIGN;
        if a > INFINITE || b > INFINITE || (a == INFINITE && b == INFINITE) || (a == 0 && b == 0) {
            return Float64 { bits: QUIET_NAN };
        }
        let negative: bool = self.is_negative() != other.is_negative();
        if a == INFINITE || b == 0 {
            return Float64 {
                bits: if negative {
                    SIGN + INFINITE
                } else {
                    INFINITE
                },
            };
        }
        if b == INFINITE {
            return Float64 {
                bits: if negative {
                    SIGN
                } else {
                    0
                },
            };
        }
        let ghost num = magnitude(a as nat) * pow2(UNIT as nat);
        let ghost den = magnitude(b as nat);
        proof {
            assert(magnitude(0) == 0);
            lemma_magnitude_order(0, b as nat);
        }
        let n: u64 = if a == 0 {
            proof {
                assert(magnitude(0) * pow2(UNIT as nat) == 0) by (nonlinear_arith)
                    requires
                        magnitude(0) == 0,
                ;
                assert(magnitude(1) == 1);
                assert((magnitude(0) + magnitude(1)) * den > 0) by (nonlinear_arith)
                    requires
                        magnitude(0) == 0,
                        magnitude(1) == 1,
                        den > 0,
                ;
                assert(nearest(0, num, den));
            }
            0
        } else {
            let (ma, ea) = unpack(a);
            let (mb, eb) = unpack(b);
            proof {
                lemma_powers();
            }
            let l: u64 = bit_length(ma as u128);
            proof {
                if l > 53 {
                    if l > 54 {
                        lemma_pow2_strictly_increases(53, (l - 1) as nat);
                    }
                }
                lemma_pow2_adds(l as nat, (124 - l) as nat);
                lemma_pow2_adds((l - 1) as nat, (124 - l) as nat);
                lemma_pow2_pos((124 - l) as nat);
                assert(ma * pow2((124 - l) as nat) < pow2(124)) by (nonlinear_arith)
                    requires
                        ma < pow2(l as nat),
                        pow2(124) == pow2(l as nat) * pow2((124 - l) as nat),
                        pow2((124 - l) as nat) > 0,
                ;
                assert(ma * pow2((124 - l) as nat) >= pow2(123)) by (nonlinear_arith)
                    requires
                        ma >= pow2((l - 1) as nat),
                        pow2(123) == pow2((l - 1) as nat) * pow2((124 - l) as nat),
                        pow2((124 - l) as nat) > 0,
                ;
            }
            let factor: u128 = power(124 - l);
            let x: u128 = ma as u128 * factor;
            let m: u128 = x / (mb as u128);
            let sticky: bool = x % (mb as u128) > 0;
            let e: u64 = SCALE + UNIT + ea + l - 124 - eb;
            proof {
                vstd::arithmetic::div_mod::lemma_fundamental_div_mod(x as int, mb as int);
                vstd::arithmetic::div_mod::lemma_div_nonincreasing(x as int, mb as int);
                assert(x < (m + 1) * mb) by (nonlinear_arith)
                    requires
                        x == mb * m + x as int % mb as int,
                        x as int % (mb as int) < mb,
                ;
                assert(m >= pow2(54)) by (nonlinear_arith)
                    requires
                        x >= pow2(123),
                        x < (m + 1) * mb,
                        mb < 2 * BINADE,
                        pow2(54) == 4 * BINADE,
                        pow2(123) == 0x0800_0000_0000_0000_0000_0000_0000_0000,
                        BINADE == 0x0010_0000_0000_0000,
                {
                    assert((m + 1) * mb <= (m + 1) * (2 * BINADE)) by (nonlinear_arith)
                        requires
                            mb < 2 * BINADE,
                            m >= 0,
                    ;
                }
                lemma_division(ma as nat, ea as nat, mb as nat, eb as nat, (124 - l) as nat);
            }
            let n: u64 = pack(m, e, sticky);
            assert(scaled(m as nat, e as nat, sticky, num, den));
            n
        };
        proof {
            lemma_signed(n, negative, num, den);
        }
        Float64 {
            bits: if negative {
                n + SIGN
            } else {
                n
            },
        }
    }

    /// The number nearest to an integer.
    pub fn from_i128(value: i128) -> (r: Float64)
        ensures
            r == Float64::of_int(value as int),
    {
        let negative: bool = value < 0;
        let size: u128 = if negative {
            (-(value + 1)) as u128 + 1
        } else {
            value as u128
        };
        proof {
            lemma_powers();
            vstd::arithmetic::power2::lemma2_to64();
            lemma_pow2_pos((SCALE + UNIT) as nat);
            lemma_pow2_adds(UNIT as nat, SCALE as nat);
            lemma_pow2_adds((SCALE + UNIT) as nat, 4);
        }
        let ghost num = size as nat * pow2(UNIT as nat);
        let ghost step = pow2((SCALE + UNIT) as nat);
        proof {
            assert(num * pow2(SCALE as nat) == size * step) by (nonlinear_arith)
                requires
                    num == size as nat * pow2(UNIT as nat),
                    step == pow2(UNIT as nat) * pow2(SCALE as nat),
            ;
        }
        let n: u64 = if size < 0x1000_0000_0000_0000_0000_0000_0000_0000 {
            proof {
                assert((size + 1) * step > size * step) by (nonlinear_arith)
                    requires
                        step > 0,
                ;
                assert(scaled(size as nat, (SCALE + UNIT) as nat, false, num, 1));
            }
            pack(size, SCALE + UNIT, false)
        } else {
            let m: u128 = size / 16;
            let sticky: bool = size % 16 > 0;
            proof {
                let unit = step * 16;
                assert(m * unit == (m * 16) * step && (m + 1) * unit == (m * 16 + 16) * step)
                    by (nonlinear_arith)
                    requires
                        unit == step * 16,
                ;
                assert((m * 16) * step <= size * step < (m * 16 + 16) * step) by (nonlinear_arith)
                    requires
                        m * 16 <= size < m * 16 + 16,
                        step > 0,
                ;
                assert(size > m * 16 ==> (m * 16) * step < size * step) by (nonlinear_arith)
                    requires
                        step > 0,
                ;
                assert(scaled(m as nat, (SCALE + UNIT + 4) as nat, sticky, num, 1));
            }
            pack(m, SCALE + UNIT + 4, sticky)
        };
        proof {
            lemma_signed(n, negative, num, 1);
        }
        Float64 {
            bits: if negative {
                n + SIGN
            } else {
                n
            },
        }
    }

    /// A duration in microseconds as seconds.
    pub fn seconds_from_micros(micros: u64) -> (r: Float64)
        ensures
            r == Float64::seconds(micros),
    {
        let whole: i128 = (micros / 1_000_000) as i128;
        let nanos: i128 = (micros % 1_000_000) as i128 * 1_000;
        Float64::from_i128(whole).plus(
            Float64::from_i128(nanos).divided_by(Float64::from_i128(1_000_000_000)),
        )
    }
}

proof fn lemma_product(ma: nat, ea: nat, mb: nat, eb: nat)
    ensures
        scaled(
            ma * mb,
            (ea + eb + SCALE - UNIT) as nat,
            false,
            (ma * pow2(ea)) * (mb * pow2(eb)),
            pow2(UNIT as nat),
        ),
{
    let pa = pow2(ea);
    let pb = pow2(eb);
    let ps = pow2(SCALE as nat);
    let pu = pow2(UNIT as nat);
    let e = (ea + eb + SCALE - UNIT) as nat;
    let pe = pow2(e);
    lemma_pow2_pos(UNIT as nat);
    lemma_pow2_pos(e);
    lemma_pow2_adds(ea, eb);
    lemma_pow2_adds(ea + eb, SCALE as nat);
    lemma_pow2_adds(e, UNIT as nat);
    assert(e + UNIT == ea + eb + SCALE);
    assert(pe * pu == (pa * pb) * ps);
    assert((ma * mb) * (pe * pu) == ((ma * pa) * (mb * pb)) * ps) by (nonlinear_arith)
        requires
            pe * pu == (pa * pb) * ps,
    ;
    assert((ma * mb + 1) * (pe * pu) > (ma * mb) * (pe * pu)) by (nonlinear_arith)
        requires
            pe > 0,
            pu > 0,
    ;
}

proof fn lemma_division(ma: nat, ea: nat, mb: nat, eb: nat, s: nat)
    requires
        mb > 0,
        s <= 124,
        eb <= 2045,
    ensures
        ({
            let x = ma * pow2(s);
            scaled(
                x / mb,
                (SCALE + UNIT + ea - s - eb) as nat,
                x % mb > 0,
                (ma * pow2(ea)) * pow2(UNIT as nat),
                mb * pow2(eb),
            )
        }),
{
    let x = ma * pow2(s);
    let m = x / mb;
    let e = (SCALE + UNIT + ea - s - eb) as nat;
    let wide = (SCALE + UNIT + ea - s) as nat;
    let pw = pow2(wide);
    let pa = pow2(ea);
    let pb = pow2(eb);
    let pu = pow2(UNIT as nat);
    let ps = pow2(SCALE as nat);
    assert(SCALE + UNIT >= 2045 + 124);
    lemma_pow2_pos(wide);
    lemma_pow2_pos(eb);
    lemma_pow2_adds(e, eb);
    assert(e + eb == wide);
    assert(pow2(e) * (mb * pb) == mb * pw) by (nonlinear_arith)
        requires
            pw == pow2(e) * pb,
    ;
    lemma_pow2_adds(s, wide);
    lemma_pow2_adds(ea, UNIT as nat);
    lemma_pow2_adds(ea + UNIT as nat, SCALE as nat);
    assert(s + wide == ea + UNIT + SCALE);
    assert(((ma * pa) * pu) * ps == x * pw) by (nonlinear_arith)
        requires
            x == ma * pow2(s),
            pow2(s) * pw == (pa * pu) * ps,
    ;
    vstd::arithmetic::div_mod::lemma_fundamental_div_mod(x as int, mb as int);
    assert(m * (mb * pw) == (mb * m) * pw) by (nonlinear_arith);
    assert((m + 1) * (mb * pw) == (mb * m + mb) * pw) by (nonlinear_arith);
    assert((mb * m) * pw <= x * pw < (mb * m + mb) * pw) by (nonlinear_arith)
        requires
            mb * m <= x < mb * m + mb,
            pw > 0,
    ;
    assert(x > mb * m ==> (mb * m) * pw < x * pw) by (nonlinear_arith)
        requires
            pw > 0,
    ;
    assert(mb * pb > 0) by (nonlinear_arith)
        requires
            mb > 0,
            pb > 0,
    ;
}

// Laws of the numbers.

/// A finite value rounds to itself.
pub proof fn law_finite_values_round_to_themselves(n: nat)
    requires
        n < INFINITE,
    ensures
        rounded(magnitude(n), 1) == n,
{
    lemma_magnitude_step(n);
    if n > 0 {
        lemma_magnitude_step((n - 1) as nat);
    }
    lemma_rounded(n, magnitude(n), 1);
}

/// The order of finite numbers is that of their exact values.
pub proof fn law_order_is_numeric(a: Float64, b: Float64)
    requires
        a.finite(),
        b.finite(),
    ensures
        a.below(b) == (a.exact() < b.exact()),
        a.at_most(b) == (a.exact() <= b.exact()),
        a.same(b) == (a.exact() == b.exact()),
{
    lemma_magnitude_order(a.ordinal(), b.ordinal());
    lemma_magnitude_order(b.ordinal(), a.ordinal());
    lemma_magnitude_order(0, a.ordinal());
    lemma_magnitude_order(0, b.ordinal());
}

/// The power of two at or below a positive integer.
proof fn lemma_leading_power(v: nat) -> (k: nat)
    requires
        v > 0,
    ensures
        pow2(k) <= v < pow2(k + 1),
    decreases v,
{
    vstd::arithmetic::power2::lemma2_to64();
    if v == 1 {
        0
    } else {
        let k = lemma_leading_power(v / 2);
        lemma_pow2_unfold(k + 1);
        lemma_pow2_unfold(k + 2);
        k + 1
    }
}

/// The ordinal of a small integer.
proof fn lemma_integer_place(v: nat) -> (n: nat)
    requires
        v <= 0x20_0000_0000_0000,
    ensures
        n < INFINITE,
        magnitude(n) == v * pow2(UNIT as nat),
{
    vstd::arithmetic::power2::lemma2_to64();
    let b = BINADE as nat;
    assert(pow2(52) == b && pow2(53) == 2 * b) by {
        vstd::arithmetic::power2::lemma2_to64_rest();
    }
    if v == 0 {
        0
    } else {
        let k = lemma_leading_power(v);
        if k > 53 {
            lemma_pow2_strictly_increases(53, k);
        }
        if k == 53 {
            lemma_place(1075, b);
            lemma_pow2_unfold(1075);
            assert(b * pow2(1075) == v * pow2(1074)) by (nonlinear_arith)
                requires
                    pow2(1075) == 2 * pow2(1074),
                    v == 2 * b,
            ;
            (1075 * b + b) as nat
        } else {
            let up = (52 - k) as nat;
            let e = (1022 + k) as nat;
            let q = v * pow2(up);
            lemma_pow2_adds(k, up);
            lemma_pow2_adds(k + 1, up);
            lemma_pow2_adds(up, e);
            lemma_pow2_pos(up);
            assert(b <= q < 2 * b) by (nonlinear_arith)
                requires
                    q == v * pow2(up),
                    pow2(k) * pow2(up) == b,
                    pow2(k + 1) * pow2(up) == 2 * b,
                    pow2(k) <= v < pow2(k + 1),
                    pow2(up) > 0,
            ;
            lemma_place(e, q);
            assert(q * pow2(e) == v * pow2(1074)) by (nonlinear_arith)
                requires
                    q == v * pow2(up),
                    pow2(up) * pow2(e) == pow2(1074),
            ;
            assert(e * b + q < INFINITE) by (nonlinear_arith)
                requires
                    e <= 1074,
                    q < 2 * b,
                    b == 0x10_0000_0000_0000,
                    INFINITE == 0x7ff0_0000_0000_0000,
            ;
            (e * b + q) as nat
        }
    }
}

/// Integers of at most 53 bits are numbers: nothing is lost in the conversion.
pub proof fn law_small_integers_are_exact(value: int)
    requires
        -0x20_0000_0000_0000 <= value <= 0x20_0000_0000_0000,
    ensures
        Float64::of_int(value).finite(),
        Float64::of_int(value).negative() == (value < 0),
        Float64::of_int(value).exact() == value * pow2(UNIT as nat),
{
    let size = abs(value);
    let n = lemma_integer_place(size);
    law_finite_values_round_to_themselves(n);
    let unit = pow2(UNIT as nat);
    assert(rounded(size * unit, 1) == n);
    assert(value * unit == if value < 0 {
        -(size * unit)
    } else {
        (size * unit) as int
    }) by (nonlinear_arith)
        requires
            size == if value < 0 {
                -value
            } else {
                value
            },
    ;
}

/// Small integers add without loss: the sum of the numbers is the number
/// nearest to the sum.
pub proof fn law_small_integers_add_exactly(a: int, b: int)
    requires
        -0x20_0000_0000_0000 <= a <= 0x20_0000_0000_0000,
        -0x20_0000_0000_0000 <= b <= 0x20_0000_0000_0000,
    ensures
        Float64::of_int(a).sum_with(Float64::of_int(b)) == Float64::of_int(a + b),
{
    let unit = pow2(UNIT as nat);
    lemma_pow2_pos(UNIT as nat);
    law_small_integers_are_exact(a);
    law_small_integers_are_exact(b);
    law_small_integers_are_exact(0);
    let total = a * unit + b * unit;
    assert(total == (a + b) * unit && (total < 0 <==> a + b < 0) && (total == 0 <==> a + b == 0)
        && abs(total) == abs(a + b) * unit) by (nonlinear_arith)
        requires
            total == a * unit + b * unit,
            unit > 0,
            abs(total) == if total < 0 {
                -total
            } else {
                total
            },
            abs(a + b) == if a + b < 0 {
                -(a + b)
            } else {
                a + b
            },
    ;
    if a + b == 0 {
        law_finite_values_round_to_themselves(0);
        assert(0 * unit == 0);
    }
}

/// Small integers keep their order as numbers.
pub proof fn law_small_integers_keep_their_order(a: int, b: int)
    requires
        -0x20_0000_0000_0000 <= a <= 0x20_0000_0000_0000,
        -0x20_0000_0000_0000 <= b <= 0x20_0000_0000_0000,
    ensures
        Float64::of_int(a).below(Float64::of_int(b)) == (a < b),
        Float64::of_int(a).same(Float64::of_int(b)) == (a == b),
{
    let unit = pow2(UNIT as nat);
    lemma_pow2_pos(UNIT as nat);
    law_small_integers_are_exact(a);
    law_small_integers_are_exact(b);
    law_order_is_numeric(Float64::of_int(a), Float64::of_int(b));
    assert((a * unit < b * unit <==> a < b) && (a * unit == b * unit <==> a == b))
        by (nonlinear_arith)
        requires
            unit > 0,
    ;
}

} // verus!
