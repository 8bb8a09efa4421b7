//! The height curve: remaps a normalized noise height in `[0, 1]` to a
//! shaped elevation in `[0, 1]`.
//!
//! Below `water_level` the curve is exactly 0, flattening water to a common
//! plane. Above it, the input is renormalized to `[0, 1]` and raised to the
//! `slope` power. The exponent is quantized to 128ths: the base's 128th root
//! is taken by repeated square roots at nano precision, then raised to the
//! integer power `slope * 128 / ONE` by iterated multiplication. Each extra
//! factor of a base at most one can only shrink the product, so the curve is
//! monotone in the input and antitone in the slope by construction.

use vstd::prelude::*;
use vstd::arithmetic::div_mod::{lemma_div_is_ordered, lemma_div_by_multiple,
    lemma_div_multiples_vanish, lemma_div_pos_is_pos};
use crate::fixed::{ONE, NANO_ONE, spec_sqrt_nano, sqrt_nano, spec_nano_mul,
    lemma_sqrt_nano_bounds, lemma_sqrt_nano_mono, lemma_sqrt_nano_unit,
    lemma_nano_mul_bounds, lemma_nano_mul_mono};

verus! {

/// `k` successive square roots of a nano-unit value: `x^(1 / 2^k)`.
pub open spec fn spec_sqrt_chain(x: int, k: nat) -> int
    decreases k,
{
    if k == 0 {
        x
    } else {
        spec_sqrt_nano(spec_sqrt_chain(x, (k - 1) as nat))
    }
}

pub proof fn lemma_sqrt_chain_bounds(x: int, k: nat)
    requires
        0 <= x <= NANO_ONE,
    ensures
        0 <= spec_sqrt_chain(x, k) <= NANO_ONE,
    decreases k,
{
    if k == 0 {
    } else {
        lemma_sqrt_chain_bounds(x, (k - 1) as nat);
        lemma_sqrt_nano_bounds(spec_sqrt_chain(x, (k - 1) as nat));
    }
}

pub proof fn lemma_sqrt_chain_mono(x1: int, x2: int, k: nat)
    requires
        0 <= x1 <= x2 <= NANO_ONE,
    ensures
        spec_sqrt_chain(x1, k) <= spec_sqrt_chain(x2, k),
    decreases k,
{
    if k == 0 {
    } else {
        lemma_sqrt_chain_mono(x1, x2, (k - 1) as nat);
        lemma_sqrt_chain_bounds(x1, (k - 1) as nat);
        lemma_sqrt_chain_bounds(x2, (k - 1) as nat);
        lemma_sqrt_nano_mono(spec_sqrt_chain(x1, (k - 1) as nat), spec_sqrt_chain(x2, (k - 1) as nat));
    }
}

/// The chain fixes the unit and zero.
pub proof fn lemma_sqrt_chain_unit(k: nat)
    ensures
        spec_sqrt_chain(NANO_ONE as int, k) == NANO_ONE,
        spec_sqrt_chain(0, k) == 0,
    decreases k,
{
    if k == 0 {
    } else {
        lemma_sqrt_chain_unit((k - 1) as nat);
        lemma_sqrt_nano_unit();
    }
}

/// The 128th root of a micro-unit value, in nano-units: seven successive
/// square roots.
pub open spec fn spec_root128(t: int) -> int {
    spec_sqrt_chain(t * 1000, 7)
}

/// The 128th root of a micro-unit value in `[0, ONE]`, in nano-units.
pub fn root128(t: u64) -> (r: u64)
    requires
        t <= ONE,
    ensures
        r == spec_root128(t as int),
        r <= NANO_ONE,
{
    let mut x: u64 = t * 1000;
    let mut k: u64 = 0;
    while k < 7
        invariant
            t <= ONE,
            k <= 7,
            x == spec_sqrt_chain((t * 1000) as int, k as nat),
            x <= NANO_ONE,
        decreases 7 - k,
    {
        x = sqrt_nano(x);
        k = k + 1;
    }
    x
}

/// A nano-unit base raised to a whole exponent by iterated truncated
/// multiplication: since the base is at most `NANO_ONE`, each extra factor
/// can only shrink the result, so the power is antitone in the exponent.
pub open spec fn spec_npow(u: int, m: nat) -> int
    decreases m,
{
    if m == 0 {
        NANO_ONE as int
    } else {
        spec_nano_mul(u, spec_npow(u, (m - 1) as nat))
    }
}

pub proof fn lemma_npow_bounds(u: int, m: nat)
    requires
        0 <= u <= NANO_ONE,
    ensures
        0 <= spec_npow(u, m) <= NANO_ONE,
        m >= 1 ==> spec_npow(u, m) <= u,
    decreases m,
{
    if m == 0 {
    } else {
        lemma_npow_bounds(u, (m - 1) as nat);
        lemma_nano_mul_bounds(u, spec_npow(u, (m - 1) as nat));
    }
}

/// A larger whole exponent never gives a larger power.
pub proof fn lemma_npow_antitone(u: int, m1: nat, m2: nat)
    requires
        0 <= u <= NANO_ONE,
        m1 <= m2,
    ensures
        spec_npow(u, m2) <= spec_npow(u, m1),
    decreases m2,
{
    if m1 < m2 {
        let p = spec_npow(u, (m2 - 1) as nat);
        lemma_npow_bounds(u, (m2 - 1) as nat);
        assert(u * p == p * u) by (nonlinear_arith);
        lemma_nano_mul_bounds(p, u);
        lemma_npow_antitone(u, m1, (m2 - 1) as nat);
    }
}

pub proof fn lemma_npow_mono_base(u1: int, u2: int, m: nat)
    requires
        0 <= u1 <= u2 <= NANO_ONE,
    ensures
        spec_npow(u1, m) <= spec_npow(u2, m),
    decreases m,
{
    if m == 0 {
    } else {
        lemma_npow_mono_base(u1, u2, (m - 1) as nat);
        lemma_npow_bounds(u1, (m - 1) as nat);
        lemma_npow_bounds(u2, (m - 1) as nat);
        lemma_nano_mul_mono(u1, u2, spec_npow(u1, (m - 1) as nat), spec_npow(u2, (m - 1) as nat));
    }
}

/// The unit is a fixed point of every whole power.
pub proof fn lemma_npow_unit(m: nat)
    ensures
        spec_npow(NANO_ONE as int, m) == NANO_ONE,
    decreases m,
{
    if m == 0 {
    } else {
        lemma_npow_unit((m - 1) as nat);
        lemma_div_by_multiple(NANO_ONE as int, NANO_ONE as int);
    }
}

/// Zero raised to a positive whole power is zero.
pub proof fn lemma_npow_zero(m: nat)
    requires
        m >= 1,
    ensures
        spec_npow(0, m) == 0,
{
    lemma_npow_bounds(0, (m - 1) as nat);
    lemma_nano_mul_bounds(0, spec_npow(0, (m - 1) as nat));
}

/// A nano-unit base raised to a whole exponent.
pub fn npow(u: u64, m: u64) -> (r: u64)
    requires
        u <= NANO_ONE,
        m <= 640,
    ensures
        r == spec_npow(u as int, m as nat),
        r <= NANO_ONE,
{
    let mut r: u64 = NANO_ONE;
    let mut k: u64 = 0;
    while k < m
        invariant
            u <= NANO_ONE,
            k <= m,
            r == spec_npow(u as int, k as nat),
            r <= NANO_ONE,
        decreases m - k,
    {
        proof {
            assert(u * r <= u64::MAX) by (nonlinear_arith)
                requires
                    u <= NANO_ONE,
                    r <= NANO_ONE,
            ;
            lemma_nano_mul_bounds(u as int, r as int);
        }
        r = (u * r) / NANO_ONE;
        k = k + 1;
    }
    r
}

/// A micro-unit base in `[0, ONE]` raised to a micro-unit exponent: the
/// exponent is truncated to 128ths, the base's 128th root is raised to that
/// many 128ths. Monotone in the base and antitone in the exponent.
pub open spec fn spec_pow128(t: int, e: int) -> int {
    spec_npow(spec_root128(t), (e * 128 / (ONE as int)) as nat) / 1000
}

pub proof fn lemma_pow128_bounds(t: int, e: int)
    requires
        0 <= t <= ONE,
        0 <= e,
    ensures
        0 <= spec_pow128(t, e) <= ONE,
{
    let u = spec_root128(t);
    let m = (e * 128 / (ONE as int)) as nat;
    assert(0 <= t * 1000 <= NANO_ONE) by (nonlinear_arith)
        requires
            0 <= t <= ONE,
    ;
    lemma_sqrt_chain_bounds(t * 1000, 7);
    lemma_npow_bounds(u, m);
    lemma_div_is_ordered(spec_npow(u, m), NANO_ONE as int, 1000);
    lemma_div_by_multiple(ONE as int, 1000);
    lemma_div_pos_is_pos(spec_npow(u, m), 1000);
}

/// A lower base never gives a higher power.
pub proof fn lemma_pow128_mono_base(t1: int, t2: int, e: int)
    requires
        0 <= t1 <= t2 <= ONE,
        0 <= e,
    ensures
        spec_pow128(t1, e) <= spec_pow128(t2, e),
{
    let m = (e * 128 / (ONE as int)) as nat;
    assert(0 <= t1 * 1000 <= t2 * 1000 <= NANO_ONE) by (nonlinear_arith)
        requires
            0 <= t1 <= t2 <= ONE,
    ;
    lemma_sqrt_chain_mono(t1 * 1000, t2 * 1000, 7);
    lemma_sqrt_chain_bounds(t1 * 1000, 7);
    lemma_sqrt_chain_bounds(t2 * 1000, 7);
    lemma_npow_mono_base(spec_root128(t1), spec_root128(t2), m);
    lemma_div_is_ordered(spec_npow(spec_root128(t1), m), spec_npow(spec_root128(t2), m), 1000);
}

/// A larger exponent never gives a larger power: the base lies in `[0, 1]`.
pub proof fn lemma_pow128_antitone_exp(t: int, e1: int, e2: int)
    requires
        0 <= t <= ONE,
        0 <= e1 <= e2,
    ensures
        spec_pow128(t, e2) <= spec_pow128(t, e1),
{
    assert(e1 * 128 <= e2 * 128) by (nonlinear_arith)
        requires
            e1 <= e2,
    ;
    lemma_div_is_ordered(e1 * 128, e2 * 128, ONE as int);
    vstd::arithmetic::div_mod::lemma_div_pos_is_pos(e1 * 128, ONE as int);
    assert(0 <= t * 1000 <= NANO_ONE) by (nonlinear_arith)
        requires
            0 <= t <= ONE,
    ;
    lemma_sqrt_chain_bounds(t * 1000, 7);
    lemma_npow_antitone(spec_root128(t), (e1 * 128 / (ONE as int)) as nat, (e2 * 128 / (
    ONE as int)) as nat);
    lemma_div_is_ordered(spec_npow(spec_root128(t), (e2 * 128 / (ONE as int)) as nat), spec_npow(
        spec_root128(t),
        (e1 * 128 / (ONE as int)) as nat,
    ), 1000);
}

/// The unit raised to any exponent is the unit.
pub proof fn lemma_pow128_unit(e: int)
    requires
        0 <= e,
    ensures
        spec_pow128(ONE as int, e) == ONE,
{
    lemma_sqrt_chain_unit(7);
    lemma_npow_unit((e * 128 / (ONE as int)) as nat);
    lemma_div_by_multiple(ONE as int, 1000);
}

/// Zero raised to an exponent of at least one is zero.
pub proof fn lemma_pow128_zero(e: int)
    requires
        ONE <= e,
    ensures
        spec_pow128(0, e) == 0,
{
    lemma_sqrt_chain_unit(7);
    assert(128 * (ONE as int) <= e * 128) by (nonlinear_arith)
        requires
            ONE <= e,
    ;
    lemma_div_is_ordered(128 * (ONE as int), e * 128, ONE as int);
    lemma_div_multiples_vanish(128, ONE as int);
    lemma_npow_zero((e * 128 / (ONE as int)) as nat);
}

/// A micro-unit base raised to a micro-unit exponent.
pub fn pow128(t: u64, e: u64) -> (r: u64)
    requires
        t <= ONE,
        e <= 5 * ONE,
    ensures
        r == spec_pow128(t as int, e as int),
        r <= ONE,
{
    proof {
        assert(e * 128 <= 640 * ONE) by (nonlinear_arith)
            requires
                e <= 5 * ONE,
        ;
        lemma_div_is_ordered((e * 128) as int, (640 * ONE) as int, ONE as int);
        lemma_div_by_multiple(640, ONE as int);
        lemma_pow128_bounds(t as int, e as int);
    }
    let m = e * 128 / ONE;
    let u = root128(t);
    let p = npow(u, m);
    proof {
        lemma_div_is_ordered(p as int, NANO_ONE as int, 1000);
        lemma_div_by_multiple(ONE as int, 1000);
    }
    p / 1000
}

/// Parameters for the height adjustment of the map: the elevation floor
/// `water_level` and the steepness exponent `slope`, both in fixed point.
#[derive(Clone, Copy, Debug, PartialEq, Eq, Structural)]
pub struct HeightCurve {
    pub water_level: u64,
    pub slope: u64,
}

impl HeightCurve {
    /// Documented parameter ranges: `water_level` in `[0, 1]`, `slope` in
    /// `[1, 5]`.
    pub open spec fn wf(self) -> bool {
        &&& self.water_level <= ONE
        &&& ONE <= self.slope <= 5 * ONE
    }

    pub open spec fn spec_default() -> Self {
        HeightCurve { water_level: 250_000, slope: 1_500_000 }
    }

    /// The shaped elevation for a normalized height `input`: 0 below the
    /// water level, otherwise `((input - water_level) / (1 - water_level))`
    /// raised to the `slope` power. A water level of 1 degenerates to a step
    /// at 1.
    pub open spec fn spec_evaluate(self, input: int) -> int {
        if input < self.water_level {
            0
        } else if self.water_level >= ONE {
            ONE as int
        } else {
            let t = (input - self.water_level) * (ONE as int) / ((ONE as int) - self.water_level);
            spec_pow128(t, self.slope as int)
        }
    }

    /// Adjusts height values to flatten out the water and lower layers.
    pub fn evaluate(&self, input: u64) -> (r: u64)
        requires
            self.wf(),
            input <= ONE,
        ensures
            r == self.spec_evaluate(input as int),
            r <= ONE,
            input < self.water_level ==> r == 0,
    {
        if input < self.water_level {
            0
        } else if self.water_level >= ONE {
            ONE
        } else {
            let t = ((input - self.water_level) * ONE) / (ONE - self.water_level);
            proof {
                lemma_div_is_ordered(
                    ((input - self.water_level) * ONE) as int,
                    (((ONE as int) - self.water_level) * (ONE as int)) as int,
                    (ONE as int) - self.water_level,
                );
                lemma_div_multiples_vanish(ONE as int, (ONE as int) - self.water_level);
                lemma_div_pos_is_pos(((input - self.water_level) * ONE) as int,
                    (ONE as int) - self.water_level);
            }
            pow128(t, self.slope)
        }
    }
}

impl Default for HeightCurve {
    /// The default curve: water level 0.25, slope 1.5.
    fn default() -> (r: Self)
        ensures
            r == Self::spec_default(),
            r.wf(),
    {
        HeightCurve { water_level: 250_000, slope: 1_500_000 }
    }
}

/// The curve maps `[0, 1]` into `[0, 1]`.
pub proof fn lemma_evaluate_bounds(c: HeightCurve, input: int)
    requires
        c.wf(),
        0 <= input <= ONE,
    ensures
        0 <= c.spec_evaluate(input) <= ONE,
{
    if input < c.water_level {
    } else if c.water_level >= ONE {
    } else {
        let t = (input - c.water_level) * (ONE as int) / ((ONE as int) - c.water_level);
        lemma_div_is_ordered(
            (input - c.water_level) * (ONE as int),
            ((ONE as int) - c.water_level) * (ONE as int),
            (ONE as int) - c.water_level,
        );
        lemma_div_multiples_vanish(ONE as int, (ONE as int) - c.water_level);
        lemma_div_pos_is_pos((input - c.water_level) * (ONE as int), (ONE as int) - c.water_level);
        lemma_pow128_bounds(t, c.slope as int);
    }
}

/// The height curve is monotone: a lower normalized height never maps to a
/// higher elevation.
pub proof fn lemma_evaluate_monotone(c: HeightCurve, a: int, b: int)
    requires
        c.wf(),
        0 <= a <= b <= ONE,
    ensures
        c.spec_evaluate(a) <= c.spec_evaluate(b),
{
    lemma_evaluate_bounds(c, a);
    lemma_evaluate_bounds(c, b);
    if a < c.water_level {
        // evaluate(a) == 0 and evaluate(b) is nonnegative
    } else if c.water_level >= ONE {
        // both inputs sit at or above a water level of 1
    } else {
        let w = c.water_level as int;
        let ta = (a - w) * (ONE as int) / ((ONE as int) - w);
        let tb = (b - w) * (ONE as int) / ((ONE as int) - w);
        assert((a - w) * (ONE as int) <= (b - w) * (ONE as int)) by (nonlinear_arith)
            requires
                a <= b,
        ;
        lemma_div_is_ordered((a - w) * (ONE as int), (b - w) * (ONE as int), (ONE as int) - w);
        lemma_div_is_ordered((b - w) * (ONE as int), ((ONE as int) - w) * (ONE as int),
            (ONE as int) - w);
        lemma_div_multiples_vanish(ONE as int, (ONE as int) - w);
        lemma_div_pos_is_pos((a - w) * (ONE as int), (ONE as int) - w);
        lemma_pow128_mono_base(ta, tb, c.slope as int);
    }
}

/// The curve steepens with the slope: at a fixed water level, a larger slope
/// exponent never maps an input to a higher elevation.
pub proof fn lemma_evaluate_antitone_in_slope(c1: HeightCurve, c2: HeightCurve, input: int)
    requires
        c1.wf(),
        c2.wf(),
        c1.water_level == c2.water_level,
        c1.slope <= c2.slope,
        0 <= input <= ONE,
    ensures
        c2.spec_evaluate(input) <= c1.spec_evaluate(input),
{
    if input < c1.water_level {
    } else if c1.water_level >= ONE {
    } else {
        let w = c1.water_level as int;
        let t = (input - w) * (ONE as int) / ((ONE as int) - w);
        lemma_div_is_ordered((input - w) * (ONE as int), ((ONE as int) - w) * (ONE as int),
            (ONE as int) - w);
        lemma_div_multiples_vanish(ONE as int, (ONE as int) - w);
        lemma_div_pos_is_pos((input - w) * (ONE as int), (ONE as int) - w);
        lemma_pow128_antitone_exp(t, c1.slope as int, c2.slope as int);
    }
}

/// The top of the range is preserved: a normalized height of 1 maps to
/// elevation 1 for every well-formed curve.
pub proof fn lemma_evaluate_at_one(c: HeightCurve)
    requires
        c.wf(),
    ensures
        c.spec_evaluate(ONE as int) == ONE,
{
    if c.water_level >= ONE {
    } else {
        let w = c.water_level as int;
        let t = ((ONE as int) - w) * (ONE as int) / ((ONE as int) - w);
        lemma_div_multiples_vanish(ONE as int, (ONE as int) - w);
        assert(t == ONE);
        lemma_pow128_unit(c.slope as int);
    }
}

/// Exactly at the water level the curve starts from zero: the renormalized
/// input is zero and the slope exponent is at least one.
pub proof fn lemma_evaluate_at_water_level(c: HeightCurve)
    requires
        c.wf(),
        c.water_level < ONE,
    ensures
        c.spec_evaluate(c.water_level as int) == 0,
{
    let w = c.water_level as int;
    assert((w - w) * (ONE as int) == 0) by (nonlinear_arith);
    assert(0int / ((ONE as int) - w) == 0);
    lemma_pow128_zero(c.slope as int);
}

} // verus!
