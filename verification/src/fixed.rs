//! Fixed-point arithmetic in micro-units.
//!
//! A `u64` value `v` represents the real number `v / 1_000_000`. The helpers
//! here (product, linear interpolation, integer square root) are shared by
//! the noise field, the height curve and the material blender.

use vstd::prelude::*;
use vstd::arithmetic::div_mod::{lemma_div_is_ordered, lemma_div_by_multiple,
    lemma_div_multiples_vanish_fancy, lemma_div_pos_is_pos};

verus! {

/// Number of fixed-point units in the real value 1.0.
pub const ONE: u64 = 1_000_000;

/// Number of fixed-point units in the real value 0.5.
pub const HALF: u64 = 500_000;

/// Fixed-point product, truncated toward zero: `a * b / ONE`.
pub open spec fn spec_fp_mul(a: int, b: int) -> int {
    (a * b) / (ONE as int)
}

/// A fixed-point product of nonnegative factors is nonnegative and is bounded
/// by either factor once the other is at most `ONE`.
pub proof fn lemma_fp_mul_bounds(a: int, b: int)
    requires
        0 <= a,
        0 <= b <= ONE,
    ensures
        0 <= spec_fp_mul(a, b) <= a,
{
    assert(0 <= a * b <= a * (ONE as int)) by (nonlinear_arith)
        requires
            0 <= a,
            0 <= b <= ONE,
    ;
    lemma_div_is_ordered(a * b, a * (ONE as int), ONE as int);
    lemma_div_by_multiple(a, ONE as int);
    lemma_div_pos_is_pos(a * b, ONE as int);
}

/// Fixed-point product of two values; the caller must show the intermediate
/// product fits in a machine word.
pub fn fp_mul(a: u64, b: u64) -> (r: u64)
    requires
        a * b <= u64::MAX,
    ensures
        r == spec_fp_mul(a as int, b as int),
{
    (a * b) / ONE
}

/// Multiplying by a proper fixed-point fraction strictly shrinks a positive
/// value: `a * b / ONE < a` whenever `b < ONE` and `a >= 1`.
pub proof fn lemma_fp_mul_strictly_decreases(a: int, b: int)
    requires
        1 <= a,
        0 <= b < ONE,
    ensures
        spec_fp_mul(a, b) < a,
{
    assert(a * b <= (ONE as int) * (a - 1) + ((ONE as int) - 1)) by (nonlinear_arith)
        requires
            1 <= a,
            0 <= b < ONE,
    ;
    lemma_div_multiples_vanish_fancy(a - 1, (ONE as int) - 1, ONE as int);
    lemma_div_is_ordered(a * b, (ONE as int) * (a - 1) + ((ONE as int) - 1), ONE as int);
}

/// Linear interpolation between `p` and `q` with weight `t` out of `ONE`:
/// `(p * (ONE - t) + q * t) / ONE`. At `t == 0` it is exactly `p`, at
/// `t == ONE` exactly `q`.
pub open spec fn spec_lerp(p: int, q: int, t: int) -> int {
    (p * ((ONE as int) - t) + q * t) / (ONE as int)
}

/// Interpolation between values in `[0, ONE]` stays in `[0, ONE]`; more
/// generally it is bounded by the larger endpoint.
pub proof fn lemma_lerp_bounds(p: int, q: int, t: int, cap: int)
    requires
        0 <= p <= cap,
        0 <= q <= cap,
        0 <= t <= ONE,
    ensures
        0 <= spec_lerp(p, q, t) <= cap,
{
    assert(0 <= p * ((ONE as int) - t) + q * t <= cap * (ONE as int)) by (nonlinear_arith)
        requires
            0 <= p <= cap,
            0 <= q <= cap,
            0 <= t <= ONE,
    ;
    lemma_div_is_ordered(p * ((ONE as int) - t) + q * t, cap * (ONE as int), ONE as int);
    lemma_div_by_multiple(cap, ONE as int);
    lemma_div_pos_is_pos(p * ((ONE as int) - t) + q * t, ONE as int);
}

/// Linear interpolation for fixed-point values in `[0, ONE]`.
pub fn lerp(p: u64, q: u64, t: u64) -> (r: u64)
    requires
        p <= ONE,
        q <= ONE,
        t <= ONE,
    ensures
        r == spec_lerp(p as int, q as int, t as int),
        r <= ONE,
{
    proof {
        lemma_lerp_bounds(p as int, q as int, t as int, ONE as int);
        assert(p * (ONE - t) <= ONE * ONE && q * t <= ONE * ONE) by (nonlinear_arith)
            requires
                p <= ONE,
                q <= ONE,
                t <= ONE,
        ;
    }
    (p * (ONE - t) + q * t) / ONE
}

/// The integer square root: the largest `r` with `r * r <= n`.
pub open spec fn spec_isqrt(n: nat) -> nat
    decreases n,
{
    if n == 0 {
        0
    } else {
        let r = spec_isqrt((n - 1) as nat);
        if (r + 1) * (r + 1) <= n {
            r + 1
        } else {
            r
        }
    }
}

pub proof fn lemma_isqrt_bounds(n: nat)
    ensures
        spec_isqrt(n) * spec_isqrt(n) <= n,
        n < (spec_isqrt(n) + 1) * (spec_isqrt(n) + 1),
    decreases n,
{
    reveal_with_fuel(spec_isqrt, 2);
    if n == 0 {
        assert(spec_isqrt(n) == 0);
        assert(spec_isqrt(n) * spec_isqrt(n) <= n) by (nonlinear_arith)
            requires
                spec_isqrt(n) == 0,
                n == 0,
        ;
        assert(n < (spec_isqrt(n) + 1) * (spec_isqrt(n) + 1)) by (nonlinear_arith)
            requires
                spec_isqrt(n) == 0,
                n == 0,
        ;
    } else {
        lemma_isqrt_bounds((n - 1) as nat);
        let r = spec_isqrt((n - 1) as nat);
        if (r + 1) * (r + 1) <= n {
            assert(spec_isqrt(n) == r + 1);
            assert(n <= (r + 1) * (r + 1));
            assert((r + 1) * (r + 1) < (r + 2) * (r + 2)) by (nonlinear_arith);
        } else {
            assert(spec_isqrt(n) == r);
        }
        assert(spec_isqrt(n) * spec_isqrt(n) <= n);
        assert(n < (spec_isqrt(n) + 1) * (spec_isqrt(n) + 1));
    }
}

/// Any `r` squeezed between consecutive squares around `n` is the integer
/// square root of `n`.
pub proof fn lemma_isqrt_unique(n: nat, r: nat)
    requires
        r * r <= n,
        n < (r + 1) * (r + 1),
    ensures
        r == spec_isqrt(n),
{
    lemma_isqrt_bounds(n);
    let s = spec_isqrt(n);
    if r < s {
        assert((r + 1) * (r + 1) <= s * s) by (nonlinear_arith)
            requires
                r + 1 <= s,
        ;
    }
    if s < r {
        assert((s + 1) * (s + 1) <= r * r) by (nonlinear_arith)
            requires
                s + 1 <= r,
        ;
    }
}

/// The integer square root is monotone.
pub proof fn lemma_isqrt_mono(a: nat, b: nat)
    requires
        a <= b,
    ensures
        spec_isqrt(a) <= spec_isqrt(b),
    decreases b,
{
    if a < b {
        lemma_isqrt_mono(a, (b - 1) as nat);
    }
}

/// Number of nano-units in the real value 1.0: the finer scale used inside
/// the height curve's exponentiation to keep truncation losses small.
pub const NANO_ONE: u64 = 1_000_000_000;

/// Integer square root by binary search, for arguments up to
/// `NANO_ONE * NANO_ONE`.
pub fn isqrt(n: u64) -> (r: u64)
    requires
        n <= NANO_ONE * NANO_ONE,
    ensures
        r == spec_isqrt(n as nat),
        r <= NANO_ONE,
{
    let mut lo: u64 = 0;
    let mut hi: u64 = NANO_ONE + 1;
    proof {
        assert((n as int) < ((NANO_ONE + 1) as int) * (((NANO_ONE + 1)) as int)) by (nonlinear_arith)
            requires
                n <= NANO_ONE * NANO_ONE,
        ;
    }
    while lo + 1 < hi
        invariant
            lo < hi <= NANO_ONE + 1,
            (lo as int) * (lo as int) <= n as int,
            (n as int) < (hi as int) * (hi as int),
        decreases hi - lo,
    {
        let mid: u64 = lo + (hi - lo) / 2;
        proof {
            assert((mid as int) * (mid as int) <= u64::MAX as int) by (nonlinear_arith)
                requires
                    mid <= 1_000_000_001u64,
            ;
        }
        if mid * mid <= n {
            lo = mid;
        } else {
            hi = mid;
        }
    }
    proof {
        lemma_isqrt_unique(n as nat, lo as nat);
        if lo > NANO_ONE {
            assert(((NANO_ONE + 1) as int) * ((NANO_ONE + 1) as int) <= (lo as int) * (
            lo as int)) by (nonlinear_arith)
                requires
                    NANO_ONE + 1 <= lo,
            ;
            assert((NANO_ONE as int) * (NANO_ONE as int) < ((NANO_ONE + 1) as int) * ((NANO_ONE
                + 1) as int));
        }
    }
    lo
}

/// Square root of a nano-unit value in `[0, NANO_ONE]`: `isqrt(x * NANO_ONE)`,
/// so that `NANO_ONE` maps to `NANO_ONE` and the result stays in range.
pub open spec fn spec_sqrt_nano(x: int) -> int {
    spec_isqrt((x * (NANO_ONE as int)) as nat) as int
}

pub proof fn lemma_sqrt_nano_bounds(x: int)
    requires
        0 <= x <= NANO_ONE,
    ensures
        0 <= spec_sqrt_nano(x) <= NANO_ONE,
{
    assert(0 <= x * (NANO_ONE as int) <= (NANO_ONE as int) * (NANO_ONE as int)) by (nonlinear_arith)
        requires
            0 <= x <= NANO_ONE,
    ;
    lemma_isqrt_mono((x * (NANO_ONE as int)) as nat, ((NANO_ONE as int) * (NANO_ONE as int)) as nat);
    assert((NANO_ONE as int) * (NANO_ONE as int) < ((NANO_ONE as int) + 1) * ((NANO_ONE as int)
        + 1)) by (nonlinear_arith);
    lemma_isqrt_unique(((NANO_ONE as int) * (NANO_ONE as int)) as nat, NANO_ONE as nat);
}

/// The nano square root is monotone.
pub proof fn lemma_sqrt_nano_mono(x1: int, x2: int)
    requires
        0 <= x1 <= x2,
    ensures
        spec_sqrt_nano(x1) <= spec_sqrt_nano(x2),
{
    assert(x1 * (NANO_ONE as int) <= x2 * (NANO_ONE as int)) by (nonlinear_arith)
        requires
            0 <= x1 <= x2,
    ;
    lemma_isqrt_mono((x1 * (NANO_ONE as int)) as nat, (x2 * (NANO_ONE as int)) as nat);
}

/// The square root fixes the unit and zero.
pub proof fn lemma_sqrt_nano_unit()
    ensures
        spec_sqrt_nano(NANO_ONE as int) == NANO_ONE,
        spec_sqrt_nano(0) == 0,
{
    assert((NANO_ONE as int) * (NANO_ONE as int) < ((NANO_ONE as int) + 1) * ((NANO_ONE as int)
        + 1)) by (nonlinear_arith);
    lemma_isqrt_unique(((NANO_ONE as int) * (NANO_ONE as int)) as nat, NANO_ONE as nat);
}

/// Nano-unit square root.
pub fn sqrt_nano(x: u64) -> (r: u64)
    requires
        x <= NANO_ONE,
    ensures
        r == spec_sqrt_nano(x as int),
        r <= NANO_ONE,
{
    proof {
        assert(x * NANO_ONE <= NANO_ONE * NANO_ONE) by (nonlinear_arith)
            requires
                x <= NANO_ONE,
        ;
        lemma_sqrt_nano_bounds(x as int);
    }
    isqrt(x * NANO_ONE)
}

/// The nano-unit product: as `spec_fp_mul`, at the finer scale.
pub open spec fn spec_nano_mul(a: int, b: int) -> int {
    (a * b) / (NANO_ONE as int)
}

/// A nano product of nonnegative factors is nonnegative and is bounded by
/// either factor once the other is at most `NANO_ONE`.
pub proof fn lemma_nano_mul_bounds(a: int, b: int)
    requires
        0 <= a,
        0 <= b <= NANO_ONE,
    ensures
        0 <= spec_nano_mul(a, b) <= a,
{
    assert(0 <= a * b <= a * (NANO_ONE as int)) by (nonlinear_arith)
        requires
            0 <= a,
            0 <= b <= NANO_ONE,
    ;
    lemma_div_is_ordered(a * b, a * (NANO_ONE as int), NANO_ONE as int);
    lemma_div_by_multiple(a, NANO_ONE as int);
    lemma_div_pos_is_pos(a * b, NANO_ONE as int);
}

/// The nano product is monotone in both factors.
pub proof fn lemma_nano_mul_mono(a1: int, a2: int, b1: int, b2: int)
    requires
        0 <= a1 <= a2,
        0 <= b1 <= b2,
    ensures
        spec_nano_mul(a1, b1) <= spec_nano_mul(a2, b2),
{
    assert(a1 * b1 <= a2 * b2) by (nonlinear_arith)
        requires
            0 <= a1 <= a2,
            0 <= b1 <= b2,
    ;
    lemma_div_is_ordered(a1 * b1, a2 * b2, NANO_ONE as int);
}

} // verus!
