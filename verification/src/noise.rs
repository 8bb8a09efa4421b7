//! The noise field: deterministic fractal value noise over 2D fixed-point
//! coordinates.
//!
//! A seeded integer hash gives each lattice corner a value in `[0, 1]`;
//! bilinear interpolation between the four surrounding corners gives the base
//! noise. The fractal sample sums `octaves` layers of base noise, the layer
//! `k` scaled by `persistence^k` in amplitude and `lacunarity^k` in
//! frequency, and normalizes by the total amplitude, so the result always
//! lies in `[0, 1]`.

use vstd::prelude::*;
use vstd::arithmetic::div_mod::{lemma_div_is_ordered, lemma_div_by_multiple,
    lemma_div_multiples_vanish, lemma_div_pos_is_pos};
use crate::fixed::{ONE, HALF, spec_fp_mul, spec_lerp, fp_mul, lerp,
    lemma_fp_mul_bounds, lemma_fp_mul_strictly_decreases, lemma_lerp_bounds};

verus! {

/// Smallest accepted spatial scale (0.001): guards the division of
/// coordinates by `scale`.
pub const SCALE_MIN: u64 = 1_000;

/// Largest accepted spatial scale (100.0).
pub const SCALE_MAX: u64 = 100_000_000;

/// Largest accepted lacunarity (10.0).
pub const LACUNARITY_MAX: u64 = 10_000_000;

/// Largest number of fractal layers.
pub const MAX_OCTAVES: u32 = 6;

/// Largest world coordinate ever sampled (240.0 in fixed point): the far
/// edge of the mesh grid.
pub const MAX_COORD: u64 = 240_000_000;

/// Largest prime below 2^32; modulus of the corner hash.
pub const HASH_M: u64 = 4_294_967_291;

/// Largest frequency-scaled coordinate that can reach the base noise.
pub const MAX_NOISE_COORD: u64 = 25_000_000_000_000_000;

/// Largest lattice cell index: `MAX_NOISE_COORD / ONE`.
pub const MAX_CELL: u64 = 25_000_000_000;

/// The hashed value of a lattice corner, in `[0, ONE]`. The seed enters the
/// middle mixing round, so it perturbs every corner of the lattice.
pub open spec fn spec_corner(seed: u64, xi: int, zi: int) -> int {
    let h1 = (xi * 73_856_093 + zi * 19_349_663) % (HASH_M as int);
    let h2 = (h1 * 83_492_791 + (seed as int) % (HASH_M as int)) % (HASH_M as int);
    let h3 = (h2 * 2_654_435_761 + 1_013_904_223) % (HASH_M as int);
    h3 % ((ONE + 1) as int)
}

pub proof fn lemma_corner_bounds(seed: u64, xi: int, zi: int)
    ensures
        0 <= spec_corner(seed, xi, zi) <= ONE,
{
    let h2 = ((xi * 73_856_093 + zi * 19_349_663) % (HASH_M as int) * 83_492_791
        + (seed as int) % (HASH_M as int)) % (HASH_M as int);
    let h3 = (h2 * 2_654_435_761 + 1_013_904_223) % (HASH_M as int);
    vstd::arithmetic::div_mod::lemma_mod_division_less_than_divisor(h3, (ONE + 1) as int);
}

fn corner(seed: u64, xi: u64, zi: u64) -> (r: u64)
    requires
        xi <= MAX_CELL + 1,
        zi <= MAX_CELL + 1,
    ensures
        r == spec_corner(seed, xi as int, zi as int),
        r <= ONE,
{
    proof {
        assert(xi * 73_856_093 + zi * 19_349_663 <= u64::MAX) by (nonlinear_arith)
            requires
                xi <= MAX_CELL + 1,
                zi <= MAX_CELL + 1,
        ;
    }
    let h1 = (xi * 73_856_093 + zi * 19_349_663) % HASH_M;
    proof {
        assert(h1 * 83_492_791 + seed % HASH_M <= u64::MAX) by (nonlinear_arith)
            requires
                h1 < HASH_M,
        ;
    }
    let h2 = (h1 * 83_492_791 + seed % HASH_M) % HASH_M;
    proof {
        assert(h2 * 2_654_435_761 + 1_013_904_223 <= u64::MAX) by (nonlinear_arith)
            requires
                h2 < HASH_M,
        ;
    }
    let h3 = (h2 * 2_654_435_761 + 1_013_904_223) % HASH_M;
    h3 % (ONE + 1)
}

/// Base 2D value noise at a frequency-scaled fixed-point coordinate:
/// bilinear interpolation of the four surrounding corner values.
pub open spec fn spec_base_noise(seed: u64, cx: int, cz: int) -> int {
    let xi = cx / (ONE as int);
    let fx = cx % (ONE as int);
    let zi = cz / (ONE as int);
    let fz = cz % (ONE as int);
    let a = spec_lerp(spec_corner(seed, xi, zi), spec_corner(seed, xi + 1, zi), fx);
    let b = spec_lerp(spec_corner(seed, xi, zi + 1), spec_corner(seed, xi + 1, zi + 1), fx);
    spec_lerp(a, b, fz)
}

pub proof fn lemma_base_noise_bounds(seed: u64, cx: int, cz: int)
    ensures
        0 <= spec_base_noise(seed, cx, cz) <= ONE,
{
    let xi = cx / (ONE as int);
    let fx = cx % (ONE as int);
    let zi = cz / (ONE as int);
    let fz = cz % (ONE as int);
    vstd::arithmetic::div_mod::lemma_mod_division_less_than_divisor(cx, ONE as int);
    vstd::arithmetic::div_mod::lemma_mod_division_less_than_divisor(cz, ONE as int);
    lemma_corner_bounds(seed, xi, zi);
    lemma_corner_bounds(seed, xi + 1, zi);
    lemma_corner_bounds(seed, xi, zi + 1);
    lemma_corner_bounds(seed, xi + 1, zi + 1);
    let a = spec_lerp(spec_corner(seed, xi, zi), spec_corner(seed, xi + 1, zi), fx);
    let b = spec_lerp(spec_corner(seed, xi, zi + 1), spec_corner(seed, xi + 1, zi + 1), fx);
    lemma_lerp_bounds(spec_corner(seed, xi, zi), spec_corner(seed, xi + 1, zi), fx, ONE as int);
    lemma_lerp_bounds(spec_corner(seed, xi, zi + 1), spec_corner(seed, xi + 1, zi + 1), fx,
        ONE as int);
    lemma_lerp_bounds(a, b, fz, ONE as int);
}

fn base_noise(seed: u64, cx: u64, cz: u64) -> (r: u64)
    requires
        cx <= MAX_NOISE_COORD,
        cz <= MAX_NOISE_COORD,
    ensures
        r == spec_base_noise(seed, cx as int, cz as int),
        r <= ONE,
{
    let xi = cx / ONE;
    let fx = cx % ONE;
    let zi = cz / ONE;
    let fz = cz % ONE;
    let c00 = corner(seed, xi, zi);
    let c10 = corner(seed, xi + 1, zi);
    let c01 = corner(seed, xi, zi + 1);
    let c11 = corner(seed, xi + 1, zi + 1);
    let a = lerp(c00, c10, fx);
    let b = lerp(c01, c11, fx);
    lerp(a, b, fz)
}

/// The amplitude of fractal layer `k`: `persistence^k` in fixed point.
pub open spec fn spec_amp(p: int, k: nat) -> int
    decreases k,
{
    if k == 0 {
        ONE as int
    } else {
        spec_fp_mul(spec_amp(p, (k - 1) as nat), p)
    }
}

/// The frequency of fractal layer `k`: `lacunarity^k` in fixed point.
pub open spec fn spec_freq(l: int, k: nat) -> int
    decreases k,
{
    if k == 0 {
        ONE as int
    } else {
        spec_fp_mul(spec_freq(l, (k - 1) as nat), l)
    }
}

pub proof fn lemma_amp_bounds(p: int, k: nat)
    requires
        0 <= p <= ONE,
    ensures
        0 <= spec_amp(p, k) <= ONE,
    decreases k,
{
    if k == 0 {
    } else {
        lemma_amp_bounds(p, (k - 1) as nat);
        lemma_fp_mul_bounds(spec_amp(p, (k - 1) as nat), p);
    }
}

/// Powers of ten, used to bound layer frequencies.
pub open spec fn spec_tenpow(k: nat) -> int
    decreases k,
{
    if k == 0 {
        1
    } else {
        10 * spec_tenpow((k - 1) as nat)
    }
}

pub proof fn lemma_freq_bounds(l: int, k: nat)
    requires
        0 <= l <= LACUNARITY_MAX,
    ensures
        0 <= spec_freq(l, k) <= spec_tenpow(k) * (ONE as int),
    decreases k,
{
    if k == 0 {
    } else {
        lemma_freq_bounds(l, (k - 1) as nat);
        let f = spec_freq(l, (k - 1) as nat);
        assert(0 <= f * l <= (10 * spec_tenpow((k - 1) as nat) * (ONE as int)) * (ONE as int)) by (nonlinear_arith)
            requires
                0 <= f <= spec_tenpow((k - 1) as nat) * (ONE as int),
                0 <= l <= 10 * (ONE as int),
                spec_tenpow((k - 1) as nat) >= 0,
        ;
        lemma_div_is_ordered(f * l, (10 * spec_tenpow((k - 1) as nat) * (ONE as int)) * (ONE as int),
            ONE as int);
        lemma_div_by_multiple(10 * spec_tenpow((k - 1) as nat) * (ONE as int), ONE as int);
        lemma_div_pos_is_pos(f * l, ONE as int);
    }
}

/// Within the accepted octave count, layer frequencies stay below
/// `100_000 * ONE`.
pub proof fn lemma_freq_small(l: int, k: nat)
    requires
        0 <= l <= LACUNARITY_MAX,
        k <= 5,
    ensures
        0 <= spec_freq(l, k) <= 100_000_000_000,
{
    lemma_freq_bounds(l, k);
    reveal_with_fuel(spec_tenpow, 7);
    assert(spec_tenpow(k) <= 100_000);
    assert(spec_freq(l, k) <= spec_tenpow(k) * (ONE as int));
    assert(spec_tenpow(k) * (ONE as int) <= 100_000 * (ONE as int)) by (nonlinear_arith)
        requires
            spec_tenpow(k) <= 100_000,
    ;
}

/// Each successive fractal layer has a strictly smaller amplitude while the
/// amplitude has not vanished, whenever `persistence < 1`: detail
/// contributions diminish.
pub proof fn lemma_octave_amplitude_decreases(p: int, k: nat)
    requires
        0 <= p < ONE,
        spec_amp(p, k) >= 1,
    ensures
        spec_amp(p, (k + 1) as nat) < spec_amp(p, k),
{
    lemma_fp_mul_strictly_decreases(spec_amp(p, k), p);
}

/// What one more octave adds to the weighted layer sum is nonnegative and
/// bounded by that octave's amplitude; with the strictly decreasing
/// amplitudes of `lemma_octave_amplitude_decreases`, successive octaves
/// change the sum by strictly diminishing bounds.
pub proof fn lemma_octave_increment_bounded(nd: NoiseData, xs: int, zs: int, k: nat)
    requires
        nd.persistence <= ONE,
    ensures
        0 <= nd.spec_wsum(xs, zs, (k + 1) as nat) - nd.spec_wsum(xs, zs, k) <= spec_amp(
            nd.persistence as int,
            k,
        ) * (ONE as int),
{
    let f = spec_freq(nd.lacunarity as int, k);
    let amp = spec_amp(nd.persistence as int, k);
    let v = spec_base_noise(nd.seed, xs * f / (ONE as int), zs * f / (ONE as int));
    lemma_amp_bounds(nd.persistence as int, k);
    lemma_base_noise_bounds(nd.seed, xs * f / (ONE as int), zs * f / (ONE as int));
    assert(0 <= amp * v <= amp * (ONE as int)) by (nonlinear_arith)
        requires
            0 <= amp,
            0 <= v <= ONE,
    ;
}

/// Stores all parameters for the noise map generation.
#[derive(Clone, Copy, Debug, PartialEq, Eq, Structural)]
pub struct NoiseData {
    pub seed: u64,
    pub scale: u64,
    pub octaves: u32,
    pub persistence: u64,
    pub lacunarity: u64,
}

impl NoiseData {
    /// Documented parameter ranges: `scale` in `[0.001, 100]`, `octaves` in
    /// `[1, 6]`, `persistence` in `[0, 1]`, `lacunarity` in `[1, 10]`.
    pub open spec fn wf(self) -> bool {
        &&& SCALE_MIN <= self.scale <= SCALE_MAX
        &&& 1 <= self.octaves <= MAX_OCTAVES
        &&& self.persistence <= ONE
        &&& ONE <= self.lacunarity <= LACUNARITY_MAX
    }

    pub open spec fn spec_default() -> Self {
        NoiseData { seed: 0, scale: 40_000_000, octaves: 4, persistence: HALF, lacunarity: 3_000_000 }
    }

    /// The weighted sum of the first `k` fractal layers at the scaled
    /// coordinate `(xs, zs)`.
    pub open spec fn spec_wsum(self, xs: int, zs: int, k: nat) -> int
        decreases k,
    {
        if k == 0 {
            0
        } else {
            let j = (k - 1) as nat;
            let f = spec_freq(self.lacunarity as int, j);
            self.spec_wsum(xs, zs, j) + spec_amp(self.persistence as int, j) * spec_base_noise(
                self.seed,
                xs * f / (ONE as int),
                zs * f / (ONE as int),
            )
        }
    }

    /// The sum of the amplitudes of the first `k` fractal layers: the largest
    /// value `spec_wsum` can reach, used for normalization.
    pub open spec fn spec_asum(self, k: nat) -> int
        decreases k,
    {
        if k == 0 {
            0
        } else {
            self.spec_asum((k - 1) as nat) + spec_amp(self.persistence as int, (k - 1) as nat)
        }
    }

    /// The normalized fractal noise value at world coordinate
    /// `(x_fp, z_fp)`: the amplitude-weighted layer sum divided by the total
    /// amplitude, in `[0, ONE]`.
    pub open spec fn spec_sample(self, x_fp: int, z_fp: int) -> int {
        let xs = x_fp * (ONE as int) / (self.scale as int);
        let zs = z_fp * (ONE as int) / (self.scale as int);
        self.spec_wsum(xs, zs, self.octaves as nat) / self.spec_asum(self.octaves as nat)
    }

    proof fn lemma_asum_bounds(self, k: nat)
        requires
            self.persistence <= ONE,
        ensures
            0 <= self.spec_asum(k) <= k * (ONE as int),
            k >= 1 ==> (ONE as int) <= self.spec_asum(k),
        decreases k,
    {
        if k == 0 {
        } else {
            self.lemma_asum_bounds((k - 1) as nat);
            lemma_amp_bounds(self.persistence as int, (k - 1) as nat);
            assert(k * (ONE as int) == (k - 1) * (ONE as int) + ONE) by (nonlinear_arith);
        }
    }

    proof fn lemma_wsum_bounds(self, xs: int, zs: int, k: nat)
        requires
            self.persistence <= ONE,
        ensures
            0 <= self.spec_wsum(xs, zs, k) <= self.spec_asum(k) * (ONE as int),
        decreases k,
    {
        if k == 0 {
        } else {
            let j = (k - 1) as nat;
            self.lemma_wsum_bounds(xs, zs, j);
            let f = spec_freq(self.lacunarity as int, j);
            let amp = spec_amp(self.persistence as int, j);
            let v = spec_base_noise(self.seed, xs * f / (ONE as int), zs * f / (ONE as int));
            lemma_amp_bounds(self.persistence as int, j);
            lemma_base_noise_bounds(self.seed, xs * f / (ONE as int), zs * f / (ONE as int));
            assert(0 <= amp * v <= amp * (ONE as int)) by (nonlinear_arith)
                requires
                    0 <= amp,
                    0 <= v <= ONE,
            ;
            assert(self.spec_asum(j) * (ONE as int) + amp * (ONE as int) == self.spec_asum(k) * (
            ONE as int)) by (nonlinear_arith)
                requires
                    self.spec_asum(k) == self.spec_asum(j) + amp,
            ;
        }
    }

    /// The normalized sample lies in `[0, ONE]` for every coordinate.
    pub proof fn lemma_sample_bounds(self, x_fp: int, z_fp: int)
        requires
            self.wf(),
        ensures
            0 <= self.spec_sample(x_fp, z_fp) <= ONE,
    {
        let xs = x_fp * (ONE as int) / (self.scale as int);
        let zs = z_fp * (ONE as int) / (self.scale as int);
        let k = self.octaves as nat;
        self.lemma_asum_bounds(k);
        self.lemma_wsum_bounds(xs, zs, k);
        let w = self.spec_wsum(xs, zs, k);
        let a = self.spec_asum(k);
        lemma_div_pos_is_pos(w, a);
        lemma_div_is_ordered(w, a * (ONE as int), a);
        lemma_div_multiples_vanish(ONE as int, a);
    }

    /// The base noise of one fractal layer: the scaled coordinates are
    /// multiplied by the layer frequency and handed to the lattice noise.
    fn octave_noise(&self, xs: u64, zs: u64, freq: u64) -> (r: u64)
        requires
            xs <= 240_000_000_000,
            zs <= 240_000_000_000,
            freq <= 100_000_000_000,
        ensures
            r == spec_base_noise(
                self.seed,
                (xs as int) * (freq as int) / (ONE as int),
                (zs as int) * (freq as int) / (ONE as int),
            ),
            r <= ONE,
    {
        proof {
            assert((xs as int) * (freq as int) <= 240_000_000_000int * 100_000_000_000int)
                by (nonlinear_arith)
                requires
                    xs <= 240_000_000_000u64,
                    freq <= 100_000_000_000u64,
            ;
            lemma_div_is_ordered((xs as int) * (freq as int),
                240_000_000_000int * 100_000_000_000int, ONE as int);
            assert((zs as int) * (freq as int) <= 240_000_000_000int * 100_000_000_000int)
                by (nonlinear_arith)
                requires
                    zs <= 240_000_000_000u64,
                    freq <= 100_000_000_000u64,
            ;
            lemma_div_is_ordered((zs as int) * (freq as int),
                240_000_000_000int * 100_000_000_000int, ONE as int);
            lemma_div_pos_is_pos((xs as int) * (freq as int), ONE as int);
            lemma_div_pos_is_pos((zs as int) * (freq as int), ONE as int);
        }
        let cx128: u128 = (xs as u128) * (freq as u128) / (ONE as u128);
        let cz128: u128 = (zs as u128) * (freq as u128) / (ONE as u128);
        let cx: u64 = cx128 as u64;
        let cz: u64 = cz128 as u64;
        base_noise(self.seed, cx, cz)
    }

    /// The deterministic fractal noise sample at a world coordinate. The
    /// result is a pure function of the coordinate and the parameters.
    pub fn sample(&self, x_fp: u64, z_fp: u64) -> (r: u64)
        requires
            self.wf(),
            x_fp <= MAX_COORD,
            z_fp <= MAX_COORD,
        ensures
            r == self.spec_sample(x_fp as int, z_fp as int),
            r <= ONE,
    {
        proof {
            assert(x_fp * ONE <= MAX_COORD * ONE) by (nonlinear_arith)
                requires
                    x_fp <= MAX_COORD,
            ;
            assert(z_fp * ONE <= MAX_COORD * ONE) by (nonlinear_arith)
                requires
                    z_fp <= MAX_COORD,
            ;
            lemma_div_is_ordered((x_fp * ONE) as int, (MAX_COORD * ONE) as int, self.scale as int);
            lemma_div_is_ordered((z_fp * ONE) as int, (MAX_COORD * ONE) as int, self.scale as int);
            assert((MAX_COORD * ONE) as int / (self.scale as int) <= (MAX_COORD * ONE) as int
                / (SCALE_MIN as int)) by {
                vstd::arithmetic::div_mod::lemma_div_is_ordered_by_denominator(
                    (MAX_COORD * ONE) as int, SCALE_MIN as int, self.scale as int);
            }
        }
        let xs = (x_fp * ONE) / self.scale;
        let zs = (z_fp * ONE) / self.scale;
        let p = self.persistence;
        let l = self.lacunarity;
        let mut wsum: u64 = 0;
        let mut asum: u64 = 0;
        let mut amp: u64 = ONE;
        let mut freq: u64 = ONE;
        let mut k: u32 = 0;
        while k < self.octaves
            invariant
                self.wf(),
                p == self.persistence,
                l == self.lacunarity,
                xs <= 240_000_000_000,
                zs <= 240_000_000_000,
                k <= self.octaves,
                amp == spec_amp(p as int, k as nat),
                freq == spec_freq(l as int, k as nat),
                wsum == self.spec_wsum(xs as int, zs as int, k as nat),
                asum == self.spec_asum(k as nat),
            decreases self.octaves - k,
        {
            proof {
                lemma_amp_bounds(p as int, k as nat);
                lemma_freq_small(l as int, k as nat);
                self.lemma_asum_bounds(k as nat);
                self.lemma_wsum_bounds(xs as int, zs as int, k as nat);
            }
            let v = self.octave_noise(xs, zs, freq);
            proof {
                assert(amp * v <= ONE * ONE) by (nonlinear_arith)
                    requires
                        amp <= ONE,
                        v <= ONE,
                ;
                assert(wsum <= 6 * (ONE as int) * (ONE as int)) by (nonlinear_arith)
                    requires
                        wsum <= self.spec_asum(k as nat) * (ONE as int),
                        self.spec_asum(k as nat) <= (k as nat) * (ONE as int),
                        k <= 6,
                ;
                assert(amp * p <= ONE * ONE) by (nonlinear_arith)
                    requires
                        amp <= ONE,
                        p <= ONE,
                ;
                assert(freq * l <= 100_000_000_000u64 * 10_000_000u64) by (nonlinear_arith)
                    requires
                        freq <= 100_000_000_000u64,
                        l <= LACUNARITY_MAX,
                ;
            }
            wsum = wsum + amp * v;
            asum = asum + amp;
            amp = fp_mul(amp, p);
            freq = fp_mul(freq, l);
            k = k + 1;
        }
        proof {
            self.lemma_asum_bounds(self.octaves as nat);
            self.lemma_wsum_bounds(xs as int, zs as int, self.octaves as nat);
            lemma_div_pos_is_pos(wsum as int, asum as int);
            lemma_div_is_ordered(wsum as int, (asum as int) * (ONE as int), asum as int);
            lemma_div_multiples_vanish(ONE as int, asum as int);
        }
        wsum / asum
    }
}

impl Default for NoiseData {
    /// The default noise parameters: seed 0, scale 40, 4 octaves,
    /// persistence 0.5, lacunarity 3.
    fn default() -> (r: Self)
        ensures
            r == Self::spec_default(),
            r.wf(),
    {
        NoiseData { seed: 0, scale: 40_000_000, octaves: 4, persistence: HALF, lacunarity: 3_000_000 }
    }
}

} // verus!
