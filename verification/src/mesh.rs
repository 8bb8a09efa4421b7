//! The heightfield sampler and the mesh builder.
//!
//! The sampler composes the noise field, the height curve and the vertical
//! scale into an elevation at any world coordinate. The builder triangulates
//! a square grid of the sampler at a stride chosen by the level of detail:
//! vertex positions, finite-difference normals, triangle indices, and the
//! normalized height per vertex for the material blender.

use vstd::prelude::*;
use vstd::arithmetic::div_mod::{lemma_div_is_ordered, lemma_div_multiples_vanish_fancy,
    lemma_fundamental_div_mod_converse_div, lemma_fundamental_div_mod_converse_mod};
use crate::fixed::{ONE, spec_fp_mul, fp_mul, lemma_fp_mul_bounds};
use crate::curve::HeightCurve;
use crate::noise::{NoiseData, MAX_COORD};

verus! {

/// Largest accepted vertical scale (100.0).
pub const MAP_HEIGHT_MAX: u64 = 100_000_000;

/// Number of grid points along one edge of the finest grid.
pub const GRID_SIZE: usize = 241;

/// Largest accepted level of detail.
pub const MAX_LOD: usize = 6;

/// The heightfield sampler: noise field, height curve and vertical scale,
/// giving an elevation at any world coordinate.
#[derive(Clone, Copy, Debug, PartialEq, Eq, Structural)]
pub struct Heightfield {
    pub noise: NoiseData,
    pub curve: HeightCurve,
    pub map_height: u64,
}

impl Heightfield {
    pub open spec fn wf(self) -> bool {
        &&& self.noise.wf()
        &&& self.curve.wf()
        &&& 0 < self.map_height <= MAP_HEIGHT_MAX
    }

    /// The normalized height at a world coordinate: the fractal noise sample
    /// remapped by the height curve, in `[0, ONE]`.
    pub open spec fn spec_height(self, x_fp: int, z_fp: int) -> int {
        self.curve.spec_evaluate(self.noise.spec_sample(x_fp, z_fp))
    }

    /// The world elevation: the normalized height scaled by `map_height`.
    pub open spec fn spec_elevation(self, x_fp: int, z_fp: int) -> int {
        spec_fp_mul(self.map_height as int, self.spec_height(x_fp, z_fp))
    }

    pub proof fn lemma_height_bounds(self, x_fp: int, z_fp: int)
        requires
            self.wf(),
        ensures
            0 <= self.spec_height(x_fp, z_fp) <= ONE,
            0 <= self.spec_elevation(x_fp, z_fp) <= self.map_height,
    {
        self.noise.lemma_sample_bounds(x_fp, z_fp);
        crate::curve::lemma_evaluate_bounds(self.curve, self.noise.spec_sample(x_fp, z_fp));
        lemma_fp_mul_bounds(self.map_height as int, self.spec_height(x_fp, z_fp));
    }

    /// The normalized height at a world coordinate.
    pub fn height(&self, x_fp: u64, z_fp: u64) -> (r: u64)
        requires
            self.wf(),
            x_fp <= MAX_COORD,
            z_fp <= MAX_COORD,
        ensures
            r == self.spec_height(x_fp as int, z_fp as int),
            r <= ONE,
    {
        let s = self.noise.sample(x_fp, z_fp);
        self.curve.evaluate(s)
    }

    /// The elevation at a world coordinate.
    pub fn elevation(&self, x_fp: u64, z_fp: u64) -> (r: u64)
        requires
            self.wf(),
            x_fp <= MAX_COORD,
            z_fp <= MAX_COORD,
        ensures
            r == self.spec_elevation(x_fp as int, z_fp as int),
            r <= self.map_height,
    {
        let h = self.height(x_fp, z_fp);
        proof {
            assert(self.map_height * h <= u64::MAX) by (nonlinear_arith)
                requires
                    self.map_height <= MAP_HEIGHT_MAX,
                    h <= ONE,
            ;
            lemma_fp_mul_bounds(self.map_height as int, h as int);
        }
        fp_mul(self.map_height, h)
    }
}

/// The grid stride of a level of detail: 1 at the finest level, then two
/// more grid units per level.
pub open spec fn spec_step(lod: int) -> int {
    if lod == 0 {
        1
    } else {
        2 * lod
    }
}

/// Grid points per edge at a level of detail. Every accepted stride divides
/// `GRID_SIZE - 1`, so the far edge is always sampled.
pub open spec fn spec_grid_n(lod: int) -> int {
    240int / spec_step(lod) + 1
}

/// The accepted strides divide the grid edge evenly.
pub proof fn lemma_grid_dims(lod: int)
    requires
        0 <= lod <= MAX_LOD,
    ensures
        1 <= spec_step(lod) <= 12,
        21 <= spec_grid_n(lod) <= 241,
        (spec_grid_n(lod) - 1) * spec_step(lod) == 240,
{
    let s = spec_step(lod);
    let n = spec_grid_n(lod);
    if lod == 0 {
        lemma_fundamental_div_mod_converse_div(240, 1, 240, 0);
        assert(s == 1 && n == 241);
    } else if lod == 1 {
        lemma_fundamental_div_mod_converse_div(240, 2, 120, 0);
        assert(s == 2 && n == 121);
    } else if lod == 2 {
        lemma_fundamental_div_mod_converse_div(240, 4, 60, 0);
        assert(s == 4 && n == 61);
    } else if lod == 3 {
        lemma_fundamental_div_mod_converse_div(240, 6, 40, 0);
        assert(s == 6 && n == 41);
    } else if lod == 4 {
        lemma_fundamental_div_mod_converse_div(240, 8, 30, 0);
        assert(s == 8 && n == 31);
    } else if lod == 5 {
        lemma_fundamental_div_mod_converse_div(240, 10, 24, 0);
        assert(s == 10 && n == 25);
    } else {
        lemma_fundamental_div_mod_converse_div(240, 12, 20, 0);
        assert(s == 12 && n == 21);
    }
    assert((n - 1) * s == 240) by (nonlinear_arith)
        requires
            (s == 1 && n == 241) || (s == 2 && n == 121) || (s == 4 && n == 61) || (s == 6 && n
                == 41) || (s == 8 && n == 31) || (s == 10 && n == 25) || (s == 12 && n == 21),
    ;
}

/// The finest level of detail has the densest grid.
pub proof fn lemma_lod_zero_densest(lod: int)
    requires
        0 <= lod <= MAX_LOD,
    ensures
        spec_grid_n(lod) <= spec_grid_n(0),
{
    lemma_grid_dims(lod);
}

/// Splitting a flattened grid offset back into its row and column.
pub proof fn lemma_grid_index(rr: int, cc: int, n: int)
    requires
        0 <= rr,
        0 <= cc < n,
    ensures
        (rr * n + cc) / n == rr,
        (rr * n + cc) % n == cc,
{
    assert(rr * n + cc == n * rr + cc) by (nonlinear_arith);
    lemma_fundamental_div_mod_converse_div(rr * n + cc, n, rr, cc);
    lemma_fundamental_div_mod_converse_mod(rr * n + cc, n, rr, cc);
}

/// A vertex position in fixed-point world units.
#[derive(Clone, Copy, Debug, PartialEq, Eq, Structural)]
pub struct Vertex {
    pub x: u64,
    pub y: u64,
    pub z: u64,
}

/// An unnormalized vertex normal from central height differences; the `y`
/// component is always positive, so normals face outward (upward).
#[derive(Clone, Copy, Debug, PartialEq, Eq, Structural)]
pub struct Normal {
    pub x: i64,
    pub y: i64,
    pub z: i64,
}

/// A triangulated heightfield mesh: positions, normals, triangle indices,
/// and the normalized height per vertex for the material blender. Created
/// fresh by each generation call and immutable afterwards.
#[derive(Clone, Debug, PartialEq)]
pub struct GeneratedMesh {
    pub vertices: Vec<Vertex>,
    pub normals: Vec<Normal>,
    pub indices: Vec<usize>,
    pub heights: Vec<u64>,
}

/// The normalized height at grid offset `i` of the level-of-detail grid.
pub open spec fn spec_height_at(hf: Heightfield, lod: int, i: int) -> int {
    let n = spec_grid_n(lod);
    let s = spec_step(lod);
    hf.spec_height((i % n) * s * (ONE as int), (i / n) * s * (ONE as int))
}

/// The elevation at grid offset `i`.
pub open spec fn spec_elev_at(hf: Heightfield, lod: int, i: int) -> int {
    spec_fp_mul(hf.map_height as int, spec_height_at(hf, lod, i))
}

/// The vertex at grid offset `i`: world position on the grid plane with the
/// sampled elevation.
pub open spec fn spec_vertex(hf: Heightfield, lod: int, i: int) -> Vertex {
    let n = spec_grid_n(lod);
    let s = spec_step(lod);
    Vertex {
        x: ((i % n) * s * (ONE as int)) as u64,
        y: spec_elev_at(hf, lod, i) as u64,
        z: ((i / n) * s * (ONE as int)) as u64,
    }
}

/// The neighbor offsets used for the finite differences at grid offset `i`:
/// one column left and right, one row up and down, clamped at the grid edge.
pub open spec fn spec_neighbor_left(lod: int, i: int) -> int {
    let n = spec_grid_n(lod);
    if i % n > 0 {
        i - 1
    } else {
        i
    }
}

pub open spec fn spec_neighbor_right(lod: int, i: int) -> int {
    let n = spec_grid_n(lod);
    if i % n < n - 1 {
        i + 1
    } else {
        i
    }
}

pub open spec fn spec_neighbor_up(lod: int, i: int) -> int {
    let n = spec_grid_n(lod);
    if i / n > 0 {
        i - n
    } else {
        i
    }
}

pub open spec fn spec_neighbor_down(lod: int, i: int) -> int {
    let n = spec_grid_n(lod);
    if i / n < n - 1 {
        i + n
    } else {
        i
    }
}

/// The unnormalized normal at grid offset `i`: finite differences of the
/// neighboring elevations in `x` and `z`, and twice the world stride in `y`.
pub open spec fn spec_normal(hf: Heightfield, lod: int, i: int) -> Normal {
    let s = spec_step(lod);
    Normal {
        x: (spec_elev_at(hf, lod, spec_neighbor_left(lod, i)) - spec_elev_at(
            hf,
            lod,
            spec_neighbor_right(lod, i),
        )) as i64,
        y: (2 * s * (ONE as int)) as i64,
        z: (spec_elev_at(hf, lod, spec_neighbor_up(lod, i)) - spec_elev_at(
            hf,
            lod,
            spec_neighbor_down(lod, i),
        )) as i64,
    }
}

/// The `k`-th entry of the triangle index list: each grid cell emits two
/// triangles with a consistent winding, both faced upward.
pub open spec fn spec_index(n: int, k: int) -> int {
    let cell = k / 6;
    let rr = cell / (n - 1);
    let cc = cell % (n - 1);
    let base = rr * n + cc;
    let which = k % 6;
    if which == 0 {
        base
    } else if which == 1 {
        base + n
    } else if which == 2 {
        base + n + 1
    } else if which == 3 {
        base
    } else if which == 4 {
        base + n + 1
    } else {
        base + 1
    }
}

/// Whether a mesh is exactly the triangulation of the heightfield `hf` at
/// level of detail `lod`.
pub open spec fn spec_matches_mesh(hf: Heightfield, lod: int, m: GeneratedMesh) -> bool {
    let n = spec_grid_n(lod);
    &&& m.vertices@.len() == n * n
    &&& m.normals@.len() == n * n
    &&& m.heights@.len() == n * n
    &&& m.indices@.len() == 6 * (n - 1) * (n - 1)
    &&& (forall|i: int| 0 <= i < n * n ==> #[trigger] m.vertices@[i] == spec_vertex(hf, lod, i))
    &&& (forall|i: int| 0 <= i < n * n ==> #[trigger] m.heights@[i] == spec_height_at(hf, lod, i))
    &&& (forall|i: int| 0 <= i < n * n ==> #[trigger] m.normals@[i] == spec_normal(hf, lod, i))
    &&& (forall|k: int|
        0 <= k < 6 * (n - 1) * (n - 1) ==> #[trigger] m.indices@[k] == spec_index(n, k))
}

/// Every triangle index points at an existing vertex.
pub proof fn lemma_index_valid(n: int, k: int)
    requires
        2 <= n,
        0 <= k < 6 * (n - 1) * (n - 1),
    ensures
        0 <= spec_index(n, k) < n * n,
{
    let cell = k / 6;
    assert(k <= 6 * ((n - 1) * (n - 1) - 1) + 5) by (nonlinear_arith)
        requires
            k < 6 * (n - 1) * (n - 1),
    ;
    lemma_div_is_ordered(k, 6 * ((n - 1) * (n - 1) - 1) + 5, 6);
    lemma_div_multiples_vanish_fancy((n - 1) * (n - 1) - 1, 5, 6);
    assert(cell <= (n - 1) * (n - 1) - 1);
    vstd::arithmetic::div_mod::lemma_div_pos_is_pos(k, 6);
    let rr = cell / (n - 1);
    let cc = cell % (n - 1);
    assert((n - 1) * (n - 1) - 1 == (n - 1) * (n - 2) + (n - 2)) by (nonlinear_arith);
    lemma_div_is_ordered(cell, (n - 1) * (n - 2) + (n - 2), n - 1);
    lemma_div_multiples_vanish_fancy(n - 2, n - 2, n - 1);
    assert(rr <= n - 2);
    vstd::arithmetic::div_mod::lemma_div_pos_is_pos(cell, n - 1);
    vstd::arithmetic::div_mod::lemma_mod_division_less_than_divisor(cell, n - 1);
    assert(0 <= cc <= n - 2);
    assert(rr * n + cc + n + 1 <= n * n - 1) by (nonlinear_arith)
        requires
            0 <= rr <= n - 2,
            0 <= cc <= n - 2,
            2 <= n,
    ;
    vstd::arithmetic::div_mod::lemma_mod_division_less_than_divisor(k, 6);
}

/// The `y` component of the cross product of a triangle's edges: its signed
/// area (doubled) when projected on the grid plane. Positive means the
/// triangle faces upward, outward from the terrain.
pub open spec fn spec_tri_cross_y(a: Vertex, b: Vertex, c: Vertex) -> int {
    (b.z - a.z) * (c.x - a.x) - (b.x - a.x) * (c.z - a.z)
}

/// Every triangle of the grid has the same positive upward cross product —
/// `(step * ONE)^2` — so the winding is consistent, the normals face
/// outward, and no triangle anywhere in the grid is degenerate.
/// The three index-list entries of triangle `t`, written out over the
/// triangle's grid cell.
#[verifier::spinoff_prover]
proof fn lemma_tri_indices(n: int, t: int)
    requires
        2 <= n,
        0 <= t < 2 * (n - 1) * (n - 1),
    ensures
        ({
            let m = t / 2;
            let rr = m / (n - 1);
            let cc = m % (n - 1);
            &&& 0 <= rr <= n - 2
            &&& 0 <= cc <= n - 2
            &&& spec_index(n, 3 * t) == rr * n + cc
            &&& (t % 2 == 0 ==> spec_index(n, 3 * t + 1) == rr * n + cc + n && spec_index(
                n,
                3 * t + 2,
            ) == rr * n + cc + n + 1)
            &&& (t % 2 != 0 ==> spec_index(n, 3 * t + 1) == rr * n + cc + n + 1 && spec_index(
                n,
                3 * t + 2,
            ) == rr * n + cc + 1)
        }),
{
    let m = t / 2;
    assert(t <= 2 * ((n - 1) * (n - 1) - 1) + 1) by (nonlinear_arith)
        requires
            t < 2 * (n - 1) * (n - 1),
    ;
    lemma_div_is_ordered(t, 2 * ((n - 1) * (n - 1) - 1) + 1, 2);
    lemma_div_multiples_vanish_fancy((n - 1) * (n - 1) - 1, 1, 2);
    assert(m <= (n - 1) * (n - 1) - 1);
    vstd::arithmetic::div_mod::lemma_div_pos_is_pos(t, 2);
    let rr = m / (n - 1);
    let cc = m % (n - 1);
    assert((n - 1) * (n - 1) - 1 == (n - 1) * (n - 2) + (n - 2)) by (nonlinear_arith);
    lemma_div_is_ordered(m, (n - 1) * (n - 2) + (n - 2), n - 1);
    lemma_div_multiples_vanish_fancy(n - 2, n - 2, n - 1);
    assert(rr <= n - 2);
    vstd::arithmetic::div_mod::lemma_div_pos_is_pos(m, n - 1);
    vstd::arithmetic::div_mod::lemma_mod_division_less_than_divisor(m, n - 1);
    assert(0 <= cc <= n - 2);
    vstd::arithmetic::div_mod::lemma_fundamental_div_mod(t, 2);
    vstd::arithmetic::div_mod::lemma_mod_division_less_than_divisor(t, 2);
    if t % 2 == 0 {
        assert(3 * t == m * 6 + 0);
        lemma_fundamental_div_mod_converse_div(3 * t, 6, m, 0);
        lemma_fundamental_div_mod_converse_mod(3 * t, 6, m, 0);
        assert(3 * t + 1 == m * 6 + 1);
        lemma_fundamental_div_mod_converse_div(3 * t + 1, 6, m, 1);
        lemma_fundamental_div_mod_converse_mod(3 * t + 1, 6, m, 1);
        assert(3 * t + 2 == m * 6 + 2);
        lemma_fundamental_div_mod_converse_div(3 * t + 2, 6, m, 2);
        lemma_fundamental_div_mod_converse_mod(3 * t + 2, 6, m, 2);
    } else {
        assert(3 * t == m * 6 + 3);
        lemma_fundamental_div_mod_converse_div(3 * t, 6, m, 3);
        lemma_fundamental_div_mod_converse_mod(3 * t, 6, m, 3);
        assert(3 * t + 1 == m * 6 + 4);
        lemma_fundamental_div_mod_converse_div(3 * t + 1, 6, m, 4);
        lemma_fundamental_div_mod_converse_mod(3 * t + 1, 6, m, 4);
        assert(3 * t + 2 == m * 6 + 5);
        lemma_fundamental_div_mod_converse_div(3 * t + 2, 6, m, 5);
        lemma_fundamental_div_mod_converse_mod(3 * t + 2, 6, m, 5);
    }
}

/// The grid-plane coordinates of the vertex at row `rr` and column `cc`.
#[verifier::spinoff_prover]
proof fn lemma_vertex_xz(hf: Heightfield, lod: int, rr: int, cc: int)
    requires
        0 <= lod <= MAX_LOD,
        0 <= rr < spec_grid_n(lod),
        0 <= cc < spec_grid_n(lod),
    ensures
        spec_vertex(hf, lod, rr * spec_grid_n(lod) + cc).x == cc * spec_step(lod) * (ONE as int),
        spec_vertex(hf, lod, rr * spec_grid_n(lod) + cc).z == rr * spec_step(lod) * (ONE as int),
{
    let n = spec_grid_n(lod);
    let s = spec_step(lod);
    lemma_grid_dims(lod);
    lemma_grid_index(rr, cc, n);
    assert(0 <= cc * s * (ONE as int) <= 240_000_000 && 0 <= rr * s * (ONE as int)
        <= 240_000_000) by (nonlinear_arith)
        requires
            0 <= cc <= n - 1,
            0 <= rr <= n - 1,
            1 <= s,
            (n - 1) * s == 240,
    ;
}

#[verifier::rlimit(100)]
#[verifier::spinoff_prover]
pub proof fn lemma_triangle_orientation(hf: Heightfield, lod: int, t: int)
    requires
        hf.wf(),
        0 <= lod <= MAX_LOD,
        0 <= t < 2 * (spec_grid_n(lod) - 1) * (spec_grid_n(lod) - 1),
    ensures
        spec_tri_cross_y(
            spec_vertex(hf, lod, spec_index(spec_grid_n(lod), 3 * t)),
            spec_vertex(hf, lod, spec_index(spec_grid_n(lod), 3 * t + 1)),
            spec_vertex(hf, lod, spec_index(spec_grid_n(lod), 3 * t + 2)),
        ) == (spec_step(lod) * (ONE as int)) * (spec_step(lod) * (ONE as int)),
        spec_tri_cross_y(
            spec_vertex(hf, lod, spec_index(spec_grid_n(lod), 3 * t)),
            spec_vertex(hf, lod, spec_index(spec_grid_n(lod), 3 * t + 1)),
            spec_vertex(hf, lod, spec_index(spec_grid_n(lod), 3 * t + 2)),
        ) > 0,
{
    let n = spec_grid_n(lod);
    let s = spec_step(lod);
    lemma_grid_dims(lod);
    lemma_tri_indices(n, t);
    let m = t / 2;
    let rr = m / (n - 1);
    let cc = m % (n - 1);
    let base = rr * n + cc;
    lemma_vertex_xz(hf, lod, rr, cc);
    lemma_vertex_xz(hf, lod, rr + 1, cc);
    lemma_vertex_xz(hf, lod, rr + 1, cc + 1);
    lemma_vertex_xz(hf, lod, rr, cc + 1);
    assert(base + n == (rr + 1) * n + cc && base + n + 1 == (rr + 1) * n + (cc + 1) && base + 1
        == rr * n + (cc + 1)) by (nonlinear_arith)
        requires
            base == rr * n + cc,
    ;
    let x0 = cc * s * (ONE as int);
    let x1 = (cc + 1) * s * (ONE as int);
    let z0 = rr * s * (ONE as int);
    let z1 = (rr + 1) * s * (ONE as int);
    assert(z1 - z0 == s * (ONE as int) && x1 - x0 == s * (ONE as int)) by (nonlinear_arith)
        requires
            x0 == cc * s * (ONE as int),
            x1 == (cc + 1) * s * (ONE as int),
            z0 == rr * s * (ONE as int),
            z1 == (rr + 1) * s * (ONE as int),
    ;
    assert((s * (ONE as int)) * (s * (ONE as int)) > 0) by (nonlinear_arith)
        requires
            s >= 1,
    ;
    if t % 2 == 0 {
        let va = spec_vertex(hf, lod, base);
        let vb = spec_vertex(hf, lod, base + n);
        let vc = spec_vertex(hf, lod, base + n + 1);
        assert(va.x == x0 && va.z == z0 && vb.x == x0 && vb.z == z1 && vc.x == x1 && vc.z == z1);
        assert(spec_tri_cross_y(va, vb, vc) == (s * (ONE as int)) * (s * (ONE as int)))
            by (nonlinear_arith)
            requires
                va.x == x0 && va.z == z0 && vb.x == x0 && vb.z == z1 && vc.x == x1 && vc.z == z1,
                z1 - z0 == s * (ONE as int),
                x1 - x0 == s * (ONE as int),
                spec_tri_cross_y(va, vb, vc) == (vb.z - va.z) * (vc.x - va.x) - (vb.x - va.x) * (
                vc.z - va.z),
        ;
    } else {
        let va = spec_vertex(hf, lod, base);
        let vb = spec_vertex(hf, lod, base + n + 1);
        let vc = spec_vertex(hf, lod, base + 1);
        assert(va.x == x0 && va.z == z0 && vb.x == x1 && vb.z == z1 && vc.x == x1 && vc.z == z0);
        assert(spec_tri_cross_y(va, vb, vc) == (s * (ONE as int)) * (s * (ONE as int)))
            by (nonlinear_arith)
            requires
                va.x == x0 && va.z == z0 && vb.x == x1 && vb.z == z1 && vc.x == x1 && vc.z == z0,
                z1 - z0 == s * (ONE as int),
                x1 - x0 == s * (ONE as int),
                spec_tri_cross_y(va, vb, vc) == (vb.z - va.z) * (vc.x - va.x) - (vb.x - va.x) * (
                vc.z - va.z),
        ;
    }
}

/// Two meshes built from the same parameters are equal: generation is
/// deterministic.
pub proof fn lemma_mesh_deterministic(hf: Heightfield, lod: int, m1: GeneratedMesh, m2: GeneratedMesh)
    requires
        spec_matches_mesh(hf, lod, m1),
        spec_matches_mesh(hf, lod, m2),
    ensures
        m1.vertices@ == m2.vertices@,
        m1.normals@ == m2.normals@,
        m1.indices@ == m2.indices@,
        m1.heights@ == m2.heights@,
{
    assert(m1.vertices@ =~= m2.vertices@);
    assert(m1.normals@ =~= m2.normals@);
    assert(m1.indices@ =~= m2.indices@);
    assert(m1.heights@ =~= m2.heights@);
}

/// Triangulates the heightfield grid at the stride of `lod`.
#[verifier::rlimit(60)]
pub fn build_mesh(hf: &Heightfield, lod: usize) -> (r: GeneratedMesh)
    requires
        hf.wf(),
        lod <= MAX_LOD,
    ensures
        spec_matches_mesh(*hf, lod as int, r),
        forall|k: int|
            0 <= k < r.indices@.len() ==> #[trigger] r.indices@[k] < r.vertices@.len(),
{
    proof {
        lemma_grid_dims(lod as int);
    }
    let step: usize = if lod == 0 {
        1
    } else {
        2 * lod
    };
    let n: usize = (GRID_SIZE - 1) / step + 1;
    proof {
        assert(n == spec_grid_n(lod as int));
        assert((n as int) * (n as int) <= 58_081) by (nonlinear_arith)
            requires
                n <= 241,
        ;
    }
    let total: usize = n * n;
    let mut vertices: Vec<Vertex> = Vec::new();
    let mut heights: Vec<u64> = Vec::new();
    let mut i: usize = 0;
    while i < total
        invariant
            hf.wf(),
            lod <= MAX_LOD,
            step == spec_step(lod as int),
            n == spec_grid_n(lod as int),
            (n - 1) * step == 240,
            2 <= n <= 241,
            step <= 12,
            total == n * n,
            total <= 58_081,
            i <= total,
            vertices@.len() == i,
            heights@.len() == i,
            forall|j: int| 0 <= j < i ==> #[trigger] vertices@[j] == spec_vertex(*hf, lod as int, j),
            forall|j: int| 0 <= j < i ==> #[trigger] heights@[j] == spec_height_at(*hf, lod as int, j),
        decreases total - i,
    {
        let rr = i / n;
        let cc = i % n;
        proof {
            lemma_div_is_ordered(i as int, (total - 1) as int, n as int);
            assert((n * n - 1) as int == (n as int) * ((n - 1) as int) + ((n - 1) as int))
                by (nonlinear_arith);
            lemma_div_multiples_vanish_fancy((n - 1) as int, (n - 1) as int, n as int);
            vstd::arithmetic::div_mod::lemma_mod_division_less_than_divisor(i as int, n as int);
            assert(cc * step <= 240 && rr * step <= 240) by (nonlinear_arith)
                requires
                    cc <= (n - 1) as int,
                    rr <= (n - 1) as int,
                    ((n - 1) as int) * (step as int) == 240,
                    0 <= cc,
                    0 <= rr,
                    0 <= step,
            ;
        }
        let x: u64 = ((cc * step) as u64) * ONE;
        let z: u64 = ((rr * step) as u64) * ONE;
        let h = hf.height(x, z);
        proof {
            assert(hf.map_height * h <= u64::MAX) by (nonlinear_arith)
                requires
                    hf.map_height <= MAP_HEIGHT_MAX,
                    h <= ONE,
            ;
            lemma_fp_mul_bounds(hf.map_height as int, h as int);
        }
        let y = fp_mul(hf.map_height, h);
        vertices.push(Vertex { x, y, z });
        heights.push(h);
        i = i + 1;
    }
    let mut normals: Vec<Normal> = Vec::new();
    let mut i: usize = 0;
    while i < total
        invariant
            hf.wf(),
            lod <= MAX_LOD,
            step == spec_step(lod as int),
            n == spec_grid_n(lod as int),
            2 <= n <= 241,
            step <= 12,
            total == n * n,
            total <= 58_081,
            i <= total,
            vertices@.len() == total,
            normals@.len() == i,
            forall|j: int| 0 <= j < total ==> #[trigger] vertices@[j] == spec_vertex(
                *hf,
                lod as int,
                j,
            ),
            forall|j: int| 0 <= j < i ==> #[trigger] normals@[j] == spec_normal(*hf, lod as int, j),
        decreases total - i,
    {
        let rr = i / n;
        let cc = i % n;
        proof {
            lemma_div_is_ordered(i as int, (total - 1) as int, n as int);
            assert((n * n - 1) as int == (n as int) * ((n - 1) as int) + ((n - 1) as int))
                by (nonlinear_arith);
            lemma_div_multiples_vanish_fancy((n - 1) as int, (n - 1) as int, n as int);
            vstd::arithmetic::div_mod::lemma_mod_division_less_than_divisor(i as int, n as int);
            assert(rr * n + cc == i) by {
                vstd::arithmetic::div_mod::lemma_fundamental_div_mod(i as int, n as int);
                assert((n as int) * ((i as int) / (n as int)) == ((i as int) / (n as int)) * (
                n as int)) by (nonlinear_arith);
            }
            assert(rr >= 1 ==> i >= n) by (nonlinear_arith)
                requires
                    rr * n + cc == i,
                    0 <= cc,
                    0 <= n,
            ;
            assert(cc < n - 1 ==> i + 1 < total) by (nonlinear_arith)
                requires
                    rr * n + cc == i,
                    rr <= n - 1,
                    total == n * n,
                    0 <= cc,
                    2 <= n,
            ;
            assert(rr < n - 1 ==> i + n < total) by (nonlinear_arith)
                requires
                    rr * n + cc == i,
                    cc <= n - 1,
                    total == n * n,
                    0 <= rr,
                    2 <= n,
            ;
        }
        let il: usize = if cc > 0 {
            i - 1
        } else {
            i
        };
        let ir: usize = if cc < n - 1 {
            i + 1
        } else {
            i
        };
        let iu: usize = if rr > 0 {
            i - n
        } else {
            i
        };
        let id: usize = if rr < n - 1 {
            i + n
        } else {
            i
        };
        proof {
            assert(il < total && ir < total && iu < total && id < total);
            assert(il == spec_neighbor_left(lod as int, i as int));
            assert(ir == spec_neighbor_right(lod as int, i as int));
            assert(iu == spec_neighbor_up(lod as int, i as int));
            assert(id == spec_neighbor_down(lod as int, i as int));
            hf.lemma_height_bounds(
                ((il as int) % (n as int)) * (step as int) * (ONE as int),
                ((il as int) / (n as int)) * (step as int) * (ONE as int),
            );
            hf.lemma_height_bounds(
                ((ir as int) % (n as int)) * (step as int) * (ONE as int),
                ((ir as int) / (n as int)) * (step as int) * (ONE as int),
            );
            hf.lemma_height_bounds(
                ((iu as int) % (n as int)) * (step as int) * (ONE as int),
                ((iu as int) / (n as int)) * (step as int) * (ONE as int),
            );
            hf.lemma_height_bounds(
                ((id as int) % (n as int)) * (step as int) * (ONE as int),
                ((id as int) / (n as int)) * (step as int) * (ONE as int),
            );
        }
        let nx: i64 = (vertices[il].y as i64) - (vertices[ir].y as i64);
        let nz: i64 = (vertices[iu].y as i64) - (vertices[id].y as i64);
        let ny: i64 = ((2 * step) as i64) * 1_000_000i64;
        normals.push(Normal { x: nx, y: ny, z: nz });
        i = i + 1;
    }
    proof {
        assert(((n - 1) as int) * ((n - 1) as int) <= 57_600 && 6 * (((n - 1) as int) * ((n
            - 1) as int)) == 6 * ((n - 1) as int) * ((n - 1) as int)) by (nonlinear_arith)
            requires
                2 <= n <= 241,
        ;
    }
    let ntri: usize = 6 * ((n - 1) * (n - 1));
    let mut indices: Vec<usize> = Vec::new();
    let mut k: usize = 0;
    while k < ntri
        invariant
            n == spec_grid_n(lod as int),
            2 <= n <= 241,
            ntri == 6 * ((n - 1) as int) * ((n - 1) as int),
            ntri <= 345_600,
            k <= ntri,
            indices@.len() == k,
            forall|j: int| 0 <= j < k ==> #[trigger] indices@[j] == spec_index(n as int, j),
            forall|j: int| 0 <= j < k ==> #[trigger] indices@[j] < n * n,
        decreases ntri - k,
    {
        proof {
            lemma_index_valid(n as int, k as int);
            vstd::arithmetic::div_mod::lemma_div_nonincreasing(k as int, 6);
            vstd::arithmetic::div_mod::lemma_div_pos_is_pos(k as int, 6);
            vstd::arithmetic::div_mod::lemma_div_nonincreasing((k as int) / 6, (n - 1) as int);
            vstd::arithmetic::div_mod::lemma_div_pos_is_pos((k as int) / 6, (n - 1) as int);
            vstd::arithmetic::div_mod::lemma_mod_division_less_than_divisor((k as int) / 6,
                (n - 1) as int);
            assert(((k as int) / 6) / ((n - 1) as int) * (n as int) <= 345_600 * 241)
                by (nonlinear_arith)
                requires
                    0 <= ((k as int) / 6) / ((n - 1) as int) <= 345_600,
                    0 <= n <= 241,
            ;
        }
        let cell = k / 6;
        let rr = cell / (n - 1);
        let cc = cell % (n - 1);
        let base = rr * n + cc;
        let which = k % 6;
        let idx: usize = if which == 0 {
            base
        } else if which == 1 {
            base + n
        } else if which == 2 {
            base + n + 1
        } else if which == 3 {
            base
        } else if which == 4 {
            base + n + 1
        } else {
            base + 1
        };
        proof {
            assert(idx == spec_index(n as int, k as int));
        }
        indices.push(idx);
        k = k + 1;
    }
    GeneratedMesh { vertices, normals, indices, heights }
}

} // verus!
