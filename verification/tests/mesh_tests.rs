use terrain_map::mesh::{Heightfield, build_mesh};
use terrain_map::noise::NoiseData;
use terrain_map::curve::HeightCurve;
use terrain_map::fixed::ONE;

fn default_field() -> Heightfield {
    Heightfield {
        noise: NoiseData::default(),
        curve: HeightCurve::default(),
        map_height: 10_000_000,
    }
}

fn grid_n(lod: usize) -> usize {
    let step = if lod == 0 { 1 } else { 2 * lod };
    240 / step + 1
}

#[test]
fn vertex_and_triangle_counts_by_lod() {
    let hf = default_field();
    for lod in 0..=6usize {
        let n = grid_n(lod);
        let mesh = build_mesh(&hf, lod);
        assert_eq!(mesh.vertices.len(), n * n);
        assert_eq!(mesh.normals.len(), n * n);
        assert_eq!(mesh.heights.len(), n * n);
        assert_eq!(mesh.indices.len(), 6 * (n - 1) * (n - 1));
    }
}

#[test]
fn lod_zero_is_densest() {
    let hf = default_field();
    let finest = build_mesh(&hf, 0);
    assert_eq!(finest.vertices.len(), 241 * 241);
    for lod in 1..=6usize {
        let mesh = build_mesh(&hf, lod);
        assert!(mesh.vertices.len() < finest.vertices.len());
    }
}

#[test]
fn indices_reference_valid_vertices() {
    let hf = default_field();
    let mesh = build_mesh(&hf, 5);
    for &idx in &mesh.indices {
        assert!(idx < mesh.vertices.len());
    }
}

#[test]
fn triangles_face_upward_and_are_nondegenerate() {
    // Every triangle's edge cross product (projected on the grid plane) is
    // exactly (step * ONE)^2: consistent winding, outward normals, no
    // zero-area triangle anywhere.
    let hf = default_field();
    let lod = 6usize;
    let step = 2 * lod as i128;
    let expected = (step * ONE as i128) * (step * ONE as i128);
    let mesh = build_mesh(&hf, lod);
    let mut t = 0;
    while t < mesh.indices.len() {
        let a = mesh.vertices[mesh.indices[t]];
        let b = mesh.vertices[mesh.indices[t + 1]];
        let c = mesh.vertices[mesh.indices[t + 2]];
        let cross = (b.z as i128 - a.z as i128) * (c.x as i128 - a.x as i128)
            - (b.x as i128 - a.x as i128) * (c.z as i128 - a.z as i128);
        assert_eq!(cross, expected);
        t += 3;
    }
}

#[test]
fn grid_edges_are_sampled() {
    // The far edge of the grid is reached exactly at every level of detail.
    let hf = default_field();
    for lod in 0..=6usize {
        let n = grid_n(lod);
        let mesh = build_mesh(&hf, lod);
        let last = mesh.vertices[n * n - 1];
        assert_eq!(last.x, 240 * ONE);
        assert_eq!(last.z, 240 * ONE);
    }
}

#[test]
fn normals_face_outward() {
    let hf = default_field();
    let mesh = build_mesh(&hf, 4);
    for nm in &mesh.normals {
        assert!(nm.y > 0);
    }
}

#[test]
fn heights_are_normalized_and_elevations_scaled() {
    let hf = default_field();
    let mesh = build_mesh(&hf, 6);
    for (v, &h) in mesh.vertices.iter().zip(mesh.heights.iter()) {
        assert!(h <= ONE);
        assert_eq!(v.y, hf.map_height * h / ONE);
        assert!(v.y <= hf.map_height);
    }
}

#[test]
fn elevation_composes_curve_and_noise() {
    let hf = default_field();
    let x = 120_000_000u64;
    let z = 60_000_000u64;
    let sampled = hf.noise.sample(x, z);
    let shaped = hf.curve.evaluate(sampled);
    assert_eq!(hf.height(x, z), shaped);
    assert_eq!(hf.elevation(x, z), hf.map_height * shaped / ONE);
}
