use terrain_map::map::{MapData, MapError};
use terrain_map::material::MaterialData;
use terrain_map::fixed::ONE;

#[test]
fn new_has_documented_defaults() {
    let m = MapData::new();
    assert_eq!(m.wireframe, false);
    assert_eq!(m.map_height, 10_000_000);
    assert_eq!(m.level_of_detail, 0);
    assert_eq!(m.noise_data.seed, 0);
    assert_eq!(m.noise_data.scale, 40_000_000);
    assert_eq!(m.noise_data.octaves, 4);
    assert_eq!(m.noise_data.persistence, 500_000);
    assert_eq!(m.noise_data.lacunarity, 3_000_000);
    assert_eq!(m.height_curve.water_level, 250_000);
    assert_eq!(m.height_curve.slope, 1_500_000);
    assert_eq!(m.material_data.layer_colors.len(), 5);
    assert!(m.validate().is_ok());
}

#[test]
fn generate_is_deterministic() {
    let mut m = MapData::new();
    m.level_of_detail = 6;
    let (mesh1, mat1) = m.generate().unwrap();
    let (mesh2, mat2) = m.generate().unwrap();
    assert_eq!(mesh1, mesh2);
    assert_eq!(mat1, mat2);
}

#[test]
fn generate_material_carries_layers() {
    let mut m = MapData::new();
    m.level_of_detail = 6;
    let (_, mat) = m.generate().unwrap();
    assert_eq!(mat.layer_colors, m.material_data.layer_colors);
    assert_eq!(mat.layer_heights, m.material_data.layer_heights);
    assert_eq!(mat.blend_values, m.material_data.blend_values);
}

#[test]
fn generate_rejects_zero_scale() {
    let mut m = MapData::new();
    m.noise_data.scale = 0;
    assert_eq!(m.generate().unwrap_err(), MapError::InvalidParameter);
}

#[test]
fn generate_rejects_zero_octaves() {
    let mut m = MapData::new();
    m.noise_data.octaves = 0;
    assert_eq!(m.generate().unwrap_err(), MapError::InvalidParameter);
}

#[test]
fn generate_rejects_mismatched_material_lengths() {
    // One threshold too many for the number of colors: refused before any
    // generation work.
    let mut m = MapData::new();
    m.material_data = MaterialData {
        layer_colors: m.material_data.layer_colors.clone(),
        layer_heights: vec![200_000, 350_000, 500_000, 700_000, 800_000],
        blend_values: vec![50_000, 50_000, 100_000, 150_000, 150_000],
    };
    assert_eq!(m.generate().unwrap_err(), MapError::InvalidParameter);
}

#[test]
fn generate_rejects_oversized_lod() {
    let mut m = MapData::new();
    m.level_of_detail = 7;
    assert_eq!(m.generate().unwrap_err(), MapError::GeometryConfiguration);
}

#[test]
fn generate_rejects_flat_slope() {
    let mut m = MapData::new();
    m.height_curve.slope = ONE - 1;
    assert_eq!(m.generate().unwrap_err(), MapError::InvalidParameter);
}

#[test]
fn wireframe_flag_does_not_affect_generation() {
    let mut a = MapData::new();
    a.level_of_detail = 6;
    let mut b = MapData::new();
    b.level_of_detail = 6;
    b.wireframe = true;
    assert_eq!(a.generate().unwrap(), b.generate().unwrap());
}
