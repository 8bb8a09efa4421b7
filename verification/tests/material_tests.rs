use terrain_map::material::{Color, MaterialData};
use terrain_map::fixed::{ONE, HALF};

fn blue() -> Color {
    Color { red: 0, green: 0, blue: ONE, alpha: ONE }
}

fn green() -> Color {
    Color { red: 0, green: ONE, blue: 0, alpha: ONE }
}

fn white() -> Color {
    Color { red: ONE, green: ONE, blue: ONE, alpha: ONE }
}

#[test]
fn default_material_layers() {
    let m = MaterialData::default();
    assert_eq!(m.layer_colors.len(), 5);
    assert_eq!(m.layer_heights, vec![200_000, 350_000, 500_000, 800_000]);
    assert_eq!(m.blend_values, vec![50_000, 50_000, 100_000, 150_000]);
    assert_eq!(m.layer_colors[0], blue());
    assert_eq!(m.layer_colors[4], white());
    assert!(m.validate());
}

#[test]
fn blend_at_threshold_is_half_mix() {
    // Exactly at the first threshold (0.2) the output is the 50% mix of the
    // first two layer colors.
    let m = MaterialData::default();
    let c = m.blend(200_000);
    assert_eq!(c, blue().mix(green(), HALF));
    assert_eq!(c, Color { red: 0, green: HALF, blue: HALF, alpha: ONE });
}

#[test]
fn blend_low_height_is_first_color_unblended() {
    // Height 0.1 sits below the first blend window: pure first color.
    let m = MaterialData::default();
    assert_eq!(m.blend(100_000), blue());
    assert_eq!(m.blend(0), blue());
}

#[test]
fn blend_outside_windows_is_flat_color() {
    // 0.3 touches the second window's lower edge, which is exclusive, and
    // lies above the first threshold: pure second color.
    let m = MaterialData::default();
    assert_eq!(m.blend(300_000), green());
}

#[test]
fn blend_above_all_layers_is_last_color() {
    let m = MaterialData::default();
    assert_eq!(m.blend(990_000), white());
    assert_eq!(m.blend(ONE), white());
}

#[test]
fn blend_interpolates_within_window() {
    // 0.24 is four fifths of the way through the (0.15, 0.25) window.
    let m = MaterialData::default();
    let c = m.blend(240_000);
    let expected = blue().mix(green(), 900_000);
    assert_eq!(c, expected);
}

#[test]
fn blend_is_deterministic() {
    let m = MaterialData::default();
    for h in [0u64, 100_000, 200_000, 333_333, 770_000, ONE] {
        assert_eq!(m.blend(h), m.blend(h));
    }
}

#[test]
fn mix_midpoint_of_channels() {
    let c = blue().mix(white(), HALF);
    assert_eq!(c, Color { red: HALF, green: HALF, blue: ONE, alpha: ONE });
    assert_eq!(blue().mix(green(), 0), blue());
    assert_eq!(blue().mix(green(), ONE), green());
}

#[test]
fn validate_rejects_mismatched_lengths() {
    let m = MaterialData {
        layer_colors: vec![blue(), green()],
        layer_heights: vec![200_000, 400_000],
        blend_values: vec![50_000, 50_000],
    };
    assert!(!m.validate());
}

#[test]
fn validate_rejects_non_increasing_heights() {
    let m = MaterialData {
        layer_colors: vec![blue(), green(), white()],
        layer_heights: vec![400_000, 400_000],
        blend_values: vec![50_000, 50_000],
    };
    assert!(!m.validate());
}

#[test]
fn validate_rejects_overlapping_blend_windows() {
    // The first window (0.2 +/- 0.5) swallows the second threshold: such a
    // material would blend the wrong pair of colors at 0.35, so it is
    // refused.
    let m = MaterialData {
        layer_colors: vec![blue(), green(), white()],
        layer_heights: vec![200_000, 350_000],
        blend_values: vec![500_000, 100_000],
    };
    assert!(!m.validate());
}

#[test]
fn validate_rejects_window_reaching_previous_threshold() {
    // The second window (0.35 +/- 0.2) reaches below the first threshold.
    let m = MaterialData {
        layer_colors: vec![blue(), green(), white()],
        layer_heights: vec![200_000, 350_000],
        blend_values: vec![50_000, 200_000],
    };
    assert!(!m.validate());
}

#[test]
fn validate_accepts_single_color() {
    let m = MaterialData {
        layer_colors: vec![green()],
        layer_heights: vec![],
        blend_values: vec![],
    };
    assert!(m.validate());
    assert_eq!(m.blend(500_000), green());
}
