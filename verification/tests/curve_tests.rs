use terrain_map::curve::HeightCurve;
use terrain_map::fixed::ONE;

fn default_curve() -> HeightCurve {
    HeightCurve::default()
}

#[test]
fn default_curve_values() {
    let c = default_curve();
    assert_eq!(c.water_level, 250_000);
    assert_eq!(c.slope, 1_500_000);
}

#[test]
fn evaluate_below_water_is_zero() {
    let c = default_curve();
    assert_eq!(c.evaluate(0), 0);
    assert_eq!(c.evaluate(100_000), 0);
    assert_eq!(c.evaluate(249_999), 0);
}

#[test]
fn evaluate_at_water_level_is_zero() {
    let c = default_curve();
    assert_eq!(c.evaluate(250_000), 0);
}

#[test]
fn evaluate_at_one_is_one() {
    let c = default_curve();
    assert_eq!(c.evaluate(ONE), ONE);
}

#[test]
fn evaluate_example_midpoint() {
    // water_level 0.25, slope 1.5: ((0.625 - 0.25) / 0.75)^1.5 = 0.5^1.5,
    // which the fixed-point exponentiation makes exactly 353_553 micro-units.
    let c = default_curve();
    assert_eq!(c.evaluate(625_000), 353_553);
}

#[test]
fn evaluate_antitone_in_slope_on_samples() {
    // A steeper slope never lifts the curve: sweep slopes at several inputs.
    for input in [100_000u64, 300_000, 500_000, 625_000, 900_000, 999_999, ONE] {
        let mut prev = ONE;
        let mut slope = ONE;
        while slope <= 5 * ONE {
            let c = HeightCurve { water_level: 250_000, slope };
            let v = c.evaluate(input);
            assert!(v <= prev);
            prev = v;
            slope += 137_001;
        }
    }
}

#[test]
fn evaluate_antitone_in_slope_near_one() {
    // Close neighbors in slope at an input just below 1: the larger slope
    // must not produce the larger output.
    let c1 = HeightCurve { water_level: 0, slope: 1_499_999 };
    let c2 = HeightCurve { water_level: 0, slope: 1_500_000 };
    assert!(c2.evaluate(999_999) <= c1.evaluate(999_999));
    let c3 = HeightCurve { water_level: 0, slope: 2_000_000 };
    assert!(c3.evaluate(999_999) <= c2.evaluate(999_999));
}

#[test]
fn evaluate_monotone_on_samples() {
    let c = default_curve();
    let mut prev = 0u64;
    let mut x = 0u64;
    while x <= ONE {
        let v = c.evaluate(x);
        assert!(v >= prev);
        assert!(v <= ONE);
        prev = v;
        x += 12_500;
    }
}

#[test]
fn evaluate_water_level_one_degenerates_to_step() {
    let c = HeightCurve { water_level: ONE, slope: ONE };
    assert_eq!(c.evaluate(999_999), 0);
    assert_eq!(c.evaluate(ONE), ONE);
}

#[test]
fn evaluate_steep_slope_stays_in_range() {
    let c = HeightCurve { water_level: 0, slope: 5 * ONE };
    let mut x = 0u64;
    while x <= ONE {
        let v = c.evaluate(x);
        assert!(v <= ONE);
        x += 50_000;
    }
    assert_eq!(c.evaluate(ONE), ONE);
}

#[test]
fn evaluate_is_deterministic() {
    let c = default_curve();
    for x in [0u64, 300_000, 625_000, 999_999, ONE] {
        assert_eq!(c.evaluate(x), c.evaluate(x));
    }
}
