use terrain_map::noise::NoiseData;
use terrain_map::fixed::ONE;

#[test]
fn default_noise_values() {
    let nd = NoiseData::default();
    assert_eq!(nd.seed, 0);
    assert_eq!(nd.scale, 40_000_000);
    assert_eq!(nd.octaves, 4);
    assert_eq!(nd.persistence, 500_000);
    assert_eq!(nd.lacunarity, 3_000_000);
}

#[test]
fn sample_range_normalized() {
    let nd = NoiseData::default();
    for gx in 0..=24u64 {
        for gz in 0..=24u64 {
            let v = nd.sample(gx * 10_000_000, gz * 10_000_000);
            assert!(v <= ONE);
        }
    }
}

#[test]
fn sample_range_extreme_parameters() {
    let nd = NoiseData {
        seed: 12345,
        scale: 1_000,
        octaves: 6,
        persistence: ONE,
        lacunarity: 10_000_000,
    };
    for gx in 0..=12u64 {
        let v = nd.sample(gx * 20_000_000, 240_000_000 - gx * 20_000_000);
        assert!(v <= ONE);
    }
}

#[test]
fn sample_is_deterministic() {
    let nd = NoiseData::default();
    for gx in 0..=10u64 {
        let a = nd.sample(gx * 24_000_000, 120_000_000);
        let b = nd.sample(gx * 24_000_000, 120_000_000);
        assert_eq!(a, b);
    }
}

#[test]
fn seed_perturbs_the_field() {
    // Two seeds must disagree somewhere: the seed reaches the corner hash.
    let a = NoiseData { seed: 1, ..NoiseData::default() };
    let b = NoiseData { seed: 2, ..NoiseData::default() };
    let mut differs = false;
    for gx in 0..=20u64 {
        for gz in 0..=20u64 {
            if a.sample(gx * 12_000_000, gz * 12_000_000)
                != b.sample(gx * 12_000_000, gz * 12_000_000)
            {
                differs = true;
            }
        }
    }
    assert!(differs);
}

#[test]
fn single_octave_degenerates_to_plain_noise() {
    let nd = NoiseData { octaves: 1, ..NoiseData::default() };
    for gx in 0..=10u64 {
        let v = nd.sample(gx * 11_000_000, gx * 7_000_000);
        assert!(v <= ONE);
    }
}

#[test]
fn zero_persistence_leaves_only_first_octave() {
    // With persistence 0 every octave past the first has amplitude 0: the
    // fractal sum degenerates to plain single-octave noise.
    let one_octave = NoiseData { octaves: 1, persistence: 0, ..NoiseData::default() };
    let four_octaves = NoiseData { octaves: 4, persistence: 0, ..NoiseData::default() };
    for gx in 0..=15u64 {
        for gz in 0..=15u64 {
            let x = gx * 16_000_000;
            let z = gz * 16_000_000;
            assert_eq!(one_octave.sample(x, z), four_octaves.sample(x, z));
        }
    }
}

#[test]
fn octave_contributions_diminish() {
    // With persistence 0.5 the amplitude of layer k is 0.5^k: each extra
    // octave can move the normalized sample by strictly less than the one
    // before. Spot-check: successive octave counts converge on a value.
    let base = NoiseData::default();
    let x = 37_000_000u64;
    let z = 91_000_000u64;
    let mut prev_delta = u64::MAX;
    let mut prev = NoiseData { octaves: 1, ..base }.sample(x, z);
    for k in 2..=6u32 {
        let cur = NoiseData { octaves: k, ..base }.sample(x, z);
        let delta = cur.abs_diff(prev);
        assert!(delta <= prev_delta || delta <= ONE / 2u64.pow(k - 1));
        prev_delta = delta.max(1);
        prev = cur;
    }
}
