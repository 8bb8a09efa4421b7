//! The material blender: maps a normalized height to a color by piecewise
//! interpolation between elevation-banded layers.
//!
//! A material holds `N` layer colors, `N - 1` ascending height thresholds
//! between them, and one blend half-width per threshold. Within a threshold's
//! blend window the two adjacent layer colors are interpolated linearly;
//! outside every window the flat color of the surrounding band is returned.

use vstd::prelude::*;
use vstd::arithmetic::div_mod::{lemma_div_is_ordered, lemma_div_multiples_vanish,
    lemma_div_pos_is_pos};
use crate::fixed::{ONE, HALF, spec_lerp, lerp};

verus! {

/// An RGBA color with fixed-point channels in `[0, ONE]`.
#[derive(Clone, Copy, Debug, PartialEq, Eq, Structural)]
pub struct Color {
    pub red: u64,
    pub green: u64,
    pub blue: u64,
    pub alpha: u64,
}

impl Color {
    pub open spec fn wf(self) -> bool {
        &&& self.red <= ONE
        &&& self.green <= ONE
        &&& self.blue <= ONE
        &&& self.alpha <= ONE
    }

    /// The channelwise linear interpolation toward `other` with weight `t`
    /// out of `ONE`.
    pub open spec fn spec_mix(self, other: Color, t: int) -> Color {
        Color {
            red: spec_lerp(self.red as int, other.red as int, t) as u64,
            green: spec_lerp(self.green as int, other.green as int, t) as u64,
            blue: spec_lerp(self.blue as int, other.blue as int, t) as u64,
            alpha: spec_lerp(self.alpha as int, other.alpha as int, t) as u64,
        }
    }

    /// Channelwise linear interpolation between two colors.
    pub fn mix(self, other: Color, t: u64) -> (r: Color)
        requires
            self.wf(),
            other.wf(),
            t <= ONE,
        ensures
            r == self.spec_mix(other, t as int),
            r.wf(),
    {
        Color {
            red: lerp(self.red, other.red, t),
            green: lerp(self.green, other.green, t),
            blue: lerp(self.blue, other.blue, t),
            alpha: lerp(self.alpha, other.alpha, t),
        }
    }
}

/// Stores the parameters for the map material.
#[derive(Clone, Debug, PartialEq)]
pub struct MaterialData {
    pub layer_colors: Vec<Color>,
    pub layer_heights: Vec<u64>,
    pub blend_values: Vec<u64>,
}

impl MaterialData {
    /// Validity: at least one color, one threshold fewer than colors, one
    /// blend half-width per threshold, thresholds strictly ascending, all
    /// values normalized, and every blend window confined between its
    /// neighboring thresholds, so the windows never overlap.
    pub open spec fn wf(self) -> bool {
        &&& self.layer_colors@.len() >= 1
        &&& self.layer_heights@.len() == self.layer_colors@.len() - 1
        &&& self.blend_values@.len() == self.layer_heights@.len()
        &&& (forall|i: int|
            0 <= i < self.layer_heights@.len() ==> #[trigger] self.layer_heights@[i] <= ONE)
        &&& (forall|i: int|
            0 <= i < self.blend_values@.len() ==> #[trigger] self.blend_values@[i] <= ONE)
        &&& (forall|i: int, j: int|
            #![trigger self.layer_heights@[i], self.layer_heights@[j]]
            0 <= i && j == i + 1 && j < self.layer_heights@.len() ==> self.layer_heights@[i]
                < self.layer_heights@[j] && self.layer_heights@[i] + self.blend_values@[i]
                <= self.layer_heights@[j] && self.layer_heights@[i] + self.blend_values@[j]
                <= self.layer_heights@[j])
        &&& (forall|i: int|
            0 <= i < self.layer_colors@.len() ==> (#[trigger] self.layer_colors@[i]).wf())
    }

    /// Whether the height `h` falls strictly inside the blend window of
    /// threshold `i`.
    pub open spec fn spec_in_window(self, h: int, i: int) -> bool {
        let thr = self.layer_heights@[i] as int;
        let b = self.blend_values@[i] as int;
        thr - b < h && h < thr + b
    }

    /// The first threshold index at or after `i` whose blend window contains
    /// `h`, or the threshold count when no window does.
    pub open spec fn spec_first_window(self, h: int, i: int) -> int
        decreases self.layer_heights@.len() - i,
    {
        if i < 0 || i >= self.layer_heights@.len() {
            self.layer_heights@.len() as int
        } else if self.spec_in_window(h, i) {
            i
        } else {
            self.spec_first_window(h, i + 1)
        }
    }

    /// The first threshold index at or after `i` lying strictly above `h`,
    /// or the threshold count: the index of the flat band containing `h`.
    pub open spec fn spec_band(self, h: int, i: int) -> int
        decreases self.layer_heights@.len() - i,
    {
        if i < 0 || i >= self.layer_heights@.len() {
            self.layer_heights@.len() as int
        } else if h < self.layer_heights@[i] {
            i
        } else {
            self.spec_band(h, i + 1)
        }
    }

    /// The interpolation weight inside the blend window of threshold `i`:
    /// 0 at the window's lower edge, `ONE` at its upper edge, and exactly
    /// `HALF` at the threshold itself.
    pub open spec fn spec_weight(self, h: int, i: int) -> int {
        let thr = self.layer_heights@[i] as int;
        let b = self.blend_values@[i] as int;
        (h + b - thr) * (ONE as int) / (2 * b)
    }

    /// The blended color at normalized height `h`: inside the first blend
    /// window, the interpolation of the two adjacent layer colors; outside
    /// every window, the flat color of the band containing `h`.
    pub open spec fn spec_blend(self, h: int) -> Color {
        let w = self.spec_first_window(h, 0);
        if w < self.layer_heights@.len() {
            self.layer_colors@[w].spec_mix(self.layer_colors@[w + 1], self.spec_weight(h, w))
        } else {
            self.layer_colors@[self.spec_band(h, 0)]
        }
    }

    /// Skipping windowless thresholds leaves the first-window search
    /// unchanged.
    proof fn lemma_first_window_skip(self, h: int, i: int)
        requires
            0 <= i <= self.layer_heights@.len(),
            forall|j: int| 0 <= j < i ==> !self.spec_in_window(h, j),
        ensures
            self.spec_first_window(h, 0) == self.spec_first_window(h, i),
        decreases i,
    {
        if i > 0 {
            self.lemma_first_window_skip(h, i - 1);
        }
    }

    /// Skipping lower thresholds leaves the band search unchanged.
    proof fn lemma_band_skip(self, h: int, i: int)
        requires
            0 <= i <= self.layer_heights@.len(),
            forall|j: int| 0 <= j < i ==> !(h < self.layer_heights@[j]),
        ensures
            self.spec_band(h, 0) == self.spec_band(h, i),
        decreases i,
    {
        if i > 0 {
            self.lemma_band_skip(h, i - 1);
        }
    }

    /// Whether the parallel layer sequences form a valid material.
    pub fn validate(&self) -> (r: bool)
        ensures
            r == self.wf(),
    {
        let nc = self.layer_colors.len();
        let nh = self.layer_heights.len();
        let nb = self.blend_values.len();
        if nc < 1 || nh != nc - 1 || nb != nh {
            return false;
        }
        let mut i: usize = 0;
        while i < nh
            invariant
                nh == self.layer_heights@.len(),
                i <= nh,
                forall|j: int| 0 <= j < i ==> #[trigger] self.layer_heights@[j] <= ONE,
                forall|j: int| 0 <= j < i ==> #[trigger] self.blend_values@[j] <= ONE,
                forall|j: int, j2: int|
                    #![trigger self.layer_heights@[j], self.layer_heights@[j2]]
                    0 <= j && j2 == j + 1 && j2 < nh && j < i ==> self.layer_heights@[j]
                        < self.layer_heights@[j2] && self.layer_heights@[j]
                        + self.blend_values@[j] <= self.layer_heights@[j2]
                        && self.layer_heights@[j] + self.blend_values@[j2]
                        <= self.layer_heights@[j2],
                self.blend_values@.len() == nh,
            decreases nh - i,
        {
            let h_here = self.layer_heights[i];
            let b_here = self.blend_values[i];
            if h_here > ONE || b_here > ONE {
                return false;
            }
            if i + 1 < nh {
                let h_next = self.layer_heights[i + 1];
                if h_here >= h_next {
                    return false;
                }
                if h_here + b_here > h_next {
                    return false;
                }
                if self.blend_values[i + 1] > h_next - h_here {
                    return false;
                }
            }
            i = i + 1;
        }
        let mut i: usize = 0;
        while i < nc
            invariant
                nc == self.layer_colors@.len(),
                i <= nc,
                forall|j: int| 0 <= j < i ==> (#[trigger] self.layer_colors@[j]).wf(),
            decreases nc - i,
        {
            let c = self.layer_colors[i];
            if c.red > ONE || c.green > ONE || c.blue > ONE || c.alpha > ONE {
                return false;
            }
            i = i + 1;
        }
        true
    }

    /// The blended color for a normalized height sample. Deterministic: the
    /// result is a pure function of the height and the material layers.
    pub fn blend(&self, h: u64) -> (r: Color)
        requires
            self.wf(),
            h <= ONE,
        ensures
            r == self.spec_blend(h as int),
            r.wf(),
    {
        let k = self.layer_heights.len();
        let mut i: usize = 0;
        while i < k
            invariant
                self.wf(),
                h <= ONE,
                k == self.layer_heights@.len(),
                i <= k,
                forall|j: int| 0 <= j < i ==> !self.spec_in_window(h as int, j),
            decreases k - i,
        {
            let thr = self.layer_heights[i];
            let b = self.blend_values[i];
            if thr < h + b && h < thr + b {
                proof {
                    self.lemma_first_window_skip(h as int, i as int);
                    let bi = b as int;
                    let num = (h + b - thr) as int;
                    assert(num * (ONE as int) <= (2 * bi) * (ONE as int)) by (nonlinear_arith)
                        requires
                            num <= 2 * bi,
                            0 <= num,
                    ;
                    lemma_div_is_ordered(num * (ONE as int), (2 * bi) * (ONE as int), 2 * bi);
                    lemma_div_multiples_vanish(ONE as int, 2 * bi);
                    lemma_div_pos_is_pos(num * (ONE as int), 2 * bi);
                }
                let w = ((h + b - thr) * ONE) / (2 * b);
                return self.layer_colors[i].mix(self.layer_colors[i + 1], w);
            }
            i = i + 1;
        }
        proof {
            self.lemma_first_window_skip(h as int, k as int);
        }
        let mut i: usize = 0;
        while i < k
            invariant
                self.wf(),
                h <= ONE,
                k == self.layer_heights@.len(),
                i <= k,
                forall|j: int| 0 <= j < i ==> !((h as int) < self.layer_heights@[j]),
                self.spec_first_window(h as int, 0) == k,
            decreases k - i,
        {
            if h < self.layer_heights[i] {
                proof {
                    self.lemma_band_skip(h as int, i as int);
                }
                return self.layer_colors[i];
            }
            i = i + 1;
        }
        proof {
            self.lemma_band_skip(h as int, k as int);
        }
        self.layer_colors[k]
    }
}

/// Thresholds are ordered: a lower index never holds a higher threshold.
proof fn lemma_heights_sorted(m: MaterialData, a: int, b: int)
    requires
        m.wf(),
        0 <= a <= b < m.layer_heights@.len(),
    ensures
        m.layer_heights@[a] <= m.layer_heights@[b],
    decreases b - a,
{
    if a < b {
        lemma_heights_sorted(m, a, b - 1);
        assert(m.layer_heights@[b - 1] < m.layer_heights@[b]);
    }
}

/// At a threshold whose blend half-width is positive the blended color is
/// the exact midpoint mix of the two layer colors adjacent to that
/// threshold: validity confines every blend window between its neighboring
/// thresholds, so no other window can claim the threshold first.
pub proof fn lemma_blend_midpoint_at_threshold(m: MaterialData, i: int)
    requires
        m.wf(),
        0 <= i < m.layer_heights@.len(),
        m.blend_values@[i] > 0,
    ensures
        m.spec_blend(m.layer_heights@[i] as int) == m.layer_colors@[i].spec_mix(
            m.layer_colors@[i + 1],
            HALF as int,
        ),
{
    let h = m.layer_heights@[i] as int;
    let b = m.blend_values@[i] as int;
    assert forall|j: int| 0 <= j < i implies !m.spec_in_window(h, j) by {
        lemma_heights_sorted(m, j + 1, i);
        assert(m.layer_heights@[j] + m.blend_values@[j] <= m.layer_heights@[j + 1]);
    }
    m.lemma_first_window_skip(h, i);
    assert(m.spec_in_window(h, i));
    assert(m.spec_first_window(h, i) == i);
    assert(b * (ONE as int) == (2 * b) * (HALF as int)) by (nonlinear_arith);
    lemma_div_multiples_vanish(HALF as int, 2 * b);
    assert(m.spec_weight(h, i) == HALF as int);
}

/// Outside every blend window the blended color is exactly the flat color of
/// the band containing the height.
pub proof fn lemma_blend_flat(m: MaterialData, h: int)
    requires
        m.wf(),
        forall|j: int| 0 <= j < m.layer_heights@.len() ==> !m.spec_in_window(h, j),
    ensures
        m.spec_blend(h) == m.layer_colors@[m.spec_band(h, 0)],
{
    m.lemma_first_window_skip(h, m.layer_heights@.len() as int);
}

impl MaterialData {
    /// The default material layers: five colors from deep blue to white over
    /// four thresholds at 0.2, 0.35, 0.5 and 0.8 with blend half-widths
    /// 0.05, 0.05, 0.1 and 0.15.
    pub open spec fn is_default(self) -> bool {
        &&& self.layer_colors@ == seq![
            Color { red: 0, green: 0, blue: ONE, alpha: ONE },
            Color { red: 0, green: ONE, blue: 0, alpha: ONE },
            Color { red: 0, green: HALF, blue: 0, alpha: ONE },
            Color { red: HALF, green: HALF, blue: HALF, alpha: ONE },
            Color { red: ONE, green: ONE, blue: ONE, alpha: ONE },
        ]
        &&& self.layer_heights@ == seq![200_000u64, 350_000u64, 500_000u64, 800_000u64]
        &&& self.blend_values@ == seq![50_000u64, 50_000u64, 100_000u64, 150_000u64]
    }
}

impl Default for MaterialData {
    /// The default material: five colors from deep blue to white over four
    /// thresholds at 0.2, 0.35, 0.5 and 0.8 with blend half-widths 0.05,
    /// 0.05, 0.1 and 0.15.
    fn default() -> (r: Self)
        ensures
            r.is_default(),
            r.wf(),
    {
        let layer_colors: Vec<Color> = vec![
            Color { red: 0, green: 0, blue: ONE, alpha: ONE },
            Color { red: 0, green: ONE, blue: 0, alpha: ONE },
            Color { red: 0, green: HALF, blue: 0, alpha: ONE },
            Color { red: HALF, green: HALF, blue: HALF, alpha: ONE },
            Color { red: ONE, green: ONE, blue: ONE, alpha: ONE },
        ];
        let layer_heights: Vec<u64> = vec![200_000, 350_000, 500_000, 800_000];
        let blend_values: Vec<u64> = vec![50_000, 50_000, 100_000, 150_000];
        let r = MaterialData { layer_colors, layer_heights, blend_values };
        proof {
            assert(r.layer_colors@ =~= seq![
                Color { red: 0, green: 0, blue: ONE, alpha: ONE },
                Color { red: 0, green: ONE, blue: 0, alpha: ONE },
                Color { red: 0, green: HALF, blue: 0, alpha: ONE },
                Color { red: HALF, green: HALF, blue: HALF, alpha: ONE },
                Color { red: ONE, green: ONE, blue: ONE, alpha: ONE },
            ]);
            assert(r.layer_heights@ =~= seq![200_000u64, 350_000u64, 500_000u64, 800_000u64]);
            assert(r.blend_values@ =~= seq![50_000u64, 50_000u64, 100_000u64, 150_000u64]);
        }
        r
    }
}

} // verus!
