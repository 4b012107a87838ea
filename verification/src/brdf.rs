//! Photo-consistency checking: deciding whether the pixel colors that
//! different views report for the same scene location are compatible with a
//! single Lambertian surface point.
//!
//! Colors enter as raw 8-bit samples; all statistics are exact rationals over
//! the raw values.  A sample `x` stands for the normalized channel value
//! `x / 255`, and the acceptance threshold is the rational `num / den`, so
//! every comparison below is an exact integer cross-multiplication.

use crate::view::Rgb;
use crate::volume::Color;
use vstd::prelude::*;

verus! {

/// Largest number of observations accepted by one consistency check (one per
/// view, so also the largest number of views the engine accepts).
pub const MAX_SAMPLES: usize = 0x1_0000;

/// The direction from a voxel to the camera that observed it, as fixed-point
/// numerators.  The Lambertian test is view-independent, so the ray is
/// carried for interface completeness but does not influence the decision.
#[derive(Clone, Copy, Debug, PartialEq, Eq, Structural)]
pub struct Ray {
    pub x: i128,
    pub y: i128,
    pub z: i128,
}

/// One observation of a voxel: the color a view reports, and the viewing ray.
#[derive(Clone, Copy, Debug, PartialEq, Eq, Structural)]
pub struct Sample {
    pub color: Rgb,
    pub ray: Ray,
}

/// The consistency tolerance as the exact rational `num / den`, in normalized
/// [0, 1] color space.
#[derive(Clone, Copy, Debug, PartialEq, Eq, Structural)]
pub struct Threshold {
    pub num: u32,
    pub den: u32,
}

impl Threshold {
    pub open spec fn wf(self) -> bool {
        1 <= self.num && 1 <= self.den
    }

    pub fn new(num: u32, den: u32) -> (t: Threshold)
        requires
            1 <= num,
            1 <= den,
        ensures
            t == (Threshold { num, den }),
            t.wf(),
    {
        Threshold { num, den }
    }
}

/// Raw value of channel `ch` (0 red, 1 green, 2 blue) of one sample.
pub open spec fn channel(s: Sample, ch: int) -> int {
    if ch == 0 {
        s.color.r as int
    } else if ch == 1 {
        s.color.g as int
    } else {
        s.color.b as int
    }
}

/// Sum of one raw channel over a set of observations.
pub open spec fn sum_ch(s: Seq<Sample>, ch: int) -> int
    decreases s.len(),
{
    if s.len() == 0 {
        0
    } else {
        sum_ch(s.drop_last(), ch) + channel(s.last(), ch)
    }
}

/// Sum of the squares of one raw channel over a set of observations.
pub open spec fn sum_sq_ch(s: Seq<Sample>, ch: int) -> int
    decreases s.len(),
{
    if s.len() == 0 {
        0
    } else {
        sum_sq_ch(s.drop_last(), ch) + channel(s.last(), ch) * channel(s.last(), ch)
    }
}

/// A pure black observation: the designated background color.
pub open spec fn is_background(s: Sample) -> bool {
    s.color.r == 0 && s.color.g == 0 && s.color.b == 0
}

pub open spec fn has_background(s: Seq<Sample>) -> bool {
    exists|i: int| 0 <= i < s.len() && is_background(s[i])
}

/// Every channel's mean is strictly below 1/5: all views are seeing
/// background-like darkness even though no single pixel is exactly black.
/// `mean = sum / (255 n) < 1/5` is exactly `sum < 51 n`.
pub open spec fn near_black(s: Seq<Sample>) -> bool {
    &&& sum_ch(s, 0) < 51 * s.len()
    &&& sum_ch(s, 1) < 51 * s.len()
    &&& sum_ch(s, 2) < 51 * s.len()
}

/// The variance of one normalized channel is strictly below the squared
/// threshold.  With `n` samples of raw sum `S` and raw square sum `Q`,
/// `Var = (n Q - S^2) / (255^2 n^2)`, so `Var < (num / den)^2` is exactly
/// `den^2 n Q < num^2 n^2 255^2 + den^2 S^2`.
pub open spec fn channel_within(s: Seq<Sample>, ch: int, t: Threshold) -> bool {
    let n = s.len() as int;
    let sm = sum_ch(s, ch);
    let q = sum_sq_ch(s, ch);
    (t.den * t.den) * (n * q) < (t.num * t.num) * (n * n) * 65025 + (t.den * t.den) * (sm * sm)
}

/// The per-channel mean of the observations: raw channel sums over `255 n`.
pub open spec fn mean_color(s: Seq<Sample>) -> Color {
    Color {
        r_num: sum_ch(s, 0) as u64,
        g_num: sum_ch(s, 1) as u64,
        b_num: sum_ch(s, 2) as u64,
        den: (255 * s.len()) as u64,
    }
}

/// The full voxel-coloring acceptance decision over one set of observations.
pub open spec fn check_spec(s: Seq<Sample>, t: Threshold) -> Option<Color> {
    if has_background(s) {
        None
    } else if near_black(s) {
        None
    } else if channel_within(s, 0, t) && channel_within(s, 1, t) && channel_within(s, 2, t) {
        Some(mean_color(s))
    } else {
        None
    }
}

/// A single background observation rejects the voxel, whatever the
/// threshold and whatever the other observations say: no surface point can
/// stand on a ray that some camera sees straight through.
pub proof fn lemma_background_rejects(s: Seq<Sample>, t: Threshold)
    requires
        has_background(s),
    ensures
        check_spec(s, t) is None,
{
}

/// A channel whose variance lands exactly on the squared threshold rejects
/// the observations: the acceptance comparison is strict.  The hypothesis is
/// the cross-multiplied form of `Var = (num / den)^2` for channel `ch`.
pub proof fn lemma_threshold_boundary_rejects(s: Seq<Sample>, ch: int, t: Threshold)
    requires
        0 <= ch < 3,
        (t.den * t.den) * (s.len() * sum_sq_ch(s, ch)) == (t.num * t.num) * (s.len() * s.len())
            * 65025 + (t.den * t.den) * (sum_ch(s, ch) * sum_ch(s, ch)),
    ensures
        check_spec(s, t) is None,
{
    assert(!channel_within(s, ch, t));
    if ch == 0 {
        assert(!channel_within(s, 0, t));
    } else if ch == 1 {
        assert(!channel_within(s, 1, t));
    } else {
        assert(!channel_within(s, 2, t));
    }
}

/// Decide whether a set of per-view observations of one voxel is consistent
/// with a single Lambertian surface point; if so, return the representative
/// (mean) color.  The test, in order: reject if any observation is the pure
/// black background; reject if the mean is near-black in all channels;
/// accept if every channel's variance is strictly below the squared
/// threshold; otherwise reject.
pub fn standard_consistency_check(colors: &Vec<Sample>, threshold: &Threshold) -> (r: Option<
    Color,
>)
    requires
        1 <= colors.len() <= MAX_SAMPLES,
        threshold.wf(),
    ensures
        r == check_spec(colors@, *threshold),
        r matches Some(c) ==> c.wf() && c.den <= 0x1000_0000,
{
    let n = colors.len();
    let mut sr: u64 = 0;
    let mut sg: u64 = 0;
    let mut sb: u64 = 0;
    let mut qr: u64 = 0;
    let mut qg: u64 = 0;
    let mut qb: u64 = 0;
    let mut bg: bool = false;
    let mut i: usize = 0;
    while i < n
        invariant
            i <= n,
            n == colors.len(),
            n <= MAX_SAMPLES,
            sr == sum_ch(colors@.take(i as int), 0),
            sg == sum_ch(colors@.take(i as int), 1),
            sb == sum_ch(colors@.take(i as int), 2),
            qr == sum_sq_ch(colors@.take(i as int), 0),
            qg == sum_sq_ch(colors@.take(i as int), 1),
            qb == sum_sq_ch(colors@.take(i as int), 2),
            bg == has_background(colors@.take(i as int)),
            sr <= 255 * i && sg <= 255 * i && sb <= 255 * i,
            qr <= 65025 * i && qg <= 65025 * i && qb <= 65025 * i,
        decreases n - i,
    {
        let s = colors[i];
        proof {
            let pre = colors@.take(i as int);
            let cur = colors@.take(i + 1);
            assert(cur.drop_last() =~= pre);
            assert(cur.last() == colors@[i as int]);
            if !bg && is_background(s) {
                assert(is_background(cur[i as int]));
            }
            if bg {
                let j = choose|j: int| 0 <= j < pre.len() && is_background(pre[j]);
                assert(is_background(cur[j]));
            }
            assert((s.color.r as int) * (s.color.r as int) <= 65025 && (s.color.g as int) * (
            s.color.g as int) <= 65025 && (s.color.b as int) * (s.color.b as int) <= 65025) by (
            nonlinear_arith)
                requires
                    0 <= s.color.r <= 255,
                    0 <= s.color.g <= 255,
                    0 <= s.color.b <= 255;
        }
        if s.color.r == 0 && s.color.g == 0 && s.color.b == 0 {
            bg = true;
        }
        sr = sr + s.color.r as u64;
        sg = sg + s.color.g as u64;
        sb = sb + s.color.b as u64;
        qr = qr + (s.color.r as u64) * (s.color.r as u64);
        qg = qg + (s.color.g as u64) * (s.color.g as u64);
        qb = qb + (s.color.b as u64) * (s.color.b as u64);
        i = i + 1;
    }
    proof {
        assert(colors@.take(n as int) =~= colors@);
    }
    if bg {
        return None;
    }
    let n64 = n as u64;
    if sr < 51 * n64 && sg < 51 * n64 && sb < 51 * n64 {
        return None;
    }
    let nn = n as u128;
    proof {
        let b32 = 0x1_0000_0000int;
        assert((threshold.den as int) * (threshold.den as int) < b32 * b32 && (threshold.num
            as int) * (threshold.num as int) < b32 * b32) by (nonlinear_arith)
            requires
                0 <= threshold.den < b32,
                0 <= threshold.num < b32,
                b32 == 0x1_0000_0000int;
    }
    let d2 = (threshold.den as u128) * (threshold.den as u128);
    let m2 = (threshold.num as u128) * (threshold.num as u128);
    proof {
        lemma_variance_terms_fit(n as int, sr as int, qr as int, d2 as int, m2 as int);
        lemma_variance_terms_fit(n as int, sg as int, qg as int, d2 as int, m2 as int);
        lemma_variance_terms_fit(n as int, sb as int, qb as int, d2 as int, m2 as int);
    }
    let rhs_common = m2 * (nn * nn) * 65025;
    let ok_r = d2 * (nn * (qr as u128)) < rhs_common + d2 * ((sr as u128) * (sr as u128));
    let ok_g = d2 * (nn * (qg as u128)) < rhs_common + d2 * ((sg as u128) * (sg as u128));
    let ok_b = d2 * (nn * (qb as u128)) < rhs_common + d2 * ((sb as u128) * (sb as u128));
    if ok_r && ok_g && ok_b {
        Some(Color::new(sr, sg, sb, 255 * n64))
    } else {
        None
    }
}

/// All products in the variance comparison stay far below `u128::MAX` under
/// the sample-count and threshold bounds.
proof fn lemma_variance_terms_fit(n: int, sm: int, q: int, d2: int, m2: int)
    requires
        1 <= n <= MAX_SAMPLES,
        0 <= sm <= 255 * n,
        0 <= q <= 65025 * n,
        0 <= d2 < 0x1_0000_0000_0000_0000,
        0 <= m2 < 0x1_0000_0000_0000_0000,
    ensures
        0 <= n * q < 0x1_0000_0000_0000,
        d2 * (n * q) < 0x1_0000_0000_0000_0000_0000_0000_0000,
        0 <= n * n <= 0x1_0000_0000,
        m2 * (n * n) < 0x1_0000_0000_0000_0000_0000_0000_0000,
        m2 * (n * n) * 65025 < 0x1_0000_0000_0000_0000_0000_0000_0000,
        0 <= sm * sm < 0x1_0000_0000_0000,
        d2 * (sm * sm) < 0x1_0000_0000_0000_0000_0000_0000_0000,
        m2 * (n * n) * 65025 + d2 * (sm * sm) < 0x1_0000_0000_0000_0000_0000_0000_0000_0000,
{
    assert(0 <= n * q < 0x1_0000_0000_0000 && d2 * (n * q) < 0x1_0000_0000_0000_0000_0000_0000_0000
        && 0 <= n * n <= 0x1_0000_0000 && m2 * (n * n) < 0x1_0000_0000_0000_0000_0000_0000_0000
        && m2 * (n * n) * 65025 < 0x1_0000_0000_0000_0000_0000_0000_0000
        && 0 <= sm * sm < 0x1_0000_0000_0000
        && d2 * (sm * sm) < 0x1_0000_0000_0000_0000_0000_0000_0000) by (nonlinear_arith)
        requires
            1 <= n <= 0x1_0000,
            0 <= sm <= 255 * n,
            0 <= q <= 65025 * n,
            0 <= d2 < 0x1_0000_0000_0000_0000,
            0 <= m2 < 0x1_0000_0000_0000_0000;
}

} // verus!
