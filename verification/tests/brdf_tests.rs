use voxel_carver::brdf::{standard_consistency_check, Ray, Sample, Threshold};
use voxel_carver::view::Rgb;

fn sample(r: u8, g: u8, b: u8) -> Sample {
    Sample { color: Rgb { r, g, b }, ray: Ray { x: 0, y: 0, z: 0 } }
}

#[test]
fn identical_colors_accepted_with_mean() {
    // Three identical observations of 0.8 gray (raw 204) at threshold 0.3.
    let colors = vec![sample(204, 204, 204), sample(204, 204, 204), sample(204, 204, 204)];
    let t = Threshold::new(3, 10);
    let c = standard_consistency_check(&colors, &t).unwrap();
    // The mean is exactly 612 / 765 == 0.8 per channel.
    assert_eq!(c.r_num, 612);
    assert_eq!(c.g_num, 612);
    assert_eq!(c.b_num, 612);
    assert_eq!(c.den, 765);
    assert_eq!(c.channel_bytes(), (204, 204, 204));
}

#[test]
fn background_observation_rejects_regardless_of_threshold() {
    let colors = vec![sample(204, 204, 204), sample(0, 0, 0), sample(204, 204, 204)];
    for (num, den) in [(1, 100), (3, 10), (100, 1)] {
        let t = Threshold::new(num, den);
        assert!(standard_consistency_check(&colors, &t).is_none());
    }
}

#[test]
fn variance_at_threshold_boundary_rejects() {
    // Two observations of raw 102 and 204: per-channel variance is exactly
    // ((204 - 102) / 2 / 255)^2 == (1/5)^2.  At threshold 1/5 the strict
    // comparison rejects.
    let colors = vec![sample(102, 102, 102), sample(204, 204, 204)];
    let t = Threshold::new(1, 5);
    assert!(standard_consistency_check(&colors, &t).is_none());
    // A slightly looser threshold accepts the same observations.
    let t = Threshold::new(21, 100);
    let c = standard_consistency_check(&colors, &t).unwrap();
    assert_eq!(c.r_num, 306);
    assert_eq!(c.den, 510);
}

#[test]
fn near_black_mean_rejects() {
    // No observation is exactly background, but every channel mean is below
    // 1/5 (raw 51), so the voxel is seeing background-like darkness.
    let colors = vec![sample(12, 12, 12), sample(40, 40, 40), sample(20, 20, 20)];
    let t = Threshold::new(100, 1);
    assert!(standard_consistency_check(&colors, &t).is_none());
}

#[test]
fn near_black_boundary_is_strict() {
    // A mean of exactly 1/5 (raw 51) is not near-black; with zero variance
    // the observations are accepted.
    let colors = vec![sample(51, 51, 51), sample(51, 51, 51)];
    let t = Threshold::new(3, 10);
    let c = standard_consistency_check(&colors, &t).unwrap();
    assert_eq!(c.r_num, 102);
    assert_eq!(c.den, 510);
}

#[test]
fn single_observation_accepted() {
    let colors = vec![sample(255, 255, 255)];
    let t = Threshold::new(3, 10);
    let c = standard_consistency_check(&colors, &t).unwrap();
    assert_eq!(c.channel_bytes(), (255, 255, 255));
}

#[test]
fn one_divergent_channel_rejects() {
    // Red and green agree, blue diverges far beyond threshold 0.3.
    let colors = vec![sample(200, 200, 20), sample(200, 200, 250)];
    let t = Threshold::new(3, 10);
    assert!(standard_consistency_check(&colors, &t).is_none());
}
