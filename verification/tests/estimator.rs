use std::f64::consts::PI;

use rand::Rng;
use rand::SeedableRng;
use rand::rngs::StdRng;

use cylinder_area::SCALE;
use cylinder_area::count_hits;

/// Scale a real coordinate to the library's fixed-point representation.
fn sc(v: f64) -> i64 {
    (v * SCALE as f64).round() as i64
}

/// The floating-point rim of the estimator: draws `num_samples` offsets
/// uniformly from the bounding rectangle derived from (radius, height),
/// hands their scaled forms to the verified tally, and scales the hit
/// fraction by the rectangle area. The tilt is supplied directly as
/// scaled (sin, cos) so scenarios can pin the angle.
fn estimate(
    radius: f64,
    height: f64,
    sin_t: i64,
    cos_t: i64,
    num_samples: usize,
    seed: u64,
) -> (usize, f64) {
    let mut rng = StdRng::seed_from_u64(seed);
    let ex = radius * 1.5;
    let ey = (radius + height * 0.5) * 1.5;
    let sampling_area = (2.0 * ex) * (2.0 * ey);
    let mut points: Vec<(i64, i64)> = Vec::with_capacity(num_samples);
    for _ in 0..num_samples {
        let x: f64 = rng.random_range(-ex..ex);
        let y: f64 = rng.random_range(-ey..ey);
        points.push((sc(x), sc(y)));
    }
    let hits = count_hits(&points, sc(radius), sc(height), sin_t, cos_t);
    (hits, (hits as f64 / num_samples as f64) * sampling_area)
}

#[test]
fn untilted_estimate_close_to_disk_area() {
    // R = 1, H = 2, tilt pinned to 0: the effective area is the disk
    // area pi * R^2.
    let (hits, est) = estimate(1.0, 2.0, 0, SCALE, 100_000, 12345);
    assert!(hits > 0);
    assert!((est - PI).abs() < 0.05);
}

#[test]
fn near_flat_perpendicular_estimate_is_side_profile() {
    // R = 1, H = 0.0001, tilt pinned to pi/2: the cylinder lies in the
    // transverse plane, so the effective area approximates the side
    // profile 2*R*H, far below the disk area.
    let height = 0.0001;
    let quantized_height = sc(height) as f64 / SCALE as f64;
    let expected = 2.0 * 1.0 * quantized_height;
    let (_, est) = estimate(1.0, height, SCALE, 0, 2_000_000, 2024);
    assert!(est < 0.01);
    assert!((est - expected).abs() < 2.0e-4);
}

#[test]
fn estimate_tightens_with_more_samples() {
    // With a fixed seed, raising the sample count from 1,000 to 100,000
    // tightens the estimate around the known untilted value pi.
    let (_, coarse) = estimate(1.0, 2.0, 0, SCALE, 1_000, 42);
    let (_, fine) = estimate(1.0, 2.0, 0, SCALE, 100_000, 42);
    assert!((coarse - PI).abs() < 0.7);
    assert!((fine - PI).abs() < 0.05);
    assert!((fine - PI).abs() <= (coarse - PI).abs());
}

#[test]
fn reproducible_with_same_seed() {
    let (hits_a, est_a) = estimate(1.0, 2.0, 0, SCALE, 50_000, 7);
    let (hits_b, est_b) = estimate(1.0, 2.0, 0, SCALE, 50_000, 7);
    assert_eq!(hits_a, hits_b);
    assert_eq!(est_a, est_b);
    // A tilted run is reproducible too.
    let s45 = sc(0.7071067811865476);
    let (hits_c, est_c) = estimate(1.0, 2.0, s45, s45, 50_000, 7);
    let (hits_d, est_d) = estimate(1.0, 2.0, s45, s45, 50_000, 7);
    assert_eq!(hits_c, hits_d);
    assert_eq!(est_c, est_d);
}
