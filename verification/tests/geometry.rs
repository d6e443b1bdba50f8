use cylinder_area::CustomDistribution;
use cylinder_area::SCALE;
use cylinder_area::count_hits;
use cylinder_area::ray_intersects_rotated_cylinder;

/// Scale a real coordinate to the library's fixed-point representation.
fn sc(v: f64) -> i64 {
    (v * SCALE as f64).round() as i64
}

#[test]
fn untilted_hit_matches_disk() {
    // theta = 0: axis along the beam; the hit region is the open unit disk,
    // independent of the height.
    let r = sc(1.0);
    let h = sc(2.0);
    let (s, c) = (0, SCALE);
    assert!(ray_intersects_rotated_cylinder(0, 0, r, h, s, c));
    assert!(ray_intersects_rotated_cylinder(sc(0.5), sc(0.5), r, h, s, c));
    assert!(ray_intersects_rotated_cylinder(sc(0.6), sc(-0.6), r, h, s, c));
    assert!(!ray_intersects_rotated_cylinder(sc(1.5), 0, r, h, s, c));
    assert!(!ray_intersects_rotated_cylinder(0, sc(2.9), r, h, s, c));
    // A taller cylinder changes nothing when untilted.
    assert!(ray_intersects_rotated_cylinder(sc(0.5), sc(0.5), r, sc(50.0), s, c));
    assert!(!ray_intersects_rotated_cylinder(sc(1.5), 0, r, sc(50.0), s, c));
}

#[test]
fn boundary_point_is_miss() {
    // A ray exactly at distance R from the axis misses: the radial
    // comparison is strict.
    let r = sc(1.0);
    let h = sc(2.0);
    assert!(!ray_intersects_rotated_cylinder(r, 0, r, h, 0, SCALE));
    assert!(!ray_intersects_rotated_cylinder(-r, 0, r, h, 0, SCALE));
    assert!(!ray_intersects_rotated_cylinder(0, r, r, h, 0, SCALE));
    // Just inside is a hit.
    assert!(ray_intersects_rotated_cylinder(r - 1, 0, r, h, 0, SCALE));
    // The same boundary ray misses the cylinder lying sideways too.
    assert!(!ray_intersects_rotated_cylinder(r, 0, r, h, SCALE, 0));
}

#[test]
fn perpendicular_axis_side_profile() {
    // theta = pi/2: axis perpendicular to the beam; the hit region is the
    // side-profile strip |y| <= H/2, |x| < R.
    let r = sc(1.0);
    let h = sc(2.0);
    let (s, c) = (SCALE, 0);
    assert!(ray_intersects_rotated_cylinder(0, sc(0.9), r, h, s, c));
    assert!(!ray_intersects_rotated_cylinder(0, sc(1.1), r, h, s, c));
    assert!(ray_intersects_rotated_cylinder(sc(0.999), 0, r, h, s, c));
    assert!(!ray_intersects_rotated_cylinder(sc(1.001), 0, r, h, s, c));
}

#[test]
fn tilted_cylinder_forward_ray() {
    // theta = 45 degrees: the axis leans into +y, so offsets ahead of the
    // source plane behave differently from offsets behind it.
    let r = sc(1.0);
    let h = sc(2.0);
    let s45 = sc(0.7071067811865476);
    let (s, c) = (s45, s45);
    assert!(ray_intersects_rotated_cylinder(0, 0, r, h, s, c));
    assert!(ray_intersects_rotated_cylinder(0, sc(1.2), r, h, s, c));
    // Closest approach lies behind the source plane: miss.
    assert!(!ray_intersects_rotated_cylinder(0, sc(3.0), r, h, s, c));
    assert!(!ray_intersects_rotated_cylinder(0, sc(-3.0), r, h, s, c));
    assert!(!ray_intersects_rotated_cylinder(0, sc(1.5), r, h, s, c));
}

#[test]
fn taller_cylinder_never_loses_hits() {
    // Monotonicity in height: every offset that hits the short cylinder
    // hits the tall one, and some offsets hit only the tall one.
    let r = sc(1.0);
    let s45 = sc(0.7071067811865476);
    let (s, c) = (s45, s45);
    let short = sc(2.0);
    let tall = sc(8.0);
    let mut gained: u32 = 0;
    for ix in -20i64..=20 {
        for iy in -20i64..=20 {
            let x = ix * SCALE / 5;
            let y = iy * SCALE / 5;
            let hit_short = ray_intersects_rotated_cylinder(x, y, r, short, s, c);
            let hit_tall = ray_intersects_rotated_cylinder(x, y, r, tall, s, c);
            assert!(!hit_short || hit_tall);
            if hit_tall && !hit_short {
                gained += 1;
            }
        }
    }
    assert!(gained > 0);
    // A concrete offset that the taller cylinder gains.
    assert!(!ray_intersects_rotated_cylinder(0, sc(2.5), r, short, s, c));
    assert!(ray_intersects_rotated_cylinder(0, sc(2.5), r, tall, s, c));
}

#[test]
fn count_hits_exact_tally() {
    let r = SCALE;
    let h = 2 * SCALE;
    let points: Vec<(i64, i64)> = vec![
        (0, 0),
        (SCALE / 2, 0),
        (SCALE, 0),
        (2 * SCALE, 0),
        (0, -(SCALE - 1)),
    ];
    // The two interior offsets and the just-inside offset hit; the
    // boundary offset and the far offset miss.
    assert_eq!(count_hits(&points, r, h, 0, SCALE), 3);
}

#[test]
fn count_hits_empty_is_zero() {
    let _dist = CustomDistribution::new();
    let points: Vec<(i64, i64)> = Vec::new();
    assert_eq!(count_hits(&points, SCALE, SCALE, 0, SCALE), 0);
}
