use planet_lod::limits::{angle_within_limit, height_within_limit, should_subdivide, ANGLE_LIMIT_ROOT, RIGHT_ANGLE};
use planet_lod::ids::IdCounter;
use planet_lod::planet::{Planet, Sight};

const UNIT: u64 = 1_000_000;

fn micro_rad(a: f64) -> u64 {
    (a * 1e6).round() as u64
}

fn scenario_planet() -> Planet {
    let mut p = Planet::with_seed(7, &mut IdCounter::new());
    p.radius = UNIT as u32;
    p.max_height = 50_000;
    p.max_lod = 2;
    p
}

#[test]
fn angle_limit_root_is_three_quarter_pi() {
    let expected = std::f64::consts::FRAC_PI_2 * 1.5;
    assert_eq!(ANGLE_LIMIT_ROOT, (expected * 1e6) as u64);
    assert!(angle_within_limit(ANGLE_LIMIT_ROOT - 1, 0));
    assert!(!angle_within_limit(ANGLE_LIMIT_ROOT, 0));
}

#[test]
fn angle_limit_matches_formula_per_level() {
    for level in 0u32..6 {
        let lim = std::f64::consts::FRAC_PI_2 * 1.5 / ((level as f64 + 1.0).powf(1.5));
        let below = micro_rad(lim) - 2;
        let above = micro_rad(lim) + 2;
        assert!(angle_within_limit(below, level), "level {}", level);
        assert!(!angle_within_limit(above, level), "level {}", level);
    }
}

#[test]
fn angle_limit_decreases_with_level() {
    // An angle inside the level-1 limit but outside the level-2 limit.
    let a = micro_rad(0.6);
    assert!(angle_within_limit(a, 0));
    assert!(angle_within_limit(a, 1));
    assert!(!angle_within_limit(a, 2));
    assert!(angle_within_limit(0, 1_000_000));
    assert!(!angle_within_limit(1, u32::MAX));
}

#[test]
fn height_limit_decreases_with_level() {
    // radius 1, max height 0.05: limits 3.65, 1.05 + 2.6 / 2.83 = 1.969, 1.05 + 2.6 / 5.2 = 1.550
    let r = UNIT as u32;
    let h = 1_800_000;
    assert!(height_within_limit(h, r, 50_000, 0));
    assert!(height_within_limit(h, r, 50_000, 1));
    assert!(!height_within_limit(h, r, 50_000, 2));
}

#[test]
fn height_limit_is_strict() {
    // max height 0: limit at level 0 is exactly 1 + 2.6 = 3.6
    let r = UNIT as u32;
    assert!(!height_within_limit(3_600_000, r, 0, 0));
    assert!(height_within_limit(3_599_999, r, 0, 0));
    // below the base radius is always within
    assert!(height_within_limit(10, r, 0, 40));
}

#[test]
fn scenario_far_viewer_does_not_subdivide() {
    let p = scenario_planet();
    let s = Sight { angle: 0, height: 10 * UNIT };
    assert!(!p.subdivides(s, 0));
    assert!(!height_within_limit(10 * UNIT, p.radius, p.max_height, 0));
    // 3.65 is the limit at level 0
    assert!(height_within_limit(3_649_999, p.radius, p.max_height, 0));
    assert!(!height_within_limit(3_650_000, p.radius, p.max_height, 0));
}

#[test]
fn scenario_near_viewer_subdivides_to_max_lod() {
    let p = scenario_planet();
    let s = Sight { angle: 0, height: 1_020_000 };
    assert!(p.subdivides(s, 0));
    assert!(p.subdivides(s, 1));
    assert!(!p.subdivides(s, 2));
}

#[test]
fn scenario_back_facing_tile() {
    let p = scenario_planet();
    let near = 1_020_000;
    // directly behind: never splits
    for level in 0..3 {
        assert!(!p.subdivides(Sight { angle: micro_rad(std::f64::consts::PI), height: near }, level));
    }
    // past pi/2 but inside 3pi/4: splits at level 0 only
    let a = micro_rad(2.0);
    assert!(p.subdivides(Sight { angle: a, height: near }, 0));
    assert!(!p.subdivides(Sight { angle: a, height: near }, 1));
    // a right angle is inside the level-0 limit and outside all deeper ones
    assert!(angle_within_limit(RIGHT_ANGLE, 0));
    for level in 1..40 {
        assert!(!angle_within_limit(RIGHT_ANGLE, level));
    }
}

#[test]
fn depth_limit_stops_subdivision() {
    assert!(!should_subdivide(0, 1_000_000, 1_000_000, 0, 4, 4));
    assert!(should_subdivide(0, 1_000_000, 1_000_000, 0, 3, 4));
}
