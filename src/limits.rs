use vstd::prelude::*;

verus! {

/// Parts per million: the scale of `max_height`, and of the height factor below.
pub const MICRO: u64 = 1_000_000;

/// Angle limit at level 0, `(pi / 2) * 1.5`, in micro-radians.
pub const ANGLE_LIMIT_ROOT: u64 = 2_356_194;

/// The factor 2.6 of the height limit, in parts per million.
pub const HEIGHT_FACTOR: u64 = 2_600_000;

/// Right angle, `pi / 2`, in micro-radians (rounded down).
pub const RIGHT_ANGLE: u64 = 1_570_796;

/// `n^3`.
pub open spec fn cube(n: int) -> int {
    n * n * n
}

/// `angle < ANGLE_LIMIT_ROOT / (level + 1)^(3/2)`. Both sides are non-negative,
/// so this is the same comparison squared and multiplied out.
pub open spec fn angle_within(angle: int, level: int) -> bool {
    angle * angle * cube(level + 1) < ANGLE_LIMIT_ROOT * ANGLE_LIMIT_ROOT
}

/// How far a viewer at `height` is above `radius * (1 + max_height)`,
/// scaled by `MICRO` (`max_height` is in parts per million of the radius).
pub open spec fn height_excess(height: int, radius: int, max_height: int) -> int {
    height * MICRO - radius * (MICRO + max_height)
}

/// The variable part of the height limit, `2.6 * radius`, scaled by `MICRO`.
pub open spec fn height_reach(radius: int) -> int {
    HEIGHT_FACTOR * radius
}

/// `height < radius * (1 + max_height) + 2.6 * radius / (level + 1)^(3/2)`,
/// scaled by `MICRO`; when the viewer is above the base, it is squared and multiplied out.
pub open spec fn height_within(height: int, radius: int, max_height: int, level: int) -> bool {
    let e = height_excess(height, radius, max_height);
    e < 0 || e * e * cube(level + 1) < height_reach(radius) * height_reach(radius)
}

/// The subdivision rule: a tile at `level` splits iff the viewer is within
/// both limits of that level and the level is below the planet's deepest one.
/// The limits are strict, so equality keeps the tile whole.
pub open spec fn subdivides(
    angle: int,
    height: int,
    radius: int,
    max_height: int,
    level: int,
    max_lod: int,
) -> bool {
    angle_within(angle, level) && height_within(height, radius, max_height, level) && level
        < max_lod
}

proof fn lemma_mul_le_div(x: int, c: int, n: int)
    requires
        c > 0,
        n >= 0,
        x >= 0,
    ensures
        x * c <= n <==> x <= n / c,
{
    let q = n / c;
    let r = n % c;
    assert(n == c * q + r && 0 <= r < c) by {
        vstd::arithmetic::div_mod::lemma_fundamental_div_mod(n, c);
    }
    if x <= q {
        assert(x * c <= n) by (nonlinear_arith)
            requires
                x <= q,
                c > 0,
                n == c * q + r,
                r >= 0,
        ;
    } else {
        assert(x * c > n) by (nonlinear_arith)
            requires
                x >= q + 1,
                c > 0,
                n == c * q + r,
                r < c,
        ;
    }
}

proof fn lemma_square_ge(x: int, c: int, b: int)
    requires
        x >= b >= 0,
        c >= 1,
    ensures
        x * x * c >= b * b,
{
    assert(x * x * c >= x * x) by (nonlinear_arith)
        requires
            c >= 1,
            x >= 0,
    ;
    assert(x * x >= b * b) by (nonlinear_arith)
        requires
            x >= b >= 0,
    ;
}

/// Decides `x * x * c < b * b` without forming the product on the left.
fn square_scaled_below(x: u64, c: u128, b: u64) -> (r: bool)
    requires
        c >= 1,
    ensures
        r == (x * x * c < b * b),
{
    if x >= b {
        proof {
            lemma_square_ge(x as int, c as int, b as int);
        }
        false
    } else {
        assert((b as int) * (b as int) <= u64::MAX as int * u64::MAX as int) by (nonlinear_arith)
            requires
                b <= u64::MAX,
        ;
        assert((x as int) * (x as int) < (b as int) * (b as int)) by (nonlinear_arith)
            requires
                x < b,
        ;
        let bb: u128 = (b as u128) * (b as u128);
        let q: u128 = (bb - 1) / c;
        proof {
            lemma_mul_le_div((x * x) as int, c as int, (bb - 1) as int);
        }
        (x as u128) * (x as u128) <= q
    }
}

/// `(level + 1)^3`, which fits in 128 bits for every 32-bit level.
fn level_cube(level: u32) -> (r: u128)
    ensures
        r == cube(level + 1),
        r >= 1,
{
    let n: u128 = level as u128 + 1;
    assert(n * n <= 0x1_0000_0000u128 * 0x1_0000_0000u128) by (nonlinear_arith)
        requires
            1 <= n <= 0x1_0000_0000u128,
    ;
    assert(n * n * n <= 0x1_0000_0000u128 * 0x1_0000_0000u128 * 0x1_0000_0000u128)
        by (nonlinear_arith)
        requires
            1 <= n <= 0x1_0000_0000u128,
    ;
    assert(n * n * n >= 1) by (nonlinear_arith)
        requires
            1 <= n,
    ;
    n * n * n
}

/// The angle limit of a level, as a test on an angle in micro-radians.
pub fn angle_within_limit(angle: u64, level: u32) -> (r: bool)
    ensures
        r == angle_within(angle as int, level as int),
{
    square_scaled_below(angle, level_cube(level), ANGLE_LIMIT_ROOT)
}

/// The height limit of a level, as a test on the viewer's distance from the
/// planet centre (`height` and `radius` in one length unit, `max_height` in
/// parts per million of the radius).
pub fn height_within_limit(height: u64, radius: u32, max_height: u32, level: u32) -> (r: bool)
    ensures
        r == height_within(height as int, radius as int, max_height as int, level as int),
{
    assert((radius) * (MICRO + max_height) <= 0x1_0000_0000 * 0x2_0000_0000int)
        by (nonlinear_arith)
        requires
            radius <= u32::MAX,
            max_height <= u32::MAX,
    ;
    let base: i128 = radius as i128 * (MICRO as i128 + max_height as i128);
    let scaled: i128 = height as i128 * MICRO as i128;
    let reach: u64 = HEIGHT_FACTOR * radius as u64;
    if scaled < base {
        true
    } else {
        let e: i128 = scaled - base;
        let c: u128 = level_cube(level);
        if e >= reach as i128 {
            proof {
                lemma_square_ge(e as int, c as int, reach as int);
            }
            false
        } else {
            square_scaled_below(e as u64, c, reach)
        }
    }
}

/// The subdivision rule (see `subdivides`).
pub fn should_subdivide(
    angle: u64,
    height: u64,
    radius: u32,
    max_height: u32,
    level: u32,
    max_lod: u32,
) -> (r: bool)
    ensures
        r == subdivides(
            angle as int,
            height as int,
            radius as int,
            max_height as int,
            level as int,
            max_lod as int,
        ),
{
    angle_within_limit(angle, level) && height_within_limit(height, radius, max_height, level)
        && level < max_lod
}

proof fn lemma_cube_increasing(l1: int, l2: int)
    requires
        0 <= l1 < l2,
    ensures
        1 <= cube(l1 + 1) < cube(l2 + 1),
{
    assert((l1 + 1) * (l1 + 1) < (l2 + 1) * (l2 + 1)) by (nonlinear_arith)
        requires
            0 <= l1 < l2,
    ;
    assert((l1 + 1) * (l1 + 1) * (l1 + 1) < (l2 + 1) * (l2 + 1) * (l2 + 1)) by (nonlinear_arith)
        requires
            0 <= l1 < l2,
            (l1 + 1) * (l1 + 1) < (l2 + 1) * (l2 + 1),
    ;
    assert((l1 + 1) * (l1 + 1) * (l1 + 1) >= 1) by (nonlinear_arith)
        requires
            0 <= l1,
    ;
}

proof fn lemma_scaled_monotone(x: int, k: int, c1: int, c2: int)
    requires
        1 <= c1 <= c2,
        x * x * c2 < k,
    ensures
        x * x * c1 < k,
{
    assert(x * x * c1 <= x * x * c2) by (nonlinear_arith)
        requires
            1 <= c1 <= c2,
    ;
}

/// The angle limit `ANGLE_LIMIT_ROOT / (level + 1)^(3/2)` strictly decreases
/// as the level grows: its square at `l2` is below its square at `l1`
/// (compared with the denominators multiplied out), and every angle within
/// the limit of the deeper level is within that of the shallower one.
pub proof fn lemma_angle_limit_decreasing(l1: int, l2: int)
    requires
        0 <= l1 < l2,
    ensures
        ANGLE_LIMIT_ROOT * ANGLE_LIMIT_ROOT * cube(l1 + 1) < ANGLE_LIMIT_ROOT * ANGLE_LIMIT_ROOT
            * cube(l2 + 1),
        forall|a: int| #[trigger] angle_within(a, l2) ==> angle_within(a, l1),
{
    lemma_cube_increasing(l1, l2);
    let k = ANGLE_LIMIT_ROOT * ANGLE_LIMIT_ROOT;
    assert(k * cube(l1 + 1) < k * cube(l2 + 1)) by (nonlinear_arith)
        requires
            k > 0,
            cube(l1 + 1) < cube(l2 + 1),
    ;
    assert forall|a: int| #[trigger] angle_within(a, l2) implies angle_within(
        a,
        l1,
    ) by {
        lemma_scaled_monotone(a, k as int, cube(l1 + 1), cube(l2 + 1));
    }
}

/// For a planet of positive radius, the height limit
/// `radius * (1 + max_height) + 2.6 * radius / (level + 1)^(3/2)` strictly
/// decreases as the level grows: the square of its variable part at `l2` is
/// below that at `l1` (denominators multiplied out), and every height within
/// the limit of the deeper level is within that of the shallower one.
pub proof fn lemma_height_limit_decreasing(radius: int, max_height: int, l1: int, l2: int)
    requires
        radius > 0,
        0 <= l1 < l2,
    ensures
        height_reach(radius) * height_reach(radius) * cube(l1 + 1) < height_reach(
            radius,
        ) * height_reach(radius) * cube(l2 + 1),
        forall|h: int| #[trigger]
            height_within(h, radius, max_height, l2) ==> height_within(
                h,
                radius,
                max_height,
                l1,
            ),
{
    lemma_cube_increasing(l1, l2);
    let k = height_reach(radius) * height_reach(radius);
    assert(k > 0) by (nonlinear_arith)
        requires
            k == height_reach(radius) * height_reach(radius),
            height_reach(radius) > 0,
    ;
    assert(k * cube(l1 + 1) < k * cube(l2 + 1)) by (nonlinear_arith)
        requires
            k > 0,
            cube(l1 + 1) < cube(l2 + 1),
    ;
    assert forall|h: int| #[trigger]
        height_within(h, radius, max_height, l2) implies height_within(
        h,
        radius,
        max_height,
        l1,
    ) by {
        let e = height_excess(h, radius, max_height);
        if e >= 0 {
            lemma_scaled_monotone(e, k, cube(l1 + 1), cube(l2 + 1));
        }
    }
}

/// A tile that faces away from the viewer (at a right angle or more) is
/// within the angle limit of no level but the first: from level 1 on the
/// limit is below a right angle.
pub proof fn lemma_facing_away_splits_only_at_root(angle: int, level: int)
    requires
        angle >= RIGHT_ANGLE,
        level >= 1,
    ensures
        !angle_within(angle, level),
{
    lemma_cube_increasing(0, level);
    assert(cube(level + 1) >= 8) by {
        if level > 1 {
            lemma_cube_increasing(1, level);
        }
    }
    assert(angle * angle * cube(level + 1) >= RIGHT_ANGLE * RIGHT_ANGLE * 8) by (nonlinear_arith)
        requires
            angle >= RIGHT_ANGLE,
            cube(level + 1) >= 8,
    ;
}

} // verus!
