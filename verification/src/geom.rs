use vstd::prelude::*;
use crate::types::Angle;

verus! {

/// Shrink a non-negative ratio by halving both parts until the denominator
/// fits the fixed-point evaluation window; the ratio itself barely moves.
pub open spec fn spec_shrunk(num: int, den: int) -> (int, int)
    decreases den,
{
    if den < 0x8000 {
        (num, den)
    } else {
        spec_shrunk(num / 2, den / 2)
    }
}

/// First-octant arctangent of `num / den` in millidegrees: the quadratic
/// approximation `45000 z + 15640 z (1 - z)` of `atan(z)` evaluated in fixed
/// point on the shrunk ratio. It is exact at the octant's two ends.
pub open spec fn spec_atan_ratio(num: int, den: int) -> int {
    let nd = spec_shrunk(num, den);
    (45000 * nd.0 * nd.1 + 15640 * nd.0 * (nd.1 - nd.0)) / (nd.1 * nd.1)
}

/// The polar angle of the vector (dx, dy) in millidegrees, in [0, 360000):
/// reduce to a first-octant ratio, then reassemble by octant and quadrant.
/// The zero vector is given angle 0.
pub open spec fn spec_atan2(dx: int, dy: int) -> int {
    let ax = if dx < 0 { -dx } else { dx };
    let ay = if dy < 0 { -dy } else { dy };
    if ax == 0 && ay == 0 {
        0
    } else {
        let t = if ay <= ax {
            spec_atan_ratio(ay, ax)
        } else {
            90000 - spec_atan_ratio(ax, ay)
        };
        if dx >= 0 && dy >= 0 {
            t
        } else if dx < 0 && dy >= 0 {
            180000 - t
        } else if dx < 0 {
            180000 + t
        } else if t == 0 {
            0
        } else {
            360000 - t
        }
    }
}

/// Whether the vector `point` out of a circle's center points into the
/// angular span [start, end], both ends included.
pub open spec fn spec_inside_arc(point: (int, int), start: Angle, end: Angle) -> bool {
    start.spec_deg() <= spec_atan2(point.0, point.1) <= end.spec_deg()
}

proof fn lemma_shrunk_shape(num: int, den: int)
    requires
        0 <= num <= den,
        1 <= den,
    ensures
        0 <= spec_shrunk(num, den).0 <= spec_shrunk(num, den).1,
        1 <= spec_shrunk(num, den).1 < 0x8000,
        num == 0 ==> spec_shrunk(num, den).0 == 0,
        num == den ==> spec_shrunk(num, den).0 == spec_shrunk(num, den).1,
    decreases den,
{
    if den < 0x8000 {
    } else {
        vstd::arithmetic::div_mod::lemma_div_is_ordered(num, den, 2);
        vstd::arithmetic::div_mod::lemma_div_pos_is_pos(num, 2);
        assert(den / 2 >= 1);
        lemma_shrunk_shape(num / 2, den / 2);
    }
}

proof fn lemma_atan_ratio_bounds(num: int, den: int)
    requires
        0 <= num <= den,
        1 <= den,
    ensures
        0 <= spec_atan_ratio(num, den) <= 45000,
        num == 0 ==> spec_atan_ratio(num, den) == 0,
        num == den ==> spec_atan_ratio(num, den) == 45000,
{
    lemma_shrunk_shape(num, den);
    let nd = spec_shrunk(num, den);
    let n = nd.0;
    let d = nd.1;
    assert(0 <= 45000 * n * d + 15640 * n * (d - n)
        && 45000 * n * d + 15640 * n * (d - n) <= 45000 * (d * d)
        && (n == 0 ==> 45000 * n * d + 15640 * n * (d - n) == 0)
        && (n == d ==> 45000 * n * d + 15640 * n * (d - n) == 45000 * (d * d))
        && d * d >= 1) by (nonlinear_arith)
        requires 0 <= n, n <= d, 1 <= d;
    let big = 45000 * n * d + 15640 * n * (d - n);
    vstd::arithmetic::div_mod::lemma_div_pos_is_pos(big, d * d);
    vstd::arithmetic::div_mod::lemma_div_is_ordered(big, 45000 * (d * d), d * d);
    vstd::arithmetic::div_mod::lemma_div_multiples_vanish(45000, d * d);
    if n == 0 {
        vstd::arithmetic::div_mod::lemma_div_of0(d * d);
    }
}

/// The polar angle is always canonical: inside [0, 360000).
pub proof fn lemma_atan2_range(dx: int, dy: int)
    ensures
        0 <= spec_atan2(dx, dy) < 360000,
{
    let ax = if dx < 0 { -dx } else { dx };
    let ay = if dy < 0 { -dy } else { dy };
    if ax == 0 && ay == 0 {
    } else if ay <= ax {
        lemma_atan_ratio_bounds(ay, ax);
    } else {
        lemma_atan_ratio_bounds(ax, ay);
    }
}

/// On the four half-axes the polar angle is exact: 0, 90, 180 and 270
/// degrees for the positive x, positive y, negative x and negative y
/// directions.
pub proof fn lemma_atan2_axes(v: int)
    requires
        v > 0,
    ensures
        spec_atan2(v, 0) == 0,
        spec_atan2(0, v) == 90000,
        spec_atan2(-v, 0) == 180000,
        spec_atan2(0, -v) == 270000,
{
    lemma_atan_ratio_bounds(0, v);
    lemma_atan_ratio_bounds(v, v);
}

fn atan_ratio(num: i64, den: i64) -> (r: i64)
    requires
        0 <= num <= den,
        1 <= den <= 0x10_0000_0000,
    ensures
        r == spec_atan_ratio(num as int, den as int),
        0 <= r <= 45000,
{
    proof {
        lemma_atan_ratio_bounds(num as int, den as int);
    }
    let mut n: u64 = num as u64;
    let mut d: u64 = den as u64;
    while d >= 0x8000
        invariant
            0 <= n <= d,
            1 <= d <= 0x10_0000_0000,
            spec_shrunk(num as int, den as int) == spec_shrunk(n as int, d as int),
        decreases d,
    {
        proof {
            vstd::arithmetic::div_mod::lemma_div_is_ordered(n as int, d as int, 2);
        }
        n = n / 2;
        d = d / 2;
    }
    proof {
        lemma_shrunk_shape(num as int, den as int);
        assert(spec_shrunk(n as int, d as int) == (n as int, d as int));
        assert(45000 * (n as int) * (d as int) <= 45000 * 0x8000 * 0x8000
            && 0 <= 45000 * (n as int) * (d as int)
            && 15640 * (n as int) * ((d as int) - (n as int)) <= 15640 * 0x8000 * 0x8000
            && 0 <= 15640 * (n as int) * ((d as int) - (n as int))
            && (d as int) * (d as int) < 0x8000 * 0x8000
            && 1 <= (d as int) * (d as int)) by (nonlinear_arith)
            requires 0 <= n, n <= d, 1 <= d, d < 0x8000;
    }
    let big: u64 = 45000 * n * d + 15640 * n * (d - n);
    let dd: u64 = d * d;
    let q = big / dd;
    proof {
        vstd::arithmetic::div_mod::lemma_div_nonincreasing(big as int, dd as int);
        vstd::arithmetic::div_mod::lemma_div_pos_is_pos(big as int, dd as int);
    }
    q as i64
}

/// The polar angle of the vector (dx, dy) in millidegrees, in [0, 360000).
pub fn atan2_mdeg(dx: i64, dy: i64) -> (r: i64)
    requires
        -0x8_0000_0000 <= dx <= 0x8_0000_0000,
        -0x8_0000_0000 <= dy <= 0x8_0000_0000,
    ensures
        r == spec_atan2(dx as int, dy as int),
        0 <= r < 360000,
{
    proof {
        lemma_atan2_range(dx as int, dy as int);
    }
    let ax = if dx < 0 { -dx } else { dx };
    let ay = if dy < 0 { -dy } else { dy };
    if ax == 0 && ay == 0 {
        return 0;
    }
    let t = if ay <= ax {
        atan_ratio(ay, ax)
    } else {
        90000 - atan_ratio(ax, ay)
    };
    if dx >= 0 && dy >= 0 {
        t
    } else if dx < 0 && dy >= 0 {
        180000 - t
    } else if dx < 0 {
        180000 + t
    } else if t == 0 {
        0
    } else {
        360000 - t
    }
}

/// Test whether the offset vector `point` (relative to a circle's center)
/// points into the closed angular span [start, end]. The span must already
/// be normalized and ordered by the caller, so it cannot cross the 0/360
/// degree seam: a caller needing a wrap-around span issues two calls split
/// at zero.
pub fn inside_arc(point: (i64, i64), start: Angle, end: Angle) -> (r: bool)
    requires
        start.is_normalized(),
        end.is_normalized(),
        start.spec_deg() <= end.spec_deg(),
        -0x8_0000_0000 <= point.0 <= 0x8_0000_0000,
        -0x8_0000_0000 <= point.1 <= 0x8_0000_0000,
    ensures
        r == spec_inside_arc((point.0 as int, point.1 as int), start, end),
{
    let d = atan2_mdeg(point.0, point.1);
    start.to_degrees() <= d && d <= end.to_degrees()
}

/// A point on the positive x-axis lies inside the first-quadrant span
/// [0, 90] degrees; a point on the negative y-axis lies outside it.
pub proof fn lemma_first_quadrant_span(r: int)
    requires
        r > 0,
    ensures
        spec_inside_arc((r, 0), Angle::Degrees(0), Angle::Degrees(90_000)),
        !spec_inside_arc((0, -r), Angle::Degrees(0), Angle::Degrees(90_000)),
{
    lemma_atan2_axes(r);
}

} // verus!
