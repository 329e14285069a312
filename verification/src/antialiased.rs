use vstd::prelude::*;
use crate::canvas::{
    apply_writes, canvas_dims, canvas_view, canvas_wf, write1, lemma_apply_writes_concat,
    lemma_writes_prefix_step, Canvas, Channels, PixelWrite,
};
use crate::types::{Angle, Circle, Color, Rect};

verus! {

/// The integer square root, rounded down: defined by stepping the root up
/// whenever the next square still fits.
pub open spec fn sqrt_floor(n: nat) -> nat
    decreases n,
{
    if n == 0 {
        0
    } else {
        let p = sqrt_floor((n - 1) as nat);
        if (p + 1) * (p + 1) <= n {
            p + 1
        } else {
            p
        }
    }
}

/// The integer square root, rounded up.
pub open spec fn sqrt_ceil(n: nat) -> nat {
    if n == 0 {
        0
    } else {
        sqrt_floor((n - 1) as nat) + 1
    }
}

/// The rounded-down square root is the unique root whose square fits while
/// the next square does not.
pub proof fn lemma_sqrt_floor_bounds(n: nat)
    ensures
        sqrt_floor(n) * sqrt_floor(n) <= n,
        n < (sqrt_floor(n) + 1) * (sqrt_floor(n) + 1),
    decreases n,
{
    reveal_with_fuel(sqrt_floor, 2);
    if n > 0 {
        lemma_sqrt_floor_bounds((n - 1) as nat);
        let p = sqrt_floor((n - 1) as nat);
        if (p + 1) * (p + 1) <= n {
            assert(sqrt_floor(n) == p + 1);
            assert(n - 1 < (p + 1) * (p + 1));
            assert(n < (p + 2) * (p + 2)) by (nonlinear_arith)
                requires
                    n <= (p + 1) * (p + 1),
                    p >= 0,
            ;
            assert(sqrt_floor(n) * sqrt_floor(n) <= n);
            assert(n < (sqrt_floor(n) + 1) * (sqrt_floor(n) + 1));
        } else {
            assert(sqrt_floor(n) == p);
            assert(p * p <= n - 1);
            assert(sqrt_floor(n) * sqrt_floor(n) <= n);
            assert(n < (sqrt_floor(n) + 1) * (sqrt_floor(n) + 1));
        }
    } else {
        assert(n == 0);
        assert(sqrt_floor(0) == 0);
        assert(sqrt_floor(n) * sqrt_floor(n) <= n);
        assert(n < (sqrt_floor(n) + 1) * (sqrt_floor(n) + 1)) by (nonlinear_arith)
            requires
                n == 0,
                sqrt_floor(n) == 0,
        ;
    }
}

/// Any root whose square fits under `n` is at most the rounded-down root.
pub proof fn lemma_sqrt_floor_ge(m: nat, r: int)
    requires
        0 <= r,
        r * r <= m,
    ensures
        r <= sqrt_floor(m),
{
    lemma_sqrt_floor_bounds(m);
    let f = sqrt_floor(m);
    if r > f {
        assert((f + 1) * (f + 1) <= r * r) by (nonlinear_arith)
            requires
                0 <= f + 1 <= r,
        ;
    }
}

/// Any root whose square reaches `m` is at least the rounded-up root.
pub proof fn lemma_sqrt_ceil_le(m: nat, r: int)
    requires
        0 <= r,
        m <= r * r,
    ensures
        sqrt_ceil(m) <= r,
{
    if m > 0 {
        lemma_sqrt_floor_bounds((m - 1) as nat);
        let f = sqrt_floor((m - 1) as nat);
        if r < f + 1 {
            assert(r * r <= f * f) by (nonlinear_arith)
                requires
                    0 <= r <= f,
            ;
        }
    }
}

/// The rounded-up root of a positive number leaves a gap of less than one:
/// the square of one less falls short of `m`.
pub proof fn lemma_sqrt_ceil_bounds(m: nat)
    requires
        m > 0,
    ensures
        (sqrt_ceil(m) - 1) * (sqrt_ceil(m) - 1) < m,
        m <= sqrt_ceil(m) * sqrt_ceil(m),
{
    lemma_sqrt_floor_bounds((m - 1) as nat);
    let f = sqrt_floor((m - 1) as nat);
    assert(f * f <= m - 1);
    assert(m - 1 < (f + 1) * (f + 1));
}

/// The integer square root of `n`, rounded down, by bisection.
fn isqrt(n: u128) -> (r: u128)
    ensures
        r as nat == sqrt_floor(n as nat),
        r * r <= n,
{
    let mut lo: u128 = 0;
    let mut hi: u128 = 0x1_0000_0000_0000_0000;
    proof {
        assert((hi as int) * (hi as int) > u128::MAX) by (nonlinear_arith)
            requires
                hi == 0x1_0000_0000_0000_0000,
        ;
    }
    while lo + 1 < hi
        invariant
            0 <= lo < hi <= 0x1_0000_0000_0000_0000,
            (lo as int) * (lo as int) <= n,
            (hi as int) * (hi as int) > n,
        decreases hi - lo,
    {
        let mid = lo + (hi - lo) / 2;
        proof {
            assert((mid as int) * (mid as int) < u128::MAX) by (nonlinear_arith)
                requires
                    mid < 0x1_0000_0000_0000_0000,
            ;
        }
        if mid * mid <= n {
            lo = mid;
        } else {
            hi = mid;
        }
    }
    proof {
        lemma_sqrt_floor_ge(n as nat, lo as int);
        lemma_sqrt_floor_bounds(n as nat);
        let f = sqrt_floor(n as nat);
        if f > lo {
            assert((lo + 1) * (lo + 1) <= f * f) by (nonlinear_arith)
                requires
                    0 <= lo + 1 <= f,
            ;
        }
    }
    lo
}

/// The integer square root of `n`, rounded up.
fn isqrt_ceil(n: u128) -> (r: u128)
    ensures
        r as nat == sqrt_ceil(n as nat),
{
    if n == 0 {
        0
    } else {
        let r = isqrt(n - 1);
        proof {
            lemma_sqrt_floor_bounds((n - 1) as nat);
            assert((r as int) * (r as int) <= u128::MAX - 2 * (r as int)) by (nonlinear_arith)
                requires
                    (r as int) * (r as int) <= n - 1,
                    n <= u128::MAX,
                    r >= 0,
            ;
        }
        r + 1
    }
}

/// Any root whose square falls short of `m` lies under the rounded-up root.
pub proof fn lemma_sqrt_ceil_gt(m: nat, r: int)
    requires
        0 <= r,
        r * r < m,
    ensures
        r < sqrt_ceil(m),
{
    lemma_sqrt_ceil_bounds(m);
    let c = sqrt_ceil(m);
    if r >= c {
        assert(c * c <= r * r) by (nonlinear_arith)
            requires
                0 <= c <= r,
        ;
    }
}

/// The squared distance from the circle's edge row `yy` to its axis:
/// radius^2 - yy^2, clamped at zero.
pub open spec fn aa_v(r: int, yy: int) -> nat {
    if r * r - yy * yy >= 0 {
        (r * r - yy * yy) as nat
    } else {
        0
    }
}

/// The ceiling x coordinate of the true circle edge at row offset `yy`.
pub open spec fn aa_x(r: int, yy: int) -> int {
    sqrt_ceil(aa_v(r, yy)) as int
}

/// The coverage, on the 0..255 scale, of the edge pixel at the ceiling
/// coordinate: 255 (1 - k) rounded down, where k is the ceiling gap.
pub open spec fn aa_a1(r: int, yy: int) -> int {
    255 - 255 * aa_x(r, yy) + sqrt_floor(65025 * aa_v(r, yy))
}

/// The coverage of the pixel one step inward: 255 k rounded down.
pub open spec fn aa_a2(r: int, yy: int) -> int {
    255 * aa_x(r, yy) - sqrt_ceil(65025 * aa_v(r, yy))
}

/// At every row of the octant the edge coordinate stays within the radius
/// and both coverages are genuine alpha values.
pub proof fn lemma_aa_edge_bounds(r: int, yy: int)
    requires
        0 <= yy <= r,
    ensures
        0 <= aa_x(r, yy) <= r,
        0 <= aa_a1(r, yy) <= 255,
        0 <= aa_a2(r, yy) <= 255,
{
    let v = aa_v(r, yy);
    assert(0 <= yy * yy && yy * yy <= r * r && v == r * r - yy * yy) by (nonlinear_arith)
        requires
            0 <= yy <= r,
            v == aa_v(r, yy),
    ;
    lemma_sqrt_ceil_le(v, r);
    let xc = sqrt_ceil(v) as int;
    let flo = sqrt_floor((65025 * v) as nat) as int;
    let fhi = sqrt_ceil((65025 * v) as nat) as int;
    if v == 0 {
        assert(sqrt_ceil(0) == 0);
        assert(sqrt_floor(0) == 0);
        assert(65025 * v == 0);
    } else {
        lemma_sqrt_ceil_bounds(v);
        assert(65025 * v <= (255 * xc) * (255 * xc)) by (nonlinear_arith)
            requires
                v <= xc * xc,
        ;
        lemma_sqrt_ceil_le((65025 * v) as nat, 255 * xc);
        assert(xc >= 1) by {
            lemma_sqrt_ceil_gt(v, 0);
        }
        assert((255 * (xc - 1)) * (255 * (xc - 1)) < 65025 * v) by (nonlinear_arith)
            requires
                (xc - 1) * (xc - 1) < v,
                xc >= 1,
        ;
        lemma_sqrt_ceil_gt((65025 * v) as nat, 255 * (xc - 1));
        assert((255 * (xc - 1)) * (255 * (xc - 1)) <= 65025 * v) by (nonlinear_arith)
            requires
                (xc - 1) * (xc - 1) < v,
                xc >= 1,
        ;
        lemma_sqrt_floor_ge((65025 * v) as nat, 255 * (xc - 1));
        lemma_sqrt_floor_bounds((65025 * v) as nat);
        assert(flo <= 255 * xc) by (nonlinear_arith)
            requires
                flo * flo <= 65025 * v,
                65025 * v <= (255 * xc) * (255 * xc),
                flo >= 0,
                xc >= 0,
        ;
    }
}

/// At the octant's top row the edge coordinate is exactly the radius.
pub proof fn lemma_aa_x_at_top(r: int)
    requires
        r >= 1,
    ensures
        aa_x(r, 0) == r,
{
    assert(aa_v(r, 0) == r * r) by (nonlinear_arith)
        requires
            r >= 1,
    ;
    lemma_sqrt_ceil_le((r * r) as nat, r);
    assert((r - 1) * (r - 1) < r * r) by (nonlinear_arith)
        requires
            r >= 1,
    ;
    lemma_sqrt_ceil_gt((r * r) as nat, r - 1);
}

/// The color `c` under another coverage weight.
pub open spec fn with_a(c: Channels, a: int) -> Channels {
    (c.0, c.1, c.2, a as u8)
}

/// Whether the walk from `a` to `b` is steep: the y extent dominates, so
/// the walk runs along y with x as the minor axis.
pub open spec fn wu_steep(a: (int, int), b: (int, int)) -> bool {
    crate::basic::absi(b.1 - a.1) > crate::basic::absi(b.0 - a.0)
}

/// The endpoints with their axes transposed when the walk is steep.
pub open spec fn wu_transposed(a: (int, int), b: (int, int)) -> ((int, int), (int, int)) {
    if wu_steep(a, b) {
        ((a.1, a.0), (b.1, b.0))
    } else {
        (a, b)
    }
}

/// The endpoints transposed and then ordered so the major coordinate runs
/// left to right: the canonical form both endpoint orders share.
pub open spec fn wu_norm(a: (int, int), b: (int, int)) -> ((int, int), (int, int)) {
    let t = wu_transposed(a, b);
    if t.0.0 > t.1.0 {
        (t.1, t.0)
    } else {
        t
    }
}

/// The minor-axis floor position after `k` major steps: the exact rational
/// intercept `y0 + k s / dx` rounded down.
pub open spec fn wu_floor(y0: int, k: int, s: int, dx: int) -> int {
    if dx == 0 {
        y0
    } else {
        y0 + (k * s) / dx
    }
}

/// The numerator of the fractional part of the intercept, in [0, dx).
pub open spec fn wu_rem(k: int, s: int, dx: int) -> int {
    if dx == 0 {
        0
    } else {
        (k * s) % dx
    }
}

/// The requested writes of the anti-aliased line from `a` to `b`: for each
/// major-axis step, the pixel under the true intercept weighted by the
/// remaining coverage and the pixel above it weighted by the overflow, both
/// coverages exact multiples of 1/dx rounded down onto the 255 scale.
pub open spec fn wu_writes(a: (int, int), b: (int, int), c: Channels) -> Seq<PixelWrite> {
    let steep = wu_steep(a, b);
    let n = wu_norm(a, b);
    let p0 = n.0;
    let p1 = n.1;
    let dx = p1.0 - p0.0;
    let s = p1.1 - p0.1;
    Seq::new(
        (2 * (dx + 1)) as nat,
        |i: int|
            {
                let k = i / 2;
                let x = p0.0 + k;
                let q = wu_floor(p0.1, k, s, dx);
                let rem = wu_rem(k, s, dx);
                let a1 = if dx == 0 {
                    255
                } else {
                    (255 * (dx - rem)) / dx
                };
                let a2 = if dx == 0 {
                    0
                } else {
                    (255 * rem) / dx
                };
                if i % 2 == 0 {
                    (
                        (if steep {
                            (q, x)
                        } else {
                            (x, q)
                        }),
                        with_a(c, a1),
                    )
                } else {
                    (
                        (if steep {
                            (q + 1, x)
                        } else {
                            (x, q + 1)
                        }),
                        with_a(c, a2),
                    )
                }
            },
    )
}

/// Swapping the endpoints leaves the anti-aliased line's writes unchanged:
/// both orders normalize to the same walk.
pub proof fn lemma_wu_writes_symmetric(a: (int, int), b: (int, int), c: Channels)
    ensures
        wu_writes(a, b, c) == wu_writes(b, a, c),
{
    assert(wu_steep(a, b) == wu_steep(b, a));
    if a == b {
        assert(wu_norm(a, b) == wu_norm(b, a));
    } else {
        let t = wu_transposed(a, b);
        let u = wu_transposed(b, a);
        assert(u == (t.1, t.0));
        if t.0.0 == t.1.0 {
            if wu_steep(a, b) {
                assert(t.0.0 == a.1 && t.1.0 == b.1);
                assert(crate::basic::absi(b.1 - a.1) == 0);
                assert(crate::basic::absi(b.0 - a.0) == 0);
                assert(a == b);
            } else {
                assert(crate::basic::absi(b.0 - a.0) == 0);
                assert(crate::basic::absi(b.1 - a.1) == 0);
                assert(a == b);
            }
            assert(false);
        }
        assert(wu_norm(a, b) == wu_norm(b, a));
    }
}

/// The ceiling edge coordinate and the two edge coverages at row `yy` of a
/// circle's octant, computed exactly with integer square roots.
fn aa_edge(radius: u32, yy: u32) -> (r: (u32, u8, u8))
    requires
        1 <= radius,
        yy <= radius,
    ensures
        r.0 as int == aa_x(radius as int, yy as int),
        r.1 as int == aa_a1(radius as int, yy as int),
        r.2 as int == aa_a2(radius as int, yy as int),
        r.0 <= radius,
{
    proof {
        lemma_aa_edge_bounds(radius as int, yy as int);
        assert((yy as int) * (yy as int) <= (radius as int) * (radius as int)) by (nonlinear_arith)
            requires
                0 <= yy <= radius,
        ;
        assert((radius as int) * (radius as int) <= 0xFFFF_FFFF * 0xFFFF_FFFF) by (nonlinear_arith)
            requires
                radius <= 0xFFFF_FFFF,
        ;
    }
    let v: u64 = (radius as u64) * (radius as u64) - (yy as u64) * (yy as u64);
    proof {
        assert(v as int == aa_v(radius as int, yy as int));
    }
    let xc128 = isqrt_ceil(v as u128);
    proof {
        assert(xc128 as int == aa_x(radius as int, yy as int));
    }
    let xc = xc128 as u32;
    let sv: u128 = 65025u128 * (v as u128);
    let flo = isqrt(sv);
    let fhi = isqrt_ceil(sv);
    proof {
        assert(sv as nat == 65025 * aa_v(radius as int, yy as int));
        assert(flo as int == sqrt_floor(sv as nat));
        assert(fhi as int == sqrt_ceil(sv as nat));
        assert(flo as int + 255 >= 255 * (xc as int));
        assert(fhi as int <= 255 * (xc as int));
    }
    let a1: u64 = ((flo as u64) + 255) - 255 * (xc as u64);
    let a2: u64 = 255 * (xc as u64) - (fhi as u64);
    (xc, a1 as u8, a2 as u8)
}

/// The two writes of one anti-aliased pair: the pixel at the base
/// coordinate weighted by the outer coverage, and its inward neighbor
/// (shifted by (sx, sy)) weighted by the inner coverage; both dropped when
/// the filter excludes the base point.
pub open spec fn aa_pair2(
    bx: int,
    by: int,
    sx: int,
    sy: int,
    c1: Channels,
    c2: Channels,
    f: crate::basic::PixelFilter,
) -> Seq<PixelWrite> {
    if f.spec_accepts(bx, by) {
        seq![((bx, by), c1), ((bx + sx, by + sy), c2)]
    } else {
        Seq::<PixelWrite>::empty()
    }
}

/// The sixteen writes of one anti-aliased octant step: the eight symmetric
/// edge pairs, each filtered as one unit.
pub open spec fn aa_step16(
    cx: int,
    cy: int,
    x: int,
    y: int,
    c1: Channels,
    c2: Channels,
    f: crate::basic::PixelFilter,
) -> Seq<PixelWrite> {
    aa_pair2(cx + x, cy + y, -1, 0, c1, c2, f) + aa_pair2(cx + y, cy + x, 0, -1, c1, c2, f)
        + aa_pair2(cx - y, cy + x, 0, -1, c1, c2, f) + aa_pair2(cx - x, cy + y, 1, 0, c1, c2, f)
        + aa_pair2(cx - x, cy - y, 1, 0, c1, c2, f) + aa_pair2(cx - y, cy - x, 0, 1, c1, c2, f)
        + aa_pair2(cx + y, cy - x, 0, 1, c1, c2, f) + aa_pair2(cx + x, cy - y, -1, 0, c1, c2, f)
}

/// The writes of the anti-aliased octant walk from row `y`: one step per
/// row while the edge stays right of the diagonal.
pub open spec fn aa_steps(
    cx: int,
    cy: int,
    r: int,
    y: int,
    c: Channels,
    f: crate::basic::PixelFilter,
) -> Seq<PixelWrite>
    decreases r - y,
        when 0 <= y <= r
{
    if y >= r || aa_x(r, y) <= y {
        Seq::<PixelWrite>::empty()
    } else {
        let y2 = y + 1;
        let x2 = aa_x(r, y2);
        aa_step16(cx, cy, x2, y2, with_a(c, aa_a1(r, y2)), with_a(c, aa_a2(r, y2)), f)
            + aa_steps(cx, cy, r, y2, c, f)
    }
}

/// The up-to-four anti-aliased interior spans of one filled octant step,
/// traced by the anti-aliased line walk between the edge pairs.
pub open spec fn aa_fill_span4(cx: int, cy: int, x: int, y: int, c: Channels) -> Seq<PixelWrite> {
    (if cx >= x {
        wu_writes((cx - x + 1, cy + y), (cx + x - 1, cy + y), c)
    } else {
        Seq::<PixelWrite>::empty()
    }) + (if cx >= y {
        wu_writes((cx - y, cy + x - 1), (cx + y, cy + x - 1), c)
    } else {
        Seq::<PixelWrite>::empty()
    }) + (if cx >= x && cy >= y {
        wu_writes((cx - x + 1, cy - y), (cx + x - 1, cy - y), c)
    } else {
        Seq::<PixelWrite>::empty()
    }) + (if cx >= y && cy >= x {
        wu_writes((cx - y, cy - x + 1), (cx + y, cy - x + 1), c)
    } else {
        Seq::<PixelWrite>::empty()
    })
}

/// The writes of the anti-aliased filled octant walk: the edge pairs, then
/// the interior spans of the step.
pub open spec fn aa_fill_steps(cx: int, cy: int, r: int, y: int, c: Channels) -> Seq<PixelWrite>
    decreases r - y,
        when 0 <= y <= r
{
    if y >= r || aa_x(r, y) <= y {
        Seq::<PixelWrite>::empty()
    } else {
        let y2 = y + 1;
        let x2 = aa_x(r, y2);
        aa_step16(
            cx,
            cy,
            x2,
            y2,
            with_a(c, aa_a1(r, y2)),
            with_a(c, aa_a2(r, y2)),
            crate::basic::PixelFilter::All,
        ) + aa_fill_span4(cx, cy, x2, y2, c) + aa_fill_steps(cx, cy, r, y2, c)
    }
}

/// The up-to-four wedge-filtered interior spans of one filled sector step,
/// traced by the aliased filtered line walk.
pub open spec fn aa_arcfill_span4(
    cx: int,
    cy: int,
    x: int,
    y: int,
    c: Channels,
    f: crate::basic::PixelFilter,
) -> Seq<PixelWrite> {
    (if cx >= x {
        crate::basic::line_writes((cx - x + 1, cy + y), (cx + x - 1, cy + y), c, f)
    } else {
        Seq::<PixelWrite>::empty()
    }) + (if cx >= y {
        crate::basic::line_writes((cx - y, cy + x - 1), (cx + y, cy + x - 1), c, f)
    } else {
        Seq::<PixelWrite>::empty()
    }) + (if cx >= x && cy >= y {
        crate::basic::line_writes((cx - x + 1, cy - y), (cx + x - 1, cy - y), c, f)
    } else {
        Seq::<PixelWrite>::empty()
    }) + (if cx >= y && cy >= x {
        crate::basic::line_writes((cx - y, cy - x + 1), (cx + y, cy - x + 1), c, f)
    } else {
        Seq::<PixelWrite>::empty()
    })
}

/// The writes of the anti-aliased filled sector walk: the wedge-filtered
/// edge pairs, then the wedge-filtered interior spans of the step.
pub open spec fn aa_arcfill_steps(
    cx: int,
    cy: int,
    r: int,
    y: int,
    c: Channels,
    f: crate::basic::PixelFilter,
) -> Seq<PixelWrite>
    decreases r - y,
        when 0 <= y <= r
{
    if y >= r || aa_x(r, y) <= y {
        Seq::<PixelWrite>::empty()
    } else {
        let y2 = y + 1;
        let x2 = aa_x(r, y2);
        aa_step16(cx, cy, x2, y2, with_a(c, aa_a1(r, y2)), with_a(c, aa_a2(r, y2)), f)
            + aa_arcfill_span4(cx, cy, x2, y2, c, f) + aa_arcfill_steps(cx, cy, r, y2, c, f)
    }
}

/// Blend one anti-aliased pair when the filter admits its base point.
fn aa_pair_blend(
    canvas: &mut Canvas,
    bx: i64,
    by: i64,
    sx: i64,
    sy: i64,
    c1: Color,
    c2: Color,
    filter: &crate::basic::PixelFilter,
)
    requires
        filter.wf(),
        -crate::basic::COORD_LIMIT - 1 <= bx <= crate::basic::COORD_LIMIT + 1,
        -crate::basic::COORD_LIMIT - 1 <= by <= crate::basic::COORD_LIMIT + 1,
        -1 <= sx <= 1,
        -1 <= sy <= 1,
    ensures
        canvas_dims(*final(canvas)) == canvas_dims(*old(canvas)),
        canvas_view(*final(canvas)) == apply_writes(
            canvas_view(*old(canvas)),
            canvas_dims(*old(canvas)),
            aa_pair2(bx as int, by as int, sx as int, sy as int, c1.channels(), c2.channels(), *filter),
        ),
{
    let ghost v0 = canvas_view(*canvas);
    let ghost dims = canvas_dims(*canvas);
    let ghost ws = aa_pair2(
        bx as int,
        by as int,
        sx as int,
        sy as int,
        c1.channels(),
        c2.channels(),
        *filter,
    );
    if filter.accepts(bx, by) {
        canvas.blend_at(bx, by, c1);
        canvas.blend_at(bx + sx, by + sy, c2);
        proof {
            let w0 = ((bx as int, by as int), c1.channels());
            let w1 = ((bx as int + sx as int, by as int + sy as int), c2.channels());
            assert(ws == seq![w0, w1]);
            assert(ws.drop_first() =~= seq![w1]);
            crate::canvas::lemma_apply_writes_single(write1(v0, dims, w0), dims, w1);
            assert(apply_writes(v0, dims, ws) == apply_writes(
                write1(v0, dims, w0),
                dims,
                seq![w1],
            ));
        }
    }
}

/// The anti-aliased rasterizer: fractional pixel coverage on shape edges,
/// blended onto the canvas as alpha.
pub struct AntiAliasingRender;

impl Default for AntiAliasingRender {
    fn default() -> (r: Self)
        ensures
            r == AntiAliasingRender,
    {
        AntiAliasingRender
    }
}

impl AntiAliasingRender {
    /// Trace the anti-aliased line between two signed points, blending the
    /// two pixels that straddle the true intercept at each major-axis step.
    #[verifier::rlimit(50)]
    pub(crate) fn wu_line(&self, canvas: &mut Canvas, from: (i64, i64), to: (i64, i64), color: Color)
        requires
            -crate::basic::COORD_LIMIT <= from.0 <= crate::basic::COORD_LIMIT,
            -crate::basic::COORD_LIMIT <= from.1 <= crate::basic::COORD_LIMIT,
            -crate::basic::COORD_LIMIT <= to.0 <= crate::basic::COORD_LIMIT,
            -crate::basic::COORD_LIMIT <= to.1 <= crate::basic::COORD_LIMIT,
        ensures
            canvas_dims(*final(canvas)) == canvas_dims(*old(canvas)),
            canvas_view(*final(canvas)) == apply_writes(
                canvas_view(*old(canvas)),
                canvas_dims(*old(canvas)),
                wu_writes(
                    (from.0 as int, from.1 as int),
                    (to.0 as int, to.1 as int),
                    color.channels(),
                ),
            ),
            canvas_wf(*old(canvas)) ==> canvas_wf(*final(canvas)),
    {
        let ghost a = (from.0 as int, from.1 as int);
        let ghost b = (to.0 as int, to.1 as int);
        let ghost v0 = canvas_view(*canvas);
        let ghost dims = canvas_dims(*canvas);
        let ghost ws = wu_writes(a, b, color.channels());
        let (mut x0, mut y0) = from;
        let (mut x1, mut y1) = to;
        let ady = if y1 >= y0 {
            y1 - y0
        } else {
            y0 - y1
        };
        let adx = if x1 >= x0 {
            x1 - x0
        } else {
            x0 - x1
        };
        let steep = ady > adx;
        if steep {
            let t0 = x0;
            x0 = y0;
            y0 = t0;
            let t1 = x1;
            x1 = y1;
            y1 = t1;
        }
        if x0 > x1 {
            let tx = x0;
            x0 = x1;
            x1 = tx;
            let ty = y0;
            y0 = y1;
            y1 = ty;
        }
        proof {
            assert(((x0 as int, y0 as int), (x1 as int, y1 as int)) == wu_norm(a, b));
        }
        let dx = x1 - x0;
        let s = y1 - y0;
        let mut q = y0;
        let mut rem: i64 = 0;
        let mut k: i64 = 0;
        while k <= dx
            invariant
                0 <= k <= dx + 1,
                dx == x1 - x0,
                s == y1 - y0,
                -dx <= s <= dx,
                ((x0 as int, y0 as int), (x1 as int, y1 as int)) == wu_norm(a, b),
                -crate::basic::COORD_LIMIT <= x0 <= crate::basic::COORD_LIMIT,
                -crate::basic::COORD_LIMIT <= x1 <= crate::basic::COORD_LIMIT,
                -crate::basic::COORD_LIMIT <= y0 <= crate::basic::COORD_LIMIT,
                -crate::basic::COORD_LIMIT <= y1 <= crate::basic::COORD_LIMIT,
                q as int == wu_floor(y0 as int, k as int, s as int, dx as int),
                rem as int == wu_rem(k as int, s as int, dx as int),
                dx > 0 ==> 0 <= rem < dx,
                dx == 0 ==> rem == 0,
                y0 - k <= q <= y0 + k,
                ws == wu_writes(a, b, color.channels()),
                steep == wu_steep(a, b),
                canvas_dims(*canvas) == dims,
                canvas_view(*canvas) == apply_writes(v0, dims, ws.take(2 * k)),
            decreases dx + 1 - k,
        {
            let a1: i64 = if dx == 0 {
                255
            } else {
                (255 * (dx - rem)) / dx
            };
            let a2: i64 = if dx == 0 {
                0
            } else {
                (255 * rem) / dx
            };
            proof {
                if dx > 0 {
                    vstd::arithmetic::div_mod::lemma_div_pos_is_pos(255 * (dx - rem), dx as int);
                    vstd::arithmetic::div_mod::lemma_div_pos_is_pos(255 * rem, dx as int);
                    vstd::arithmetic::div_mod::lemma_div_is_ordered(
                        255 * (dx - rem),
                        255 * (dx as int),
                        dx as int,
                    );
                    vstd::arithmetic::div_mod::lemma_div_is_ordered(
                        255 * rem,
                        255 * (dx as int),
                        dx as int,
                    );
                    vstd::arithmetic::div_mod::lemma_div_multiples_vanish(255, dx as int);
                }
            }
            let c1 = color.with_alpha(a1 as u8);
            let c2 = color.with_alpha(a2 as u8);
            let px = x0 + k;
            if steep {
                canvas.blend_at(q, px, c1);
                proof {
                    assert(ws[2 * k] == ((q as int, px as int), c1.channels()));
                    lemma_writes_prefix_step(v0, dims, ws, 2 * (k as int));
                }
                canvas.blend_at(q + 1, px, c2);
                proof {
                    assert(ws[2 * k + 1] == ((q as int + 1, px as int), c2.channels()));
                    lemma_writes_prefix_step(v0, dims, ws, 2 * (k as int) + 1);
                    assert(ws.take(2 * (k as int) + 2) == ws.take(2 * ((k as int) + 1)));
                }
            } else {
                canvas.blend_at(px, q, c1);
                proof {
                    assert(ws[2 * k] == ((px as int, q as int), c1.channels()));
                    lemma_writes_prefix_step(v0, dims, ws, 2 * (k as int));
                }
                canvas.blend_at(px, q + 1, c2);
                proof {
                    assert(ws[2 * k + 1] == ((px as int, q as int + 1), c2.channels()));
                    lemma_writes_prefix_step(v0, dims, ws, 2 * (k as int) + 1);
                    assert(ws.take(2 * (k as int) + 2) == ws.take(2 * ((k as int) + 1)));
                }
            }
            k = k + 1;
            if dx > 0 {
                proof {
                    let gk = k as int;
                    let gs = s as int;
                    let gdx = dx as int;
                    vstd::arithmetic::div_mod::lemma_fundamental_div_mod((gk - 1) * gs, gdx);
                    assert(gk * gs == (gk - 1) * gs + gs) by (nonlinear_arith);
                    let d = ((gk - 1) * gs) / gdx;
                    let r0 = ((gk - 1) * gs) % gdx;
                    if r0 + gs < 0 {
                        assert(gk * gs == (d - 1) * gdx + (r0 + gs + gdx)) by (nonlinear_arith)
                            requires
                                (gk - 1) * gs == gdx * d + r0,
                                gk * gs == (gk - 1) * gs + gs,
                        ;
                        vstd::arithmetic::div_mod::lemma_fundamental_div_mod_converse_mod(
                            gk * gs,
                            gdx,
                            d - 1,
                            r0 + gs + gdx,
                        );
                        vstd::arithmetic::div_mod::lemma_fundamental_div_mod_converse_div(
                            gk * gs,
                            gdx,
                            d - 1,
                            r0 + gs + gdx,
                        );
                    } else if r0 + gs >= gdx {
                        assert(gk * gs == (d + 1) * gdx + (r0 + gs - gdx)) by (nonlinear_arith)
                            requires
                                (gk - 1) * gs == gdx * d + r0,
                                gk * gs == (gk - 1) * gs + gs,
                        ;
                        vstd::arithmetic::div_mod::lemma_fundamental_div_mod_converse_mod(
                            gk * gs,
                            gdx,
                            d + 1,
                            r0 + gs - gdx,
                        );
                        vstd::arithmetic::div_mod::lemma_fundamental_div_mod_converse_div(
                            gk * gs,
                            gdx,
                            d + 1,
                            r0 + gs - gdx,
                        );
                    } else {
                        assert(gk * gs == d * gdx + (r0 + gs)) by (nonlinear_arith)
                            requires
                                (gk - 1) * gs == gdx * d + r0,
                                gk * gs == (gk - 1) * gs + gs,
                        ;
                        vstd::arithmetic::div_mod::lemma_fundamental_div_mod_converse_mod(
                            gk * gs,
                            gdx,
                            d,
                            r0 + gs,
                        );
                        vstd::arithmetic::div_mod::lemma_fundamental_div_mod_converse_div(
                            gk * gs,
                            gdx,
                            d,
                            r0 + gs,
                        );
                    }
                }
                rem = rem + s;
                if rem < 0 {
                    rem = rem + dx;
                    q = q - 1;
                } else if rem >= dx {
                    rem = rem - dx;
                    q = q + 1;
                }
            }
        }
        proof {
            assert(ws.take(2 * (k as int)) =~= ws);
            if canvas_wf(*old(canvas)) {
                crate::canvas::lemma_apply_writes_wf(v0, dims, ws);
            }
        }
    }

    /// Trace the anti-aliased 8-connected line between two points, blending
    /// fractional coverage onto the two pixels straddling the true line.
    pub fn draw_line(&self, canvas: &mut Canvas, from: (u32, u32), to: (u32, u32), color: Color)
        ensures
            canvas_dims(*final(canvas)) == canvas_dims(*old(canvas)),
            canvas_view(*final(canvas)) == apply_writes(
                canvas_view(*old(canvas)),
                canvas_dims(*old(canvas)),
                wu_writes(
                    (from.0 as int, from.1 as int),
                    (to.0 as int, to.1 as int),
                    color.channels(),
                ),
            ),
            canvas_wf(*old(canvas)) ==> canvas_wf(*final(canvas)),
    {
        self.wu_line(
            canvas,
            (from.0 as i64, from.1 as i64),
            (to.0 as i64, to.1 as i64),
            color,
        );
    }

    /// Draw the rectangle border with the aliased renderer: axis-aligned
    /// edges gain nothing from anti-aliasing.
    pub fn draw_rect(&self, canvas: &mut Canvas, rect: Rect, color: Color)
        requires
            rect.wf(),
        ensures
            canvas_dims(*final(canvas)) == canvas_dims(*old(canvas)),
            canvas_view(*final(canvas)) == apply_writes(
                canvas_view(*old(canvas)),
                canvas_dims(*old(canvas)),
                crate::basic::rect_outline_writes(rect, color.channels()),
            ),
            canvas_wf(*old(canvas)) ==> canvas_wf(*final(canvas)),
    {
        let ghost v0 = canvas_view(*canvas);
        let ghost dims = canvas_dims(*canvas);
        crate::basic::BasicRenderer::default().draw_rect(canvas, rect, color);
        proof {
            if canvas_wf(*old(canvas)) {
                crate::canvas::lemma_apply_writes_wf(
                    v0,
                    dims,
                    crate::basic::rect_outline_writes(rect, color.channels()),
                );
            }
        }
    }

    /// Fill the rectangle with the aliased renderer.
    pub fn draw_filled_rect(&self, canvas: &mut Canvas, rect: Rect, color: Color)
        requires
            rect.wf(),
            canvas_wf(*old(canvas)),
        ensures
            canvas_dims(*final(canvas)) == canvas_dims(*old(canvas)),
            canvas_view(*final(canvas)) == crate::basic::blend_box(
                canvas_view(*old(canvas)),
                canvas_dims(*old(canvas)),
                rect.spec_left() as int,
                rect.spec_right(),
                rect.spec_top() as int,
                rect.spec_bottom(),
                color.channels(),
            ),
            canvas_wf(*final(canvas)),
    {
        crate::basic::BasicRenderer::default().draw_filled_rect(canvas, rect, color);
    }

    /// The anti-aliased octant walk shared by circle and arc drawing.
    #[verifier::rlimit(50)]
    fn aa_walk(
        &self,
        canvas: &mut Canvas,
        cx: i64,
        cy: i64,
        radius: u32,
        color: Color,
        filter: &crate::basic::PixelFilter,
    )
        requires
            filter.wf(),
            radius >= 1,
            0 <= cx <= u32::MAX,
            0 <= cy <= u32::MAX,
        ensures
            canvas_dims(*final(canvas)) == canvas_dims(*old(canvas)),
            canvas_view(*final(canvas)) == apply_writes(
                canvas_view(*old(canvas)),
                canvas_dims(*old(canvas)),
                aa_steps(cx as int, cy as int, radius as int, 0, color.channels(), *filter),
            ),
    {
        let ghost v0 = canvas_view(*canvas);
        let ghost dims = canvas_dims(*canvas);
        let ghost full = aa_steps(cx as int, cy as int, radius as int, 0, color.channels(), *filter);
        let mut x: u32 = radius;
        let mut y: u32 = 0;
        proof {
            lemma_aa_x_at_top(radius as int);
        }
        while x > y
            invariant
                filter.wf(),
                0 <= cx <= u32::MAX,
                0 <= cy <= u32::MAX,
                1 <= radius,
                0 <= y <= radius,
                x <= radius,
                x as int == aa_x(radius as int, y as int),
                canvas_dims(*canvas) == dims,
                apply_writes(v0, dims, full) == apply_writes(
                    canvas_view(*canvas),
                    dims,
                    aa_steps(cx as int, cy as int, radius as int, y as int, color.channels(), *filter),
                ),
            decreases radius - y,
        {
            let ghost gy = y as int;
            let ghost c = color.channels();
            let ghost rr = radius as int;
            y = y + 1;
            let edge = aa_edge(radius, y);
            x = edge.0;
            let c1 = color.with_alpha(edge.1);
            let c2 = color.with_alpha(edge.2);
            proof {
                lemma_aa_edge_bounds(rr, y as int);
                assert(c1.channels() == with_a(c, aa_a1(rr, gy + 1)));
                assert(c2.channels() == with_a(c, aa_a2(rr, gy + 1)));
            }
            let ghost gx = x as int;
            let ghost ch1 = c1.channels();
            let ghost ch2 = c2.channels();
            let ghost ccx = cx as int;
            let ghost ccy = cy as int;
            let ghost gy2 = y as int;
            let ghost s0 = aa_pair2(ccx + gx, ccy + gy2, -1, 0, ch1, ch2, *filter);
            let ghost s1 = aa_pair2(ccx + gy2, ccy + gx, 0, -1, ch1, ch2, *filter);
            let ghost s2 = aa_pair2(ccx - gy2, ccy + gx, 0, -1, ch1, ch2, *filter);
            let ghost s3 = aa_pair2(ccx - gx, ccy + gy2, 1, 0, ch1, ch2, *filter);
            let ghost s4 = aa_pair2(ccx - gx, ccy - gy2, 1, 0, ch1, ch2, *filter);
            let ghost s5 = aa_pair2(ccx - gy2, ccy - gx, 0, 1, ch1, ch2, *filter);
            let ghost s6 = aa_pair2(ccx + gy2, ccy - gx, 0, 1, ch1, ch2, *filter);
            let ghost s7 = aa_pair2(ccx + gx, ccy - gy2, -1, 0, ch1, ch2, *filter);
            let ghost vh = canvas_view(*canvas);
            proof {
                assert(aa_steps(ccx, ccy, rr, gy, c, *filter) == aa_step16(
                    ccx,
                    ccy,
                    gx,
                    gy2,
                    ch1,
                    ch2,
                    *filter,
                ) + aa_steps(ccx, ccy, rr, gy2, c, *filter));
            }
            aa_pair_blend(canvas, cx + (x as i64), cy + (y as i64), -1, 0, c1, c2, filter);
            proof {
                lemma_apply_writes_concat(vh, dims, s0, s1);
            }
            aa_pair_blend(canvas, cx + (y as i64), cy + (x as i64), 0, -1, c1, c2, filter);
            proof {
                lemma_apply_writes_concat(vh, dims, s0 + s1, s2);
            }
            aa_pair_blend(canvas, cx - (y as i64), cy + (x as i64), 0, -1, c1, c2, filter);
            proof {
                lemma_apply_writes_concat(vh, dims, s0 + s1 + s2, s3);
            }
            aa_pair_blend(canvas, cx - (x as i64), cy + (y as i64), 1, 0, c1, c2, filter);
            proof {
                lemma_apply_writes_concat(vh, dims, s0 + s1 + s2 + s3, s4);
            }
            aa_pair_blend(canvas, cx - (x as i64), cy - (y as i64), 1, 0, c1, c2, filter);
            proof {
                lemma_apply_writes_concat(vh, dims, s0 + s1 + s2 + s3 + s4, s5);
            }
            aa_pair_blend(canvas, cx - (y as i64), cy - (x as i64), 0, 1, c1, c2, filter);
            proof {
                lemma_apply_writes_concat(vh, dims, s0 + s1 + s2 + s3 + s4 + s5, s6);
            }
            aa_pair_blend(canvas, cx + (y as i64), cy - (x as i64), 0, 1, c1, c2, filter);
            proof {
                lemma_apply_writes_concat(vh, dims, s0 + s1 + s2 + s3 + s4 + s5 + s6, s7);
            }
            aa_pair_blend(canvas, cx + (x as i64), cy - (y as i64), -1, 0, c1, c2, filter);
            proof {
                lemma_apply_writes_concat(vh, dims, aa_step16(ccx, ccy, gx, gy2, ch1, ch2, *filter),
                    aa_steps(ccx, ccy, rr, gy2, c, *filter));
            }
        }
        proof {
            assert(aa_steps(cx as int, cy as int, radius as int, y as int, color.channels(), *filter)
                == Seq::<PixelWrite>::empty());
        }
    }

    /// Plot the anti-aliased circle: the four cardinal points at full
    /// coverage, then the octant walk with a one-pixel blended edge. A
    /// radius of zero is a complete no-op.
    #[verifier::rlimit(50)]
    pub fn draw_circle(&self, canvas: &mut Canvas, circle: Circle, color: Color)
        ensures
            canvas_dims(*final(canvas)) == canvas_dims(*old(canvas)),
            canvas_view(*final(canvas)) == apply_writes(
                canvas_view(*old(canvas)),
                canvas_dims(*old(canvas)),
                aa_circle_op_writes(
                    circle.spec_center().0 as int,
                    circle.spec_center().1 as int,
                    circle.spec_radius() as int,
                    color.channels(),
                ),
            ),
            circle.spec_radius() == 0 ==> canvas_view(*final(canvas)) == canvas_view(
                *old(canvas),
            ),
            canvas_wf(*old(canvas)) ==> canvas_wf(*final(canvas)),
    {
        let ghost v0 = canvas_view(*canvas);
        let ghost dims = canvas_dims(*canvas);
        let radius = circle.radius();
        if radius == 0 {
            return ;
        }
        let center = circle.center();
        let cx = center.0 as i64;
        let cy = center.1 as i64;
        let r = radius as i64;
        let ghost c = color.channels();
        let ghost cards = seq![
            (((cx + r) as int, cy as int), c),
            (((cx - r) as int, cy as int), c),
            ((cx as int, (cy + r) as int), c),
            ((cx as int, (cy - r) as int), c),
        ];
        let ghost walk = aa_steps(cx as int, cy as int, radius as int, 0, c, crate::basic::PixelFilter::All);
        canvas.blend_at(cx + r, cy, color);
        proof {
            lemma_writes_prefix_step(v0, dims, cards, 0);
        }
        canvas.blend_at(cx - r, cy, color);
        proof {
            lemma_writes_prefix_step(v0, dims, cards, 1);
        }
        canvas.blend_at(cx, cy + r, color);
        proof {
            lemma_writes_prefix_step(v0, dims, cards, 2);
        }
        canvas.blend_at(cx, cy - r, color);
        proof {
            lemma_writes_prefix_step(v0, dims, cards, 3);
            assert(cards.take(0) =~= Seq::<PixelWrite>::empty());
            assert(cards.take(4) =~= cards);
            lemma_apply_writes_concat(v0, dims, cards, walk);
        }
        self.aa_walk(canvas, cx, cy, radius, color, &crate::basic::PixelFilter::All);
        proof {
            if canvas_wf(*old(canvas)) {
                crate::canvas::lemma_apply_writes_wf(
                    v0,
                    dims,
                    aa_circle_op_writes(cx as int, cy as int, radius as int, c),
                );
            }
        }
    }

    /// Plot the anti-aliased part of the circle inside the angular span
    /// [start, end]: the in-span cardinal points, then the wedge-filtered
    /// octant walk. A radius of zero is a complete no-op.
    #[verifier::rlimit(50)]
    pub fn draw_arc(
        &self,
        canvas: &mut Canvas,
        circle: Circle,
        start: Angle,
        end: Angle,
        color: Color,
    )
        requires
            start.spec_raw() > i64::MIN,
            end.spec_raw() > i64::MIN,
        ensures
            canvas_dims(*final(canvas)) == canvas_dims(*old(canvas)),
            canvas_view(*final(canvas)) == apply_writes(
                canvas_view(*old(canvas)),
                canvas_dims(*old(canvas)),
                aa_arc_op_writes(
                    circle.spec_center().0 as int,
                    circle.spec_center().1 as int,
                    circle.spec_radius() as int,
                    start,
                    end,
                    color.channels(),
                ),
            ),
            circle.spec_radius() == 0 ==> canvas_view(*final(canvas)) == canvas_view(
                *old(canvas),
            ),
            canvas_wf(*old(canvas)) ==> canvas_wf(*final(canvas)),
    {
        let ghost v0 = canvas_view(*canvas);
        let ghost dims = canvas_dims(*canvas);
        let radius = circle.radius();
        if radius == 0 {
            return ;
        }
        let center = circle.center();
        let cx = center.0 as i64;
        let cy = center.1 as i64;
        let r = radius as i64;
        proof {
            crate::types::lemma_normalized_in_range(start);
            crate::types::lemma_normalized_in_range(end);
        }
        let sn = start.normalized();
        let en = end.normalized();
        let (s, e) = if sn.to_degrees() > en.to_degrees() {
            (en, sn)
        } else {
            (sn, en)
        };
        let filter = crate::basic::ordered_wedge(center, start, end);
        let ghost c = color.channels();
        let ghost k0 = (if s.spec_deg() <= 0 && 0 <= e.spec_deg() {
            seq![(((cx + r) as int, cy as int), c)]
        } else {
            Seq::<PixelWrite>::empty()
        });
        let ghost k1 = (if s.spec_deg() <= 90_000 && 90_000 <= e.spec_deg() {
            seq![((cx as int, (cy + r) as int), c)]
        } else {
            Seq::<PixelWrite>::empty()
        });
        let ghost k2 = (if s.spec_deg() <= 180_000 && 180_000 <= e.spec_deg() {
            seq![(((cx - r) as int, cy as int), c)]
        } else {
            Seq::<PixelWrite>::empty()
        });
        let ghost k3 = (if s.spec_deg() <= 270_000 && 270_000 <= e.spec_deg() {
            seq![((cx as int, (cy - r) as int), c)]
        } else {
            Seq::<PixelWrite>::empty()
        });
        let ghost walk = aa_steps(
            cx as int,
            cy as int,
            radius as int,
            0,
            c,
            crate::basic::arc_filter(cx as int, cy as int, start, end),
        );
        if s.to_degrees() <= 0 && 0 <= e.to_degrees() {
            canvas.blend_at(cx + r, cy, color);
        }
        proof {
            if s.spec_deg() <= 0 && 0 <= e.spec_deg() {
                crate::canvas::lemma_apply_writes_single(v0, dims, (((cx + r) as int, cy as int), c));
            }
            lemma_apply_writes_concat(v0, dims, k0, k1);
        }
        if s.to_degrees() <= 90_000 && 90_000 <= e.to_degrees() {
            canvas.blend_at(cx, cy + r, color);
        }
        proof {
            if s.spec_deg() <= 90_000 && 90_000 <= e.spec_deg() {
                crate::canvas::lemma_apply_writes_single(
                    apply_writes(v0, dims, k0),
                    dims,
                    ((cx as int, (cy + r) as int), c),
                );
            }
            lemma_apply_writes_concat(v0, dims, k0 + k1, k2);
        }
        if s.to_degrees() <= 180_000 && 180_000 <= e.to_degrees() {
            canvas.blend_at(cx - r, cy, color);
        }
        proof {
            if s.spec_deg() <= 180_000 && 180_000 <= e.spec_deg() {
                crate::canvas::lemma_apply_writes_single(
                    apply_writes(v0, dims, k0 + k1),
                    dims,
                    (((cx - r) as int, cy as int), c),
                );
            }
            lemma_apply_writes_concat(v0, dims, k0 + k1 + k2, k3);
        }
        if s.to_degrees() <= 270_000 && 270_000 <= e.to_degrees() {
            canvas.blend_at(cx, cy - r, color);
        }
        proof {
            if s.spec_deg() <= 270_000 && 270_000 <= e.spec_deg() {
                crate::canvas::lemma_apply_writes_single(
                    apply_writes(v0, dims, k0 + k1 + k2),
                    dims,
                    ((cx as int, (cy - r) as int), c),
                );
            }
            lemma_apply_writes_concat(v0, dims, k0 + k1 + k2 + k3, walk);
            assert(k0 + k1 + k2 + k3 == aa_arc_cardinals(
                cx as int,
                cy as int,
                r as int,
                crate::basic::ordered_angles(start, end).0,
                crate::basic::ordered_angles(start, end).1,
                c,
            ));
        }
        self.aa_walk(canvas, cx, cy, radius, color, &filter);
        proof {
            if canvas_wf(*old(canvas)) {
                crate::canvas::lemma_apply_writes_wf(
                    v0,
                    dims,
                    aa_arc_op_writes(cx as int, cy as int, radius as int, start, end, c),
                );
            }
        }
    }

    /// The anti-aliased filled octant walk: per row, the blended edge
    /// pairs and the anti-aliased interior spans between them.
    #[verifier::rlimit(60)]
    fn aa_fill_walk(
        &self,
        canvas: &mut Canvas,
        cx: i64,
        cy: i64,
        radius: u32,
        color: Color,
        
    )
        requires
            
            radius >= 1,
            0 <= cx <= u32::MAX,
            0 <= cy <= u32::MAX,
        ensures
            canvas_dims(*final(canvas)) == canvas_dims(*old(canvas)),
            canvas_view(*final(canvas)) == apply_writes(
                canvas_view(*old(canvas)),
                canvas_dims(*old(canvas)),
                aa_fill_steps(cx as int, cy as int, radius as int, 0, color.channels()),
            ),
    {
        let ghost v0 = canvas_view(*canvas);
        let ghost dims = canvas_dims(*canvas);
        let mut x: u32 = radius;
        let mut y: u32 = 0;
        proof {
            lemma_aa_x_at_top(radius as int);
        }
        while x > y
            invariant
                
                0 <= cx <= u32::MAX,
                0 <= cy <= u32::MAX,
                1 <= radius,
                0 <= y <= radius,
                x <= radius,
                x as int == aa_x(radius as int, y as int),
                canvas_dims(*canvas) == dims,
                apply_writes(
                    v0,
                    dims,
                    aa_fill_steps(cx as int, cy as int, radius as int, 0, color.channels()),
                ) == apply_writes(
                    canvas_view(*canvas),
                    dims,
                    aa_fill_steps(cx as int, cy as int, radius as int, y as int, color.channels()),
                ),
            decreases radius - y,
        {
            let ghost gy = y as int;
            let ghost c = color.channels();
            let ghost rr = radius as int;
            y = y + 1;
            let edge = aa_edge(radius, y);
            x = edge.0;
            let c1 = color.with_alpha(edge.1);
            let c2 = color.with_alpha(edge.2);
            proof {
                lemma_aa_edge_bounds(rr, y as int);
                assert(c1.channels() == with_a(c, aa_a1(rr, gy + 1)));
                assert(c2.channels() == with_a(c, aa_a2(rr, gy + 1)));
            }
            let ghost gx = x as int;
            let ghost ch1 = c1.channels();
            let ghost ch2 = c2.channels();
            let ghost ccx = cx as int;
            let ghost ccy = cy as int;
            let ghost gy2 = y as int;
            let ghost w16 = aa_step16(ccx, ccy, gx, gy2, ch1, ch2, crate::basic::PixelFilter::All);
            let ghost s0 = aa_pair2(ccx + gx, ccy + gy2, -1, 0, ch1, ch2, crate::basic::PixelFilter::All);
            let ghost s1 = aa_pair2(ccx + gy2, ccy + gx, 0, -1, ch1, ch2, crate::basic::PixelFilter::All);
            let ghost s2 = aa_pair2(ccx - gy2, ccy + gx, 0, -1, ch1, ch2, crate::basic::PixelFilter::All);
            let ghost s3 = aa_pair2(ccx - gx, ccy + gy2, 1, 0, ch1, ch2, crate::basic::PixelFilter::All);
            let ghost s4 = aa_pair2(ccx - gx, ccy - gy2, 1, 0, ch1, ch2, crate::basic::PixelFilter::All);
            let ghost s5 = aa_pair2(ccx - gy2, ccy - gx, 0, 1, ch1, ch2, crate::basic::PixelFilter::All);
            let ghost s6 = aa_pair2(ccx + gy2, ccy - gx, 0, 1, ch1, ch2, crate::basic::PixelFilter::All);
            let ghost s7 = aa_pair2(ccx + gx, ccy - gy2, -1, 0, ch1, ch2, crate::basic::PixelFilter::All);
            let ghost p0 = if ccx >= gx {
                wu_writes((ccx - gx + 1, ccy + gy2), (ccx + gx - 1, ccy + gy2), c)
            } else {
                Seq::<PixelWrite>::empty()
            };
            let ghost p1 = if ccx >= gy2 {
                wu_writes((ccx - gy2, ccy + gx - 1), (ccx + gy2, ccy + gx - 1), c)
            } else {
                Seq::<PixelWrite>::empty()
            };
            let ghost p2 = if ccx >= gx && ccy >= gy2 {
                wu_writes((ccx - gx + 1, ccy - gy2), (ccx + gx - 1, ccy - gy2), c)
            } else {
                Seq::<PixelWrite>::empty()
            };
            let ghost p3 = if ccx >= gy2 && ccy >= gx {
                wu_writes((ccx - gy2, ccy - gx + 1), (ccx + gy2, ccy - gx + 1), c)
            } else {
                Seq::<PixelWrite>::empty()
            };
            let ghost vh = canvas_view(*canvas);
            proof {
                assert(aa_fill_steps(ccx, ccy, rr, gy, c) == w16 + aa_fill_span4(ccx, ccy, gx, gy2, c)
                    + aa_fill_steps(ccx, ccy, rr, gy2, c));
            }
            aa_pair_blend(canvas, cx + (x as i64), cy + (y as i64), -1, 0, c1, c2, &crate::basic::PixelFilter::All);
            proof {
                lemma_apply_writes_concat(vh, dims, s0, s1);
            }
            aa_pair_blend(canvas, cx + (y as i64), cy + (x as i64), 0, -1, c1, c2, &crate::basic::PixelFilter::All);
            proof {
                lemma_apply_writes_concat(vh, dims, s0 + s1, s2);
            }
            aa_pair_blend(canvas, cx - (y as i64), cy + (x as i64), 0, -1, c1, c2, &crate::basic::PixelFilter::All);
            proof {
                lemma_apply_writes_concat(vh, dims, s0 + s1 + s2, s3);
            }
            aa_pair_blend(canvas, cx - (x as i64), cy + (y as i64), 1, 0, c1, c2, &crate::basic::PixelFilter::All);
            proof {
                lemma_apply_writes_concat(vh, dims, s0 + s1 + s2 + s3, s4);
            }
            aa_pair_blend(canvas, cx - (x as i64), cy - (y as i64), 1, 0, c1, c2, &crate::basic::PixelFilter::All);
            proof {
                lemma_apply_writes_concat(vh, dims, s0 + s1 + s2 + s3 + s4, s5);
            }
            aa_pair_blend(canvas, cx - (y as i64), cy - (x as i64), 0, 1, c1, c2, &crate::basic::PixelFilter::All);
            proof {
                lemma_apply_writes_concat(vh, dims, s0 + s1 + s2 + s3 + s4 + s5, s6);
            }
            aa_pair_blend(canvas, cx + (y as i64), cy - (x as i64), 0, 1, c1, c2, &crate::basic::PixelFilter::All);
            proof {
                lemma_apply_writes_concat(vh, dims, s0 + s1 + s2 + s3 + s4 + s5 + s6, s7);
                assert(s0 + s1 + s2 + s3 + s4 + s5 + s6 + s7 == w16);
            }
            aa_pair_blend(canvas, cx + (x as i64), cy - (y as i64), -1, 0, c1, c2, &crate::basic::PixelFilter::All);
            proof {
                lemma_apply_writes_concat(vh, dims, w16, p0);
            }
            if cx >= x as i64 {
                self.wu_line(canvas, (cx - (x as i64) + 1, cy + (y as i64)), (cx + (x as i64) - 1, cy + (y as i64)), color);
            }
            proof {
                lemma_apply_writes_concat(vh, dims, w16 + p0, p1);
            }
            if cx >= y as i64 {
                self.wu_line(canvas, (cx - (y as i64), cy + (x as i64) - 1), (cx + (y as i64), cy + (x as i64) - 1), color);
            }
            proof {
                lemma_apply_writes_concat(vh, dims, w16 + p0 + p1, p2);
            }
            if cx >= x as i64 && cy >= y as i64 {
                self.wu_line(canvas, (cx - (x as i64) + 1, cy - (y as i64)), (cx + (x as i64) - 1, cy - (y as i64)), color);
            }
            proof {
                lemma_apply_writes_concat(vh, dims, w16 + p0 + p1 + p2, p3);
            }
            if cx >= y as i64 && cy >= x as i64 {
                self.wu_line(canvas, (cx - (y as i64), cy - (x as i64) + 1), (cx + (y as i64), cy - (x as i64) + 1), color);
            }
            proof {
                assert(aa_fill_span4(ccx, ccy, gx, gy2, c) == p0 + p1 + p2 + p3);
                lemma_apply_writes_concat(
                    vh,
                    dims,
                    w16 + p0 + p1 + p2 + p3,
                    aa_fill_steps(ccx, ccy, rr, gy2, c),
                );
                assert(w16 + aa_fill_span4(ccx, ccy, gx, gy2, c) == w16 + p0 + p1 + p2 + p3);
            }
        }
        proof {
            assert(aa_fill_steps(cx as int, cy as int, radius as int, y as int, color.channels())
                == Seq::<PixelWrite>::empty());
        }
    }

    /// The anti-aliased filled sector walk: per row, the wedge-filtered
    /// blended edge pairs and the wedge-filtered aliased interior spans.
    #[verifier::rlimit(60)]
    fn aa_arcfill_walk(
        &self,
        canvas: &mut Canvas,
        cx: i64,
        cy: i64,
        radius: u32,
        color: Color,
        filter: &crate::basic::PixelFilter,
    )
        requires
            filter.wf(),
            radius >= 1,
            0 <= cx <= u32::MAX,
            0 <= cy <= u32::MAX,
        ensures
            canvas_dims(*final(canvas)) == canvas_dims(*old(canvas)),
            canvas_view(*final(canvas)) == apply_writes(
                canvas_view(*old(canvas)),
                canvas_dims(*old(canvas)),
                aa_arcfill_steps(cx as int, cy as int, radius as int, 0, color.channels(), *filter),
            ),
    {
        let ghost v0 = canvas_view(*canvas);
        let ghost dims = canvas_dims(*canvas);
        let basic = crate::basic::BasicRenderer::default();
        let mut x: u32 = radius;
        let mut y: u32 = 0;
        proof {
            lemma_aa_x_at_top(radius as int);
        }
        while x > y
            invariant
                filter.wf(),
                0 <= cx <= u32::MAX,
                0 <= cy <= u32::MAX,
                1 <= radius,
                0 <= y <= radius,
                x <= radius,
                x as int == aa_x(radius as int, y as int),
                canvas_dims(*canvas) == dims,
                apply_writes(
                    v0,
                    dims,
                    aa_arcfill_steps(cx as int, cy as int, radius as int, 0, color.channels(), *filter),
                ) == apply_writes(
                    canvas_view(*canvas),
                    dims,
                    aa_arcfill_steps(cx as int, cy as int, radius as int, y as int, color.channels(), *filter),
                ),
            decreases radius - y,
        {
            let ghost gy = y as int;
            let ghost c = color.channels();
            let ghost rr = radius as int;
            y = y + 1;
            let edge = aa_edge(radius, y);
            x = edge.0;
            let c1 = color.with_alpha(edge.1);
            let c2 = color.with_alpha(edge.2);
            proof {
                lemma_aa_edge_bounds(rr, y as int);
                assert(c1.channels() == with_a(c, aa_a1(rr, gy + 1)));
                assert(c2.channels() == with_a(c, aa_a2(rr, gy + 1)));
            }
            let ghost gx = x as int;
            let ghost ch1 = c1.channels();
            let ghost ch2 = c2.channels();
            let ghost ccx = cx as int;
            let ghost ccy = cy as int;
            let ghost gy2 = y as int;
            let ghost w16 = aa_step16(ccx, ccy, gx, gy2, ch1, ch2, *filter);
            let ghost s0 = aa_pair2(ccx + gx, ccy + gy2, -1, 0, ch1, ch2, *filter);
            let ghost s1 = aa_pair2(ccx + gy2, ccy + gx, 0, -1, ch1, ch2, *filter);
            let ghost s2 = aa_pair2(ccx - gy2, ccy + gx, 0, -1, ch1, ch2, *filter);
            let ghost s3 = aa_pair2(ccx - gx, ccy + gy2, 1, 0, ch1, ch2, *filter);
            let ghost s4 = aa_pair2(ccx - gx, ccy - gy2, 1, 0, ch1, ch2, *filter);
            let ghost s5 = aa_pair2(ccx - gy2, ccy - gx, 0, 1, ch1, ch2, *filter);
            let ghost s6 = aa_pair2(ccx + gy2, ccy - gx, 0, 1, ch1, ch2, *filter);
            let ghost s7 = aa_pair2(ccx + gx, ccy - gy2, -1, 0, ch1, ch2, *filter);
            let ghost p0 = if ccx >= gx {
                crate::basic::line_writes((ccx - gx + 1, ccy + gy2), (ccx + gx - 1, ccy + gy2), c, *filter)
            } else {
                Seq::<PixelWrite>::empty()
            };
            let ghost p1 = if ccx >= gy2 {
                crate::basic::line_writes((ccx - gy2, ccy + gx - 1), (ccx + gy2, ccy + gx - 1), c, *filter)
            } else {
                Seq::<PixelWrite>::empty()
            };
            let ghost p2 = if ccx >= gx && ccy >= gy2 {
                crate::basic::line_writes((ccx - gx + 1, ccy - gy2), (ccx + gx - 1, ccy - gy2), c, *filter)
            } else {
                Seq::<PixelWrite>::empty()
            };
            let ghost p3 = if ccx >= gy2 && ccy >= gx {
                crate::basic::line_writes((ccx - gy2, ccy - gx + 1), (ccx + gy2, ccy - gx + 1), c, *filter)
            } else {
                Seq::<PixelWrite>::empty()
            };
            let ghost vh = canvas_view(*canvas);
            proof {
                assert(aa_arcfill_steps(ccx, ccy, rr, gy, c, *filter) == w16 + aa_arcfill_span4(ccx, ccy, gx, gy2, c, *filter)
                    + aa_arcfill_steps(ccx, ccy, rr, gy2, c, *filter));
            }
            aa_pair_blend(canvas, cx + (x as i64), cy + (y as i64), -1, 0, c1, c2, filter);
            proof {
                lemma_apply_writes_concat(vh, dims, s0, s1);
            }
            aa_pair_blend(canvas, cx + (y as i64), cy + (x as i64), 0, -1, c1, c2, filter);
            proof {
                lemma_apply_writes_concat(vh, dims, s0 + s1, s2);
            }
            aa_pair_blend(canvas, cx - (y as i64), cy + (x as i64), 0, -1, c1, c2, filter);
            proof {
                lemma_apply_writes_concat(vh, dims, s0 + s1 + s2, s3);
            }
            aa_pair_blend(canvas, cx - (x as i64), cy + (y as i64), 1, 0, c1, c2, filter);
            proof {
                lemma_apply_writes_concat(vh, dims, s0 + s1 + s2 + s3, s4);
            }
            aa_pair_blend(canvas, cx - (x as i64), cy - (y as i64), 1, 0, c1, c2, filter);
            proof {
                lemma_apply_writes_concat(vh, dims, s0 + s1 + s2 + s3 + s4, s5);
            }
            aa_pair_blend(canvas, cx - (y as i64), cy - (x as i64), 0, 1, c1, c2, filter);
            proof {
                lemma_apply_writes_concat(vh, dims, s0 + s1 + s2 + s3 + s4 + s5, s6);
            }
            aa_pair_blend(canvas, cx + (y as i64), cy - (x as i64), 0, 1, c1, c2, filter);
            proof {
                lemma_apply_writes_concat(vh, dims, s0 + s1 + s2 + s3 + s4 + s5 + s6, s7);
                assert(s0 + s1 + s2 + s3 + s4 + s5 + s6 + s7 == w16);
            }
            aa_pair_blend(canvas, cx + (x as i64), cy - (y as i64), -1, 0, c1, c2, filter);
            proof {
                lemma_apply_writes_concat(vh, dims, w16, p0);
            }
            if cx >= x as i64 {
                basic.filtered_draw_line(canvas, (cx - (x as i64) + 1, cy + (y as i64)), (cx + (x as i64) - 1, cy + (y as i64)), color, filter);
            }
            proof {
                lemma_apply_writes_concat(vh, dims, w16 + p0, p1);
            }
            if cx >= y as i64 {
                basic.filtered_draw_line(canvas, (cx - (y as i64), cy + (x as i64) - 1), (cx + (y as i64), cy + (x as i64) - 1), color, filter);
            }
            proof {
                lemma_apply_writes_concat(vh, dims, w16 + p0 + p1, p2);
            }
            if cx >= x as i64 && cy >= y as i64 {
                basic.filtered_draw_line(canvas, (cx - (x as i64) + 1, cy - (y as i64)), (cx + (x as i64) - 1, cy - (y as i64)), color, filter);
            }
            proof {
                lemma_apply_writes_concat(vh, dims, w16 + p0 + p1 + p2, p3);
            }
            if cx >= y as i64 && cy >= x as i64 {
                basic.filtered_draw_line(canvas, (cx - (y as i64), cy - (x as i64) + 1), (cx + (y as i64), cy - (x as i64) + 1), color, filter);
            }
            proof {
                assert(aa_arcfill_span4(ccx, ccy, gx, gy2, c, *filter) == p0 + p1 + p2 + p3);
                lemma_apply_writes_concat(
                    vh,
                    dims,
                    w16 + p0 + p1 + p2 + p3,
                    aa_arcfill_steps(ccx, ccy, rr, gy2, c, *filter),
                );
                assert(w16 + aa_arcfill_span4(ccx, ccy, gx, gy2, c, *filter) == w16 + p0 + p1 + p2 + p3);
            }
        }
        proof {
            assert(aa_arcfill_steps(cx as int, cy as int, radius as int, y as int, color.channels(), *filter)
                == Seq::<PixelWrite>::empty());
        }
    }

    /// Fill the anti-aliased circle: the cardinal points, the two
    /// anti-aliased diameters, then per octant row the blended edge pairs
    /// and the anti-aliased interior spans. A radius of zero is a no-op.
    #[verifier::rlimit(50)]
    pub fn draw_filled_circle(&self, canvas: &mut Canvas, circle: Circle, color: Color)
        ensures
            canvas_dims(*final(canvas)) == canvas_dims(*old(canvas)),
            canvas_view(*final(canvas)) == apply_writes(
                canvas_view(*old(canvas)),
                canvas_dims(*old(canvas)),
                aa_filled_circle_op_writes(
                    circle.spec_center().0 as int,
                    circle.spec_center().1 as int,
                    circle.spec_radius() as int,
                    color.channels(),
                ),
            ),
            circle.spec_radius() == 0 ==> canvas_view(*final(canvas)) == canvas_view(
                *old(canvas),
            ),
            canvas_wf(*old(canvas)) ==> canvas_wf(*final(canvas)),
    {
        let ghost v0 = canvas_view(*canvas);
        let ghost dims = canvas_dims(*canvas);
        let radius = circle.radius();
        if radius == 0 {
            return ;
        }
        let center = circle.center();
        let cx = center.0 as i64;
        let cy = center.1 as i64;
        let r = radius as i64;
        let ghost c = color.channels();
        let ghost cards = seq![
            (((cx + r) as int, cy as int), c),
            (((cx - r) as int, cy as int), c),
            ((cx as int, (cy + r) as int), c),
            ((cx as int, (cy - r) as int), c),
        ];
        let ghost d1 = wu_writes(((cx - r) as int, cy as int), ((cx + r) as int, cy as int), c);
        let ghost d2 = wu_writes((cx as int, (cy - r) as int), (cx as int, (cy + r) as int), c);
        let ghost walk = aa_fill_steps(cx as int, cy as int, radius as int, 0, c);
        canvas.blend_at(cx + r, cy, color);
        proof {
            lemma_writes_prefix_step(v0, dims, cards, 0);
        }
        canvas.blend_at(cx - r, cy, color);
        proof {
            lemma_writes_prefix_step(v0, dims, cards, 1);
        }
        canvas.blend_at(cx, cy + r, color);
        proof {
            lemma_writes_prefix_step(v0, dims, cards, 2);
        }
        canvas.blend_at(cx, cy - r, color);
        proof {
            lemma_writes_prefix_step(v0, dims, cards, 3);
            assert(cards.take(0) =~= Seq::<PixelWrite>::empty());
            assert(cards.take(4) =~= cards);
            lemma_apply_writes_concat(v0, dims, cards, d1);
        }
        self.wu_line(canvas, (cx - r, cy), (cx + r, cy), color);
        proof {
            lemma_apply_writes_concat(v0, dims, cards + d1, d2);
        }
        self.wu_line(canvas, (cx, cy - r), (cx, cy + r), color);
        proof {
            lemma_apply_writes_concat(v0, dims, cards + d1 + d2, walk);
        }
        self.aa_fill_walk(canvas, cx, cy, radius, color);
        proof {
            if canvas_wf(*old(canvas)) {
                crate::canvas::lemma_apply_writes_wf(
                    v0,
                    dims,
                    aa_filled_circle_op_writes(cx as int, cy as int, radius as int, c),
                );
            }
        }
    }

    /// Fill the anti-aliased circular sector of the angular span
    /// [start, end]: the two wedge-filtered axis radii, the wedge-filtered
    /// filled walk, and last the center pixel. A radius of zero is a no-op.
    #[verifier::rlimit(50)]
    pub fn draw_filled_arc(
        &self,
        canvas: &mut Canvas,
        circle: Circle,
        start: Angle,
        end: Angle,
        color: Color,
    )
        requires
            start.spec_raw() > i64::MIN,
            end.spec_raw() > i64::MIN,
        ensures
            canvas_dims(*final(canvas)) == canvas_dims(*old(canvas)),
            canvas_view(*final(canvas)) == apply_writes(
                canvas_view(*old(canvas)),
                canvas_dims(*old(canvas)),
                aa_filled_arc_op_writes(
                    circle.spec_center().0 as int,
                    circle.spec_center().1 as int,
                    circle.spec_radius() as int,
                    start,
                    end,
                    color.channels(),
                ),
            ),
            circle.spec_radius() == 0 ==> canvas_view(*final(canvas)) == canvas_view(
                *old(canvas),
            ),
            canvas_wf(*old(canvas)) ==> canvas_wf(*final(canvas)),
    {
        let ghost v0 = canvas_view(*canvas);
        let ghost dims = canvas_dims(*canvas);
        let radius = circle.radius();
        if radius == 0 {
            return ;
        }
        let center = circle.center();
        let cx = center.0 as i64;
        let cy = center.1 as i64;
        let r = radius as i64;
        let filter = crate::basic::ordered_wedge(center, start, end);
        let basic = crate::basic::BasicRenderer::default();
        let ghost c = color.channels();
        let ghost f = crate::basic::arc_filter(cx as int, cy as int, start, end);
        let ghost s0 = crate::basic::line_writes(
            ((cx - r) as int, cy as int),
            ((cx + r) as int, cy as int),
            c,
            f,
        );
        let ghost s1 = crate::basic::line_writes(
            (cx as int, (cy - r) as int),
            (cx as int, (cy + r) as int),
            c,
            f,
        );
        let ghost s2 = aa_arcfill_steps(cx as int, cy as int, radius as int, 0, c, f);
        let ghost s3 = seq![((cx as int, cy as int), c)];
        basic.filtered_draw_line(canvas, (cx - r, cy), (cx + r, cy), color, &filter);
        proof {
            lemma_apply_writes_concat(v0, dims, s0, s1);
        }
        basic.filtered_draw_line(canvas, (cx, cy - r), (cx, cy + r), color, &filter);
        proof {
            lemma_apply_writes_concat(v0, dims, s0 + s1, s2);
        }
        self.aa_arcfill_walk(canvas, cx, cy, radius, color, &filter);
        proof {
            lemma_apply_writes_concat(v0, dims, s0 + s1 + s2, s3);
            crate::canvas::lemma_apply_writes_single(
                apply_writes(v0, dims, s0 + s1 + s2),
                dims,
                ((cx as int, cy as int), c),
            );
        }
        canvas.blend_at(cx, cy, color);
        proof {
            if canvas_wf(*old(canvas)) {
                crate::canvas::lemma_apply_writes_wf(
                    v0,
                    dims,
                    aa_filled_arc_op_writes(cx as int, cy as int, radius as int, start, end, c),
                );
            }
        }
    }

    /// Draw the rounded-rectangle outline with anti-aliased edges and
    /// corner arcs, composed from this renderer's own line and arc
    /// primitives. The corner radius must not exceed half the width or
    /// half the height.
    #[verifier::rlimit(50)]
    pub fn draw_rounded_rect(
        &self,
        canvas: &mut Canvas,
        rect: Rect,
        corner_radius: u32,
        color: Color,
    )
        requires
            rect.wf(),
            2 * corner_radius <= rect.spec_width(),
            2 * corner_radius <= rect.spec_height(),
        ensures
            canvas_dims(*final(canvas)) == canvas_dims(*old(canvas)),
            canvas_view(*final(canvas)) == apply_writes(
                canvas_view(*old(canvas)),
                canvas_dims(*old(canvas)),
                aa_rounded_rect_writes(rect, corner_radius as int, color.channels()),
            ),
            canvas_wf(*old(canvas)) ==> canvas_wf(*final(canvas)),
    {
        let ghost v0 = canvas_view(*canvas);
        let ghost dims = canvas_dims(*canvas);
        let ghost col = color.channels();
        let ghost cr = corner_radius as int;
        let l = rect.left();
        let r_ = rect.right();
        let t = rect.top();
        let b = rect.bottom();
        let cradius = corner_radius;
        let ghost gl = l as int;
        let ghost gr = r_ as int;
        let ghost gt = t as int;
        let ghost gb = b as int;
        let ghost s0 = wu_writes((gl, gt + cr), (gl, gb - cr), col);
        let ghost s1 = aa_arc_op_writes(
            gl + cr,
            gt + cr,
            cr,
            Angle::Degrees(180_000),
            Angle::Degrees(270_000),
            col,
        );
        let ghost s2 = aa_arc_op_writes(
            gl + cr,
            gb - cr,
            cr,
            Angle::Degrees(90_000),
            Angle::Degrees(180_000),
            col,
        );
        let ghost s3 = wu_writes((gr, gt + cr), (gr, gb - cr), col);
        let ghost s4 = aa_arc_op_writes(
            gr - cr,
            gt + cr,
            cr,
            Angle::Degrees(270_000),
            Angle::Degrees(360_000),
            col,
        );
        let ghost s5 = aa_arc_op_writes(
            gr - cr,
            gb - cr,
            cr,
            Angle::Degrees(0),
            Angle::Degrees(90_000),
            col,
        );
        let ghost s6 = wu_writes((gl + cr, gt), (gr - cr, gt), col);
        let ghost s7 = wu_writes((gl + cr, gb), (gr - cr, gb), col);
        self.draw_line(canvas, (l, t + cradius), (l, b - cradius), color);
        proof {
            lemma_apply_writes_concat(v0, dims, s0, s1);
        }
        self.draw_arc(
            canvas,
            Circle::new((l + cradius, t + cradius), cradius),
            Angle::Degrees(180_000),
            Angle::Degrees(270_000),
            color,
        );
        proof {
            lemma_apply_writes_concat(v0, dims, s0 + s1, s2);
        }
        self.draw_arc(
            canvas,
            Circle::new((l + cradius, b - cradius), cradius),
            Angle::Degrees(90_000),
            Angle::Degrees(180_000),
            color,
        );
        proof {
            lemma_apply_writes_concat(v0, dims, s0 + s1 + s2, s3);
        }
        self.draw_line(canvas, (r_, t + cradius), (r_, b - cradius), color);
        proof {
            lemma_apply_writes_concat(v0, dims, s0 + s1 + s2 + s3, s4);
        }
        self.draw_arc(
            canvas,
            Circle::new((r_ - cradius, t + cradius), cradius),
            Angle::Degrees(270_000),
            Angle::Degrees(360_000),
            color,
        );
        proof {
            lemma_apply_writes_concat(v0, dims, s0 + s1 + s2 + s3 + s4, s5);
        }
        self.draw_arc(
            canvas,
            Circle::new((r_ - cradius, b - cradius), cradius),
            Angle::Degrees(0),
            Angle::Degrees(90_000),
            color,
        );
        proof {
            lemma_apply_writes_concat(v0, dims, s0 + s1 + s2 + s3 + s4 + s5, s6);
        }
        self.draw_line(canvas, (l + cradius, t), (r_ - cradius, t), color);
        proof {
            lemma_apply_writes_concat(v0, dims, s0 + s1 + s2 + s3 + s4 + s5 + s6, s7);
        }
        self.draw_line(canvas, (l + cradius, b), (r_ - cradius, b), color);
        proof {
            if canvas_wf(*old(canvas)) {
                crate::canvas::lemma_apply_writes_wf(
                    v0,
                    dims,
                    aa_rounded_rect_writes(rect, cr, col),
                );
            }
        }
    }

    /// Fill the rounded rectangle with anti-aliased corner sectors: the
    /// center box, the two side boxes, then the four filled corner
    /// sectors, each drawn by this renderer's own primitives. The corner
    /// radius must not exceed half the width or half the height.
    #[verifier::rlimit(50)]
    pub fn draw_filled_rounded_rect(
        &self,
        canvas: &mut Canvas,
        rect: Rect,
        corner_radius: u32,
        color: Color,
    )
        requires
            rect.wf(),
            canvas_wf(*old(canvas)),
            2 * corner_radius <= rect.spec_width(),
            2 * corner_radius <= rect.spec_height(),
        ensures
            canvas_dims(*final(canvas)) == canvas_dims(*old(canvas)),
            canvas_view(*final(canvas)) == aa_filled_rounded_rect_map(
                canvas_view(*old(canvas)),
                canvas_dims(*old(canvas)),
                rect,
                corner_radius as int,
                color.channels(),
            ),
            canvas_wf(*final(canvas)),
    {
        let l = rect.left();
        let r_ = rect.right();
        let t = rect.top();
        let b = rect.bottom();
        let w = rect.width();
        let h = rect.height();
        let cradius = corner_radius;
        self.draw_filled_rect(
            canvas,
            Rect::new(l + cradius, t, w - 2 * cradius, h),
            color,
        );
        self.draw_filled_rect(
            canvas,
            Rect::new(l, t + cradius, cradius, h - 2 * cradius),
            color,
        );
        self.draw_filled_rect(
            canvas,
            Rect::new(r_ - cradius, t + cradius, cradius, h - 2 * cradius),
            color,
        );
        self.draw_filled_arc(
            canvas,
            Circle::new((l + cradius, t + cradius), cradius),
            Angle::Degrees(180_000),
            Angle::Degrees(270_000),
            color,
        );
        self.draw_filled_arc(
            canvas,
            Circle::new((l + cradius, b - cradius), cradius),
            Angle::Degrees(90_000),
            Angle::Degrees(180_000),
            color,
        );
        self.draw_filled_arc(
            canvas,
            Circle::new((r_ - cradius, t + cradius), cradius),
            Angle::Degrees(270_000),
            Angle::Degrees(360_000),
            color,
        );
        self.draw_filled_arc(
            canvas,
            Circle::new((r_ - cradius, b - cradius), cradius),
            Angle::Degrees(0),
            Angle::Degrees(90_000),
            color,
        );
    }
}

/// The writes of the anti-aliased rounded-rectangle outline: four
/// anti-aliased edges and four anti-aliased quarter arcs, in drawing order.
pub open spec fn aa_rounded_rect_writes(rect: Rect, cr: int, col: Channels) -> Seq<PixelWrite> {
    let l = rect.spec_left() as int;
    let r = rect.spec_right();
    let t = rect.spec_top() as int;
    let b = rect.spec_bottom();
    wu_writes((l, t + cr), (l, b - cr), col) + aa_arc_op_writes(
        l + cr,
        t + cr,
        cr,
        Angle::Degrees(180_000),
        Angle::Degrees(270_000),
        col,
    ) + aa_arc_op_writes(l + cr, b - cr, cr, Angle::Degrees(90_000), Angle::Degrees(180_000), col)
        + wu_writes((r, t + cr), (r, b - cr), col) + aa_arc_op_writes(
        r - cr,
        t + cr,
        cr,
        Angle::Degrees(270_000),
        Angle::Degrees(360_000),
        col,
    ) + aa_arc_op_writes(r - cr, b - cr, cr, Angle::Degrees(0), Angle::Degrees(90_000), col)
        + wu_writes((l + cr, t), (r - cr, t), col) + wu_writes((l + cr, b), (r - cr, b), col)
}

/// The pixel map after the anti-aliased filled rounded rectangle: the
/// center box, the two side boxes, then the four anti-aliased filled
/// corner sectors, in drawing order.
pub open spec fn aa_filled_rounded_rect_map(
    m: Map<(nat, nat), Channels>,
    dims: (nat, nat),
    rect: Rect,
    cr: int,
    col: Channels,
) -> Map<(nat, nat), Channels> {
    let l = rect.spec_left() as int;
    let r = rect.spec_right();
    let t = rect.spec_top() as int;
    let b = rect.spec_bottom();
    let m1 = crate::basic::blend_box(m, dims, l + cr, r - cr, t, b, col);
    let m2 = crate::basic::blend_box(m1, dims, l, l + cr, t + cr, b - cr, col);
    let m3 = crate::basic::blend_box(m2, dims, r - cr, r, t + cr, b - cr, col);
    let m4 = apply_writes(
        m3,
        dims,
        aa_filled_arc_op_writes(
            l + cr,
            t + cr,
            cr,
            Angle::Degrees(180_000),
            Angle::Degrees(270_000),
            col,
        ),
    );
    let m5 = apply_writes(
        m4,
        dims,
        aa_filled_arc_op_writes(
            l + cr,
            b - cr,
            cr,
            Angle::Degrees(90_000),
            Angle::Degrees(180_000),
            col,
        ),
    );
    let m6 = apply_writes(
        m5,
        dims,
        aa_filled_arc_op_writes(
            r - cr,
            t + cr,
            cr,
            Angle::Degrees(270_000),
            Angle::Degrees(360_000),
            col,
        ),
    );
    apply_writes(
        m6,
        dims,
        aa_filled_arc_op_writes(r - cr, b - cr, cr, Angle::Degrees(0), Angle::Degrees(90_000), col),
    )
}

/// The cardinal points of an arc: each of the four axis points is seeded at
/// full coverage when its angle lies inside the ordered span.
pub open spec fn aa_arc_cardinals(
    cx: int,
    cy: int,
    r: int,
    s: Angle,
    e: Angle,
    c: Channels,
) -> Seq<PixelWrite> {
    (if s.spec_deg() <= 0 && 0 <= e.spec_deg() {
        seq![((cx + r, cy), c)]
    } else {
        Seq::<PixelWrite>::empty()
    }) + (if s.spec_deg() <= 90_000 && 90_000 <= e.spec_deg() {
        seq![((cx, cy + r), c)]
    } else {
        Seq::<PixelWrite>::empty()
    }) + (if s.spec_deg() <= 180_000 && 180_000 <= e.spec_deg() {
        seq![((cx - r, cy), c)]
    } else {
        Seq::<PixelWrite>::empty()
    }) + (if s.spec_deg() <= 270_000 && 270_000 <= e.spec_deg() {
        seq![((cx, cy - r), c)]
    } else {
        Seq::<PixelWrite>::empty()
    })
}

/// The writes of the anti-aliased arc operation: the in-span cardinal
/// points, then the wedge-filtered octant walk; empty for a zero radius.
pub open spec fn aa_arc_op_writes(
    cx: int,
    cy: int,
    r: int,
    start: Angle,
    end: Angle,
    c: Channels,
) -> Seq<PixelWrite> {
    if r == 0 {
        Seq::<PixelWrite>::empty()
    } else {
        let se = crate::basic::ordered_angles(start, end);
        aa_arc_cardinals(cx, cy, r, se.0, se.1, c) + aa_steps(
            cx,
            cy,
            r,
            0,
            c,
            crate::basic::arc_filter(cx, cy, start, end),
        )
    }
}

/// The writes of the anti-aliased filled circle operation: the cardinal
/// points, the two anti-aliased diameters, then the filled octant walk;
/// empty for a zero radius.
pub open spec fn aa_filled_circle_op_writes(cx: int, cy: int, r: int, c: Channels) -> Seq<
    PixelWrite,
> {
    if r == 0 {
        Seq::<PixelWrite>::empty()
    } else {
        seq![
            ((cx + r, cy), c),
            ((cx - r, cy), c),
            ((cx, cy + r), c),
            ((cx, cy - r), c),
        ] + wu_writes((cx - r, cy), (cx + r, cy), c) + wu_writes((cx, cy - r), (cx, cy + r), c)
            + aa_fill_steps(cx, cy, r, 0, c)
    }
}

/// The writes of the anti-aliased filled sector operation: the two
/// wedge-filtered axis radii, the filled walk, and last the center pixel;
/// empty for a zero radius.
pub open spec fn aa_filled_arc_op_writes(
    cx: int,
    cy: int,
    r: int,
    start: Angle,
    end: Angle,
    c: Channels,
) -> Seq<PixelWrite> {
    if r == 0 {
        Seq::<PixelWrite>::empty()
    } else {
        let f = crate::basic::arc_filter(cx, cy, start, end);
        crate::basic::line_writes((cx - r, cy), (cx + r, cy), c, f) + crate::basic::line_writes(
            (cx, cy - r),
            (cx, cy + r),
            c,
            f,
        ) + aa_arcfill_steps(cx, cy, r, 0, c, f) + seq![((cx, cy), c)]
    }
}

/// The writes of the anti-aliased circle operation: the four cardinal
/// points at full coverage, then the octant walk; empty for a zero radius.
pub open spec fn aa_circle_op_writes(cx: int, cy: int, r: int, c: Channels) -> Seq<PixelWrite> {
    if r == 0 {
        Seq::<PixelWrite>::empty()
    } else {
        seq![
            ((cx + r, cy), c),
            ((cx - r, cy), c),
            ((cx, cy + r), c),
            ((cx, cy - r), c),
        ] + aa_steps(cx, cy, r, 0, c, crate::basic::PixelFilter::All)
    }
}


/// The shared drawing interface, at the anti-aliased tier: each method
/// delegates to the renderer's own exactly specified operation.
impl crate::Renderer for AntiAliasingRender {
    fn draw_line(&self, canvas: &mut Canvas, from: (u32, u32), to: (u32, u32), color: Color) {
        AntiAliasingRender::draw_line(self, canvas, from, to, color);
    }

    fn draw_rect(&self, canvas: &mut Canvas, rect: Rect, color: Color) {
        AntiAliasingRender::draw_rect(self, canvas, rect, color);
    }

    fn draw_filled_rect(&self, canvas: &mut Canvas, rect: Rect, color: Color) {
        AntiAliasingRender::draw_filled_rect(self, canvas, rect, color);
    }

    fn draw_circle(&self, canvas: &mut Canvas, circle: Circle, color: Color) {
        AntiAliasingRender::draw_circle(self, canvas, circle, color);
    }

    fn draw_filled_circle(&self, canvas: &mut Canvas, circle: Circle, color: Color) {
        AntiAliasingRender::draw_filled_circle(self, canvas, circle, color);
    }

    fn draw_arc(
        &self,
        canvas: &mut Canvas,
        circle: Circle,
        start: Angle,
        end: Angle,
        color: Color,
    ) {
        AntiAliasingRender::draw_arc(self, canvas, circle, start, end, color);
    }

    fn draw_filled_arc(
        &self,
        canvas: &mut Canvas,
        circle: Circle,
        start: Angle,
        end: Angle,
        color: Color,
    ) {
        AntiAliasingRender::draw_filled_arc(self, canvas, circle, start, end, color);
    }

    fn draw_rounded_rect(
        &self,
        canvas: &mut Canvas,
        rect: Rect,
        corner_radius: u32,
        color: Color,
    ) {
        AntiAliasingRender::draw_rounded_rect(self, canvas, rect, corner_radius, color);
    }

    fn draw_filled_rounded_rect(
        &self,
        canvas: &mut Canvas,
        rect: Rect,
        corner_radius: u32,
        color: Color,
    ) {
        AntiAliasingRender::draw_filled_rounded_rect(self, canvas, rect, corner_radius, color);
    }
}

} // verus!
