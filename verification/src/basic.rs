use vstd::prelude::*;
use crate::canvas::{
    apply_writes, blended, canvas_dims, canvas_view, canvas_wf, grid_dom, write1,
    lemma_apply_writes_concat, lemma_writes_prefix_step, Canvas, Channels, PixelWrite,
};
use crate::geom::{inside_arc, spec_inside_arc};
use crate::types::{Angle, Circle, Color, Rect};

verus! {

/// Renderer coordinates stay within this bound: canvas coordinates are u32
/// and every derived coordinate is a center plus or minus a radius.
pub const COORD_LIMIT: i64 = 0x2_0000_0000;

/// A per-pixel inclusion test for the filtered line walk: either every pixel
/// passes, or only those whose offset from a center points into an angular
/// wedge. This confines arc and sector fills to their wedge without a second
/// line-walking code path.
#[derive(Clone, Copy)]
pub enum PixelFilter {
    All,
    Wedge { center: (i64, i64), start: Angle, end: Angle },
}

impl PixelFilter {
    pub open spec fn wf(self) -> bool {
        match self {
            PixelFilter::All => true,
            PixelFilter::Wedge { center, start, end } => {
                &&& start.is_normalized()
                &&& end.is_normalized()
                &&& start.spec_deg() <= end.spec_deg()
                &&& 0 <= center.0 <= u32::MAX
                &&& 0 <= center.1 <= u32::MAX
            },
        }
    }

    /// Whether the pixel at (x, y) passes the filter.
    pub open spec fn spec_accepts(self, x: int, y: int) -> bool {
        match self {
            PixelFilter::All => true,
            PixelFilter::Wedge { center, start, end } => spec_inside_arc(
                (x - center.0, y - center.1),
                start,
                end,
            ),
        }
    }

    pub(crate) fn accepts(&self, x: i64, y: i64) -> (r: bool)
        requires
            self.wf(),
            -COORD_LIMIT - 1 <= x <= COORD_LIMIT + 1,
            -COORD_LIMIT - 1 <= y <= COORD_LIMIT + 1,
        ensures
            r == self.spec_accepts(x as int, y as int),
    {
        match self {
            PixelFilter::All => true,
            PixelFilter::Wedge { center, start, end } => inside_arc(
                (x - center.0, y - center.1),
                *start,
                *end,
            ),
        }
    }
}

/// Absolute value.
pub open spec fn absi(v: int) -> int {
    if v >= 0 {
        v
    } else {
        -v
    }
}

/// Manhattan distance between two lattice points.
pub open spec fn dist1(p: (int, int), q: (int, int)) -> int {
    absi(q.0 - p.0) + absi(q.1 - p.1)
}

/// The absolute x-extent of the segment from `a` to `b`.
pub open spec fn seg_dx(a: (int, int), b: (int, int)) -> int {
    absi(b.0 - a.0)
}

/// Minus the absolute y-extent of the segment from `a` to `b`, the sign
/// convention the error accumulator of the line walk uses.
pub open spec fn seg_dy(a: (int, int), b: (int, int)) -> int {
    -absi(b.1 - a.1)
}

/// The x direction of the walk from `a` to `b`.
pub open spec fn step_x(a: (int, int), b: (int, int)) -> int {
    if a.0 < b.0 {
        1
    } else {
        -1
    }
}

/// The y direction of the walk from `a` to `b`.
pub open spec fn step_y(a: (int, int), b: (int, int)) -> int {
    if a.1 < b.1 {
        1
    } else {
        -1
    }
}

/// Whether `p` lies in the bounding box of the segment from `a` to `b`:
/// the region the line walk never leaves.
pub open spec fn bres_between(a: (int, int), b: (int, int), p: (int, int)) -> bool {
    &&& (a.0 <= p.0 <= b.0 || b.0 <= p.0 <= a.0)
    &&& (a.1 <= p.1 <= b.1 || b.1 <= p.1 <= a.1)
}

/// The line walk's error accumulator as a function of position: the walk
/// starts at `dx + dy` and adds `dy` for every x step and `dx` for every
/// y step taken.
pub open spec fn bres_err(a: (int, int), b: (int, int), p: (int, int)) -> int {
    seg_dx(a, b) + seg_dy(a, b) + absi(p.0 - a.0) * seg_dy(a, b) + absi(p.1 - a.1) * seg_dx(a, b)
}

/// One step of the line walk from `p` toward `b`: advance x when twice the
/// error has not fallen below `dy`, advance y when it has not risen above
/// `dx`; both may advance in one step, which makes the line 8-connected.
pub open spec fn bres_step(a: (int, int), b: (int, int), p: (int, int)) -> (int, int) {
    let e2 = 2 * bres_err(a, b, p);
    (
        if e2 >= seg_dy(a, b) {
            p.0 + step_x(a, b)
        } else {
            p.0
        },
        if e2 <= seg_dx(a, b) {
            p.1 + step_y(a, b)
        } else {
            p.1
        },
    )
}

/// The line walk makes progress and never overshoots: from any point of the
/// segment's box other than the endpoint it moves strictly closer to the
/// endpoint, stays inside the box, and updates the error accumulator by the
/// fired branches' increments, keeping it within [2 dy, 2 dx].
pub proof fn lemma_bres_step_progress(a: (int, int), b: (int, int), p: (int, int))
    requires
        bres_between(a, b, p),
        p != b,
        2 * seg_dy(a, b) <= bres_err(a, b, p) <= 2 * seg_dx(a, b),
    ensures
        bres_between(a, b, bres_step(a, b, p)),
        dist1(bres_step(a, b, p), b) < dist1(p, b),
        bres_err(a, b, bres_step(a, b, p)) == bres_err(a, b, p) + (if 2 * bres_err(a, b, p)
            >= seg_dy(a, b) {
            seg_dy(a, b)
        } else {
            0
        }) + (if 2 * bres_err(a, b, p) <= seg_dx(a, b) {
            seg_dx(a, b)
        } else {
            0
        }),
        2 * seg_dy(a, b) <= bres_err(a, b, bres_step(a, b, p)) <= 2 * seg_dx(a, b),
{
    let dx = seg_dx(a, b);
    let dy = seg_dy(a, b);
    let e = bres_err(a, b, p);
    let q = bres_step(a, b, p);
    let jx = absi(p.0 - a.0);
    let jy = absi(p.1 - a.1);
    assert(e == dx + dy + jx * dy + jy * dx);

    // When x is exhausted but y is not, the x branch cannot fire.
    if p.0 == b.0 && p.1 != b.1 {
        assert(jx == dx);
        assert(dy <= -1);
        assert(jy <= -dy - 1);
        assert(2 * (dx + dy + dx * dy + jy * dx) < dy) by (nonlinear_arith)
            requires
                jy <= -dy - 1,
                dy <= -1,
                dx >= 0,
        ;
        assert(!(2 * e >= dy));
    }
    // When y is exhausted but x is not, the y branch cannot fire.
    if p.1 == b.1 && p.0 != b.0 {
        assert(jy == -dy);
        assert(dx >= 1);
        assert(jx <= dx - 1);
        assert(2 * (dx + dy + jx * dy + (-dy) * dx) > dx) by (nonlinear_arith)
            requires
                jx <= dx - 1,
                dx >= 1,
                dy <= 0,
        ;
        assert(!(2 * e <= dx));
    }
    // At least one branch fires.
    assert(2 * e >= dy || 2 * e <= dx);

    if 2 * e >= dy {
        assert(p.0 != b.0);
        assert(absi(q.0 - a.0) == jx + 1);
        assert(absi(q.0 - b.0) == absi(p.0 - b.0) - 1);
        assert(absi(q.0 - a.0) * dy == jx * dy + dy) by (nonlinear_arith)
            requires
                absi(q.0 - a.0) == jx + 1,
        ;
    }
    if 2 * e <= dx {
        assert(p.1 != b.1);
        assert(absi(q.1 - a.1) == jy + 1);
        assert(absi(q.1 - b.1) == absi(p.1 - b.1) - 1);
        assert(absi(q.1 - a.1) * dx == jy * dx + dx) by (nonlinear_arith)
            requires
                absi(q.1 - a.1) == jy + 1,
        ;
    }
}

/// The requested writes of the line walk from `p` to `b` (started at `a`):
/// each visited pixel that passes the filter, in visiting order, colored `c`.
pub open spec fn line_writes_from(
    a: (int, int),
    b: (int, int),
    p: (int, int),
    c: Channels,
    f: PixelFilter,
) -> Seq<PixelWrite>
    decreases dist1(p, b),
        when bres_between(a, b, p) && 2 * seg_dy(a, b) <= bres_err(a, b, p) <= 2 * seg_dx(a, b)
    via line_writes_from_dec
{
    let w = if f.spec_accepts(p.0, p.1) {
        seq![((p.0, p.1), c)]
    } else {
        Seq::<PixelWrite>::empty()
    };
    if p == b {
        w
    } else {
        w + line_writes_from(a, b, bres_step(a, b, p), c, f)
    }
}

#[via_fn]
proof fn line_writes_from_dec(a: (int, int), b: (int, int), p: (int, int), c: Channels, f: PixelFilter) {
    if bres_between(a, b, p) && 2 * seg_dy(a, b) <= bres_err(a, b, p) <= 2 * seg_dx(a, b) && p
        != b {
        lemma_bres_step_progress(a, b, p);
    }
}

/// The requested writes of a full line walk from `a` to `b`.
pub open spec fn line_writes(a: (int, int), b: (int, int), c: Channels, f: PixelFilter) -> Seq<
    PixelWrite,
> {
    line_writes_from(a, b, a, c, f)
}

/// The aliased rasterizer: integer scan conversion, every pixel written at
/// the requested color's own coverage.
pub struct BasicRenderer;

impl Default for BasicRenderer {
    fn default() -> (r: Self)
        ensures
            r == BasicRenderer,
    {
        BasicRenderer
    }
}

impl BasicRenderer {
    /// Walk the line from `from` to `to`, blending every visited pixel that
    /// passes the filter. The walk itself is not altered by the filter.
    #[verifier::rlimit(50)]
    pub(crate) fn filtered_draw_line(
        &self,
        canvas: &mut Canvas,
        from: (i64, i64),
        to: (i64, i64),
        color: Color,
        filter: &PixelFilter,
    )
        requires
            filter.wf(),
            -COORD_LIMIT <= from.0 <= COORD_LIMIT,
            -COORD_LIMIT <= from.1 <= COORD_LIMIT,
            -COORD_LIMIT <= to.0 <= COORD_LIMIT,
            -COORD_LIMIT <= to.1 <= COORD_LIMIT,
        ensures
            canvas_dims(*final(canvas)) == canvas_dims(*old(canvas)),
            canvas_view(*final(canvas)) == apply_writes(
                canvas_view(*old(canvas)),
                canvas_dims(*old(canvas)),
                line_writes(
                    (from.0 as int, from.1 as int),
                    (to.0 as int, to.1 as int),
                    color.channels(),
                    *filter,
                ),
            ),
    {
        let ghost a = (from.0 as int, from.1 as int);
        let ghost b = (to.0 as int, to.1 as int);
        let ghost v0 = canvas_view(*canvas);
        let ghost dims = canvas_dims(*canvas);
        let (x0, y0) = from;
        let (x1, y1) = to;
        let dx = if x1 >= x0 {
            x1 - x0
        } else {
            x0 - x1
        };
        let dy = -(if y1 >= y0 {
            y1 - y0
        } else {
            y0 - y1
        });
        let sx: i64 = if x0 < x1 {
            1
        } else {
            -1
        };
        let sy: i64 = if y0 < y1 {
            1
        } else {
            -1
        };
        let mut err = dx + dy;
        let mut x = x0;
        let mut y = y0;
        proof {
            assert(dx == seg_dx(a, b));
            assert(dy == seg_dy(a, b));
            assert(bres_err(a, b, a) == dx + dy) by {
                assert(absi(a.0 - a.0) * seg_dy(a, b) == 0) by (nonlinear_arith)
                    requires
                        absi(a.0 - a.0) == 0,
                ;
                assert(absi(a.1 - a.1) * seg_dx(a, b) == 0) by (nonlinear_arith)
                    requires
                        absi(a.1 - a.1) == 0,
                ;
            }
        }
        loop
            invariant_except_break
                apply_writes(v0, dims, line_writes(a, b, color.channels(), *filter))
                    == apply_writes(
                    canvas_view(*canvas),
                    dims,
                    line_writes_from(a, b, (x as int, y as int), color.channels(), *filter),
                ),
            invariant
                filter.wf(),
                -COORD_LIMIT <= a.0 <= COORD_LIMIT,
                -COORD_LIMIT <= a.1 <= COORD_LIMIT,
                -COORD_LIMIT <= b.0 <= COORD_LIMIT,
                -COORD_LIMIT <= b.1 <= COORD_LIMIT,
                -COORD_LIMIT <= x <= COORD_LIMIT,
                -COORD_LIMIT <= y <= COORD_LIMIT,
                x1 == to.0,
                y1 == to.1,
                b == (to.0 as int, to.1 as int),
                dx == seg_dx(a, b),
                dy == seg_dy(a, b),
                sx as int == step_x(a, b),
                sy as int == step_y(a, b),
                0 <= dx <= 2 * COORD_LIMIT,
                -2 * COORD_LIMIT <= dy <= 0,
                bres_between(a, b, (x as int, y as int)),
                err as int == bres_err(a, b, (x as int, y as int)),
                2 * (dy as int) <= err as int <= 2 * (dx as int),
                canvas_dims(*canvas) == dims,
            ensures
                canvas_dims(*canvas) == dims,
                canvas_view(*canvas) == apply_writes(
                    v0,
                    dims,
                    line_writes(a, b, color.channels(), *filter),
                ),
            decreases dist1((x as int, y as int), b),
        {
            let ghost p = (x as int, y as int);
            proof {
                if p != b {
                    lemma_bres_step_progress(a, b, p);
                }
            }
            let ghost rest = if p == b {
                Seq::<PixelWrite>::empty()
            } else {
                line_writes_from(a, b, bres_step(a, b, p), color.channels(), *filter)
            };
            proof {
                let w = if filter.spec_accepts(p.0, p.1) {
                    seq![((p.0, p.1), color.channels())]
                } else {
                    Seq::<PixelWrite>::empty()
                };
                assert(line_writes_from(a, b, p, color.channels(), *filter) == w + rest) by {
                    if p == b {
                        assert(w + Seq::<PixelWrite>::empty() =~= w);
                    }
                }
                lemma_apply_writes_concat(canvas_view(*canvas), dims, w, rest);
                if filter.spec_accepts(p.0, p.1) {
                    assert(w.drop_first() =~= Seq::<PixelWrite>::empty());
                    assert(w[0] == ((p.0, p.1), color.channels()));
                    assert(apply_writes(canvas_view(*canvas), dims, w) == apply_writes(
                        write1(canvas_view(*canvas), dims, w[0]),
                        dims,
                        Seq::<PixelWrite>::empty(),
                    ));
                    assert(apply_writes(canvas_view(*canvas), dims, w) == write1(
                        canvas_view(*canvas),
                        dims,
                        ((p.0, p.1), color.channels()),
                    ));
                }
            }
            if filter.accepts(x, y) {
                canvas.blend_at(x, y, color);
            }
            if x == x1 && y == y1 {
                break ;
            }
            let e2 = err * 2;
            if e2 >= dy {
                err = err + dy;
                x = x + sx;
            }
            if e2 <= dx {
                err = err + dx;
                y = y + sy;
            }
        }
    }

    /// Trace the 8-connected line from `from` to `to`, blending every pixel.
    pub fn draw_line(&self, canvas: &mut Canvas, from: (u32, u32), to: (u32, u32), color: Color)
        ensures
            canvas_dims(*final(canvas)) == canvas_dims(*old(canvas)),
            canvas_view(*final(canvas)) == apply_writes(
                canvas_view(*old(canvas)),
                canvas_dims(*old(canvas)),
                line_writes(
                    (from.0 as int, from.1 as int),
                    (to.0 as int, to.1 as int),
                    color.channels(),
                    PixelFilter::All,
                ),
            ),
    {
        self.filtered_draw_line(
            canvas,
            (from.0 as i64, from.1 as i64),
            (to.0 as i64, to.1 as i64),
            color,
            &PixelFilter::All,
        );
    }

    /// Draw the border of the closed box [left, right] x [top, bottom]: the
    /// top and bottom rows first, then the left and right columns (so the
    /// four corner pixels are blended twice, as the write sequence records).
    #[verifier::rlimit(50)]
    pub fn draw_rect(&self, canvas: &mut Canvas, rect: Rect, color: Color)
        requires
            rect.wf(),
        ensures
            canvas_dims(*final(canvas)) == canvas_dims(*old(canvas)),
            canvas_view(*final(canvas)) == apply_writes(
                canvas_view(*old(canvas)),
                canvas_dims(*old(canvas)),
                rect_outline_writes(rect, color.channels()),
            ),
    {
        let ghost v0 = canvas_view(*canvas);
        let ghost dims = canvas_dims(*canvas);
        let l = rect.left();
        let r_ = rect.right();
        let t = rect.top();
        let b = rect.bottom();
        let ghost rows = rect_row_writes(rect, color.channels());
        let ghost cols = rect_col_writes(rect, color.channels());
        let mut x: u64 = l as u64;
        while x <= r_ as u64
            invariant
                l == rect.spec_left(),
                r_ == rect.spec_right(),
                t == rect.spec_top(),
                b == rect.spec_bottom(),
                rect.wf(),
                l as u64 <= x <= r_ as u64 + 1,
                rows == rect_row_writes(rect, color.channels()),
                canvas_dims(*canvas) == dims,
                canvas_view(*canvas) == apply_writes(v0, dims, rows.take(2 * (x - l))),
            decreases r_ as u64 + 1 - x,
        {
            let ghost k = x - l;
            canvas.blend_at(x as i64, t as i64, color);
            proof {
                assert(rows[2 * k] == ((l + k, t as int), color.channels()));
                lemma_writes_prefix_step(v0, dims, rows, 2 * k);
            }
            canvas.blend_at(x as i64, b as i64, color);
            proof {
                assert(rows[2 * k + 1] == ((l + k, b as int), color.channels()));
                lemma_writes_prefix_step(v0, dims, rows, 2 * k + 1);
                assert(rows.take(2 * k + 2) == rows.take(2 * ((x + 1) - l)));
            }
            x = x + 1;
        }
        proof {
            assert(rows.take(2 * (x - l)) =~= rows);
        }
        let ghost m1 = apply_writes(v0, dims, rows);
        let mut y: u64 = t as u64;
        while y <= b as u64
            invariant
                l == rect.spec_left(),
                r_ == rect.spec_right(),
                t == rect.spec_top(),
                b == rect.spec_bottom(),
                rect.wf(),
                t as u64 <= y <= b as u64 + 1,
                cols == rect_col_writes(rect, color.channels()),
                m1 == apply_writes(v0, dims, rect_row_writes(rect, color.channels())),
                canvas_dims(*canvas) == dims,
                canvas_view(*canvas) == apply_writes(m1, dims, cols.take(2 * (y - t))),
            decreases b as u64 + 1 - y,
        {
            let ghost k = y - t;
            canvas.blend_at(l as i64, y as i64, color);
            proof {
                assert(cols[2 * k] == ((l as int, t + k), color.channels()));
                lemma_writes_prefix_step(m1, dims, cols, 2 * k);
            }
            canvas.blend_at(r_ as i64, y as i64, color);
            proof {
                assert(cols[2 * k + 1] == ((r_ as int, t + k), color.channels()));
                lemma_writes_prefix_step(m1, dims, cols, 2 * k + 1);
                assert(cols.take(2 * k + 2) == cols.take(2 * ((y + 1) - t)));
            }
            y = y + 1;
        }
        proof {
            assert(cols.take(2 * (y - t)) =~= cols);
            lemma_apply_writes_concat(v0, dims, rows, cols);
        }
    }

    /// Fill the closed box [left, right] x [top, bottom]: every on-canvas
    /// pixel of the box is blended exactly once with `color`, every other
    /// pixel is untouched.
    #[verifier::rlimit(50)]
    pub fn draw_filled_rect(&self, canvas: &mut Canvas, rect: Rect, color: Color)
        requires
            rect.wf(),
            canvas_wf(*old(canvas)),
        ensures
            canvas_dims(*final(canvas)) == canvas_dims(*old(canvas)),
            canvas_view(*final(canvas)) == blend_box(
                canvas_view(*old(canvas)),
                canvas_dims(*old(canvas)),
                rect.spec_left() as int,
                rect.spec_right(),
                rect.spec_top() as int,
                rect.spec_bottom(),
                color.channels(),
            ),
            canvas_wf(*final(canvas)),
    {
        let ghost v0 = canvas_view(*canvas);
        let ghost dims = canvas_dims(*canvas);
        let l = rect.left();
        let r_ = rect.right();
        let t = rect.top();
        let b = rect.bottom();
        let mut x: u64 = l as u64;
        proof {
            assert(canvas_view(*canvas) =~= blend_partial(
                v0,
                dims,
                l as int,
                r_ as int,
                t as int,
                b as int,
                l as int,
                t as int,
                color.channels(),
            ));
        }
        while x <= r_ as u64
            invariant
                l == rect.spec_left(),
                r_ == rect.spec_right(),
                t == rect.spec_top(),
                b == rect.spec_bottom(),
                rect.wf(),
                l as u64 <= x <= r_ as u64 + 1,
                v0.dom() == grid_dom(dims),
                canvas_dims(*canvas) == dims,
                canvas_view(*canvas) == blend_partial(
                    v0,
                    dims,
                    l as int,
                    r_ as int,
                    t as int,
                    b as int,
                    x as int,
                    t as int,
                    color.channels(),
                ),
            decreases r_ as u64 + 1 - x,
        {
            let mut y: u64 = t as u64;
            while y <= b as u64
                invariant
                    l == rect.spec_left(),
                    r_ == rect.spec_right(),
                    t == rect.spec_top(),
                    b == rect.spec_bottom(),
                    rect.wf(),
                    l as u64 <= x <= r_ as u64,
                    t as u64 <= y <= b as u64 + 1,
                    v0.dom() == grid_dom(dims),
                    canvas_dims(*canvas) == dims,
                    canvas_view(*canvas) == blend_partial(
                        v0,
                        dims,
                        l as int,
                        r_ as int,
                        t as int,
                        b as int,
                        x as int,
                        y as int,
                        color.channels(),
                    ),
                decreases b as u64 + 1 - y,
            {
                canvas.blend_at(x as i64, y as i64, color);
                proof {
                    lemma_blend_partial_step(
                        v0,
                        dims,
                        l as int,
                        r_ as int,
                        t as int,
                        b as int,
                        x as int,
                        y as int,
                        color.channels(),
                    );
                }
                y = y + 1;
            }
            proof {
                lemma_blend_partial_column_done(
                    v0,
                    dims,
                    l as int,
                    r_ as int,
                    t as int,
                    b as int,
                    x as int,
                    color.channels(),
                );
            }
            x = x + 1;
        }
        proof {
            assert(blend_partial(
                v0,
                dims,
                l as int,
                r_ as int,
                t as int,
                b as int,
                r_ as int + 1,
                t as int,
                color.channels(),
            ) =~= blend_box(v0, dims, l as int, r_ as int, t as int, b as int, color.channels()));
            assert(canvas_view(*canvas).dom() =~= grid_dom(dims));
        }
    }

    /// The midpoint octant walk shared by circle and arc drawing: plot the
    /// eight filtered symmetric points per step, advancing x each step and
    /// retracting y when the decision variable has gone non-negative.
    #[verifier::rlimit(50)]
    fn midpoint_walk(
        &self,
        canvas: &mut Canvas,
        cx: i64,
        cy: i64,
        radius: u32,
        color: Color,
        filter: &PixelFilter,
    )
        requires
            filter.wf(),
            radius >= 1,
            0 <= cx <= u32::MAX,
            0 <= cy <= u32::MAX,
        ensures
            canvas_dims(*final(canvas)) == canvas_dims(*old(canvas)),
            canvas_view(*final(canvas)) == apply_writes(
                canvas_view(*old(canvas)),
                canvas_dims(*old(canvas)),
                octant_writes(
                    cx as int,
                    cy as int,
                    0,
                    radius as int,
                    1 - radius as int,
                    color.channels(),
                    *filter,
                ),
            ),
    {
        let ghost v0 = canvas_view(*canvas);
        let ghost dims = canvas_dims(*canvas);
        let ghost full = octant_writes(
            cx as int,
            cy as int,
            0,
            radius as int,
            1 - radius as int,
            color.channels(),
            *filter,
        );
        let mut x: i64 = 0;
        let mut y: i64 = radius as i64;
        let mut p: i128 = 1 - (radius as i128);
        while x <= y
            invariant
                filter.wf(),
                0 <= cx <= u32::MAX,
                0 <= cy <= u32::MAX,
                1 <= radius <= u32::MAX,
                0 <= x <= y + 2,
                x <= radius as i64 + 1,
                0 <= y <= radius,
                x == 0 ==> y == radius as i64,
                p as int == (x as int + 1) * (x as int + 1) + (y as int) * (y as int) - y as int - (
                radius as int) * (radius as int),
                canvas_dims(*canvas) == dims,
                apply_writes(v0, dims, full) == apply_writes(
                    canvas_view(*canvas),
                    dims,
                    octant_writes(
                        cx as int,
                        cy as int,
                        x as int,
                        y as int,
                        p as int,
                        color.channels(),
                        *filter,
                    ),
                ),
            decreases y - x + 2,
        {
            let ghost gx = x as int;
            let ghost gy = y as int;
            let ghost gp = p as int;
            let ghost c = color.channels();
            let ghost s0 = opt_write(*filter, cx as int + gx, cy as int + gy, c);
            let ghost s1 = opt_write(*filter, cx as int + gy, cy as int + gx, c);
            let ghost s2 = opt_write(*filter, cx as int - gy, cy as int + gx, c);
            let ghost s3 = opt_write(*filter, cx as int - gx, cy as int + gy, c);
            let ghost s4 = opt_write(*filter, cx as int - gx, cy as int - gy, c);
            let ghost s5 = opt_write(*filter, cx as int - gy, cy as int - gx, c);
            let ghost s6 = opt_write(*filter, cx as int + gy, cy as int - gx, c);
            let ghost s7 = opt_write(*filter, cx as int + gx, cy as int - gy, c);
            let ghost w8 = octant8(cx as int, cy as int, gx, gy, c, *filter);
            let ghost vh = canvas_view(*canvas);
            blend_if(canvas, cx + x, cy + y, color, filter);
            proof {
                lemma_apply_writes_concat(vh, dims, s0, s1);
            }
            blend_if(canvas, cx + y, cy + x, color, filter);
            proof {
                lemma_apply_writes_concat(vh, dims, s0 + s1, s2);
            }
            blend_if(canvas, cx - y, cy + x, color, filter);
            proof {
                lemma_apply_writes_concat(vh, dims, s0 + s1 + s2, s3);
            }
            blend_if(canvas, cx - x, cy + y, color, filter);
            proof {
                lemma_apply_writes_concat(vh, dims, s0 + s1 + s2 + s3, s4);
            }
            blend_if(canvas, cx - x, cy - y, color, filter);
            proof {
                lemma_apply_writes_concat(vh, dims, s0 + s1 + s2 + s3 + s4, s5);
            }
            blend_if(canvas, cx - y, cy - x, color, filter);
            proof {
                lemma_apply_writes_concat(vh, dims, s0 + s1 + s2 + s3 + s4 + s5, s6);
            }
            blend_if(canvas, cx + y, cy - x, color, filter);
            proof {
                lemma_apply_writes_concat(vh, dims, s0 + s1 + s2 + s3 + s4 + s5 + s6, s7);
            }
            blend_if(canvas, cx + x, cy - y, color, filter);
            proof {
                assert(canvas_view(*canvas) == apply_writes(vh, dims, w8));
                if gx < gy {
                    let rest = if gp < 0 {
                        octant_writes(
                            cx as int,
                            cy as int,
                            gx + 1,
                            gy,
                            gp + 2 * (gx + 1) + 1,
                            c,
                            *filter,
                        )
                    } else {
                        octant_writes(
                            cx as int,
                            cy as int,
                            gx + 1,
                            gy - 1,
                            gp + 2 * ((gx + 1) - (gy - 1)) + 1,
                            c,
                            *filter,
                        )
                    };
                    assert(octant_writes(cx as int, cy as int, gx, gy, gp, c, *filter) == w8
                        + rest);
                    lemma_apply_writes_concat(vh, dims, w8, rest);
                }
            }
            let ghost rr = radius as int;
            proof {
                assert(gp + 2 * (gx + 1) + 1 == (gx + 2) * (gx + 2) + gy * gy - gy - rr * rr)
                    by (nonlinear_arith)
                    requires
                        gp == (gx + 1) * (gx + 1) + gy * gy - gy - rr * rr,
                ;
                assert(gp + 2 * ((gx + 1) - (gy - 1)) + 1 == (gx + 2) * (gx + 2) + (gy - 1) * (gy
                    - 1) - (gy - 1) - rr * rr) by (nonlinear_arith)
                    requires
                        gp == (gx + 1) * (gx + 1) + gy * gy - gy - rr * rr,
                ;
                assert(-(0x4_0000_0000_0000_0000 as int) <= gp <= 0x4_0000_0000_0000_0000 as int)
                    by (nonlinear_arith)
                    requires
                        gp == (gx + 1) * (gx + 1) + gy * gy - gy - rr * rr,
                        0 <= gx <= rr + 1,
                        0 <= gy <= rr,
                        1 <= rr <= u32::MAX,
                ;
            }
            x = x + 1;
            if p < 0 {
                p = p + 2 * (x as i128) + 1;
            } else {
                y = y - 1;
                p = p + 2 * ((x as i128) - (y as i128)) + 1;
            }
            proof {
                if gx == gy {
                    assert(octant_writes(
                        cx as int,
                        cy as int,
                        x as int,
                        y as int,
                        p as int,
                        c,
                        *filter,
                    ) == Seq::<PixelWrite>::empty());
                }
            }
        }
    }

    /// Plot the aliased circle by the midpoint walk; a radius of zero is a
    /// complete no-op.
    pub fn draw_circle(&self, canvas: &mut Canvas, circle: Circle, color: Color)
        ensures
            canvas_dims(*final(canvas)) == canvas_dims(*old(canvas)),
            canvas_view(*final(canvas)) == apply_writes(
                canvas_view(*old(canvas)),
                canvas_dims(*old(canvas)),
                circle_op_writes(
                    circle.spec_center().0 as int,
                    circle.spec_center().1 as int,
                    circle.spec_radius() as int,
                    color.channels(),
                ),
            ),
            circle.spec_radius() == 0 ==> canvas_view(*final(canvas)) == canvas_view(
                *old(canvas),
            ),
            canvas_wf(*old(canvas)) ==> canvas_wf(*final(canvas)),
    {
        let ghost v0 = canvas_view(*canvas);
        let ghost dims = canvas_dims(*canvas);
        let radius = circle.radius();
        if radius == 0 {
            return ;
        }
        let center = circle.center();
        self.midpoint_walk(canvas, center.0 as i64, center.1 as i64, radius, color, &PixelFilter::All);
        proof {
            if canvas_wf(*old(canvas)) {
                crate::canvas::lemma_apply_writes_wf(
                    v0,
                    dims,
                    circle_op_writes(
                    circle.spec_center().0 as int,
                    circle.spec_center().1 as int,
                    circle.spec_radius() as int,
                    color.channels(),
                ),
                );
            }
        }
    }

    /// Plot the part of the aliased circle whose points lie inside the
    /// angular span [start, end]: the same midpoint walk, wedge-filtered.
    /// The span is normalized and ordered first, so it cannot cross the
    /// 0/360 degree seam; a caller needing that issues two calls.
    #[verifier::rlimit(50)]
    pub fn draw_arc(
        &self,
        canvas: &mut Canvas,
        circle: Circle,
        start: Angle,
        end: Angle,
        color: Color,
    )
        requires
            start.spec_raw() > i64::MIN,
            end.spec_raw() > i64::MIN,
        ensures
            canvas_dims(*final(canvas)) == canvas_dims(*old(canvas)),
            canvas_view(*final(canvas)) == apply_writes(
                canvas_view(*old(canvas)),
                canvas_dims(*old(canvas)),
                arc_op_writes(
                    circle.spec_center().0 as int,
                    circle.spec_center().1 as int,
                    circle.spec_radius() as int,
                    start,
                    end,
                    color.channels(),
                ),
            ),
            circle.spec_radius() == 0 ==> canvas_view(*final(canvas)) == canvas_view(
                *old(canvas),
            ),
            canvas_wf(*old(canvas)) ==> canvas_wf(*final(canvas)),
    {
        let ghost v0 = canvas_view(*canvas);
        let ghost dims = canvas_dims(*canvas);
        let radius = circle.radius();
        if radius == 0 {
            return ;
        }
        let center = circle.center();
        let filter = ordered_wedge(center, start, end);
        self.midpoint_walk(canvas, center.0 as i64, center.1 as i64, radius, color, &filter);
        proof {
            if canvas_wf(*old(canvas)) {
                crate::canvas::lemma_apply_writes_wf(
                    v0,
                    dims,
                    arc_op_writes(
                    circle.spec_center().0 as int,
                    circle.spec_center().1 as int,
                    circle.spec_radius() as int,
                    start,
                    end,
                    color.channels(),
                ),
                );
            }
        }
    }

    /// The filled midpoint walk shared by filled circle and filled arc
    /// drawing: per step, up to four horizontal spans between symmetric
    /// offsets, each traced by the filtered line walk and guarded so that a
    /// span's left end never lies left of zero.
    #[verifier::rlimit(50)]
    fn filled_midpoint_walk(
        &self,
        canvas: &mut Canvas,
        cx: i64,
        cy: i64,
        radius: u32,
        color: Color,
        filter: &PixelFilter,
    )
        requires
            filter.wf(),
            radius >= 1,
            0 <= cx <= u32::MAX,
            0 <= cy <= u32::MAX,
        ensures
            canvas_dims(*final(canvas)) == canvas_dims(*old(canvas)),
            canvas_view(*final(canvas)) == apply_writes(
                canvas_view(*old(canvas)),
                canvas_dims(*old(canvas)),
                filled_octant_writes(
                    cx as int,
                    cy as int,
                    0,
                    radius as int,
                    1 - radius as int,
                    color.channels(),
                    *filter,
                ),
            ),
    {
        let ghost v0 = canvas_view(*canvas);
        let ghost dims = canvas_dims(*canvas);
        let ghost full = filled_octant_writes(
            cx as int,
            cy as int,
            0,
            radius as int,
            1 - radius as int,
            color.channels(),
            *filter,
        );
        let mut x: i64 = 0;
        let mut y: i64 = radius as i64;
        let mut p: i128 = 1 - (radius as i128);
        while x <= y
            invariant
                filter.wf(),
                0 <= cx <= u32::MAX,
                0 <= cy <= u32::MAX,
                1 <= radius <= u32::MAX,
                0 <= x <= y + 2,
                x <= radius as i64 + 1,
                0 <= y <= radius,
                x == 0 ==> y == radius as i64,
                p as int == (x as int + 1) * (x as int + 1) + (y as int) * (y as int) - y as int - (
                radius as int) * (radius as int),
                canvas_dims(*canvas) == dims,
                apply_writes(v0, dims, full) == apply_writes(
                    canvas_view(*canvas),
                    dims,
                    filled_octant_writes(
                        cx as int,
                        cy as int,
                        x as int,
                        y as int,
                        p as int,
                        color.channels(),
                        *filter,
                    ),
                ),
            decreases y - x + 2,
        {
            let ghost gx = x as int;
            let ghost gy = y as int;
            let ghost gp = p as int;
            let ghost c = color.channels();
            let ghost f = *filter;
            let ghost ccx = cx as int;
            let ghost ccy = cy as int;
            let ghost s0 = if ccx >= gx {
                line_writes((ccx - gx, ccy + gy), (ccx + gx, ccy + gy), c, f)
            } else {
                Seq::<PixelWrite>::empty()
            };
            let ghost s1 = if ccx >= gy {
                line_writes((ccx - gy, ccy + gx), (ccx + gy, ccy + gx), c, f)
            } else {
                Seq::<PixelWrite>::empty()
            };
            let ghost s2 = if ccx >= gx && ccy >= gy {
                line_writes((ccx - gx, ccy - gy), (ccx + gx, ccy - gy), c, f)
            } else {
                Seq::<PixelWrite>::empty()
            };
            let ghost s3 = if ccx >= gy && ccy >= gx {
                line_writes((ccx - gy, ccy - gx), (ccx + gy, ccy - gx), c, f)
            } else {
                Seq::<PixelWrite>::empty()
            };
            let ghost w4 = span4(ccx, ccy, gx, gy, c, f);
            let ghost vh = canvas_view(*canvas);
            if cx >= x {
                self.filtered_draw_line(canvas, (cx - x, cy + y), (cx + x, cy + y), color, filter);
            }
            proof {
                lemma_apply_writes_concat(vh, dims, s0, s1);
            }
            if cx >= y {
                self.filtered_draw_line(canvas, (cx - y, cy + x), (cx + y, cy + x), color, filter);
            }
            proof {
                lemma_apply_writes_concat(vh, dims, s0 + s1, s2);
            }
            if cx >= x && cy >= y {
                self.filtered_draw_line(canvas, (cx - x, cy - y), (cx + x, cy - y), color, filter);
            }
            proof {
                lemma_apply_writes_concat(vh, dims, s0 + s1 + s2, s3);
            }
            if cx >= y && cy >= x {
                self.filtered_draw_line(canvas, (cx - y, cy - x), (cx + y, cy - x), color, filter);
            }
            proof {
                assert(canvas_view(*canvas) == apply_writes(vh, dims, w4));
                if gx < gy {
                    let rest = if gp < 0 {
                        filled_octant_writes(ccx, ccy, gx + 1, gy, gp + 2 * (gx + 1) + 1, c, f)
                    } else {
                        filled_octant_writes(
                            ccx,
                            ccy,
                            gx + 1,
                            gy - 1,
                            gp + 2 * ((gx + 1) - (gy - 1)) + 1,
                            c,
                            f,
                        )
                    };
                    assert(filled_octant_writes(ccx, ccy, gx, gy, gp, c, f) == w4 + rest);
                    lemma_apply_writes_concat(vh, dims, w4, rest);
                }
            }
            let ghost rr = radius as int;
            proof {
                assert(gp + 2 * (gx + 1) + 1 == (gx + 2) * (gx + 2) + gy * gy - gy - rr * rr)
                    by (nonlinear_arith)
                    requires
                        gp == (gx + 1) * (gx + 1) + gy * gy - gy - rr * rr,
                ;
                assert(gp + 2 * ((gx + 1) - (gy - 1)) + 1 == (gx + 2) * (gx + 2) + (gy - 1) * (gy
                    - 1) - (gy - 1) - rr * rr) by (nonlinear_arith)
                    requires
                        gp == (gx + 1) * (gx + 1) + gy * gy - gy - rr * rr,
                ;
                assert(-(0x4_0000_0000_0000_0000 as int) <= gp <= 0x4_0000_0000_0000_0000 as int)
                    by (nonlinear_arith)
                    requires
                        gp == (gx + 1) * (gx + 1) + gy * gy - gy - rr * rr,
                        0 <= gx <= rr + 1,
                        0 <= gy <= rr,
                        1 <= rr <= u32::MAX,
                ;
            }
            x = x + 1;
            if p < 0 {
                p = p + 2 * (x as i128) + 1;
            } else {
                y = y - 1;
                p = p + 2 * ((x as i128) - (y as i128)) + 1;
            }
            proof {
                if gx == gy {
                    assert(filled_octant_writes(ccx, ccy, x as int, y as int, p as int, c, f)
                        == Seq::<PixelWrite>::empty());
                }
            }
        }
    }

    /// Fill the aliased circle: the two diameters first, then per midpoint
    /// step the horizontal spans between symmetric offsets. A radius of zero
    /// is a complete no-op.
    #[verifier::rlimit(50)]
    pub fn draw_filled_circle(&self, canvas: &mut Canvas, circle: Circle, color: Color)
        ensures
            canvas_dims(*final(canvas)) == canvas_dims(*old(canvas)),
            canvas_view(*final(canvas)) == apply_writes(
                canvas_view(*old(canvas)),
                canvas_dims(*old(canvas)),
                filled_circle_op_writes(
                    circle.spec_center().0 as int,
                    circle.spec_center().1 as int,
                    circle.spec_radius() as int,
                    color.channels(),
                ),
            ),
            circle.spec_radius() == 0 ==> canvas_view(*final(canvas)) == canvas_view(
                *old(canvas),
            ),
            canvas_wf(*old(canvas)) ==> canvas_wf(*final(canvas)),
    {
        let ghost v0 = canvas_view(*canvas);
        let ghost dims = canvas_dims(*canvas);
        let radius = circle.radius();
        if radius == 0 {
            return ;
        }
        let center = circle.center();
        let cx = center.0 as i64;
        let cy = center.1 as i64;
        let r = radius as i64;
        let ghost c = color.channels();
        let ghost d1 = line_writes(
            (cx as int + r as int, cy as int),
            (cx as int - r as int, cy as int),
            c,
            PixelFilter::All,
        );
        let ghost d2 = line_writes(
            (cx as int, cy as int + r as int),
            (cx as int, cy as int - r as int),
            c,
            PixelFilter::All,
        );
        let ghost w = filled_octant_writes(
            cx as int,
            cy as int,
            0,
            radius as int,
            1 - radius as int,
            c,
            PixelFilter::All,
        );
        self.filtered_draw_line(canvas, (cx + r, cy), (cx - r, cy), color, &PixelFilter::All);
        proof {
            lemma_apply_writes_concat(v0, dims, d1, d2);
        }
        self.filtered_draw_line(canvas, (cx, cy + r), (cx, cy - r), color, &PixelFilter::All);
        proof {
            lemma_apply_writes_concat(v0, dims, d1 + d2, w);
        }
        self.filled_midpoint_walk(canvas, cx, cy, radius, color, &PixelFilter::All);
        proof {
            if canvas_wf(*old(canvas)) {
                crate::canvas::lemma_apply_writes_wf(
                    v0,
                    dims,
                    filled_circle_op_writes(
                    circle.spec_center().0 as int,
                    circle.spec_center().1 as int,
                    circle.spec_radius() as int,
                    color.channels(),
                ),
                );
            }
        }
    }

    /// Fill the circular sector of the angular span [start, end]: the center
    /// pixel, the two wedge-filtered axis radii, and per midpoint step the
    /// wedge-filtered spans. A radius of zero is a complete no-op.
    #[verifier::rlimit(50)]
    pub fn draw_filled_arc(
        &self,
        canvas: &mut Canvas,
        circle: Circle,
        start: Angle,
        end: Angle,
        color: Color,
    )
        requires
            start.spec_raw() > i64::MIN,
            end.spec_raw() > i64::MIN,
        ensures
            canvas_dims(*final(canvas)) == canvas_dims(*old(canvas)),
            canvas_view(*final(canvas)) == apply_writes(
                canvas_view(*old(canvas)),
                canvas_dims(*old(canvas)),
                filled_arc_op_writes(
                    circle.spec_center().0 as int,
                    circle.spec_center().1 as int,
                    circle.spec_radius() as int,
                    start,
                    end,
                    color.channels(),
                ),
            ),
            circle.spec_radius() == 0 ==> canvas_view(*final(canvas)) == canvas_view(
                *old(canvas),
            ),
            canvas_wf(*old(canvas)) ==> canvas_wf(*final(canvas)),
    {
        let ghost v0 = canvas_view(*canvas);
        let ghost dims = canvas_dims(*canvas);
        let radius = circle.radius();
        if radius == 0 {
            return ;
        }
        let center = circle.center();
        let cx = center.0 as i64;
        let cy = center.1 as i64;
        let r = radius as i64;
        let filter = ordered_wedge(center, start, end);
        let ghost c = color.channels();
        let ghost f = arc_filter(cx as int, cy as int, start, end);
        let ghost s0 = seq![(((cx as int, cy as int)), c)];
        let ghost s1 = line_writes(
            (cx as int - r as int, cy as int),
            (cx as int + r as int, cy as int),
            c,
            f,
        );
        let ghost s2 = line_writes(
            (cx as int, cy as int - r as int),
            (cx as int, cy as int + r as int),
            c,
            f,
        );
        let ghost s3 = filled_octant_writes(
            cx as int,
            cy as int,
            0,
            radius as int,
            1 - radius as int,
            c,
            f,
        );
        canvas.blend_at(cx, cy, color);
        proof {
            crate::canvas::lemma_apply_writes_single(v0, dims, ((cx as int, cy as int), c));
            lemma_apply_writes_concat(v0, dims, s0, s1);
        }
        self.filtered_draw_line(canvas, (cx - r, cy), (cx + r, cy), color, &filter);
        proof {
            lemma_apply_writes_concat(v0, dims, s0 + s1, s2);
        }
        self.filtered_draw_line(canvas, (cx, cy - r), (cx, cy + r), color, &filter);
        proof {
            lemma_apply_writes_concat(v0, dims, s0 + s1 + s2, s3);
        }
        self.filled_midpoint_walk(canvas, cx, cy, radius, color, &filter);
        proof {
            if canvas_wf(*old(canvas)) {
                crate::canvas::lemma_apply_writes_wf(
                    v0,
                    dims,
                    filled_arc_op_writes(
                    circle.spec_center().0 as int,
                    circle.spec_center().1 as int,
                    circle.spec_radius() as int,
                    start,
                    end,
                    color.channels(),
                ),
                );
            }
        }
    }

    /// Draw the rounded-rectangle outline: the two vertical edges with their
    /// adjoining quarter arcs, then the two horizontal edges, each drawn by
    /// this renderer's own line and arc primitives. The corner radius must
    /// not exceed half the width or half the height.
    #[verifier::rlimit(50)]
    pub fn draw_rounded_rect(
        &self,
        canvas: &mut Canvas,
        rect: Rect,
        corner_radius: u32,
        color: Color,
    )
        requires
            rect.wf(),
            2 * corner_radius <= rect.spec_width(),
            2 * corner_radius <= rect.spec_height(),
        ensures
            canvas_dims(*final(canvas)) == canvas_dims(*old(canvas)),
            canvas_view(*final(canvas)) == apply_writes(
                canvas_view(*old(canvas)),
                canvas_dims(*old(canvas)),
                rounded_rect_writes(rect, corner_radius as int, color.channels()),
            ),
            canvas_wf(*old(canvas)) ==> canvas_wf(*final(canvas)),
    {
        let ghost v0 = canvas_view(*canvas);
        let ghost dims = canvas_dims(*canvas);
        let ghost col = color.channels();
        let ghost cr = corner_radius as int;
        let l = rect.left();
        let r_ = rect.right();
        let t = rect.top();
        let b = rect.bottom();
        let cradius = corner_radius;
        let ghost gl = l as int;
        let ghost gr = r_ as int;
        let ghost gt = t as int;
        let ghost gb = b as int;
        let ghost s0 = line_writes((gl, gt + cr), (gl, gb - cr), col, PixelFilter::All);
        let ghost s1 = arc_op_writes(
            gl + cr,
            gt + cr,
            cr,
            Angle::Degrees(180_000),
            Angle::Degrees(270_000),
            col,
        );
        let ghost s2 = arc_op_writes(
            gl + cr,
            gb - cr,
            cr,
            Angle::Degrees(90_000),
            Angle::Degrees(180_000),
            col,
        );
        let ghost s3 = line_writes((gr, gt + cr), (gr, gb - cr), col, PixelFilter::All);
        let ghost s4 = arc_op_writes(
            gr - cr,
            gt + cr,
            cr,
            Angle::Degrees(270_000),
            Angle::Degrees(360_000),
            col,
        );
        let ghost s5 = arc_op_writes(
            gr - cr,
            gb - cr,
            cr,
            Angle::Degrees(0),
            Angle::Degrees(90_000),
            col,
        );
        let ghost s6 = line_writes((gl + cr, gt), (gr - cr, gt), col, PixelFilter::All);
        let ghost s7 = line_writes((gl + cr, gb), (gr - cr, gb), col, PixelFilter::All);
        self.draw_line(canvas, (l, t + cradius), (l, b - cradius), color);
        proof {
            lemma_apply_writes_concat(v0, dims, s0, s1);
        }
        self.draw_arc(
            canvas,
            Circle::new((l + cradius, t + cradius), cradius),
            Angle::Degrees(180_000),
            Angle::Degrees(270_000),
            color,
        );
        proof {
            lemma_apply_writes_concat(v0, dims, s0 + s1, s2);
        }
        self.draw_arc(
            canvas,
            Circle::new((l + cradius, b - cradius), cradius),
            Angle::Degrees(90_000),
            Angle::Degrees(180_000),
            color,
        );
        proof {
            lemma_apply_writes_concat(v0, dims, s0 + s1 + s2, s3);
        }
        self.draw_line(canvas, (r_, t + cradius), (r_, b - cradius), color);
        proof {
            lemma_apply_writes_concat(v0, dims, s0 + s1 + s2 + s3, s4);
        }
        self.draw_arc(
            canvas,
            Circle::new((r_ - cradius, t + cradius), cradius),
            Angle::Degrees(270_000),
            Angle::Degrees(360_000),
            color,
        );
        proof {
            lemma_apply_writes_concat(v0, dims, s0 + s1 + s2 + s3 + s4, s5);
        }
        self.draw_arc(
            canvas,
            Circle::new((r_ - cradius, b - cradius), cradius),
            Angle::Degrees(0),
            Angle::Degrees(90_000),
            color,
        );
        proof {
            lemma_apply_writes_concat(v0, dims, s0 + s1 + s2 + s3 + s4 + s5, s6);
        }
        self.draw_line(canvas, (l + cradius, t), (r_ - cradius, t), color);
        proof {
            lemma_apply_writes_concat(v0, dims, s0 + s1 + s2 + s3 + s4 + s5 + s6, s7);
        }
        self.draw_line(canvas, (l + cradius, b), (r_ - cradius, b), color);
        proof {
            if canvas_wf(*old(canvas)) {
                crate::canvas::lemma_apply_writes_wf(
                    v0,
                    dims,
                    rounded_rect_writes(rect, cr, col),
                );
            }
        }
    }

    /// Fill the rounded rectangle: the center box, the two side boxes, then
    /// the four filled corner sectors, each drawn by this renderer's own
    /// filled-rectangle and filled-arc primitives. The corner radius must
    /// not exceed half the width or half the height.
    #[verifier::rlimit(50)]
    pub fn draw_filled_rounded_rect(
        &self,
        canvas: &mut Canvas,
        rect: Rect,
        corner_radius: u32,
        color: Color,
    )
        requires
            rect.wf(),
            canvas_wf(*old(canvas)),
            2 * corner_radius <= rect.spec_width(),
            2 * corner_radius <= rect.spec_height(),
        ensures
            canvas_dims(*final(canvas)) == canvas_dims(*old(canvas)),
            canvas_view(*final(canvas)) == filled_rounded_rect_map(
                canvas_view(*old(canvas)),
                canvas_dims(*old(canvas)),
                rect,
                corner_radius as int,
                color.channels(),
            ),
            canvas_wf(*final(canvas)),
    {
        let l = rect.left();
        let r_ = rect.right();
        let t = rect.top();
        let b = rect.bottom();
        let w = rect.width();
        let h = rect.height();
        let cradius = corner_radius;
        self.draw_filled_rect(
            canvas,
            Rect::new(l + cradius, t, w - 2 * cradius, h),
            color,
        );
        self.draw_filled_rect(
            canvas,
            Rect::new(l, t + cradius, cradius, h - 2 * cradius),
            color,
        );
        self.draw_filled_rect(
            canvas,
            Rect::new(r_ - cradius, t + cradius, cradius, h - 2 * cradius),
            color,
        );
        self.draw_filled_arc(
            canvas,
            Circle::new((l + cradius, t + cradius), cradius),
            Angle::Degrees(180_000),
            Angle::Degrees(270_000),
            color,
        );
        self.draw_filled_arc(
            canvas,
            Circle::new((l + cradius, b - cradius), cradius),
            Angle::Degrees(90_000),
            Angle::Degrees(180_000),
            color,
        );
        self.draw_filled_arc(
            canvas,
            Circle::new((r_ - cradius, t + cradius), cradius),
            Angle::Degrees(270_000),
            Angle::Degrees(360_000),
            color,
        );
        self.draw_filled_arc(
            canvas,
            Circle::new((r_ - cradius, b - cradius), cradius),
            Angle::Degrees(0),
            Angle::Degrees(90_000),
            color,
        );
    }
}

/// The squared Euclidean distance of a pixel from a center.
pub open spec fn dist2(cx: int, cy: int, w: (int, int)) -> int {
    (w.0 - cx) * (w.0 - cx) + (w.1 - cy) * (w.1 - cy)
}

/// The eight writes starting at `base` are one full symmetric orbit: the
/// eight reflections (across both axes and the diagonal) of the first
/// write's offset from the center, all with one color.
pub open spec fn orbit_at(ws: Seq<PixelWrite>, cx: int, cy: int, base: int) -> bool {
    let dx = ws[base].0.0 - cx;
    let dy = ws[base].0.1 - cy;
    let c = ws[base].1;
    &&& ws[base + 1] == ((cx + dy, cy + dx), c)
    &&& ws[base + 2] == ((cx - dy, cy + dx), c)
    &&& ws[base + 3] == ((cx - dx, cy + dy), c)
    &&& ws[base + 4] == ((cx - dx, cy - dy), c)
    &&& ws[base + 5] == ((cx - dy, cy - dx), c)
    &&& ws[base + 6] == ((cx + dy, cy - dx), c)
    &&& ws[base + 7] == ((cx + dx, cy - dy), c)
}

proof fn lemma_octant_writes_orbits(cx: int, cy: int, x: int, y: int, p: int, c: Channels)
    requires
        x <= y + 2,
    ensures
        octant_writes(cx, cy, x, y, p, c, PixelFilter::All).len() % 8 == 0,
        forall|j: int|
            0 <= j && 8 * j < octant_writes(cx, cy, x, y, p, c, PixelFilter::All).len()
                ==> #[trigger] orbit_at(octant_writes(cx, cy, x, y, p, c, PixelFilter::All), cx, cy, 8 * j),
    decreases y - x + 2,
{
    let ws = octant_writes(cx, cy, x, y, p, c, PixelFilter::All);
    if x > y {
    } else {
        let w8 = octant8(cx, cy, x, y, c, PixelFilter::All);
        assert(w8 =~= seq![
            ((cx + x, cy + y), c),
            ((cx + y, cy + x), c),
            ((cx - y, cy + x), c),
            ((cx - x, cy + y), c),
            ((cx - x, cy - y), c),
            ((cx - y, cy - x), c),
            ((cx + y, cy - x), c),
            ((cx + x, cy - y), c),
        ]);
        if x == y {
            assert(orbit_at(ws, cx, cy, 0));
            assert(ws.len() == 8);
        } else {
            let rest = if p < 0 {
                octant_writes(cx, cy, x + 1, y, p + 2 * (x + 1) + 1, c, PixelFilter::All)
            } else {
                octant_writes(
                    cx,
                    cy,
                    x + 1,
                    y - 1,
                    p + 2 * ((x + 1) - (y - 1)) + 1,
                    c,
                    PixelFilter::All,
                )
            };
            if p < 0 {
                lemma_octant_writes_orbits(cx, cy, x + 1, y, p + 2 * (x + 1) + 1, c);
            } else {
                lemma_octant_writes_orbits(cx, cy, x + 1, y - 1, p + 2 * ((x + 1) - (y - 1)) + 1, c);
            }
            assert(ws == w8 + rest);
            assert(orbit_at(ws, cx, cy, 0));
            assert forall|j: int| 1 <= j && 8 * j < ws.len() implies #[trigger] orbit_at(ws, cx, cy, 8 * j) by {
                assert(orbit_at(rest, cx, cy, 8 * (j - 1)));
                assert(forall|i: int| 0 <= i < rest.len() ==> ws[8 + i] == rest[i]);
            }
        }
    }
}

proof fn lemma_octant_writes_ring(cx: int, cy: int, x: int, y: int, p: int, c: Channels, r: int)
    requires
        0 <= x,
        x <= y + 2,
        0 <= y <= r,
        1 <= r,
        p == (x + 1) * (x + 1) + y * y - y - r * r,
        x <= y ==> r * r <= x * x + y * y + y,
        x <= y ==> x * x + y * y - y <= r * r - 1,
    ensures
        forall|i: int|
            0 <= i < octant_writes(cx, cy, x, y, p, c, PixelFilter::All).len() ==> (r - 1) * (r
                - 1) <= #[trigger] dist2(
                cx,
                cy,
                octant_writes(cx, cy, x, y, p, c, PixelFilter::All)[i].0,
            ) <= r * r + r - 1,
    decreases y - x + 2,
{
    let ws = octant_writes(cx, cy, x, y, p, c, PixelFilter::All);
    if x > y {
    } else {
        let w8 = octant8(cx, cy, x, y, c, PixelFilter::All);
        assert(w8 =~= seq![
            ((cx + x, cy + y), c),
            ((cx + y, cy + x), c),
            ((cx - y, cy + x), c),
            ((cx - x, cy + y), c),
            ((cx - x, cy - y), c),
            ((cx - y, cy - x), c),
            ((cx + y, cy - x), c),
            ((cx + x, cy - y), c),
        ]);
        assert((-x) * (-x) == x * x && (-y) * (-y) == y * y) by (nonlinear_arith);
        assert forall|i: int| 0 <= i < 8 implies #[trigger] dist2(cx, cy, w8[i].0) == x * x + y
            * y by {
            assert(dist2(cx, cy, (cx + x, cy + y)) == x * x + y * y);
            assert(dist2(cx, cy, (cx + y, cy + x)) == x * x + y * y);
            assert(dist2(cx, cy, (cx - y, cy + x)) == x * x + y * y);
            assert(dist2(cx, cy, (cx - x, cy + y)) == x * x + y * y);
            assert(dist2(cx, cy, (cx - x, cy - y)) == x * x + y * y);
            assert(dist2(cx, cy, (cx - y, cy - x)) == x * x + y * y);
            assert(dist2(cx, cy, (cx + y, cy - x)) == x * x + y * y);
            assert(dist2(cx, cy, (cx + x, cy - y)) == x * x + y * y);
        }
        assert((r - 1) * (r - 1) <= r * r - r) by (nonlinear_arith)
            requires
                r >= 1,
        ;
        assert(r * r - r <= x * x + y * y && x * x + y * y <= r * r + r - 1) by (nonlinear_arith)
            requires
                r * r <= x * x + y * y + y,
                x * x + y * y - y <= r * r - 1,
                0 <= y <= r,
        ;
        if x == y {
        } else {
            let px = p + 2 * (x + 1) + 1;
            let py = p + 2 * ((x + 1) - (y - 1)) + 1;
            assert(p <= 2 * x) by (nonlinear_arith)
                requires
                    p == (x + 1) * (x + 1) + y * y - y - r * r,
                    x * x + y * y - y <= r * r - 1,
            ;
            if p < 0 {
                assert(p + 2 * (x + 1) + 1 == (x + 2) * (x + 2) + y * y - y - r * r)
                    by (nonlinear_arith)
                    requires
                        p == (x + 1) * (x + 1) + y * y - y - r * r,
                ;
                assert(x + 1 <= y ==> (x + 1) * (x + 1) + y * y - y <= r * r - 1) by (nonlinear_arith)
                    requires
                        p == (x + 1) * (x + 1) + y * y - y - r * r,
                        p < 0,
                ;
                assert(x + 1 <= y ==> r * r <= (x + 1) * (x + 1) + y * y + y) by (nonlinear_arith)
                    requires
                        r * r <= x * x + y * y + y,
                        x >= 0,
                ;
                lemma_octant_writes_ring(cx, cy, x + 1, y, px, c, r);
                let rest = octant_writes(cx, cy, x + 1, y, px, c, PixelFilter::All);
                assert(ws == w8 + rest);
                assert(forall|i: int| 0 <= i < rest.len() ==> ws[8 + i] == rest[i]);
            } else {
                assert(p + 2 * ((x + 1) - (y - 1)) + 1 == (x + 2) * (x + 2) + (y - 1) * (y - 1)
                    - (y - 1) - r * r) by (nonlinear_arith)
                    requires
                        p == (x + 1) * (x + 1) + y * y - y - r * r,
                ;
                assert(x + 1 <= y - 1 ==> p <= 2 * y - 4) by (nonlinear_arith)
                    requires
                        p <= 2 * x,
                ;
                assert(x + 1 <= y - 1 ==> (x + 1) * (x + 1) + (y - 1) * (y - 1) - (y - 1) <= r * r
                    - 1) by (nonlinear_arith)
                    requires
                        p == (x + 1) * (x + 1) + y * y - y - r * r,
                        p <= 2 * x,
                        x + 1 <= y - 1 ==> p <= 2 * y - 4,
                ;
                assert(r * r <= (x + 1) * (x + 1) + (y - 1) * (y - 1) + (y - 1)) by (nonlinear_arith)
                    requires
                        p == (x + 1) * (x + 1) + y * y - y - r * r,
                        p >= 0,
                ;
                assert(0 <= y - 1) by {
                    if y == 0 {
                        assert(x == 0);
                        assert(p == 1 - r * r);
                        assert(r * r >= 1) by (nonlinear_arith)
                            requires
                                r >= 1,
                        ;
                    }
                }
                lemma_octant_writes_ring(cx, cy, x + 1, y - 1, py, c, r);
                let rest = octant_writes(cx, cy, x + 1, y - 1, py, c, PixelFilter::All);
                assert(ws == w8 + rest);
                assert(forall|i: int| 0 <= i < rest.len() ==> ws[8 + i] == rest[i]);
            }
        }
    }
}

/// Every pixel the aliased circle walk plots lies on the one-pixel ring
/// around the true circle: its squared distance from the center is at
/// least (radius - 1)^2 and less than (radius + 1)^2 (at most
/// radius^2 + radius - 1).
pub proof fn lemma_circle_writes_ring(c: Circle, col: Channels)
    requires
        c.spec_radius() >= 1,
    ensures
        forall|i: int|
            #![trigger circle_writes(c.spec_center().0 as int, c.spec_center().1 as int, c.spec_radius() as int, col)[i]]
            0 <= i < circle_writes(
                c.spec_center().0 as int,
                c.spec_center().1 as int,
                c.spec_radius() as int,
                col,
            ).len() ==> (c.spec_radius() - 1) * (c.spec_radius() - 1) <= dist2(
                c.spec_center().0 as int,
                c.spec_center().1 as int,
                circle_writes(
                    c.spec_center().0 as int,
                    c.spec_center().1 as int,
                    c.spec_radius() as int,
                    col,
                )[i].0,
            ) <= c.spec_radius() * c.spec_radius() + c.spec_radius() - 1,
{
    let r = c.spec_radius() as int;
    assert(1 - r == (0 + 1) * (0 + 1) + r * r - r - r * r) by (nonlinear_arith);
    lemma_octant_writes_ring(
        c.spec_center().0 as int,
        c.spec_center().1 as int,
        0,
        r,
        1 - r,
        col,
        r,
    );
}

/// The aliased circle's writes fall into complete eight-point orbits: with
/// every plotted offset, all eight of its reflections across the axes and
/// the diagonals are plotted too, so the written set carries the circle's
/// eight reflective symmetries.
pub proof fn lemma_circle_writes_symmetric(c: Circle, col: Channels)
    requires
        c.spec_radius() >= 1,
    ensures
        circle_writes(
            c.spec_center().0 as int,
            c.spec_center().1 as int,
            c.spec_radius() as int,
            col,
        ).len() % 8 == 0,
        forall|j: int|
            0 <= j && 8 * j < circle_writes(
                c.spec_center().0 as int,
                c.spec_center().1 as int,
                c.spec_radius() as int,
                col,
            ).len() ==> #[trigger] orbit_at(
                circle_writes(
                    c.spec_center().0 as int,
                    c.spec_center().1 as int,
                    c.spec_radius() as int,
                    col,
                ),
                c.spec_center().0 as int,
                c.spec_center().1 as int,
                8 * j,
            ),
{
    lemma_octant_writes_orbits(
        c.spec_center().0 as int,
        c.spec_center().1 as int,
        0,
        c.spec_radius() as int,
        1 - c.spec_radius() as int,
        col,
    );
}

/// The writes of the rounded-rectangle outline: four straight edges and four
/// quarter-circle corner arcs, in the drawing order of `draw_rounded_rect`.
pub open spec fn rounded_rect_writes(rect: Rect, cr: int, col: Channels) -> Seq<PixelWrite> {
    let l = rect.spec_left() as int;
    let r = rect.spec_right();
    let t = rect.spec_top() as int;
    let b = rect.spec_bottom();
    line_writes((l, t + cr), (l, b - cr), col, PixelFilter::All) + arc_op_writes(
        l + cr,
        t + cr,
        cr,
        Angle::Degrees(180_000),
        Angle::Degrees(270_000),
        col,
    ) + arc_op_writes(l + cr, b - cr, cr, Angle::Degrees(90_000), Angle::Degrees(180_000), col)
        + line_writes((r, t + cr), (r, b - cr), col, PixelFilter::All) + arc_op_writes(
        r - cr,
        t + cr,
        cr,
        Angle::Degrees(270_000),
        Angle::Degrees(360_000),
        col,
    ) + arc_op_writes(r - cr, b - cr, cr, Angle::Degrees(0), Angle::Degrees(90_000), col)
        + line_writes((l + cr, t), (r - cr, t), col, PixelFilter::All) + line_writes(
        (l + cr, b),
        (r - cr, b),
        col,
        PixelFilter::All,
    )
}

/// The pixel map after filling a rounded rectangle: the center box, the two
/// side boxes, then the four filled corner sectors, in the drawing order of
/// `draw_filled_rounded_rect`.
pub open spec fn filled_rounded_rect_map(
    m: Map<(nat, nat), Channels>,
    dims: (nat, nat),
    rect: Rect,
    cr: int,
    col: Channels,
) -> Map<(nat, nat), Channels> {
    let l = rect.spec_left() as int;
    let r = rect.spec_right();
    let t = rect.spec_top() as int;
    let b = rect.spec_bottom();
    let m1 = blend_box(m, dims, l + cr, r - cr, t, b, col);
    let m2 = blend_box(m1, dims, l, l + cr, t + cr, b - cr, col);
    let m3 = blend_box(m2, dims, r - cr, r, t + cr, b - cr, col);
    let m4 = apply_writes(
        m3,
        dims,
        filled_arc_op_writes(
            l + cr,
            t + cr,
            cr,
            Angle::Degrees(180_000),
            Angle::Degrees(270_000),
            col,
        ),
    );
    let m5 = apply_writes(
        m4,
        dims,
        filled_arc_op_writes(
            l + cr,
            b - cr,
            cr,
            Angle::Degrees(90_000),
            Angle::Degrees(180_000),
            col,
        ),
    );
    let m6 = apply_writes(
        m5,
        dims,
        filled_arc_op_writes(
            r - cr,
            t + cr,
            cr,
            Angle::Degrees(270_000),
            Angle::Degrees(360_000),
            col,
        ),
    );
    apply_writes(
        m6,
        dims,
        filled_arc_op_writes(r - cr, b - cr, cr, Angle::Degrees(0), Angle::Degrees(90_000), col),
    )
}

/// The normalized, ordered wedge filter an arc call builds from its two
/// angle arguments.
pub(crate) fn ordered_wedge(center: (u32, u32), start: Angle, end: Angle) -> (r: PixelFilter)
    requires
        start.spec_raw() > i64::MIN,
        end.spec_raw() > i64::MIN,
    ensures
        r == arc_filter(center.0 as int, center.1 as int, start, end),
        r.wf(),
{
    proof {
        crate::types::lemma_normalized_in_range(start);
        crate::types::lemma_normalized_in_range(end);
    }
    let s = start.normalized();
    let e = end.normalized();
    if s.to_degrees() > e.to_degrees() {
        PixelFilter::Wedge { center: (center.0 as i64, center.1 as i64), start: e, end: s }
    } else {
        PixelFilter::Wedge { center: (center.0 as i64, center.1 as i64), start: s, end: e }
    }
}

/// The up-to-four horizontal spans of one filled midpoint step, each guarded
/// so that a span is only drawn when its left offset does not exceed the
/// center's x coordinate (and, for the upper spans, the center's y).
pub open spec fn span4(cx: int, cy: int, x: int, y: int, c: Channels, f: PixelFilter) -> Seq<
    PixelWrite,
> {
    (if cx >= x {
        line_writes((cx - x, cy + y), (cx + x, cy + y), c, f)
    } else {
        Seq::<PixelWrite>::empty()
    }) + (if cx >= y {
        line_writes((cx - y, cy + x), (cx + y, cy + x), c, f)
    } else {
        Seq::<PixelWrite>::empty()
    }) + (if cx >= x && cy >= y {
        line_writes((cx - x, cy - y), (cx + x, cy - y), c, f)
    } else {
        Seq::<PixelWrite>::empty()
    }) + (if cx >= y && cy >= x {
        line_writes((cx - y, cy - x), (cx + y, cy - x), c, f)
    } else {
        Seq::<PixelWrite>::empty()
    })
}

/// The requested writes of the filled midpoint walk from state (x, y, p).
pub open spec fn filled_octant_writes(
    cx: int,
    cy: int,
    x: int,
    y: int,
    p: int,
    c: Channels,
    f: PixelFilter,
) -> Seq<PixelWrite>
    decreases y - x + 2,
        when x <= y + 2
{
    if x > y {
        Seq::<PixelWrite>::empty()
    } else {
        let w4 = span4(cx, cy, x, y, c, f);
        if x == y {
            w4
        } else if p < 0 {
            w4 + filled_octant_writes(cx, cy, x + 1, y, p + 2 * (x + 1) + 1, c, f)
        } else {
            w4 + filled_octant_writes(cx, cy, x + 1, y - 1, p + 2 * ((x + 1) - (y - 1)) + 1, c, f)
        }
    }
}

/// The writes of the circle operation: empty for a zero radius.
pub open spec fn circle_op_writes(cx: int, cy: int, r: int, col: Channels) -> Seq<PixelWrite> {
    if r == 0 {
        Seq::<PixelWrite>::empty()
    } else {
        circle_writes(cx, cy, r, col)
    }
}

/// The writes of the arc operation: empty for a zero radius.
pub open spec fn arc_op_writes(cx: int, cy: int, r: int, start: Angle, end: Angle, col: Channels) -> Seq<
    PixelWrite,
> {
    if r == 0 {
        Seq::<PixelWrite>::empty()
    } else {
        arc_writes(cx, cy, r, start, end, col)
    }
}

/// The writes of the filled circle operation: the two diameters, then the
/// filled walk; empty for a zero radius.
pub open spec fn filled_circle_op_writes(cx: int, cy: int, r: int, col: Channels) -> Seq<
    PixelWrite,
> {
    if r == 0 {
        Seq::<PixelWrite>::empty()
    } else {
        line_writes((cx + r, cy), (cx - r, cy), col, PixelFilter::All) + line_writes(
            (cx, cy + r),
            (cx, cy - r),
            col,
            PixelFilter::All,
        ) + filled_octant_writes(cx, cy, 0, r, 1 - r, col, PixelFilter::All)
    }
}

/// The writes of the filled arc operation: the center pixel, the two
/// wedge-filtered axis radii, then the wedge-filtered filled walk; empty for
/// a zero radius.
pub open spec fn filled_arc_op_writes(
    cx: int,
    cy: int,
    r: int,
    start: Angle,
    end: Angle,
    col: Channels,
) -> Seq<PixelWrite> {
    if r == 0 {
        Seq::<PixelWrite>::empty()
    } else {
        let f = arc_filter(cx, cy, start, end);
        seq![(((cx, cy)), col)] + line_writes((cx - r, cy), (cx + r, cy), col, f) + line_writes(
            (cx, cy - r),
            (cx, cy + r),
            col,
            f,
        ) + filled_octant_writes(cx, cy, 0, r, 1 - r, col, f)
    }
}

/// The write sequence of the two horizontal border rows: for each x of
/// [left, right], one write on the top row then one on the bottom row.
pub open spec fn rect_row_writes(r: Rect, c: Channels) -> Seq<PixelWrite> {
    let l = r.spec_left() as int;
    let t = r.spec_top() as int;
    let bb = r.spec_bottom();
    Seq::new(
        (2 * (r.spec_right() - l + 1)) as nat,
        |i: int|
            if i % 2 == 0 {
                ((l + i / 2, t), c)
            } else {
                ((l + i / 2, bb), c)
            },
    )
}

/// The write sequence of the two vertical border columns: for each y of
/// [top, bottom], one write on the left column then one on the right.
pub open spec fn rect_col_writes(r: Rect, c: Channels) -> Seq<PixelWrite> {
    let l = r.spec_left() as int;
    let t = r.spec_top() as int;
    Seq::new(
        (2 * (r.spec_bottom() - t + 1)) as nat,
        |i: int|
            if i % 2 == 0 {
                ((l, t + i / 2), c)
            } else {
                ((r.spec_right(), t + i / 2), c)
            },
    )
}

/// The write sequence of the rectangle border: rows, then columns. The four
/// corner pixels appear in both passes.
pub open spec fn rect_outline_writes(r: Rect, c: Channels) -> Seq<PixelWrite> {
    rect_row_writes(r, c) + rect_col_writes(r, c)
}

/// The one requested write at (x, y), or none when the filter excludes it.
pub open spec fn opt_write(f: PixelFilter, x: int, y: int, c: Channels) -> Seq<PixelWrite> {
    if f.spec_accepts(x, y) {
        seq![((x, y), c)]
    } else {
        Seq::<PixelWrite>::empty()
    }
}

/// The eight symmetric candidate points of one midpoint step, each filtered,
/// in the plotting order of the walk.
pub open spec fn octant8(cx: int, cy: int, x: int, y: int, c: Channels, f: PixelFilter) -> Seq<
    PixelWrite,
> {
    opt_write(f, cx + x, cy + y, c) + opt_write(f, cx + y, cy + x, c) + opt_write(
        f,
        cx - y,
        cy + x,
        c,
    ) + opt_write(f, cx - x, cy + y, c) + opt_write(f, cx - x, cy - y, c) + opt_write(
        f,
        cx - y,
        cy - x,
        c,
    ) + opt_write(f, cx + y, cy - x, c) + opt_write(f, cx + x, cy - y, c)
}

/// The requested writes of the midpoint circle walk from state (x, y, p):
/// eight filtered points per step; x advances every step, y retracts when
/// the decision variable p is non-negative.
pub open spec fn octant_writes(
    cx: int,
    cy: int,
    x: int,
    y: int,
    p: int,
    c: Channels,
    f: PixelFilter,
) -> Seq<PixelWrite>
    decreases y - x + 2,
        when x <= y + 2
{
    if x > y {
        Seq::<PixelWrite>::empty()
    } else {
        let w8 = octant8(cx, cy, x, y, c, f);
        if x == y {
            w8
        } else if p < 0 {
            w8 + octant_writes(cx, cy, x + 1, y, p + 2 * (x + 1) + 1, c, f)
        } else {
            w8 + octant_writes(cx, cy, x + 1, y - 1, p + 2 * ((x + 1) - (y - 1)) + 1, c, f)
        }
    }
}

/// The requested writes of a full aliased circle: the octant walk started
/// at (0, radius) with decision variable 1 - radius, unfiltered.
pub open spec fn circle_writes(cx: int, cy: int, r: int, col: Channels) -> Seq<PixelWrite> {
    octant_writes(cx, cy, 0, r, 1 - r, col, PixelFilter::All)
}

/// The two angles normalized and put in ascending order of degrees, the
/// form the arc routines hand to the wedge filter.
pub open spec fn ordered_angles(start: Angle, end: Angle) -> (Angle, Angle) {
    let s = start.spec_normalized();
    let e = end.spec_normalized();
    if s.spec_deg() > e.spec_deg() {
        (e, s)
    } else {
        (s, e)
    }
}

/// The wedge filter of an arc around (cx, cy) spanning the ordered angles.
pub open spec fn arc_filter(cx: int, cy: int, start: Angle, end: Angle) -> PixelFilter {
    let se = ordered_angles(start, end);
    PixelFilter::Wedge { center: (cx as i64, cy as i64), start: se.0, end: se.1 }
}

/// The requested writes of a full aliased arc: the same octant walk as the
/// circle, filtered through the wedge.
pub open spec fn arc_writes(cx: int, cy: int, r: int, start: Angle, end: Angle, col: Channels) -> Seq<
    PixelWrite,
> {
    octant_writes(cx, cy, 0, r, 1 - r, col, arc_filter(cx, cy, start, end))
}

/// Blend the pixel at (x, y) when the filter admits it.
pub(crate) fn blend_if(canvas: &mut Canvas, x: i64, y: i64, color: Color, filter: &PixelFilter)
    requires
        filter.wf(),
        -COORD_LIMIT - 1 <= x <= COORD_LIMIT + 1,
        -COORD_LIMIT - 1 <= y <= COORD_LIMIT + 1,
    ensures
        canvas_dims(*final(canvas)) == canvas_dims(*old(canvas)),
        canvas_view(*final(canvas)) == apply_writes(
            canvas_view(*old(canvas)),
            canvas_dims(*old(canvas)),
            opt_write(*filter, x as int, y as int, color.channels()),
        ),
{
    proof {
        if filter.spec_accepts(x as int, y as int) {
            let w = opt_write(*filter, x as int, y as int, color.channels());
            assert(w.drop_first() =~= Seq::<PixelWrite>::empty());
            assert(w[0] == ((x as int, y as int), color.channels()));
            assert(apply_writes(canvas_view(*canvas), canvas_dims(*canvas), w) == apply_writes(
                write1(canvas_view(*canvas), canvas_dims(*canvas), w[0]),
                canvas_dims(*canvas),
                Seq::<PixelWrite>::empty(),
            ));
        }
    }
    if filter.accepts(x, y) {
        canvas.blend_at(x, y, color);
    }
}

/// Whether `k` lies in the closed box and on a canvas of size `dims`.
pub open spec fn box_dims_contains(
    dims: (nat, nat),
    l: int,
    rr: int,
    t: int,
    bb: int,
    k: (nat, nat),
) -> bool {
    l <= k.0 <= rr && t <= k.1 <= bb && k.0 < dims.0 && k.1 < dims.1
}

/// The pixel map after filling the closed box [l, rr] x [t, bb]: each
/// on-canvas pixel of the box blended exactly once with `c`, the rest kept.
pub open spec fn blend_box(
    m: Map<(nat, nat), Channels>,
    dims: (nat, nat),
    l: int,
    rr: int,
    t: int,
    bb: int,
    c: Channels,
) -> Map<(nat, nat), Channels> {
    Map::new(
        |k: (nat, nat)| m.dom().contains(k) || box_dims_contains(dims, l, rr, t, bb, k),
        |k: (nat, nat)|
            if box_dims_contains(dims, l, rr, t, bb, k) {
                blended(m[k], c)
            } else {
                m[k]
            },
    )
}

/// A key already filled while the box fill stands at column `x`, row `y`:
/// the columns left of `x` whole, and column `x` above row `y`.
pub open spec fn blend_partial_done(
    dims: (nat, nat),
    l: int,
    rr: int,
    t: int,
    bb: int,
    x: int,
    y: int,
    k: (nat, nat),
) -> bool {
    ||| (l <= k.0 < x && t <= k.1 <= bb && k.0 < dims.0 && k.1 < dims.1)
    ||| (k.0 == x && x <= rr && t <= k.1 < y && k.0 < dims.0 && k.1 < dims.1)
}

/// The pixel map while the box fill stands at column `x`, row `y`.
pub open spec fn blend_partial(
    m: Map<(nat, nat), Channels>,
    dims: (nat, nat),
    l: int,
    rr: int,
    t: int,
    bb: int,
    x: int,
    y: int,
    c: Channels,
) -> Map<(nat, nat), Channels> {
    Map::new(
        |k: (nat, nat)| m.dom().contains(k) || blend_partial_done(dims, l, rr, t, bb, x, y, k),
        |k: (nat, nat)|
            if blend_partial_done(dims, l, rr, t, bb, x, y, k) {
                blended(m[k], c)
            } else {
                m[k]
            },
    )
}

/// One blend at (x, y) advances the partial fill by one row.
proof fn lemma_blend_partial_step(
    m: Map<(nat, nat), Channels>,
    dims: (nat, nat),
    l: int,
    rr: int,
    t: int,
    bb: int,
    x: int,
    y: int,
    c: Channels,
)
    requires
        l <= x <= rr,
        t <= y <= bb,
        m.dom() == grid_dom(dims),
    ensures
        write1(blend_partial(m, dims, l, rr, t, bb, x, y, c), dims, ((x, y), c)) == blend_partial(
            m,
            dims,
            l,
            rr,
            t,
            bb,
            x,
            y + 1,
            c,
        ),
{
    let before = blend_partial(m, dims, l, rr, t, bb, x, y, c);
    let after = blend_partial(m, dims, l, rr, t, bb, x, y + 1, c);
    if 0 <= x < dims.0 && 0 <= y < dims.1 {
        let k = (x as nat, y as nat);
        assert(!blend_partial_done(dims, l, rr, t, bb, x, y, k));
        assert(grid_dom(dims).contains(k));
        assert(m.dom().contains(k));
        assert(before.dom().contains(k));
        assert(before[k] == m[k]);
        assert(write1(before, dims, ((x, y), c)) =~= after);
    } else {
        assert(write1(before, dims, ((x, y), c)) =~= after);
    }
}

/// When a column's rows are exhausted, the partial fill equals the partial
/// fill standing at the top of the next column.
proof fn lemma_blend_partial_column_done(
    m: Map<(nat, nat), Channels>,
    dims: (nat, nat),
    l: int,
    rr: int,
    t: int,
    bb: int,
    x: int,
    c: Channels,
)
    requires
        l <= x <= rr,
    ensures
        blend_partial(m, dims, l, rr, t, bb, x, bb + 1, c) == blend_partial(
            m,
            dims,
            l,
            rr,
            t,
            bb,
            x + 1,
            t,
            c,
        ),
{
    assert(blend_partial(m, dims, l, rr, t, bb, x, bb + 1, c) =~= blend_partial(
        m,
        dims,
        l,
        rr,
        t,
        bb,
        x + 1,
        t,
        c,
    ));
}


/// The shared drawing interface, at the aliased tier: each method
/// delegates to the renderer's own exactly specified operation.
impl crate::Renderer for BasicRenderer {
    fn draw_line(&self, canvas: &mut Canvas, from: (u32, u32), to: (u32, u32), color: Color) {
        let ghost v0 = canvas_view(*canvas);
        let ghost dims = canvas_dims(*canvas);
        BasicRenderer::draw_line(self, canvas, from, to, color);
        proof {
            if canvas_wf(*old(canvas)) {
                crate::canvas::lemma_apply_writes_wf(
                    v0,
                    dims,
                    line_writes(
                        (from.0 as int, from.1 as int),
                        (to.0 as int, to.1 as int),
                        color.channels(),
                        PixelFilter::All,
                    ),
                );
            }
        }
    }

    fn draw_rect(&self, canvas: &mut Canvas, rect: Rect, color: Color) {
        let ghost v0 = canvas_view(*canvas);
        let ghost dims = canvas_dims(*canvas);
        BasicRenderer::draw_rect(self, canvas, rect, color);
        proof {
            if canvas_wf(*old(canvas)) {
                crate::canvas::lemma_apply_writes_wf(
                    v0,
                    dims,
                    rect_outline_writes(rect, color.channels()),
                );
            }
        }
    }

    fn draw_filled_rect(&self, canvas: &mut Canvas, rect: Rect, color: Color) {
        BasicRenderer::draw_filled_rect(self, canvas, rect, color);
    }

    fn draw_circle(&self, canvas: &mut Canvas, circle: Circle, color: Color) {
        BasicRenderer::draw_circle(self, canvas, circle, color);
    }

    fn draw_filled_circle(&self, canvas: &mut Canvas, circle: Circle, color: Color) {
        BasicRenderer::draw_filled_circle(self, canvas, circle, color);
    }

    fn draw_arc(
        &self,
        canvas: &mut Canvas,
        circle: Circle,
        start: Angle,
        end: Angle,
        color: Color,
    ) {
        BasicRenderer::draw_arc(self, canvas, circle, start, end, color);
    }

    fn draw_filled_arc(
        &self,
        canvas: &mut Canvas,
        circle: Circle,
        start: Angle,
        end: Angle,
        color: Color,
    ) {
        BasicRenderer::draw_filled_arc(self, canvas, circle, start, end, color);
    }

    fn draw_rounded_rect(
        &self,
        canvas: &mut Canvas,
        rect: Rect,
        corner_radius: u32,
        color: Color,
    ) {
        BasicRenderer::draw_rounded_rect(self, canvas, rect, corner_radius, color);
    }

    fn draw_filled_rounded_rect(
        &self,
        canvas: &mut Canvas,
        rect: Rect,
        corner_radius: u32,
        color: Color,
    ) {
        BasicRenderer::draw_filled_rounded_rect(self, canvas, rect, corner_radius, color);
    }
}

} // verus!
