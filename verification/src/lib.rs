//! Raster drawing primitives: lines, rectangles, circles, arcs and rounded
//! rectangles, rendered onto an RGBA pixel buffer in an exact aliased mode
//! and an anti-aliased mode with fractional edge coverage.

pub mod types;
pub mod canvas;
pub mod geom;
pub mod basic;
pub mod antialiased;

use vstd::prelude::*;
use crate::canvas::{canvas_dims, canvas_wf, Canvas};
use crate::types::{Angle, Circle, Color, Rect};

verus! {

/// The drawing interface the two fidelity tiers share. Every operation
/// leaves the canvas dimensions alone and keeps the canvas well-formed;
/// the exact pixels each tier writes are pinned by the tier's own
/// same-named methods, which these delegate to.
pub trait Renderer {
    /// Draw the line between two points.
    fn draw_line(&self, canvas: &mut Canvas, from: (u32, u32), to: (u32, u32), color: Color)
        ensures
            canvas_dims(*final(canvas)) == canvas_dims(*old(canvas)),
            canvas_wf(*old(canvas)) ==> canvas_wf(*final(canvas)),
    ;

    /// Draw the border of the closed box of `rect`.
    fn draw_rect(&self, canvas: &mut Canvas, rect: Rect, color: Color)
        requires
            rect.wf(),
        ensures
            canvas_dims(*final(canvas)) == canvas_dims(*old(canvas)),
            canvas_wf(*old(canvas)) ==> canvas_wf(*final(canvas)),
    ;

    /// Fill the closed box of `rect`.
    fn draw_filled_rect(&self, canvas: &mut Canvas, rect: Rect, color: Color)
        requires
            rect.wf(),
            canvas_wf(*old(canvas)),
        ensures
            canvas_dims(*final(canvas)) == canvas_dims(*old(canvas)),
            canvas_wf(*final(canvas)),
    ;

    /// Plot the circle's outline; a zero radius draws nothing.
    fn draw_circle(&self, canvas: &mut Canvas, circle: Circle, color: Color)
        ensures
            canvas_dims(*final(canvas)) == canvas_dims(*old(canvas)),
            canvas_wf(*old(canvas)) ==> canvas_wf(*final(canvas)),
            circle.spec_radius() == 0 ==> crate::canvas::canvas_view(*final(canvas))
                == crate::canvas::canvas_view(*old(canvas)),
    ;

    /// Fill the circle; a zero radius draws nothing.
    fn draw_filled_circle(&self, canvas: &mut Canvas, circle: Circle, color: Color)
        ensures
            canvas_dims(*final(canvas)) == canvas_dims(*old(canvas)),
            canvas_wf(*old(canvas)) ==> canvas_wf(*final(canvas)),
            circle.spec_radius() == 0 ==> crate::canvas::canvas_view(*final(canvas))
                == crate::canvas::canvas_view(*old(canvas)),
    ;

    /// Plot the part of the circle inside the angular span [start, end].
    fn draw_arc(
        &self,
        canvas: &mut Canvas,
        circle: Circle,
        start: Angle,
        end: Angle,
        color: Color,
    )
        requires
            start.spec_raw() > i64::MIN,
            end.spec_raw() > i64::MIN,
        ensures
            canvas_dims(*final(canvas)) == canvas_dims(*old(canvas)),
            canvas_wf(*old(canvas)) ==> canvas_wf(*final(canvas)),
            circle.spec_radius() == 0 ==> crate::canvas::canvas_view(*final(canvas))
                == crate::canvas::canvas_view(*old(canvas)),
    ;

    /// Fill the circular sector of the angular span [start, end].
    fn draw_filled_arc(
        &self,
        canvas: &mut Canvas,
        circle: Circle,
        start: Angle,
        end: Angle,
        color: Color,
    )
        requires
            start.spec_raw() > i64::MIN,
            end.spec_raw() > i64::MIN,
        ensures
            canvas_dims(*final(canvas)) == canvas_dims(*old(canvas)),
            canvas_wf(*old(canvas)) ==> canvas_wf(*final(canvas)),
            circle.spec_radius() == 0 ==> crate::canvas::canvas_view(*final(canvas))
                == crate::canvas::canvas_view(*old(canvas)),
    ;

    /// Draw the rounded-rectangle outline; the corner radius must not
    /// exceed half the width or half the height.
    fn draw_rounded_rect(
        &self,
        canvas: &mut Canvas,
        rect: Rect,
        corner_radius: u32,
        color: Color,
    )
        requires
            rect.wf(),
            2 * corner_radius <= rect.spec_width(),
            2 * corner_radius <= rect.spec_height(),
        ensures
            canvas_dims(*final(canvas)) == canvas_dims(*old(canvas)),
            canvas_wf(*old(canvas)) ==> canvas_wf(*final(canvas)),
    ;

    /// Fill the rounded rectangle; the corner radius must not exceed half
    /// the width or half the height.
    fn draw_filled_rounded_rect(
        &self,
        canvas: &mut Canvas,
        rect: Rect,
        corner_radius: u32,
        color: Color,
    )
        requires
            rect.wf(),
            canvas_wf(*old(canvas)),
            2 * corner_radius <= rect.spec_width(),
            2 * corner_radius <= rect.spec_height(),
        ensures
            canvas_dims(*final(canvas)) == canvas_dims(*old(canvas)),
            canvas_wf(*final(canvas)),
    ;
}

} // verus!
