use rasterize::antialiased::AntiAliasingRender;
use rasterize::basic::BasicRenderer;
use rasterize::canvas::Canvas;
use rasterize::geom::inside_arc;
use rasterize::types::{Angle, Circle, Color, Rect};
use rasterize::Renderer;

fn white() -> Color {
    Color { r: 255, g: 255, b: 255, a: 255 }
}

fn red() -> Color {
    Color { r: 255, g: 0, b: 0, a: 255 }
}

fn green() -> Color {
    Color { r: 0, g: 255, b: 0, a: 255 }
}

#[test]
fn it_works() {
    let mut img = Canvas::new(100, 100, white());

    let r = BasicRenderer::default();
    let aar = AntiAliasingRender::default();

    let blue = Color { r: 0, g: 0, b: 255, a: 255 };
    let magenta = Color { r: 255, g: 0, b: 255, a: 255 };

    r.draw_line(&mut img, (90, 70), (90, 80), blue);
    r.draw_line(&mut img, (90, 70), (80, 60), blue);

    aar.draw_line(&mut img, (97, 70), (80, 60), red());

    r.draw_rect(&mut img, Rect::new(8, 8, 16, 16), red());

    r.draw_filled_rect(&mut img, Rect::new(16, 16, 8, 8), red());

    aar.draw_filled_circle(&mut img, Circle::new((50, 50), 30), blue);
    r.draw_circle(&mut img, Circle::new((50, 50), 30), red());

    r.draw_circle(&mut img, Circle::new((50, 50), 20), green());

    aar.draw_circle(&mut img, Circle::new((50, 50), 15), magenta);

    r.draw_filled_circle(&mut img, Circle::new((50, 50), 10), green());

    aar.draw_arc(
        &mut img,
        Circle::new((10, 50), 5),
        Angle::Degrees(0),
        Angle::Degrees(90_000),
        green(),
    );
    aar.draw_arc(
        &mut img,
        Circle::new((10, 50), 5),
        Angle::Degrees(90_000),
        Angle::Degrees(180_000),
        blue,
    );
    aar.draw_arc(
        &mut img,
        Circle::new((10, 50), 5),
        Angle::Degrees(180_000),
        Angle::Degrees(270_000),
        red(),
    );
    r.draw_arc(
        &mut img,
        Circle::new((10, 50), 5),
        Angle::Degrees(270_000),
        Angle::Degrees(359_900),
        magenta,
    );

    r.draw_filled_arc(
        &mut img,
        Circle::new((10, 80), 10),
        Angle::Degrees(0),
        Angle::Degrees(90_000),
        green(),
    );
    aar.draw_filled_arc(
        &mut img,
        Circle::new((10, 80), 10),
        Angle::Degrees(90_000),
        Angle::Degrees(180_000),
        blue,
    );
    aar.draw_filled_arc(
        &mut img,
        Circle::new((10, 80), 10),
        Angle::Degrees(180_000),
        Angle::Degrees(270_000),
        red(),
    );
    aar.draw_filled_arc(
        &mut img,
        Circle::new((10, 80), 10),
        Angle::Degrees(270_000),
        Angle::Degrees(359_999),
        magenta,
    );

    aar.draw_rounded_rect(&mut img, Rect::new(80, 10, 10, 10), 3, red());
    aar.draw_filled_rounded_rect(&mut img, Rect::new(80, 25, 10, 10), 3, red());
}

#[test]
fn basic_line_sets_exactly_its_pixels() {
    // Scenario: a horizontal opaque red line sets exactly (0,0)..(4,0).
    let mut img = Canvas::new(6, 3, white());
    let r = BasicRenderer::default();
    r.draw_line(&mut img, (0, 0), (4, 0), red());
    for x in 0u32..6 {
        for y in 0u32..3 {
            let expected = if y == 0 && x <= 4 { red() } else { white() };
            assert_eq!(img.pixel_at(x, y), expected);
        }
    }
}

#[test]
fn zero_radius_filled_circle_writes_nothing() {
    // Scenario: a zero-radius circle performs zero writes on either tier.
    let mut img = Canvas::new(21, 21, white());
    BasicRenderer::default().draw_filled_circle(&mut img, Circle::new((10, 10), 0), red());
    AntiAliasingRender::default().draw_filled_circle(&mut img, Circle::new((10, 10), 0), red());
    BasicRenderer::default().draw_circle(&mut img, Circle::new((10, 10), 0), red());
    AntiAliasingRender::default().draw_circle(&mut img, Circle::new((10, 10), 0), red());
    for x in 0u32..21 {
        for y in 0u32..21 {
            assert_eq!(img.pixel_at(x, y), white());
        }
    }
}

#[test]
fn filled_rect_covers_the_closed_box_once() {
    // The closed box of Rect::new(2, 1, 3, 2) is [2,5] x [1,3]:
    // (3+1) x (2+1) = 12 pixels, each blended exactly once.
    let mut img = Canvas::new(10, 10, white());
    BasicRenderer::default().draw_filled_rect(&mut img, Rect::new(2, 1, 3, 2), green());
    let mut painted = 0;
    for x in 0u32..10 {
        for y in 0u32..10 {
            let inside = 2 <= x && x <= 5 && 1 <= y && y <= 3;
            let expected = if inside { green() } else { white() };
            assert_eq!(img.pixel_at(x, y), expected);
            if img.pixel_at(x, y) == green() {
                painted += 1;
            }
        }
    }
    assert_eq!(painted, 12);
}

#[test]
fn circle_pixels_stay_on_the_ring_and_are_symmetric() {
    let mut img = Canvas::new(21, 21, white());
    BasicRenderer::default().draw_circle(&mut img, Circle::new((10, 10), 5), red());
    let mut painted: Vec<(i64, i64)> = Vec::new();
    for x in 0u32..21 {
        for y in 0u32..21 {
            if img.pixel_at(x, y) == red() {
                painted.push((x as i64 - 10, y as i64 - 10));
            }
        }
    }
    assert!(!painted.is_empty());
    for &(dx, dy) in &painted {
        let d2 = dx * dx + dy * dy;
        // Between (r-1)^2 and r^2 + r - 1.
        assert!(16 <= d2 && d2 <= 29);
    }
    // The painted set carries all eight reflective symmetries.
    for &(dx, dy) in &painted {
        assert!(painted.contains(&(-dx, dy)));
        assert!(painted.contains(&(dx, -dy)));
        assert!(painted.contains(&(dy, dx)));
    }
}

#[test]
fn antialiased_line_is_endpoint_symmetric() {
    let mut a = Canvas::new(12, 12, white());
    let mut b = Canvas::new(12, 12, white());
    let aar = AntiAliasingRender::default();
    aar.draw_line(&mut a, (1, 1), (7, 4), red());
    aar.draw_line(&mut b, (7, 4), (1, 1), red());
    for x in 0u32..12 {
        for y in 0u32..12 {
            assert_eq!(a.pixel_at(x, y), b.pixel_at(x, y));
        }
    }
}

#[test]
fn inside_arc_first_quadrant() {
    // A point on the positive x axis lies in the span [0, 90] degrees; a
    // point on the negative y axis does not.
    assert!(inside_arc((5, 0), Angle::Degrees(0), Angle::Degrees(90_000)));
    assert!(!inside_arc((0, -5), Angle::Degrees(0), Angle::Degrees(90_000)));
    // The positive y axis (downward on the canvas) is the 90 degree end.
    assert!(inside_arc((0, 5), Angle::Degrees(0), Angle::Degrees(90_000)));
    // The diagonal of the first quadrant lies inside.
    assert!(inside_arc((4, 4), Angle::Degrees(0), Angle::Degrees(90_000)));
    assert!(!inside_arc((-4, -4), Angle::Degrees(0), Angle::Degrees(90_000)));
}

#[test]
fn basic_arc_keeps_only_its_quadrant() {
    let mut img = Canvas::new(21, 21, white());
    BasicRenderer::default().draw_arc(
        &mut img,
        Circle::new((10, 10), 5),
        Angle::Degrees(0),
        Angle::Degrees(90_000),
        red(),
    );
    // The 0 degree point (center + (5, 0)) is plotted.
    assert_eq!(img.pixel_at(15, 10), red());
    // The 90 degree point (center + (0, 5)) is plotted.
    assert_eq!(img.pixel_at(10, 15), red());
    // The 270 degree point (center + (0, -5)) is not.
    assert_eq!(img.pixel_at(10, 5), white());
    // The 180 degree point (center + (-5, 0)) is not.
    assert_eq!(img.pixel_at(5, 10), white());
}

#[test]
fn semi_transparent_blend_changes_the_pixel() {
    let mut img = Canvas::new(3, 3, white());
    let half_red = Color { r: 255, g: 0, b: 0, a: 128 };
    BasicRenderer::default().draw_line(&mut img, (1, 1), (1, 1), half_red);
    let p = img.pixel_at(1, 1);
    assert_ne!(p, white());
    assert_ne!(p, half_red);
    // Neighbors untouched.
    assert_eq!(img.pixel_at(0, 0), white());
}

#[test]
fn rounded_rect_draws_its_straight_edges() {
    let mut img = Canvas::new(20, 20, white());
    BasicRenderer::default().draw_rounded_rect(&mut img, Rect::new(2, 2, 10, 10), 3, red());
    // The top edge runs from (left + r, top) to (right - r, top).
    for x in 5u32..=9 {
        assert_eq!(img.pixel_at(x, 2), red());
    }
    // The interior stays white.
    assert_eq!(img.pixel_at(7, 7), white());
}

#[test]
fn filled_rounded_rect_fills_the_center_box() {
    let mut img = Canvas::new(20, 20, white());
    BasicRenderer::default().draw_filled_rounded_rect(&mut img, Rect::new(2, 2, 10, 10), 3, red());
    // The whole center box [left+r, right-r] x [top, bottom] is filled.
    for x in 5u32..=9 {
        for y in 2u32..=12 {
            assert_eq!(img.pixel_at(x, y), red());
        }
    }
    // Far corners outside the rounding stay white.
    assert_eq!(img.pixel_at(0, 0), white());
}

#[test]
fn canvas_reports_its_dimensions() {
    let img = Canvas::new(7, 4, white());
    assert_eq!(img.dimensions(), (7, 4));
    assert_eq!(img.pixel_at(6, 3), white());
}

#[test]
fn renderer_trait_draws_like_the_inherent_methods() {
    let mut a = Canvas::new(8, 8, white());
    let mut b = Canvas::new(8, 8, white());
    let r = BasicRenderer::default();
    Renderer::draw_line(&r, &mut a, (0, 0), (4, 0), red());
    r.draw_line(&mut b, (0, 0), (4, 0), red());
    for x in 0u32..8 {
        for y in 0u32..8 {
            assert_eq!(a.pixel_at(x, y), b.pixel_at(x, y));
        }
    }
}
