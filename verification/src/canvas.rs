use vstd::prelude::*;
use image::Pixel;
use crate::types::Color;

verus! {

/// The four channel values of one canvas pixel, as the model holds them.
pub type Channels = (u8, u8, u8, u8);

/// One requested pixel write: a signed coordinate (it may lie off the canvas)
/// and the color handed to the blend operation.
pub type PixelWrite = ((int, int), Channels);

/// The pixel grid the renderers draw into: an RGBA buffer of the `image`
/// crate, held opaquely. Its contents are modelled by `canvas_view` and its
/// allocated size by `canvas_dims`; every access goes through the small
/// trusted methods below.
#[verifier::external_body]
pub struct Canvas {
    img: image::RgbaImage,
}

/// What the pixel buffer holds: the channel values at each coordinate.
pub uninterp spec fn canvas_view(c: Canvas) -> Map<(nat, nat), Channels>;

/// The width and height the pixel buffer was allocated with.
pub uninterp spec fn canvas_dims(c: Canvas) -> (nat, nat);

/// What image::Rgba::blend leaves at a pixel holding `dst` when `src` is
/// composited onto it: a pure function of the two channel tuples.
pub uninterp spec fn blended(dst: Channels, src: Channels) -> Channels;

/// The pixel map of a freshly allocated buffer: every coordinate of the
/// width-by-height grid holds the fill color.
pub open spec fn uniform_fill(width: nat, height: nat, fill: Channels) -> Map<
    (nat, nat),
    Channels,
> {
    Map::<(nat, nat), Channels>::new(|k: (nat, nat)| k.0 < width && k.1 < height, |k| fill)
}

impl Canvas {
    /// Relies on image::ImageBuffer::from_pixel: allocates a width-by-height
    /// buffer with every pixel set to `fill`. It panics when the buffer would
    /// outgrow a vector, hence the size bound in `requires`.
    #[verifier::external_body]
    pub fn new(width: u32, height: u32, fill: Color) -> (r: Canvas)
        requires
            4 * (width as nat) * (height as nat) <= usize::MAX,
        ensures
            canvas_dims(r) == (width as nat, height as nat),
            canvas_view(r) == uniform_fill(width as nat, height as nat, fill.channels()),
    {
        Canvas {
            img: image::RgbaImage::from_pixel(
                width,
                height,
                image::Rgba([fill.r, fill.g, fill.b, fill.a]),
            ),
        }
    }

    /// Relies on image::ImageBuffer::dimensions: returns the width and height
    /// the buffer was allocated with.
    #[verifier::external_body]
    pub fn dimensions(&self) -> (r: (u32, u32))
        ensures
            canvas_dims(*self) == (r.0 as nat, r.1 as nat),
    {
        self.img.dimensions()
    }

    /// Relies on image::ImageBuffer::get_pixel, which panics out of bounds
    /// (hence the `requires`): returns the channel values at (x, y).
    #[verifier::external_body]
    fn get_px(&self, x: u32, y: u32) -> (r: Color)
        requires
            (x as nat) < canvas_dims(*self).0,
            (y as nat) < canvas_dims(*self).1,
        ensures
            r.channels() == canvas_view(*self)[(x as nat, y as nat)],
    {
        let p = self.img.get_pixel(x, y);
        Color { r: p.0[0], g: p.0[1], b: p.0[2], a: p.0[3] }
    }

    /// Relies on image::ImageBuffer::get_pixel_mut, which panics out of
    /// bounds (hence the `requires`), and image::Rgba::blend, which
    /// alpha-composites the source into the pixel as a pure function of the
    /// two channel tuples; its first two branches leave the pixel unchanged
    /// for a fully transparent source and overwrite it for a fully opaque one.
    #[verifier::external_body]
    fn blend_px(&mut self, x: u32, y: u32, c: Color)
        requires
            (x as nat) < canvas_dims(*old(self)).0,
            (y as nat) < canvas_dims(*old(self)).1,
        ensures
            canvas_dims(*final(self)) == canvas_dims(*old(self)),
            canvas_view(*final(self)) == canvas_view(*old(self)).insert(
                (x as nat, y as nat),
                blended(canvas_view(*old(self))[(x as nat, y as nat)], c.channels()),
            ),
            c.a == 0 ==> canvas_view(*final(self)) == canvas_view(*old(self)),
            c.a == 255 ==> canvas_view(*final(self)) == canvas_view(*old(self)).insert(
                (x as nat, y as nat),
                c.channels(),
            ),
    {
        self.img.get_pixel_mut(x, y).blend(&image::Rgba([c.r, c.g, c.b, c.a]));
    }

    /// The channel values at an on-canvas coordinate.
    pub fn pixel_at(&self, x: u32, y: u32) -> (r: Color)
        requires
            (x as nat) < canvas_dims(*self).0,
            (y as nat) < canvas_dims(*self).1,
        ensures
            r.channels() == canvas_view(*self)[(x as nat, y as nat)],
    {
        self.get_px(x, y)
    }

    /// Blend `c` into the canvas at a signed coordinate, dropping the write
    /// when it lies off the canvas: the bounded blend every renderer writes
    /// through.
    pub(crate) fn blend_at(&mut self, x: i64, y: i64, c: Color)
        ensures
            canvas_dims(*final(self)) == canvas_dims(*old(self)),
            canvas_view(*final(self)) == write1(
                canvas_view(*old(self)),
                canvas_dims(*old(self)),
                ((x as int, y as int), c.channels()),
            ),
    {
        let (w, h) = self.dimensions();
        if 0 <= x && x < (w as i64) && 0 <= y && y < (h as i64) {
            self.blend_px(x as u32, y as u32, c);
        }
    }
}

/// The coordinate grid of a canvas of the given dimensions.
pub open spec fn grid_dom(dims: (nat, nat)) -> Set<(nat, nat)> {
    Set::new(|k: (nat, nat)| k.0 < dims.0 && k.1 < dims.1)
}

/// A well-formed canvas model: the pixel map holds exactly the coordinates
/// of the allocated grid. Every canvas the library hands out satisfies this,
/// and every draw operation preserves it.
pub open spec fn canvas_wf(c: Canvas) -> bool {
    canvas_view(c).dom() == grid_dom(canvas_dims(c))
}

/// A single requested write keeps the pixel map's domain on the grid.
pub proof fn lemma_write1_wf(m: Map<(nat, nat), Channels>, dims: (nat, nat), w: PixelWrite)
    requires
        m.dom() == grid_dom(dims),
    ensures
        write1(m, dims, w).dom() == grid_dom(dims),
{
    if 0 <= w.0.0 < dims.0 && 0 <= w.0.1 < dims.1 {
        assert(write1(m, dims, w).dom() =~= grid_dom(dims));
    }
}

/// A whole write sequence keeps the pixel map's domain on the grid.
pub proof fn lemma_apply_writes_wf(
    m: Map<(nat, nat), Channels>,
    dims: (nat, nat),
    ws: Seq<PixelWrite>,
)
    requires
        m.dom() == grid_dom(dims),
    ensures
        apply_writes(m, dims, ws).dom() == grid_dom(dims),
    decreases ws.len(),
{
    if ws.len() > 0 {
        lemma_write1_wf(m, dims, ws[0]);
        lemma_apply_writes_wf(write1(m, dims, ws[0]), dims, ws.drop_first());
    }
}

/// Applying a single write is one blend.
pub proof fn lemma_apply_writes_single(
    m: Map<(nat, nat), Channels>,
    dims: (nat, nat),
    w: PixelWrite,
)
    ensures
        apply_writes(m, dims, seq![w]) == write1(m, dims, w),
{
    assert(seq![w].drop_first() =~= Seq::<PixelWrite>::empty());
    assert(apply_writes(m, dims, seq![w]) == apply_writes(
        write1(m, dims, w),
        dims,
        Seq::<PixelWrite>::empty(),
    ));
}

/// Extending an applied prefix by one write blends that write into the
/// accumulated map: the workhorse of the renderers' loop invariants.
pub proof fn lemma_writes_prefix_step(
    m: Map<(nat, nat), Channels>,
    dims: (nat, nat),
    ws: Seq<PixelWrite>,
    i: int,
)
    requires
        0 <= i < ws.len(),
    ensures
        apply_writes(m, dims, ws.take(i + 1)) == write1(
            apply_writes(m, dims, ws.take(i)),
            dims,
            ws[i],
        ),
{
    assert(ws.take(i + 1) =~= ws.take(i).push(ws[i]));
    lemma_apply_writes_push(m, dims, ws.take(i), ws[i]);
}

/// Blend one requested write into the pixel map: it lands only when the
/// coordinate lies on a canvas of the given dimensions, and is silently
/// dropped otherwise.
pub open spec fn write1(
    m: Map<(nat, nat), Channels>,
    dims: (nat, nat),
    w: PixelWrite,
) -> Map<(nat, nat), Channels> {
    if 0 <= w.0.0 < dims.0 && 0 <= w.0.1 < dims.1 {
        let k = (w.0.0 as nat, w.0.1 as nat);
        m.insert(k, blended(m[k], w.1))
    } else {
        m
    }
}

/// Fold a sequence of requested writes over the pixel map, first to last.
pub open spec fn apply_writes(
    m: Map<(nat, nat), Channels>,
    dims: (nat, nat),
    ws: Seq<PixelWrite>,
) -> Map<(nat, nat), Channels>
    decreases ws.len(),
{
    if ws.len() == 0 {
        m
    } else {
        apply_writes(write1(m, dims, ws[0]), dims, ws.drop_first())
    }
}

/// Applying a concatenation applies the first sequence, then the second.
pub proof fn lemma_apply_writes_concat(
    m: Map<(nat, nat), Channels>,
    dims: (nat, nat),
    a: Seq<PixelWrite>,
    b: Seq<PixelWrite>,
)
    ensures
        apply_writes(m, dims, a + b) == apply_writes(apply_writes(m, dims, a), dims, b),
    decreases a.len(),
{
    if a.len() == 0 {
        assert(a + b =~= b);
    } else {
        assert((a + b).drop_first() =~= a.drop_first() + b);
        assert((a + b)[0] == a[0]);
        lemma_apply_writes_concat(write1(m, dims, a[0]), dims, a.drop_first(), b);
    }
}

/// Applying one more write at the end blends it into the accumulated map.
pub proof fn lemma_apply_writes_push(
    m: Map<(nat, nat), Channels>,
    dims: (nat, nat),
    ws: Seq<PixelWrite>,
    w: PixelWrite,
)
    ensures
        apply_writes(m, dims, ws.push(w)) == write1(apply_writes(m, dims, ws), dims, w),
{
    assert(ws.push(w) =~= ws + seq![w]);
    lemma_apply_writes_concat(m, dims, ws, seq![w]);
    let m1 = apply_writes(m, dims, ws);
    assert(seq![w][0] == w);
    assert(seq![w].drop_first() =~= Seq::<PixelWrite>::empty());
    assert(apply_writes(m1, dims, seq![w])
        == apply_writes(write1(m1, dims, w), dims, Seq::<PixelWrite>::empty()));
    assert(apply_writes(write1(m1, dims, w), dims, Seq::<PixelWrite>::empty())
        == write1(m1, dims, w));
}

} // verus!
