use crate::canvas::{Canvas, Color, canvas_dims};
use crate::objects::{Hitable, Point, Shape};
use vstd::prelude::*;

verus! {

/// How a shape's color lands on the pixels it covers.
#[derive(Clone, Copy, Debug, PartialEq, Eq, Structural)]
pub enum Compositing {
    /// The shape's color replaces the pixel.
    Overwrite,
    /// The shape's color is mixed into the pixel by the shape's alpha; the
    /// result is opaque.
    Blend,
}

/// `alpha/255 * top + (1 - alpha/255) * bottom`, rounded down.
pub open spec fn blend_channel(top: u8, bottom: u8, alpha: u8) -> int {
    (alpha * top + (255 - alpha) * bottom) / 255
}

/// `top` mixed over `bottom` channel by channel, weighted by `top`'s alpha;
/// the result is opaque.
pub open spec fn blend(top: Color, bottom: Color) -> Color {
    Color {
        r: blend_channel(top.r, bottom.r, top.a) as u8,
        g: blend_channel(top.g, bottom.g, top.a) as u8,
        b: blend_channel(top.b, bottom.b, top.a) as u8,
        a: 255,
    }
}

/// The pixel that results from `top` landing on `bottom`.
pub open spec fn composite(mode: Compositing, top: Color, bottom: Color) -> Color {
    match mode {
        Compositing::Overwrite => top,
        Compositing::Blend => blend(top, bottom),
    }
}

/// The point at column `x` and row `y`.
pub open spec fn at(x: int, y: int) -> Point {
    Point { x: x as u32, y: y as u32 }
}

/// The grid `g` (rows of pixels) after `s` is painted on it.
pub open spec fn painted(g: Seq<Seq<Color>>, s: Shape, mode: Compositing) -> Seq<Seq<Color>> {
    Seq::new(
        g.len(),
        |y: int|
            Seq::new(
                g[y].len(),
                |x: int|
                    if s.covers(at(x, y)) {
                        composite(mode, s.paint(), g[y][x])
                    } else {
                        g[y][x]
                    },
            ),
    )
}

/// One channel of `top` mixed over `bottom`, `transparency` being the weight
/// of `top` out of 255.
pub fn combine_channel(top: u8, bottom: u8, transparency: u8) -> (r: u8)
    ensures
        r == blend_channel(top, bottom, transparency),
{
    let t = transparency as u32;
    assert(t * top + (255 - t) * bottom <= 255 * 255) by (nonlinear_arith)
        requires
            t <= 255,
            top <= 255,
            bottom <= 255,
    ;
    assert(0 <= t * top && 0 <= (255 - t) * bottom) by (nonlinear_arith)
        requires
            t <= 255,
    ;
    ((t * top as u32 + (255 - t) * bottom as u32) / 255) as u8
}

/// `top` mixed over `bottom` by `top`'s alpha; the result is opaque.
pub fn sum_pixel_values(top: &Color, bottom: &Color) -> (r: Color)
    ensures
        r == blend(*top, *bottom),
{
    Color {
        r: combine_channel(top.r, bottom.r, top.a),
        g: combine_channel(top.g, bottom.g, top.a),
        b: combine_channel(top.b, bottom.b, top.a),
        a: 255,
    }
}

/// The pixel that results from `top` landing on `bottom`.
pub fn composite_pixel(mode: Compositing, top: &Color, bottom: &Color) -> (r: Color)
    ensures
        r == composite(mode, *top, *bottom),
{
    match mode {
        Compositing::Overwrite => *top,
        Compositing::Blend => sum_pixel_values(top, bottom),
    }
}

/// Paints `shape` on `canvas`: each pixel that the shape covers becomes the
/// shape's color composited over it, and no other pixel changes. Only the
/// shape's bounding box, clipped to the canvas, is scanned; the clipped box
/// includes the canvas's first and last rows and columns, so a shape that
/// covers the whole canvas paints every pixel of it.
pub fn paint(canvas: &mut Canvas, shape: &Shape, mode: Compositing)
    ensures
        final(canvas).same_size(*old(canvas)),
        final(canvas)@ == painted(old(canvas)@, *shape, mode),
{
    let ghost g0 = canvas@;
    let (w, h) = canvas.dimensions();
    if w == 0 || h == 0 {
        assert(canvas@ =~~= painted(g0, *shape, mode));
        return;
    }
    let (lo, hi) = shape.pixel_box();
    let color = shape.color();
    let x_end: u32 = if hi.x < w - 1 { hi.x } else { w - 1 };
    let y_end: u32 = if hi.y < h - 1 { hi.y } else { h - 1 };
    if lo.x > x_end || lo.y > y_end {
        proof {
            assert forall|r: int, c: int| 0 <= r < h && 0 <= c < w implies !shape.covers(#[trigger] at(c, r)) by {
                if shape.covers(at(c, r)) {
                    shape.lemma_hits_in_box(at(c, r));
                }
            }
            assert(canvas@ =~~= painted(g0, *shape, mode));
        }
        return;
    }
    let mut y: u32 = lo.y;
    while y <= y_end
        invariant
            canvas_dims(*canvas) == (w, h),
            g0 == old(canvas)@,
            g0.len() == h,
            forall|r: int| 0 <= r < h ==> #[trigger] g0[r].len() == w,
            (lo, hi) == shape.bounds(),
            color == shape.paint(),
            x_end < w,
            y_end < h,
            lo.x <= x_end,
            lo.y <= y,
            y <= y_end + 1,
            forall|r: int, c: int|
                0 <= r < h && 0 <= c < w ==> #[trigger] canvas@[r][c] == if lo.y <= r < y && lo.x <= c
                    <= x_end && shape.covers(at(c, r)) {
                    composite(mode, color, g0[r][c])
                } else {
                    g0[r][c]
                },
        decreases y_end + 1 - y,
    {
        let mut x: u32 = lo.x;
        while x <= x_end
            invariant
                canvas_dims(*canvas) == (w, h),
                g0.len() == h,
                forall|r: int| 0 <= r < h ==> #[trigger] g0[r].len() == w,
                color == shape.paint(),
                x_end < w,
                lo.y <= y <= y_end,
                y_end < h,
                lo.x <= x,
                x <= x_end + 1,
                forall|r: int, c: int|
                    0 <= r < h && 0 <= c < w ==> #[trigger] canvas@[r][c] == if ((lo.y <= r < y && lo.x
                        <= c <= x_end) || (r == y && lo.x <= c < x)) && shape.covers(at(c, r)) {
                        composite(mode, color, g0[r][c])
                    } else {
                        g0[r][c]
                    },
            decreases x_end + 1 - x,
        {
            let p = Point { x, y };
            if shape.hit(&p) {
                let below = canvas.get_pixel(x, y);
                let top = composite_pixel(mode, &color, &below);
                canvas.put_pixel(x, y, top);
            }
            x = x + 1;
        }
        y = y + 1;
    }
    proof {
        assert forall|r: int, c: int| 0 <= r < h && 0 <= c < w && shape.covers(#[trigger] at(c, r)) implies lo.y
            <= r <= y_end && lo.x <= c <= x_end by {
            shape.lemma_hits_in_box(at(c, r));
        }
        assert(canvas@ =~~= painted(g0, *shape, mode));
    }
}

proof fn lemma_opaque_channel(top: u8, bottom: u8)
    ensures
        blend_channel(top, bottom, 255) == top,
{
    let (t, b) = (top as int, bottom as int);
    assert((255 * t + (255 - 255) * b) / 255 == t) by (nonlinear_arith);
}

/// With an opaque shape color, blending paints what overwriting paints.
pub proof fn lemma_opaque_blend_overwrites(g: Seq<Seq<Color>>, s: Shape)
    requires
        s.paint().a == 255,
    ensures
        painted(g, s, Compositing::Blend) == painted(g, s, Compositing::Overwrite),
{
    let top = s.paint();
    assert forall|bottom: Color| blend(top, bottom) == top by {
        lemma_opaque_channel(top.r, bottom.r);
        lemma_opaque_channel(top.g, bottom.g);
        lemma_opaque_channel(top.b, bottom.b);
    }
    assert(painted(g, s, Compositing::Blend) =~~= painted(g, s, Compositing::Overwrite));
}

} // verus!
