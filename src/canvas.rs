use vstd::prelude::*;

verus! {

/// One pixel: red, green, blue and alpha bytes.
#[derive(Clone, Copy, Debug, PartialEq, Eq, Structural)]
pub struct Color {
    pub r: u8,
    pub g: u8,
    pub b: u8,
    pub a: u8,
}

/// A mutable RGBA pixel buffer of fixed width and height. It holds an
/// `image::RgbaImage`, which Verus cannot see into: what the buffer holds is
/// known through `canvas_data` and `canvas_dims` alone.
#[verifier::external_body]
pub struct Canvas {
    buf: image::RgbaImage,
}

/// The raw channel bytes of the buffer, four per pixel, row after row.
pub uninterp spec fn canvas_data(c: Canvas) -> Seq<u8>;

/// Width and height of the buffer.
pub uninterp spec fn canvas_dims(c: Canvas) -> (u32, u32);

/// Position of the first byte of pixel `(x, y)` in a buffer `w` pixels wide.
pub open spec fn pixel_offset(w: int, x: int, y: int) -> int {
    (y * w + x) * 4
}

/// The pixel whose four bytes start at `i`.
pub open spec fn color_at(d: Seq<u8>, i: int) -> Color {
    Color { r: d[i], g: d[i + 1], b: d[i + 2], a: d[i + 3] }
}

/// `d` with the four bytes that start at `i` replaced by `c`.
pub open spec fn write_color(d: Seq<u8>, i: int, c: Color) -> Seq<u8> {
    d.update(i, c.r).update(i + 1, c.g).update(i + 2, c.b).update(i + 3, c.a)
}

/// The fully transparent black pixel that a fresh canvas holds.
pub open spec fn clear() -> Color {
    Color { r: 0, g: 0, b: 0, a: 0 }
}

/// A `w` by `h` grid of transparent black pixels, as rows.
pub open spec fn blank_grid(w: nat, h: nat) -> Seq<Seq<Color>> {
    Seq::new(h, |y: int| Seq::new(w, |x: int| clear()))
}

impl Canvas {
    pub open spec fn width(self) -> nat {
        canvas_dims(self).0 as nat
    }

    pub open spec fn height(self) -> nat {
        canvas_dims(self).1 as nat
    }

    /// Every pixel inside the bounds has its four bytes in the buffer, and the
    /// buffer fits in memory. Each canvas meets it; `dimensions` tells so.
    pub open spec fn wf(self) -> bool {
        &&& 4 * self.width() * self.height() <= canvas_data(self).len()
        &&& canvas_data(self).len() <= isize::MAX
    }

    /// Pixel `(x, y)`.
    pub open spec fn pixel(self, x: int, y: int) -> Color {
        color_at(canvas_data(self), pixel_offset(self.width() as int, x, y))
    }

    /// Both dimensions of `self` and `o` agree.
    pub open spec fn same_size(self, o: Canvas) -> bool {
        canvas_dims(self) == canvas_dims(o)
    }

    /// Relies on `ImageBuffer::new`: a buffer of the given size whose bytes
    /// are all zero. It panics when four bytes a pixel overflow `usize`, and
    /// a `Vec` holds at most `isize::MAX` bytes.
    #[verifier::external_body]
    fn zeroed(width: u32, height: u32) -> (r: Canvas)
        requires
            4 * width * height <= isize::MAX,
        ensures
            canvas_dims(r) == (width, height),
            canvas_data(r) == Seq::new((4 * width * height) as nat, |i: int| 0u8),
    {
        Canvas { buf: image::RgbaImage::new(width, height) }
    }

    /// Relies on `ImageBuffer::dimensions`, and on each constructor of
    /// `ImageBuffer` having checked that the buffer holds at least four bytes
    /// for every pixel (a `Vec` holds at most `isize::MAX` bytes).
    #[verifier::external_body]
    fn buffer_dimensions(&self) -> (r: (u32, u32))
        ensures
            r == canvas_dims(*self),
            4 * r.0 * r.1 <= canvas_data(*self).len() <= isize::MAX,
    {
        self.buf.dimensions()
    }

    /// Relies on `ImageBuffer::get_pixel`: the four bytes at
    /// `(y * width + x) * 4`. It panics outside the bounds.
    #[verifier::external_body]
    fn read_pixel(&self, x: u32, y: u32) -> (r: Color)
        requires
            x < canvas_dims(*self).0,
            y < canvas_dims(*self).1,
        ensures
            r == color_at(canvas_data(*self), pixel_offset(canvas_dims(*self).0 as int, x as int, y as int)),
    {
        let p = self.buf.get_pixel(x, y);
        Color { r: p[0], g: p[1], b: p[2], a: p[3] }
    }

    /// Relies on `ImageBuffer::put_pixel`: the four bytes at
    /// `(y * width + x) * 4` are replaced. It panics outside the bounds.
    #[verifier::external_body]
    fn write_pixel(&mut self, x: u32, y: u32, c: Color)
        requires
            x < canvas_dims(*old(self)).0,
            y < canvas_dims(*old(self)).1,
        ensures
            canvas_dims(*final(self)) == canvas_dims(*old(self)),
            canvas_data(*final(self)) == write_color(
                canvas_data(*old(self)),
                pixel_offset(canvas_dims(*old(self)).0 as int, x as int, y as int),
                c,
            ),
    {
        self.buf.put_pixel(x, y, image::Rgba([c.r, c.g, c.b, c.a]))
    }

    /// Relies on `Clone for ImageBuffer`: same size, a copy of the bytes.
    #[verifier::external_body]
    fn clone_buffer(&self) -> (r: Canvas)
        ensures
            canvas_dims(r) == canvas_dims(*self),
            canvas_data(r) == canvas_data(*self),
    {
        Canvas { buf: self.buf.clone() }
    }
}

/// Pixel `(x, y)` of a `w` by `h` grid starts four bytes times its index in
/// row order, and two pixels of the grid never share a start.
pub proof fn lemma_grid_index(w: int, h: int, x: int, y: int, x2: int, y2: int)
    requires
        0 <= x < w,
        0 <= y < h,
        0 <= x2 < w,
        0 <= y2 < h,
    ensures
        0 <= y * w + x,
        4 * (y * w + x) + 4 <= 4 * w * h,
        (x != x2 || y != y2) ==> y * w + x != y2 * w + x2,
{
    assert(0 <= y * w + x && 4 * (y * w + x) + 4 <= 4 * w * h) by (nonlinear_arith)
        requires
            0 <= x < w,
            0 <= y < h,
    ;
    if y < y2 {
        assert(y * w + x < y2 * w + x2) by (nonlinear_arith)
            requires
                0 <= x < w,
                0 <= x2,
                y < y2,
        ;
    } else if y2 < y {
        assert(y2 * w + x2 < y * w + x) by (nonlinear_arith)
            requires
                0 <= x2 < w,
                0 <= x,
                y2 < y,
        ;
    }
}

impl View for Canvas {
    type V = Seq<Seq<Color>>;

    /// The pixels as rows: `self@[y][x]` is pixel `(x, y)`.
    open spec fn view(&self) -> Seq<Seq<Color>> {
        Seq::new(self.height(), |y: int| Seq::new(self.width(), |x: int| self.pixel(x, y)))
    }
}

impl Canvas {
    /// Width and height; every canvas is well formed.
    pub fn dimensions(&self) -> (r: (u32, u32))
        ensures
            r == canvas_dims(*self),
            self.wf(),
    {
        self.buffer_dimensions()
    }

    /// A `width` by `height` canvas of transparent black pixels.
    pub fn new(width: u32, height: u32) -> (r: Canvas)
        requires
            4 * width * height <= isize::MAX,
        ensures
            canvas_dims(r) == (width, height),
            r@ == blank_grid(width as nat, height as nat),
    {
        let r = Canvas::zeroed(width, height);
        proof {
            let w = width as int;
            let h = height as int;
            assert forall|y: int, x: int| 0 <= y < h && 0 <= x < w implies r.pixel(x, y) == clear() by {
                lemma_grid_index(w, h, x, y, x, y);
            }
            assert(r@ =~~= blank_grid(width as nat, height as nat));
        }
        r
    }

    /// Pixel `(x, y)`.
    pub fn get_pixel(&self, x: u32, y: u32) -> (r: Color)
        requires
            x < self.width(),
            y < self.height(),
        ensures
            r == self@[y as int][x as int],
    {
        self.read_pixel(x, y)
    }

    /// Replaces pixel `(x, y)` by `c`, and nothing else.
    pub fn put_pixel(&mut self, x: u32, y: u32, c: Color)
        requires
            x < old(self).width(),
            y < old(self).height(),
        ensures
            final(self).same_size(*old(self)),
            final(self)@ == old(self)@.update(y as int, old(self)@[y as int].update(x as int, c)),
    {
        let _ = self.dimensions();
        let ghost before = *self;
        self.write_pixel(x, y, c);
        proof {
            let w = before.width() as int;
            let h = before.height() as int;
            let i = pixel_offset(w, x as int, y as int);
            lemma_grid_index(w, h, x as int, y as int, x as int, y as int);
            assert forall|y2: int, x2: int| 0 <= y2 < h && 0 <= x2 < w implies #[trigger] self.pixel(x2, y2)
                == (if x2 == x && y2 == y { c } else { before.pixel(x2, y2) }) by {
                lemma_grid_index(w, h, x as int, y as int, x2, y2);
                lemma_grid_index(w, h, x2, y2, x2, y2);
                let i2 = pixel_offset(w, x2, y2);
                assert(i + 4 <= canvas_data(before).len());
                assert(i2 + 4 <= canvas_data(before).len());
                assert(canvas_data(*self).len() == canvas_data(before).len());
            }
            assert(self@ =~~= before@.update(y as int, before@[y as int].update(x as int, c)));
        }
    }

    /// A deep copy: same size, same pixels.
    pub fn duplicate(&self) -> (r: Canvas)
        ensures
            r.same_size(*self),
            r@ == self@,
    {
        let r = self.clone_buffer();
        assert(r@ =~~= self@);
        r
    }
}

} // verus!
