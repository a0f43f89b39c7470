use crate::canvas::{Canvas, Color, canvas_dims};
use crate::objects::{Hitable, Point, Shape};
use crate::raster::at;
use vstd::prelude::*;

verus! {

/// Largest distance between two colors: three channels of 255 squared.
pub const MAX_DISTANCE: u32 = 195075;

/// Squared difference of the red, green and blue channels; alpha is left out.
pub open spec fn color_distance(p: Color, q: Color) -> int {
    (p.r - q.r) * (p.r - q.r) + (p.g - q.g) * (p.g - q.g) + (p.b - q.b) * (p.b - q.b)
}

/// `f(x, y)` summed over `x0 <= x < x1`.
pub open spec fn row_sum(f: spec_fn(int, int) -> int, y: int, x0: int, x1: int) -> int
    decreases x1 - x0,
{
    if x1 <= x0 {
        0
    } else {
        row_sum(f, y, x0, x1 - 1) + f(x1 - 1, y)
    }
}

/// `f(x, y)` summed over `x0 <= x < x1` and `y0 <= y < y1`, row by row.
pub open spec fn rect_sum(f: spec_fn(int, int) -> int, x0: int, x1: int, y0: int, y1: int) -> int
    decreases y1 - y0,
{
    if y1 <= y0 {
        0
    } else {
        rect_sum(f, x0, x1, y0, y1 - 1) + row_sum(f, y1 - 1, x0, x1)
    }
}

/// Width of a grid of rows.
pub open spec fn grid_width(g: Seq<Seq<Color>>) -> nat {
    if g.len() > 0 {
        g[0].len()
    } else {
        0
    }
}

/// Distance between the pixels of `t` and `c` at each position.
pub open spec fn pixel_error(t: Seq<Seq<Color>>, c: Seq<Seq<Color>>) -> spec_fn(int, int) -> int {
    |x: int, y: int| color_distance(t[y][x], c[y][x])
}

/// Global fitness of candidate `c` against target `t`: the distance summed
/// over every pixel of the target. Zero is an exact match.
pub open spec fn global_error(t: Seq<Seq<Color>>, c: Seq<Seq<Color>>) -> int {
    rect_sum(pixel_error(t, c), 0, grid_width(t) as int, 0, t.len() as int)
}

/// End, excluded, of a scan that runs up to `hi` included and stops at `n`.
pub open spec fn scan_end(hi: u32, n: nat) -> int {
    if hi < n {
        hi + 1
    } else {
        n as int
    }
}

/// Distance between the shape's color and the target, on the covered points.
pub open spec fn shape_error(s: Shape, t: Seq<Seq<Color>>) -> spec_fn(int, int) -> int {
    |x: int, y: int|
        if s.covers(at(x, y)) {
            color_distance(s.paint(), t[y][x])
        } else {
            0
        }
}

/// Distance between the current canvas and the target, on the points that
/// the shape covers.
pub open spec fn present_error(s: Shape, t: Seq<Seq<Color>>, c: Seq<Seq<Color>>) -> spec_fn(
    int,
    int,
) -> int {
    |x: int, y: int|
        if s.covers(at(x, y)) {
            color_distance(c[y][x], t[y][x])
        } else {
            0
        }
}

/// `f` summed over the shape's bounding box clipped to a `w` by `h` grid.
pub open spec fn box_sum(f: spec_fn(int, int) -> int, s: Shape, w: nat, h: nat) -> int {
    let (lo, hi) = s.bounds();
    rect_sum(f, lo.x as int, scan_end(hi.x, w), lo.y as int, scan_end(hi.y, h))
}

/// The local pre-check: inside the shape's clipped bounding box, the error
/// that painting the shape would leave is below `slack` plus the error that
/// the current canvas has there.
pub open spec fn promising(s: Shape, t: Seq<Seq<Color>>, c: Seq<Seq<Color>>, slack: u64) -> bool {
    box_sum(shape_error(s, t), s, grid_width(t), t.len()) < slack + box_sum(
        present_error(s, t, c),
        s,
        grid_width(t),
        t.len(),
    )
}

fn channel_square(p: u8, q: u8) -> (r: u32)
    ensures
        r == (p - q) * (p - q),
        r <= 65025,
{
    let d: i32 = p as i32 - q as i32;
    assert(0 <= d * d <= 65025) by (nonlinear_arith)
        requires
            -255 <= d <= 255,
    ;
    (d * d) as u32
}

/// Squared difference of the red, green and blue channels.
pub fn color_fitness(generated_color: &Color, source_color: &Color) -> (r: u32)
    ensures
        r == color_distance(*generated_color, *source_color),
        r <= MAX_DISTANCE,
{
    channel_square(generated_color.r, source_color.r) + channel_square(generated_color.g, source_color.g)
        + channel_square(generated_color.b, source_color.b)
}

/// Global fitness of `candidate` against `target`: the squared RGB distance
/// summed over every pixel. Lower is better; zero is an exact match.
pub fn global_fitness(target: &Canvas, candidate: &Canvas) -> (r: u128)
    requires
        candidate.same_size(*target),
    ensures
        r == global_error(target@, candidate@),
        r <= MAX_DISTANCE * target.width() * target.height(),
{
    let (w, h) = target.dimensions();
    assert(w * h <= 0xffff_ffff * 0xffff_ffff) by (nonlinear_arith)
        requires
            w <= 0xffff_ffff,
            h <= 0xffff_ffff,
    ;
    let ghost f = pixel_error(target@, candidate@);
    let mut acc: u128 = 0;
    let mut y: u32 = 0;
    while y < h
        invariant
            canvas_dims(*target) == (w, h),
            candidate.same_size(*target),
            f == pixel_error(target@, candidate@),
            y <= h,
            acc == rect_sum(f, 0, w as int, 0, y as int),
            acc <= MAX_DISTANCE * (y * w),
            w * h <= 0xffff_ffff * 0xffff_ffff,
        decreases h - y,
    {
        assert(y * w + w <= w * h && (y + 1) * w == y * w + w) by (nonlinear_arith)
            requires
                y < h,
        ;
        let mut x: u32 = 0;
        while x < w
            invariant
                canvas_dims(*target) == (w, h),
                candidate.same_size(*target),
                f == pixel_error(target@, candidate@),
                y < h,
                x <= w,
                acc == rect_sum(f, 0, w as int, 0, y as int) + row_sum(f, y as int, 0, x as int),
                acc <= MAX_DISTANCE * (y * w + x),
                y * w + w <= w * h <= 0xffff_ffff * 0xffff_ffff,
            decreases w - x,
        {
            let d = color_fitness(&target.get_pixel(x, y), &candidate.get_pixel(x, y));
            acc = acc + d as u128;
            x = x + 1;
        }
        y = y + 1;
    }
    if h > 0 {
        assert(grid_width(target@) == w);
    }
    assert(MAX_DISTANCE * (y * w) == MAX_DISTANCE * w * h) by (nonlinear_arith)
        requires
            y == h,
    ;
    acc
}

/// The two local errors of `shape` inside its bounding box clipped to the
/// canvas: that of the shape's color against `source`, and that of
/// `current` against `source`, both on the points that the shape covers.
pub fn local_errors(shape: &Shape, source: &Canvas, current: &Canvas) -> (r: (u128, u128))
    requires
        current.same_size(*source),
    ensures
        r.0 == box_sum(shape_error(*shape, source@), *shape, grid_width(source@), source@.len()),
        r.1 == box_sum(present_error(*shape, source@, current@), *shape, grid_width(source@), source@.len()),
        r.0 <= MAX_DISTANCE * 0x1_0000_0000_0000_0000,
        r.1 <= MAX_DISTANCE * 0x1_0000_0000_0000_0000,
{
    let (w, h) = source.dimensions();
    let (lo, hi) = shape.pixel_box();
    let color = shape.color();
    let x_end: u32 = if hi.x < w { hi.x + 1 } else { w };
    let y_end: u32 = if hi.y < h { hi.y + 1 } else { h };
    let ghost f = shape_error(*shape, source@);
    let ghost g = present_error(*shape, source@, current@);
    let mut src: u128 = 0;
    let mut cur: u128 = 0;
    let mut y: u32 = lo.y;
    while y < y_end
        invariant
            canvas_dims(*source) == (w, h),
            current.same_size(*source),
            f == shape_error(*shape, source@),
            g == present_error(*shape, source@, current@),
            color == shape.paint(),
            x_end <= w,
            y_end <= h,
            lo.y <= y,
            y <= y_end || y == lo.y,
            src == rect_sum(f, lo.x as int, x_end as int, lo.y as int, y as int),
            cur == rect_sum(g, lo.x as int, x_end as int, lo.y as int, y as int),
            src <= MAX_DISTANCE * (y * 0x1_0000_0000),
            cur <= MAX_DISTANCE * (y * 0x1_0000_0000),
        decreases y_end - y,
    {
        let mut x: u32 = lo.x;
        while x < x_end
            invariant
                canvas_dims(*source) == (w, h),
                current.same_size(*source),
                f == shape_error(*shape, source@),
                g == present_error(*shape, source@, current@),
                color == shape.paint(),
                x_end <= w,
                y < y_end <= h,
                lo.x <= x,
                x <= x_end || x == lo.x,
                src == rect_sum(f, lo.x as int, x_end as int, lo.y as int, y as int) + row_sum(
                    f,
                    y as int,
                    lo.x as int,
                    x as int,
                ),
                cur == rect_sum(g, lo.x as int, x_end as int, lo.y as int, y as int) + row_sum(
                    g,
                    y as int,
                    lo.x as int,
                    x as int,
                ),
                src <= MAX_DISTANCE * (y * 0x1_0000_0000 + x),
                cur <= MAX_DISTANCE * (y * 0x1_0000_0000 + x),
            decreases x_end - x,
        {
            if shape.hit(&Point { x, y }) {
                let target = source.get_pixel(x, y);
                src = src + color_fitness(&color, &target) as u128;
                cur = cur + color_fitness(&current.get_pixel(x, y), &target) as u128;
            }
            x = x + 1;
        }
        y = y + 1;
    }
    if h > 0 {
        assert(grid_width(source@) == w);
    }
    proof {
        if y_end <= lo.y {
            assert(rect_sum(f, lo.x as int, x_end as int, lo.y as int, y_end as int) == 0);
            assert(rect_sum(g, lo.x as int, x_end as int, lo.y as int, y_end as int) == 0);
        }
    }
    (src, cur)
}

/// The local pre-check: whether painting `shape` on `current` plausibly
/// lowers the error against `source` near the shape. It never decides alone:
/// the global fitness does.
pub fn fitness(shape: &Shape, source: &Canvas, current: &Canvas, slack: u64) -> (r: bool)
    requires
        current.same_size(*source),
    ensures
        r == promising(*shape, source@, current@, slack),
{
    let (src, cur) = local_errors(shape, source, current);
    src < slack as u128 + cur
}

proof fn lemma_distance_facts(p: Color, q: Color)
    ensures
        color_distance(p, q) == color_distance(q, p),
        color_distance(p, q) >= 0,
        color_distance(p, p) == 0,
{
    let (dr, dg, db) = (p.r - q.r, p.g - q.g, p.b - q.b);
    assert(dr * dr == (-dr) * (-dr) && dg * dg == (-dg) * (-dg) && db * db == (-db) * (-db)) by (nonlinear_arith);
    assert(dr * dr >= 0 && dg * dg >= 0 && db * db >= 0) by (nonlinear_arith);
}

proof fn lemma_row_sum_same(f: spec_fn(int, int) -> int, g: spec_fn(int, int) -> int, y: int, x0: int, x1: int)
    requires
        forall|x: int| x0 <= x < x1 ==> #[trigger] f(x, y) == g(x, y),
    ensures
        row_sum(f, y, x0, x1) == row_sum(g, y, x0, x1),
    decreases x1 - x0,
{
    if x1 > x0 {
        lemma_row_sum_same(f, g, y, x0, x1 - 1);
    }
}

proof fn lemma_rect_sum_same(f: spec_fn(int, int) -> int, g: spec_fn(int, int) -> int, x0: int, x1: int, y0: int, y1: int)
    requires
        forall|x: int, y: int| x0 <= x < x1 && y0 <= y < y1 ==> #[trigger] f(x, y) == g(x, y),
    ensures
        rect_sum(f, x0, x1, y0, y1) == rect_sum(g, x0, x1, y0, y1),
    decreases y1 - y0,
{
    if y1 > y0 {
        lemma_rect_sum_same(f, g, x0, x1, y0, y1 - 1);
        lemma_row_sum_same(f, g, y1 - 1, x0, x1);
    }
}

proof fn lemma_row_sum_nonneg(f: spec_fn(int, int) -> int, y: int, x0: int, x1: int)
    requires
        forall|x: int| x0 <= x < x1 ==> #[trigger] f(x, y) >= 0,
    ensures
        row_sum(f, y, x0, x1) >= 0,
    decreases x1 - x0,
{
    if x1 > x0 {
        lemma_row_sum_nonneg(f, y, x0, x1 - 1);
    }
}

proof fn lemma_rect_sum_nonneg(f: spec_fn(int, int) -> int, x0: int, x1: int, y0: int, y1: int)
    requires
        forall|x: int, y: int| x0 <= x < x1 && y0 <= y < y1 ==> #[trigger] f(x, y) >= 0,
    ensures
        rect_sum(f, x0, x1, y0, y1) >= 0,
    decreases y1 - y0,
{
    if y1 > y0 {
        lemma_rect_sum_nonneg(f, x0, x1, y0, y1 - 1);
        lemma_row_sum_nonneg(f, y1 - 1, x0, x1);
    }
}

proof fn lemma_row_sum_zero(f: spec_fn(int, int) -> int, y: int, x0: int, x1: int)
    requires
        forall|x: int| x0 <= x < x1 ==> #[trigger] f(x, y) == 0,
    ensures
        row_sum(f, y, x0, x1) == 0,
    decreases x1 - x0,
{
    if x1 > x0 {
        lemma_row_sum_zero(f, y, x0, x1 - 1);
    }
}

proof fn lemma_rect_sum_zero(f: spec_fn(int, int) -> int, x0: int, x1: int, y0: int, y1: int)
    requires
        forall|x: int, y: int| x0 <= x < x1 && y0 <= y < y1 ==> #[trigger] f(x, y) == 0,
    ensures
        rect_sum(f, x0, x1, y0, y1) == 0,
    decreases y1 - y0,
{
    if y1 > y0 {
        lemma_rect_sum_zero(f, x0, x1, y0, y1 - 1);
        lemma_row_sum_zero(f, y1 - 1, x0, x1);
    }
}

/// A canvas scores zero against itself.
pub proof fn lemma_fitness_of_self(c: Canvas)
    ensures
        global_error(c@, c@) == 0,
{
    let f = pixel_error(c@, c@);
    assert forall|x: int, y: int| 0 <= x < grid_width(c@) && 0 <= y < c@.len() implies #[trigger] f(x, y) == 0 by {
        lemma_distance_facts(c@[y][x], c@[y][x]);
    }
    lemma_rect_sum_zero(f, 0, grid_width(c@) as int, 0, c@.len() as int);
}

/// The global fitness is never negative, and swapping target and candidate
/// leaves it unchanged.
pub proof fn lemma_fitness_symmetric(t: Canvas, c: Canvas)
    requires
        c.same_size(t),
    ensures
        global_error(t@, c@) >= 0,
        global_error(t@, c@) == global_error(c@, t@),
{
    let (w, h) = (grid_width(t@) as int, t@.len() as int);
    assert(grid_width(c@) == w && c@.len() == h);
    let f = pixel_error(t@, c@);
    let g = pixel_error(c@, t@);
    assert forall|x: int, y: int| 0 <= x < w && 0 <= y < h implies #[trigger] f(x, y) == g(x, y) && f(x, y) >= 0 by {
        lemma_distance_facts(t@[y][x], c@[y][x]);
    }
    lemma_rect_sum_same(f, g, 0, w, 0, h);
    lemma_rect_sum_nonneg(f, 0, w, 0, h);
}

} // verus!
