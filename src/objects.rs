use crate::canvas::Color;
use crate::random::draw_between;
use rand::rngs::StdRng;
use vstd::prelude::*;

verus! {

/// `guess` when it does not exceed `dia`, else zero: a coordinate that wrapped
/// below zero comes out larger than the value it started from.
pub fn larger_zero(dia: u32, guess: u32) -> (r: u32)
    ensures
        r == if guess > dia { 0 } else { guess },
{
    if guess > dia {
        0
    } else {
        guess
    }
}

/// A position in image space.
#[derive(Clone, Copy, Debug, PartialEq, Eq, Structural)]
pub struct Point {
    pub x: u32,
    pub y: u32,
}

/// `p` lies in the axis-aligned box from `b.0` to `b.1`, both corners included.
pub open spec fn in_box(b: (Point, Point), p: Point) -> bool {
    &&& b.0.x <= p.x <= b.1.x
    &&& b.0.y <= p.y <= b.1.y
}

/// What the rasterizer and the fitness evaluator ask of a shape.
pub trait Hitable {
    /// The points that the shape covers.
    spec fn covers(&self, p: Point) -> bool;

    /// The shape's color.
    spec fn paint(&self) -> Color;

    /// The box that `pixel_box` returns.
    spec fn bounds(&self) -> (Point, Point);

    /// Whether the shape covers `pixel`.
    fn hit(&self, pixel: &Point) -> (r: bool)
        ensures
            r == self.covers(*pixel),
    ;

    /// The shape's color.
    fn color(&self) -> (r: Color)
        ensures
            r == self.paint(),
    ;

    /// A box, corners included, that holds every point the shape covers.
    fn pixel_box(&self) -> (r: (Point, Point))
        ensures
            r == self.bounds(),
    ;

    /// Every point that the shape covers lies in its box.
    proof fn lemma_hits_in_box(&self, p: Point)
        requires
            self.covers(p),
        ensures
            in_box(self.bounds(), p),
    ;
}

/// An axis-aligned rectangle given by two opposite corners, in either order;
/// it covers the box that they span, borders included.
#[derive(Clone, Copy, Debug, PartialEq, Eq, Structural)]
pub struct Rectangle {
    pub top_left: Point,
    pub bottom_right: Point,
    pub color: Color,
}

fn min_u32(a: u32, b: u32) -> (r: u32)
    ensures
        r == if a <= b { a } else { b },
{
    if a <= b {
        a
    } else {
        b
    }
}

fn max_u32(a: u32, b: u32) -> (r: u32)
    ensures
        r == if a >= b { a } else { b },
{
    if a >= b {
        a
    } else {
        b
    }
}

pub open spec fn min_of(a: u32, b: u32) -> u32 {
    if a <= b {
        a
    } else {
        b
    }
}

pub open spec fn max_of(a: u32, b: u32) -> u32 {
    if a >= b {
        a
    } else {
        b
    }
}

impl Hitable for Rectangle {
    open spec fn covers(&self, p: Point) -> bool {
        in_box(self.bounds(), p)
    }

    open spec fn paint(&self) -> Color {
        self.color
    }

    open spec fn bounds(&self) -> (Point, Point) {
        (
            Point {
                x: min_of(self.top_left.x, self.bottom_right.x),
                y: min_of(self.top_left.y, self.bottom_right.y),
            },
            Point {
                x: max_of(self.top_left.x, self.bottom_right.x),
                y: max_of(self.top_left.y, self.bottom_right.y),
            },
        )
    }

    fn hit(&self, pixel: &Point) -> (r: bool) {
        let (lo, hi) = self.pixel_box();
        lo.x <= pixel.x && pixel.x <= hi.x && lo.y <= pixel.y && pixel.y <= hi.y
    }

    fn color(&self) -> (r: Color) {
        self.color
    }

    fn pixel_box(&self) -> (r: (Point, Point)) {
        (
            Point {
                x: min_u32(self.top_left.x, self.bottom_right.x),
                y: min_u32(self.top_left.y, self.bottom_right.y),
            },
            Point {
                x: max_u32(self.top_left.x, self.bottom_right.x),
                y: max_u32(self.top_left.y, self.bottom_right.y),
            },
        )
    }

    proof fn lemma_hits_in_box(&self, p: Point) {
    }
}

/// A disc: the points whose Euclidean distance from `center` is at most
/// `radius`.
#[derive(Clone, Copy, Debug, PartialEq, Eq, Structural)]
pub struct Circle {
    pub center: Point,
    pub radius: u32,
    pub color: Color,
}

/// Square of the distance between `a` and `b`.
pub open spec fn distance_squared(a: Point, b: Point) -> int {
    (a.x - b.x) * (a.x - b.x) + (a.y - b.y) * (a.y - b.y)
}

proof fn lemma_square_bound(d: int, r: int)
    requires
        0 <= r,
        d * d <= r * r,
    ensures
        -r <= d <= r,
{
    if d > r {
        assert(d * d > r * r) by (nonlinear_arith)
            requires
                d > r,
                r >= 0,
        ;
    }
    if d < -r {
        assert(d * d > r * r) by (nonlinear_arith)
            requires
                d < -r,
                r >= 0,
        ;
    }
}

impl Hitable for Circle {
    open spec fn covers(&self, p: Point) -> bool {
        distance_squared(self.center, p) <= self.radius * self.radius
    }

    open spec fn paint(&self) -> Color {
        self.color
    }

    open spec fn bounds(&self) -> (Point, Point) {
        (
            Point {
                x: self.center.x.saturating_sub(self.radius),
                y: self.center.y.saturating_sub(self.radius),
            },
            Point {
                x: self.center.x.saturating_add(self.radius),
                y: self.center.y.saturating_add(self.radius),
            },
        )
    }

    fn hit(&self, pixel: &Point) -> (r: bool) {
        let dx: i128 = self.center.x as i128 - pixel.x as i128;
        let dy: i128 = self.center.y as i128 - pixel.y as i128;
        let rr: i128 = self.radius as i128;
        assert(0 <= dx * dx <= 0x1_0000_0000 * 0x1_0000_0000) by (nonlinear_arith)
            requires
                -0x1_0000_0000 <= dx <= 0x1_0000_0000,
        ;
        assert(0 <= dy * dy <= 0x1_0000_0000 * 0x1_0000_0000) by (nonlinear_arith)
            requires
                -0x1_0000_0000 <= dy <= 0x1_0000_0000,
        ;
        assert(0 <= rr * rr <= 0x1_0000_0000 * 0x1_0000_0000) by (nonlinear_arith)
            requires
                0 <= rr <= 0x1_0000_0000,
        ;
        dx * dx + dy * dy <= rr * rr
    }

    fn color(&self) -> (r: Color) {
        self.color
    }

    fn pixel_box(&self) -> (r: (Point, Point)) {
        (
            Point {
                x: self.center.x.saturating_sub(self.radius),
                y: self.center.y.saturating_sub(self.radius),
            },
            Point {
                x: self.center.x.saturating_add(self.radius),
                y: self.center.y.saturating_add(self.radius),
            },
        )
    }

    proof fn lemma_hits_in_box(&self, p: Point) {
        let dx = self.center.x - p.x;
        let dy = self.center.y - p.y;
        let r = self.radius as int;
        assert(dx * dx <= r * r && dy * dy <= r * r) by (nonlinear_arith)
            requires
                dx * dx + dy * dy <= r * r,
        ;
        lemma_square_bound(dx, r);
        lemma_square_bound(dy, r);
    }
}

/// A triangle given by its three vertices.
#[derive(Clone, Copy, Debug, PartialEq, Eq, Structural)]
pub struct Triangle {
    pub a: Point,
    pub b: Point,
    pub c: Point,
    pub color: Color,
}

/// Twice the signed area of the triangle: zero exactly when its vertices are
/// collinear. The three barycentric coordinates of a point are its
/// `bary_a`, `bary_b` and `bary_c` divided by this.
pub open spec fn denominator(t: Triangle) -> int {
    (t.b.y - t.c.y) * (t.a.x - t.c.x) - (t.b.x - t.c.x) * (t.a.y - t.c.y)
}

/// Numerator of the barycentric coordinate of `p` for vertex `a`.
pub open spec fn bary_a(t: Triangle, p: Point) -> int {
    (t.b.y - t.c.y) * (p.x - t.c.x) - (t.b.x - t.c.x) * (p.y - t.c.y)
}

/// Numerator of the barycentric coordinate of `p` for vertex `b`.
pub open spec fn bary_b(t: Triangle, p: Point) -> int {
    (t.a.x - t.c.x) * (p.y - t.c.y) - (t.a.y - t.c.y) * (p.x - t.c.x)
}

/// Numerator of the barycentric coordinate of `p` for vertex `c`.
pub open spec fn bary_c(t: Triangle, p: Point) -> int {
    (t.a.y - t.b.y) * (p.x - t.b.x) - (t.a.x - t.b.x) * (p.y - t.b.y)
}

/// `n / d` lies in `[0, 1]`, for `d` not zero.
pub open spec fn unit_fraction(n: int, d: int) -> bool {
    if d > 0 {
        0 <= n <= d
    } else {
        d <= n <= 0
    }
}

/// The identity behind `lemma_barycentric_sum`, in coordinates relative to
/// the third vertex: `(ax, ay)` and `(bx, by)` are the other two, `(px, py)`
/// the point, and the second four are `ay - by`, `px - bx`, `ax - bx`,
/// `py - by`.
proof fn lemma_sum_identity(ax: int, ay: int, bx: int, by: int, px: int, py: int, s: int, t: int, u: int, v: int)
    by (nonlinear_arith)
    requires
        s == ay - by,
        t == px - bx,
        u == ax - bx,
        v == py - by,
    ensures
        (by * px - bx * py) + (ax * py - ay * px) + (s * t - u * v) == by * ax - bx * ay,
{
}

/// The identity behind `lemma_barycentric_point`, with the names of
/// `lemma_sum_identity`.
proof fn lemma_point_identity(ax: int, ay: int, bx: int, by: int, px: int, py: int)
    by (nonlinear_arith)
    ensures
        (by * ax - bx * ay) * px == (by * px - bx * py) * ax + (ax * py - ay * px) * bx,
        (by * ax - bx * ay) * py == (by * px - bx * py) * ay + (ax * py - ay * px) * by,
{
}

/// The three barycentric coordinates of any point sum to one: their
/// numerators sum to the denominator.
pub proof fn lemma_barycentric_sum(t: Triangle, p: Point)
    ensures
        bary_a(t, p) + bary_b(t, p) + bary_c(t, p) == denominator(t),
{
    lemma_sum_identity(
        t.a.x - t.c.x,
        t.a.y - t.c.y,
        t.b.x - t.c.x,
        t.b.y - t.c.y,
        p.x - t.c.x,
        p.y - t.c.y,
        t.a.y - t.b.y,
        p.x - t.b.x,
        t.a.x - t.b.x,
        p.y - t.b.y,
    );
}

/// A point, taken from the third vertex, is the other two taken from it and
/// weighted by their barycentric coordinates.
proof fn lemma_barycentric_point(t: Triangle, p: Point)
    ensures
        denominator(t) * (p.x - t.c.x) == bary_a(t, p) * (t.a.x - t.c.x) + bary_b(t, p) * (t.b.x - t.c.x),
        denominator(t) * (p.y - t.c.y) == bary_a(t, p) * (t.a.y - t.c.y) + bary_b(t, p) * (t.b.y - t.c.y),
{
    lemma_point_identity(t.a.x - t.c.x, t.a.y - t.c.y, t.b.x - t.c.x, t.b.y - t.c.y, p.x - t.c.x, p.y - t.c.y);
}

/// A weighted average of `v1`, `v2` and zero with non-negative weights lies
/// between the least and the greatest of them.
proof fn lemma_weighted_average(d: int, a: int, b: int, c: int, v: int, v1: int, v2: int, lo: int, hi: int)
    requires
        d > 0,
        a >= 0,
        b >= 0,
        c >= 0,
        a + b + c == d,
        d * v == a * v1 + b * v2,
        lo <= v1 <= hi,
        lo <= v2 <= hi,
        lo <= 0 <= hi,
    ensures
        lo <= v <= hi,
{
    assert(a * v1 <= a * hi && b * v2 <= b * hi && 0 <= c * hi) by (nonlinear_arith)
        requires
            a >= 0,
            b >= 0,
            c >= 0,
            v1 <= hi,
            v2 <= hi,
            0 <= hi,
    ;
    assert(a * v1 >= a * lo && b * v2 >= b * lo && 0 >= c * lo) by (nonlinear_arith)
        requires
            a >= 0,
            b >= 0,
            c >= 0,
            v1 >= lo,
            v2 >= lo,
            0 >= lo,
    ;
    assert(a * hi + b * hi + c * hi == d * hi && a * lo + b * lo + c * lo == d * lo) by (nonlinear_arith)
        requires
            a + b + c == d,
    ;
    assert(lo <= v <= hi) by (nonlinear_arith)
        requires
            d > 0,
            d * lo <= d * v <= d * hi,
    ;
}

/// `a * b - c * d` for factors of at most 2^32 in size.
fn cross(a: i128, b: i128, c: i128, d: i128) -> (r: i128)
    requires
        -0x1_0000_0000 <= a <= 0x1_0000_0000,
        -0x1_0000_0000 <= b <= 0x1_0000_0000,
        -0x1_0000_0000 <= c <= 0x1_0000_0000,
        -0x1_0000_0000 <= d <= 0x1_0000_0000,
    ensures
        r == a * b - c * d,
        -0x2_0000_0000_0000_0000 <= r <= 0x2_0000_0000_0000_0000,
{
    assert(-0x1_0000_0000_0000_0000 <= a * b <= 0x1_0000_0000_0000_0000) by (nonlinear_arith)
        requires
            -0x1_0000_0000 <= a <= 0x1_0000_0000,
            -0x1_0000_0000 <= b <= 0x1_0000_0000,
    ;
    assert(-0x1_0000_0000_0000_0000 <= c * d <= 0x1_0000_0000_0000_0000) by (nonlinear_arith)
        requires
            -0x1_0000_0000 <= c <= 0x1_0000_0000,
            -0x1_0000_0000 <= d <= 0x1_0000_0000,
    ;
    a * b - c * d
}

fn unit_fraction_exec(n: i128, d: i128) -> (r: bool)
    ensures
        r == unit_fraction(n as int, d as int),
{
    if d > 0 {
        0 <= n && n <= d
    } else {
        d <= n && n <= 0
    }
}

fn min3(a: u32, b: u32, c: u32) -> (r: u32)
    ensures
        r == min_of(a, min_of(b, c)),
{
    min_u32(a, min_u32(b, c))
}

fn max3(a: u32, b: u32, c: u32) -> (r: u32)
    ensures
        r == max_of(a, max_of(b, c)),
{
    max_u32(a, max_u32(b, c))
}

impl Hitable for Triangle {
    /// Inside or on the border, by barycentric coordinates; a triangle with
    /// collinear vertices covers nothing.
    open spec fn covers(&self, p: Point) -> bool {
        let d = denominator(*self);
        &&& d != 0
        &&& unit_fraction(bary_a(*self, p), d)
        &&& unit_fraction(bary_b(*self, p), d)
        &&& unit_fraction(bary_c(*self, p), d)
    }

    open spec fn paint(&self) -> Color {
        self.color
    }

    open spec fn bounds(&self) -> (Point, Point) {
        (
            Point {
                x: min_of(self.a.x, min_of(self.b.x, self.c.x)),
                y: min_of(self.a.y, min_of(self.b.y, self.c.y)),
            },
            Point {
                x: max_of(self.a.x, max_of(self.b.x, self.c.x)),
                y: max_of(self.a.y, max_of(self.b.y, self.c.y)),
            },
        )
    }

    fn hit(&self, pixel: &Point) -> (r: bool) {
        let (ax, ay) = (self.a.x as i128 - self.c.x as i128, self.a.y as i128 - self.c.y as i128);
        let (bx, by) = (self.b.x as i128 - self.c.x as i128, self.b.y as i128 - self.c.y as i128);
        let (px, py) = (pixel.x as i128 - self.c.x as i128, pixel.y as i128 - self.c.y as i128);
        let d = cross(by, ax, bx, ay);
        let a = cross(by, px, bx, py);
        let b = cross(ax, py, ay, px);
        let c = d - a - b;
        proof {
            lemma_barycentric_sum(*self, *pixel);
        }
        d != 0 && unit_fraction_exec(a, d) && unit_fraction_exec(b, d) && unit_fraction_exec(c, d)
    }

    fn color(&self) -> (r: Color) {
        self.color
    }

    fn pixel_box(&self) -> (r: (Point, Point)) {
        (
            Point { x: min3(self.a.x, self.b.x, self.c.x), y: min3(self.a.y, self.b.y, self.c.y) },
            Point { x: max3(self.a.x, self.b.x, self.c.x), y: max3(self.a.y, self.b.y, self.c.y) },
        )
    }

    proof fn lemma_hits_in_box(&self, p: Point) {
        let t = *self;
        let (d, a, b, c) = (denominator(t), bary_a(t, p), bary_b(t, p), bary_c(t, p));
        let (ax, ay, bx, by) = (t.a.x - t.c.x, t.a.y - t.c.y, t.b.x - t.c.x, t.b.y - t.c.y);
        let (px, py) = (p.x - t.c.x, p.y - t.c.y);
        lemma_barycentric_sum(t, p);
        lemma_barycentric_point(t, p);
        let bx0 = self.bounds();
        let (lox, hix) = (bx0.0.x - t.c.x, bx0.1.x - t.c.x);
        let (loy, hiy) = (bx0.0.y - t.c.y, bx0.1.y - t.c.y);
        if d > 0 {
            lemma_weighted_average(d, a, b, c, px, ax, bx, lox, hix);
            lemma_weighted_average(d, a, b, c, py, ay, by, loy, hiy);
        } else {
            assert((-d) * px == (-a) * ax + (-b) * bx && (-d) * py == (-a) * ay + (-b) * by)
                by (nonlinear_arith)
                requires
                    d * px == a * ax + b * bx,
                    d * py == a * ay + b * by,
            ;
            lemma_weighted_average(-d, -a, -b, -c, px, ax, bx, lox, hix);
            lemma_weighted_average(-d, -a, -b, -c, py, ay, by, loy, hiy);
        }
    }
}

/// A shape of one of the three kinds.
#[derive(Clone, Copy, Debug, PartialEq, Eq, Structural)]
pub enum Shape {
    Circle(Circle),
    Triangle(Triangle),
    Rectangle(Rectangle),
}

impl Hitable for Shape {
    open spec fn covers(&self, p: Point) -> bool {
        match *self {
            Shape::Circle(s) => s.covers(p),
            Shape::Triangle(s) => s.covers(p),
            Shape::Rectangle(s) => s.covers(p),
        }
    }

    open spec fn paint(&self) -> Color {
        match *self {
            Shape::Circle(s) => s.paint(),
            Shape::Triangle(s) => s.paint(),
            Shape::Rectangle(s) => s.paint(),
        }
    }

    open spec fn bounds(&self) -> (Point, Point) {
        match *self {
            Shape::Circle(s) => s.bounds(),
            Shape::Triangle(s) => s.bounds(),
            Shape::Rectangle(s) => s.bounds(),
        }
    }

    fn hit(&self, pixel: &Point) -> (r: bool) {
        match self {
            Shape::Circle(s) => s.hit(pixel),
            Shape::Triangle(s) => s.hit(pixel),
            Shape::Rectangle(s) => s.hit(pixel),
        }
    }

    fn color(&self) -> (r: Color) {
        match self {
            Shape::Circle(s) => s.color(),
            Shape::Triangle(s) => s.color(),
            Shape::Rectangle(s) => s.color(),
        }
    }

    fn pixel_box(&self) -> (r: (Point, Point)) {
        match self {
            Shape::Circle(s) => s.pixel_box(),
            Shape::Triangle(s) => s.pixel_box(),
            Shape::Rectangle(s) => s.pixel_box(),
        }
    }

    proof fn lemma_hits_in_box(&self, p: Point) {
        match *self {
            Shape::Circle(s) => s.lemma_hits_in_box(p),
            Shape::Triangle(s) => s.lemma_hits_in_box(p),
            Shape::Rectangle(s) => s.lemma_hits_in_box(p),
        }
    }
}

/// Every point that a shape hits lies in its bounding box.
pub proof fn lemma_hit_within_box(s: Shape, p: Point)
    requires
        s.covers(p),
    ensures
        in_box(s.bounds(), p),
{
    s.lemma_hits_in_box(p);
}

/// Smallest and largest half side of a random rectangle.
pub const RECT_HALF_MIN: u32 = 2;
pub const RECT_HALF_MAX: u32 = 9;

/// Smallest and largest radius of a random circle.
pub const RADIUS_MIN: u32 = 1;
pub const RADIUS_MAX: u32 = 5;

/// Smallest and largest leg of a random triangle.
pub const LEG_MIN: u32 = 3;
pub const LEG_MAX: u32 = 12;

/// `v` moved down by `d`, stopping at zero.
pub open spec fn below(v: u32, d: u32) -> u32 {
    v.saturating_sub(d)
}

/// `v` moved up by `d`, stopping at the largest coordinate.
pub open spec fn above(v: u32, d: u32) -> u32 {
    v.saturating_add(d)
}

/// `v` moved down by `d`; a result that wraps below zero becomes zero.
fn step_down(v: u32, d: u32) -> (r: u32)
    ensures
        r == below(v, d),
{
    larger_zero(v, v.wrapping_sub(d))
}

/// A color with each channel, alpha included, drawn uniformly over the
/// whole byte range.
pub fn random_color(rng: &mut StdRng) -> (r: Color) {
    let r = draw_between(rng, 0, 255) as u8;
    let g = draw_between(rng, 0, 255) as u8;
    let b = draw_between(rng, 0, 255) as u8;
    let a = draw_between(rng, 0, 255) as u8;
    Color { r, g, b, a }
}

impl Rectangle {
    /// The rectangle around `center` that reaches `half_w` and `half_h` from
    /// it, clipped at the edges of the coordinate range.
    pub open spec fn around(self, center: Point, half_w: u32, half_h: u32) -> bool {
        &&& self.top_left == Point { x: below(center.x, half_w), y: below(center.y, half_h) }
        &&& self.bottom_right == Point { x: above(center.x, half_w), y: above(center.y, half_h) }
    }

    /// What every rectangle drawn for an `x` by `y` canvas is: around a
    /// point of the canvas, with half sides in the drawing range.
    pub open spec fn drawn(self, x: u32, y: u32) -> bool {
        exists|c: Point, hw: u32, hh: u32|
            c.x < x && c.y < y && RECT_HALF_MIN <= hw <= RECT_HALF_MAX && RECT_HALF_MIN <= hh <= RECT_HALF_MAX
                && #[trigger] self.around(c, hw, hh)
    }

    /// A rectangle centered on a uniform point of an `x` by `y` canvas, with
    /// half sides drawn from a small range, and a random color.
    pub fn random(rng: &mut StdRng, x: u32, y: u32) -> (r: Self)
        requires
            x > 0,
            y > 0,
        ensures
            r.drawn(x, y),
    {
        let half_w = draw_between(rng, RECT_HALF_MIN, RECT_HALF_MAX);
        let half_h = draw_between(rng, RECT_HALF_MIN, RECT_HALF_MAX);
        let center = Point { x: draw_between(rng, 0, x - 1), y: draw_between(rng, 0, y - 1) };
        let r = Rectangle {
            top_left: Point { x: step_down(center.x, half_w), y: step_down(center.y, half_h) },
            bottom_right: Point { x: center.x.saturating_add(half_w), y: center.y.saturating_add(half_h) },
            color: random_color(rng),
        };
        assert(r.around(center, half_w, half_h));
        r
    }
}

impl Circle {
    /// What every circle drawn for an `x` by `y` canvas is: centered on a
    /// point of the canvas, with a radius in the drawing range.
    pub open spec fn drawn(self, x: u32, y: u32) -> bool {
        &&& self.center.x < x
        &&& self.center.y < y
        &&& RADIUS_MIN <= self.radius <= RADIUS_MAX
    }

    /// A circle centered on a uniform point of an `x` by `y` canvas, with a
    /// radius drawn from a small range, and a random color.
    pub fn random(rng: &mut StdRng, x: u32, y: u32) -> (r: Self)
        requires
            x > 0,
            y > 0,
        ensures
            r.drawn(x, y),
    {
        let center = Point { x: draw_between(rng, 0, x - 1), y: draw_between(rng, 0, y - 1) };
        let radius = draw_between(rng, RADIUS_MIN, RADIUS_MAX);
        Circle { center, radius, color: random_color(rng) }
    }
}

/// `p` is at most `d` away from `c` along each axis.
pub open spec fn near(p: Point, c: Point, d: u32) -> bool {
    &&& c.x - d <= p.x <= c.x + d
    &&& c.y - d <= p.y <= c.y + d
}

/// With `n / d` the fractions of a point on an edge, at `q / (p + q)` and
/// `p / (p + q)` of it, and nothing of the third vertex.
proof fn lemma_edge_fractions(e: int, p: int, q: int)
    requires
        e != 0,
        p >= 0,
        q >= 0,
    ensures
        e * (p + q) == q * e + p * e,
        unit_fraction(q * e, e * (p + q)),
        unit_fraction(p * e, e * (p + q)),
        unit_fraction(0, e * (p + q)),
{
    assert(e * (p + q) == q * e + p * e) by (nonlinear_arith);
    if e > 0 {
        assert(q * e >= 0 && p * e >= 0) by (nonlinear_arith)
            requires
                e > 0,
                p >= 0,
                q >= 0,
        ;
    } else {
        assert(q * e <= 0 && p * e <= 0) by (nonlinear_arith)
            requires
                e < 0,
                p >= 0,
                q >= 0,
        ;
    }
}

impl Triangle {
    /// What every triangle drawn for an `x` by `y` canvas is: not flat, with
    /// its vertices near a point of the canvas that it covers.
    pub open spec fn drawn(self, x: u32, y: u32) -> bool {
        &&& denominator(self) != 0
        &&& exists|c: Point|
            c.x < x && c.y < y && #[trigger] near(self.a, c, LEG_MAX) && near(self.b, c, LEG_MAX) && near(
                self.c,
                c,
                LEG_MAX,
            ) && self.covers(c)
    }

    /// A right isosceles triangle: its right angle on a uniform point of an
    /// `x` by `y` canvas, its legs drawn from a small range and pointing in
    /// one of four directions, and a random color. An apex that would land
    /// on the base line, at the edge of the coordinate range, is mirrored,
    /// so the vertices are never collinear.
    pub fn random(rng: &mut StdRng, x: u32, y: u32) -> (r: Self)
        requires
            x > 0,
            y > 0,
        ensures
            r.drawn(x, y),
    {
        let center = Point { x: draw_between(rng, 0, x - 1), y: draw_between(rng, 0, y - 1) };
        let distance = draw_between(rng, LEG_MIN, LEG_MAX);
        let mut direction = draw_between(rng, 0, 3);
        if direction == 1 && center.y == 0 {
            direction = 0;
        } else if direction == 3 && center.x == 0 {
            direction = 2;
        }
        let (cx, cy) = (center.x, center.y);
        let (a, b, c) = if direction <= 1 {
            let apex_y = if direction == 0 {
                cy.saturating_add(distance)
            } else {
                step_down(cy, distance)
            };
            (
                Point { x: cx.saturating_add(distance), y: cy },
                Point { x: step_down(cx, distance), y: cy },
                Point { x: cx, y: apex_y },
            )
        } else {
            let apex_x = if direction == 2 {
                cx.saturating_add(distance)
            } else {
                step_down(cx, distance)
            };
            (
                Point { x: cx, y: cy.saturating_add(distance) },
                Point { x: cx, y: step_down(cy, distance) },
                Point { x: apex_x, y: cy },
            )
        };
        let r = Triangle { a, b, c, color: random_color(rng) };
        proof {
            let e: int = if direction <= 1 {
                c.y - cy
            } else {
                c.x - cx
            };
            let p: int = if direction <= 1 {
                a.x - cx
            } else {
                a.y - cy
            };
            let q: int = if direction <= 1 {
                cx - b.x
            } else {
                cy - b.y
            };
            assert(e != 0 && p > 0 && q >= 0);
            if direction <= 1 {
                assert(denominator(r) == -(e * (p + q)) && bary_a(r, center) == -(q * e) && bary_b(r, center)
                    == -(p * e) && bary_c(r, center) == 0) by (nonlinear_arith)
                    requires
                        denominator(r) == (b.y - c.y) * (a.x - c.x) - (b.x - c.x) * (a.y - c.y),
                        bary_a(r, center) == (b.y - c.y) * (cx - c.x) - (b.x - c.x) * (cy - c.y),
                        bary_b(r, center) == (a.x - c.x) * (cy - c.y) - (a.y - c.y) * (cx - c.x),
                        bary_c(r, center) == (a.y - b.y) * (cx - b.x) - (a.x - b.x) * (cy - b.y),
                        b.y == cy,
                        a.y == cy,
                        c.x == cx,
                        c.y - cy == e,
                        a.x - cx == p,
                        cx - b.x == q,
                ;
            } else {
                assert(denominator(r) == e * (p + q) && bary_a(r, center) == q * e && bary_b(r, center) == p * e
                    && bary_c(r, center) == 0) by (nonlinear_arith)
                    requires
                        denominator(r) == (b.y - c.y) * (a.x - c.x) - (b.x - c.x) * (a.y - c.y),
                        bary_a(r, center) == (b.y - c.y) * (cx - c.x) - (b.x - c.x) * (cy - c.y),
                        bary_b(r, center) == (a.x - c.x) * (cy - c.y) - (a.y - c.y) * (cx - c.x),
                        bary_c(r, center) == (a.y - b.y) * (cx - b.x) - (a.x - b.x) * (cy - b.y),
                        b.x == cx,
                        a.x == cx,
                        c.y == cy,
                        c.x - cx == e,
                        a.y - cy == p,
                        cy - b.y == q,
                ;
            }
            assert(e * (p + q) != 0) by (nonlinear_arith)
                requires
                    e != 0,
                    p + q > 0,
            ;
            lemma_edge_fractions(e, p, q);
            assert(r.covers(center));
            assert(near(r.a, center, LEG_MAX));
        }
        r
    }
}

impl Shape {
    /// What every shape drawn for an `x` by `y` canvas is.
    pub open spec fn drawn(self, x: u32, y: u32) -> bool {
        match self {
            Shape::Circle(s) => s.drawn(x, y),
            Shape::Triangle(s) => s.drawn(x, y),
            Shape::Rectangle(s) => s.drawn(x, y),
        }
    }
}

/// A batch as `random_objects` draws it for an `x` by `y` canvas: every
/// tenth shape, from the first, a triangle; of the others every fifth a
/// circle; the rest rectangles; each drawn for the canvas.
pub open spec fn random_batch(shapes: Seq<Shape>, x: u32, y: u32) -> bool {
    forall|i: int|
        0 <= i < shapes.len() ==> {
            &&& match #[trigger] shapes[i] {
                Shape::Triangle(_) => i % 10 == 0,
                Shape::Circle(_) => i % 10 != 0 && i % 5 == 0,
                Shape::Rectangle(_) => i % 5 != 0,
            }
            &&& shapes[i].drawn(x, y)
        }
}

/// `count` random shapes for an `x` by `y` canvas: every tenth one, from the
/// first, a triangle; of the others every fifth a circle; the rest
/// rectangles.
pub fn random_objects(rng: &mut StdRng, x: u32, y: u32, count: u32) -> (r: Vec<Shape>)
    requires
        x > 0,
        y > 0,
    ensures
        r@.len() == count,
        random_batch(r@, x, y),
{
    let mut shapes: Vec<Shape> = Vec::new();
    let mut i: u32 = 0;
    while i < count
        invariant
            x > 0,
            y > 0,
            i <= count,
            shapes@.len() == i,
            random_batch(shapes@, x, y),
        decreases count - i,
    {
        if i % 10 == 0 {
            shapes.push(Shape::Triangle(Triangle::random(rng, x, y)));
        } else if i % 5 == 0 {
            shapes.push(Shape::Circle(Circle::random(rng, x, y)));
        } else {
            shapes.push(Shape::Rectangle(Rectangle::random(rng, x, y)));
        }
        i = i + 1;
    }
    shapes
}

} // verus!
