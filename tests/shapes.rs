use image_gen::canvas::Color;
use image_gen::objects::{
    larger_zero, random_objects, Circle, Hitable, Point, Rectangle, Shape, Triangle, LEG_MAX,
    RADIUS_MAX, RADIUS_MIN, RECT_HALF_MAX, RECT_HALF_MIN,
};
use rand::rngs::StdRng;
use rand::SeedableRng;

const RED: Color = Color { r: 255, g: 0, b: 0, a: 255 };

fn in_box(b: (Point, Point), p: Point) -> bool {
    b.0.x <= p.x && p.x <= b.1.x && b.0.y <= p.y && p.y <= b.1.y
}

fn hits_on_grid(s: &Shape, n: u32) -> Vec<Point> {
    let mut v = Vec::new();
    for y in 0..n {
        for x in 0..n {
            let p = Point { x, y };
            if s.hit(&p) {
                v.push(p);
            }
        }
    }
    v
}

#[test]
fn larger_zero_keeps_small_guess() {
    assert_eq!(larger_zero(10, 4), 4);
    assert_eq!(larger_zero(10, 10), 10);
}

#[test]
fn larger_zero_clears_wrapped_guess() {
    assert_eq!(larger_zero(10, 11), 0);
    assert_eq!(larger_zero(3, 3u32.wrapping_sub(5)), 0);
}

#[test]
fn circle_of_radius_zero_hits_only_its_center() {
    let c = Shape::Circle(Circle { center: Point { x: 5, y: 5 }, radius: 0, color: RED });
    assert_eq!(hits_on_grid(&c, 10), vec![Point { x: 5, y: 5 }]);
}

#[test]
fn circle_hit_uses_euclidean_distance() {
    let c = Circle { center: Point { x: 5, y: 5 }, radius: 2, color: RED };
    assert!(c.hit(&Point { x: 7, y: 5 }));
    assert!(c.hit(&Point { x: 6, y: 6 }));
    assert!(!c.hit(&Point { x: 7, y: 6 }));
    assert!(!c.hit(&Point { x: 7, y: 7 }));
    assert_eq!(c.pixel_box(), (Point { x: 3, y: 3 }, Point { x: 7, y: 7 }));
}

#[test]
fn circle_box_clamps_at_zero() {
    let c = Circle { center: Point { x: 1, y: 0 }, radius: 3, color: RED };
    assert_eq!(c.pixel_box(), (Point { x: 0, y: 0 }, Point { x: 4, y: 3 }));
}

#[test]
fn rectangle_hit_includes_corners() {
    let r = Rectangle { top_left: Point { x: 2, y: 3 }, bottom_right: Point { x: 4, y: 6 }, color: RED };
    assert!(r.hit(&Point { x: 2, y: 3 }));
    assert!(r.hit(&Point { x: 4, y: 6 }));
    assert!(!r.hit(&Point { x: 5, y: 6 }));
    assert!(!r.hit(&Point { x: 2, y: 2 }));
    assert_eq!(hits_on_grid(&Shape::Rectangle(r), 10).len(), 12);
    assert_eq!(r.pixel_box(), (Point { x: 2, y: 3 }, Point { x: 4, y: 6 }));
}

#[test]
fn rectangle_box_orders_corners() {
    let r = Rectangle { top_left: Point { x: 5, y: 1 }, bottom_right: Point { x: 2, y: 7 }, color: RED };
    assert_eq!(r.pixel_box(), (Point { x: 2, y: 1 }, Point { x: 5, y: 7 }));
}

#[test]
fn rectangle_corners_in_either_order_cover_the_same_box() {
    let r = Rectangle { top_left: Point { x: 2, y: 8 }, bottom_right: Point { x: 6, y: 3 }, color: RED };
    assert!(r.hit(&Point { x: 4, y: 5 }));
    assert!(r.hit(&Point { x: 2, y: 3 }));
    assert!(r.hit(&Point { x: 6, y: 8 }));
    assert!(!r.hit(&Point { x: 7, y: 5 }));
    assert_eq!(hits_on_grid(&Shape::Rectangle(r), 10).len(), 30);
}

#[test]
fn triangle_hit_includes_edges() {
    let t = Triangle { a: Point { x: 0, y: 0 }, b: Point { x: 4, y: 0 }, c: Point { x: 0, y: 4 }, color: RED };
    assert!(t.hit(&Point { x: 0, y: 0 }));
    assert!(t.hit(&Point { x: 2, y: 2 }));
    assert!(t.hit(&Point { x: 1, y: 1 }));
    assert!(!t.hit(&Point { x: 3, y: 2 }));
    assert_eq!(hits_on_grid(&Shape::Triangle(t), 10).len(), 15);
    assert_eq!(t.pixel_box(), (Point { x: 0, y: 0 }, Point { x: 4, y: 4 }));
}

#[test]
fn triangle_orientation_does_not_matter() {
    let t = Triangle { a: Point { x: 0, y: 0 }, b: Point { x: 0, y: 4 }, c: Point { x: 4, y: 0 }, color: RED };
    assert_eq!(hits_on_grid(&Shape::Triangle(t), 10).len(), 15);
}

#[test]
fn collinear_triangle_hits_nothing() {
    let t = Triangle { a: Point { x: 1, y: 1 }, b: Point { x: 3, y: 3 }, c: Point { x: 5, y: 5 }, color: RED };
    assert!(!t.hit(&Point { x: 3, y: 3 }));
    assert!(hits_on_grid(&Shape::Triangle(t), 10).is_empty());
}

#[test]
fn every_hit_lies_in_the_box() {
    let shapes = [
        Shape::Circle(Circle { center: Point { x: 2, y: 9 }, radius: 4, color: RED }),
        Shape::Rectangle(Rectangle { top_left: Point { x: 3, y: 1 }, bottom_right: Point { x: 8, y: 4 }, color: RED }),
        Shape::Triangle(Triangle { a: Point { x: 11, y: 2 }, b: Point { x: 1, y: 7 }, c: Point { x: 6, y: 13 }, color: RED }),
    ];
    for s in shapes.iter() {
        let hits = hits_on_grid(s, 16);
        assert!(!hits.is_empty());
        for p in hits {
            assert!(in_box(s.pixel_box(), p));
        }
    }
}

#[test]
fn shape_color_is_the_variant_color() {
    let blue = Color { r: 0, g: 0, b: 255, a: 9 };
    let s = Shape::Circle(Circle { center: Point { x: 1, y: 1 }, radius: 1, color: blue });
    assert_eq!(s.color(), blue);
}

#[test]
fn random_shapes_stay_in_their_ranges() {
    let mut rng = StdRng::seed_from_u64(11);
    for _ in 0..200 {
        let c = Circle::random(&mut rng, 20, 30);
        assert!(c.center.x < 20 && c.center.y < 30);
        assert!(RADIUS_MIN <= c.radius && c.radius <= RADIUS_MAX);
        let r = Rectangle::random(&mut rng, 20, 30);
        assert!(r.top_left.x < 20 && r.top_left.y < 30);
        assert!(r.top_left.x <= r.bottom_right.x && r.top_left.y <= r.bottom_right.y);
        assert!(r.bottom_right.x - r.top_left.x <= 2 * RECT_HALF_MAX);
        assert!(r.bottom_right.x - r.top_left.x >= RECT_HALF_MIN);
        let t = Triangle::random(&mut rng, 20, 30);
        assert!(t.hit(&t.a) && t.hit(&t.b) && t.hit(&t.c));
        let covered_in_canvas = (0..20).any(|x| (0..30).any(|y| t.hit(&Point { x, y })));
        assert!(covered_in_canvas);
        let b = t.pixel_box();
        assert!(b.1.x - b.0.x <= 2 * LEG_MAX && b.1.y - b.0.y <= 2 * LEG_MAX);
    }
}

#[test]
fn random_triangles_in_a_corner_are_not_flat() {
    let mut rng = StdRng::seed_from_u64(5);
    for _ in 0..200 {
        let t = Triangle::random(&mut rng, 1, 1);
        assert!(t.hit(&t.a) && t.hit(&t.b) && t.hit(&t.c));
    }
}

#[test]
fn random_objects_mix_kinds_by_position() {
    let mut rng = StdRng::seed_from_u64(2);
    let shapes = random_objects(&mut rng, 40, 40, 21);
    assert_eq!(shapes.len(), 21);
    for (i, s) in shapes.iter().enumerate() {
        match s {
            Shape::Triangle(_) => assert!(i % 10 == 0),
            Shape::Circle(_) => assert!(i % 10 != 0 && i % 5 == 0),
            Shape::Rectangle(_) => assert!(i % 5 != 0),
        }
    }
}
