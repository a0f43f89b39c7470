use image_gen::canvas::{Canvas, Color};
use image_gen::fitness::{color_fitness, fitness, global_fitness, local_errors, MAX_DISTANCE};
use image_gen::objects::{Circle, Point, Rectangle, Shape, Triangle};
use image_gen::raster::{combine_channel, composite_pixel, paint, sum_pixel_values, Compositing};

const BLACK: Color = Color { r: 0, g: 0, b: 0, a: 255 };
const WHITE: Color = Color { r: 255, g: 255, b: 255, a: 255 };

fn filled(w: u32, h: u32, c: Color) -> Canvas {
    let mut canvas = Canvas::new(w, h);
    for y in 0..h {
        for x in 0..w {
            canvas.put_pixel(x, y, c);
        }
    }
    canvas
}

fn same_pixels(a: &Canvas, b: &Canvas) -> bool {
    let (w, h) = a.dimensions();
    if b.dimensions() != (w, h) {
        return false;
    }
    (0..h).all(|y| (0..w).all(|x| a.get_pixel(x, y) == b.get_pixel(x, y)))
}

#[test]
fn new_canvas_is_transparent_black() {
    let c = Canvas::new(3, 2);
    assert_eq!(c.dimensions(), (3, 2));
    assert_eq!(c.get_pixel(2, 1), Color { r: 0, g: 0, b: 0, a: 0 });
}

#[test]
fn put_pixel_changes_one_pixel() {
    let mut c = Canvas::new(3, 2);
    let p = Color { r: 1, g: 2, b: 3, a: 4 };
    c.put_pixel(1, 1, p);
    assert_eq!(c.get_pixel(1, 1), p);
    assert_eq!(c.get_pixel(0, 1), Color { r: 0, g: 0, b: 0, a: 0 });
    assert_eq!(c.get_pixel(1, 0), Color { r: 0, g: 0, b: 0, a: 0 });
}

#[test]
fn duplicate_is_a_deep_copy() {
    let mut c = filled(2, 2, WHITE);
    let d = c.duplicate();
    c.put_pixel(0, 0, BLACK);
    assert_eq!(d.get_pixel(0, 0), WHITE);
    assert_eq!(d.dimensions(), (2, 2));
}

#[test]
fn combine_channel_weights_by_alpha() {
    assert_eq!(combine_channel(200, 100, 128), 150);
    assert_eq!(combine_channel(200, 100, 255), 200);
    assert_eq!(combine_channel(200, 100, 0), 100);
    assert_eq!(combine_channel(255, 0, 1), 1);
}

#[test]
fn blended_pixel_is_opaque() {
    let top = Color { r: 255, g: 0, b: 100, a: 51 };
    let bottom = Color { r: 0, g: 255, b: 100, a: 7 };
    assert_eq!(sum_pixel_values(&top, &bottom), Color { r: 51, g: 204, b: 100, a: 255 });
}

#[test]
fn overwrite_replaces_pixel() {
    let top = Color { r: 9, g: 8, b: 7, a: 6 };
    assert_eq!(composite_pixel(Compositing::Overwrite, &top, &WHITE), top);
}

#[test]
fn opaque_blend_equals_overwrite() {
    let color = Color { r: 30, g: 60, b: 90, a: 255 };
    let shape = Shape::Triangle(Triangle { a: Point { x: 0, y: 0 }, b: Point { x: 7, y: 1 }, c: Point { x: 2, y: 6 }, color });
    let mut blended = filled(8, 8, Color { r: 100, g: 5, b: 200, a: 30 });
    let mut overwritten = blended.duplicate();
    paint(&mut blended, &shape, Compositing::Blend);
    paint(&mut overwritten, &shape, Compositing::Overwrite);
    assert!(same_pixels(&blended, &overwritten));
    assert_eq!(blended.get_pixel(0, 0), color);
}

#[test]
fn paint_touches_only_hit_pixels_up_to_the_border() {
    let mut c = filled(6, 6, BLACK);
    let shape = Shape::Rectangle(Rectangle { top_left: Point { x: 4, y: 0 }, bottom_right: Point { x: 9, y: 1 }, color: WHITE });
    paint(&mut c, &shape, Compositing::Overwrite);
    for y in 0..6 {
        for x in 0..6 {
            let expected = if x >= 4 && y <= 1 { WHITE } else { BLACK };
            assert_eq!(c.get_pixel(x, y), expected);
        }
    }
}

#[test]
fn paint_outside_the_canvas_changes_nothing() {
    let mut c = filled(4, 4, BLACK);
    let shape = Shape::Circle(Circle { center: Point { x: 20, y: 20 }, radius: 3, color: WHITE });
    paint(&mut c, &shape, Compositing::Blend);
    assert!(same_pixels(&c, &filled(4, 4, BLACK)));
}

#[test]
fn color_fitness_ignores_alpha() {
    let p = Color { r: 10, g: 20, b: 30, a: 0 };
    let q = Color { r: 13, g: 24, b: 30, a: 255 };
    assert_eq!(color_fitness(&p, &q), 25);
    assert_eq!(color_fitness(&BLACK, &WHITE), MAX_DISTANCE);
}

#[test]
fn canvas_scores_zero_against_itself() {
    let mut c = filled(5, 4, Color { r: 3, g: 99, b: 250, a: 1 });
    c.put_pixel(2, 2, WHITE);
    assert_eq!(global_fitness(&c, &c), 0);
}

#[test]
fn global_fitness_is_symmetric() {
    let mut a = filled(3, 3, BLACK);
    let b = filled(3, 3, Color { r: 1, g: 2, b: 3, a: 0 });
    a.put_pixel(1, 2, WHITE);
    assert_eq!(global_fitness(&a, &b), global_fitness(&b, &a));
    assert_eq!(global_fitness(&a, &b), 8 * 14 + (254 * 254 + 253 * 253 + 252 * 252));
}

#[test]
fn global_fitness_sums_every_pixel() {
    let a = filled(10, 10, WHITE);
    let b = Canvas::new(10, 10);
    assert_eq!(global_fitness(&a, &b), 100 * MAX_DISTANCE as u128);
}

#[test]
fn local_errors_cover_only_hit_pixels() {
    let source = filled(5, 5, WHITE);
    let current = filled(5, 5, BLACK);
    let shape = Shape::Rectangle(Rectangle {
        top_left: Point { x: 3, y: 3 },
        bottom_right: Point { x: 7, y: 7 },
        color: Color { r: 255, g: 255, b: 245, a: 255 },
    });
    assert_eq!(local_errors(&shape, &source, &current), (4 * 100, 4 * MAX_DISTANCE as u128));
}

#[test]
fn prefilter_accepts_shapes_that_help() {
    let source = filled(5, 5, WHITE);
    let current = filled(5, 5, BLACK);
    let good = Shape::Circle(Circle { center: Point { x: 2, y: 2 }, radius: 1, color: WHITE });
    assert!(fitness(&good, &source, &current, 0));
}

#[test]
fn prefilter_rejects_shapes_that_hurt() {
    let source = filled(5, 5, WHITE);
    let current = filled(5, 5, WHITE);
    let bad = Shape::Circle(Circle { center: Point { x: 2, y: 2 }, radius: 1, color: BLACK });
    assert!(!fitness(&bad, &source, &current, 10_000));
    assert!(fitness(&bad, &source, &current, 5 * MAX_DISTANCE as u64 + 1));
}
