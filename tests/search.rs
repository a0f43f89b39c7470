use image_gen::canvas::{Canvas, Color};
use image_gen::fitness::global_fitness;
use image_gen::objects::{Point, Rectangle, Shape};
use image_gen::raster::Compositing;
use image_gen::search::{run, BestState, ConfigError, Search, SearchConfig, DEFAULT_SLACK, WORST_SCORE};
use rand::rngs::StdRng;
use rand::SeedableRng;

const WHITE: Color = Color { r: 255, g: 255, b: 255, a: 255 };

fn filled(w: u32, h: u32, c: Color) -> Canvas {
    let mut canvas = Canvas::new(w, h);
    for y in 0..h {
        for x in 0..w {
            canvas.put_pixel(x, y, c);
        }
    }
    canvas
}

fn gradient(w: u32, h: u32) -> Canvas {
    let mut canvas = Canvas::new(w, h);
    for y in 0..h {
        for x in 0..w {
            canvas.put_pixel(x, y, Color { r: (x * 20) as u8, g: (y * 20) as u8, b: 128, a: 255 });
        }
    }
    canvas
}

fn config(iterations: u32, compositing: Compositing, slack: Option<u64>) -> SearchConfig {
    SearchConfig::new(iterations, compositing, false, 2, 20, slack).unwrap()
}

#[test]
fn config_rejects_zero_iterations() {
    assert_eq!(SearchConfig::new(0, Compositing::Blend, false, 1, 2, None), Err(ConfigError::NoIterations));
}

#[test]
fn config_rejects_bad_shape_ranges() {
    assert_eq!(SearchConfig::new(5, Compositing::Blend, false, 0, 2, None), Err(ConfigError::BadShapeRange));
    assert_eq!(SearchConfig::new(5, Compositing::Blend, false, 3, 2, None), Err(ConfigError::BadShapeRange));
}

#[test]
fn config_accepts_a_valid_range() {
    let c = SearchConfig::new(5, Compositing::Overwrite, true, 2, 2, Some(7)).unwrap();
    assert_eq!(c.iteration_budget, 5);
    assert_eq!(c.min_shapes, 2);
    assert_eq!(c.max_shapes, 2);
    assert_eq!(c.prefilter_slack, Some(7));
    assert!(c.snapshot_enabled);
}

#[test]
fn snapshots_come_periodically_and_at_the_end() {
    let c = SearchConfig::new(90, Compositing::Overwrite, true, 1, 2, None).unwrap();
    assert!(c.snapshot_at(0));
    assert!(!c.snapshot_at(1));
    assert!(c.snapshot_at(3));
    assert!(c.snapshot_at(87));
    assert!(c.snapshot_at(89));
    assert!(!c.snapshot_at(88));
    let short = SearchConfig::new(4, Compositing::Overwrite, true, 1, 2, None).unwrap();
    assert!((0..4).all(|i| short.snapshot_at(i)));
    let off = SearchConfig::new(90, Compositing::Overwrite, false, 1, 2, None).unwrap();
    assert!(!off.snapshot_at(0) && !off.snapshot_at(89));
}

#[test]
fn white_rectangle_matches_white_target_in_one_step() {
    let target = filled(10, 10, WHITE);
    let mut best = BestState::initial(&target);
    assert_eq!(best.score, WORST_SCORE);
    let cover = Shape::Rectangle(Rectangle { top_left: Point { x: 0, y: 0 }, bottom_right: Point { x: 9, y: 9 }, color: WHITE });
    assert!(best.consider(&target, &vec![cover], Compositing::Blend, None));
    assert_eq!(best.score, 0);
    assert_eq!(global_fitness(&target, &best.canvas), 0);
}

#[test]
fn white_rectangle_passes_the_prefilter() {
    let target = filled(10, 10, WHITE);
    let mut best = BestState::initial(&target);
    let cover = Shape::Rectangle(Rectangle { top_left: Point { x: 0, y: 0 }, bottom_right: Point { x: 9, y: 9 }, color: WHITE });
    assert!(best.consider(&target, &vec![cover], Compositing::Blend, Some(DEFAULT_SLACK)));
    assert_eq!(best.score, 0);
}

#[test]
fn worse_candidate_is_discarded() {
    let target = filled(4, 4, WHITE);
    let mut best = BestState::initial(&target);
    let cover = Shape::Rectangle(Rectangle { top_left: Point { x: 0, y: 0 }, bottom_right: Point { x: 3, y: 3 }, color: WHITE });
    assert!(best.consider(&target, &vec![cover], Compositing::Overwrite, None));
    let spoil = Shape::Rectangle(Rectangle {
        top_left: Point { x: 1, y: 1 },
        bottom_right: Point { x: 2, y: 2 },
        color: Color { r: 0, g: 0, b: 0, a: 255 },
    });
    assert!(!best.consider(&target, &vec![spoil], Compositing::Overwrite, None));
    assert_eq!(best.score, 0);
    assert_eq!(best.canvas.get_pixel(1, 1), WHITE);
}

#[test]
fn prefilter_drops_harmful_shapes() {
    let target = filled(4, 4, WHITE);
    let mut best = BestState::initial(&target);
    let cover = Shape::Rectangle(Rectangle { top_left: Point { x: 0, y: 0 }, bottom_right: Point { x: 3, y: 3 }, color: WHITE });
    best.consider(&target, &vec![cover], Compositing::Overwrite, None);
    let spoil = Shape::Rectangle(Rectangle {
        top_left: Point { x: 0, y: 0 },
        bottom_right: Point { x: 3, y: 3 },
        color: Color { r: 0, g: 0, b: 0, a: 255 },
    });
    let fix = Shape::Rectangle(Rectangle {
        top_left: Point { x: 0, y: 0 },
        bottom_right: Point { x: 0, y: 0 },
        color: WHITE,
    });
    assert!(!best.consider(&target, &vec![spoil, fix], Compositing::Overwrite, Some(0)));
    assert_eq!(best.score, 0);
}

#[test]
fn accepted_scores_go_strictly_down() {
    let target = gradient(12, 9);
    let mut rng = StdRng::seed_from_u64(17);
    let search = run(&target, config(300, Compositing::Blend, Some(DEFAULT_SLACK)), &mut rng);
    assert_eq!(search.iteration, 300);
    assert!(!search.accepted.is_empty());
    assert!(search.accepted.windows(2).all(|w| w[0] > w[1]));
    assert_eq!(search.best.score, *search.accepted.last().unwrap());
    assert_eq!(search.best.score, global_fitness(&target, &search.best.canvas));
}

#[test]
fn step_by_step_matches_its_contract() {
    let target = gradient(8, 8);
    let mut rng = StdRng::seed_from_u64(4);
    let cfg = SearchConfig::new(60, Compositing::Overwrite, true, 1, 5, None).unwrap();
    let mut search = Search::new(&target, cfg);
    let mut snapshots = 0;
    while !search.is_done() {
        let before = search.best.score;
        let i = search.iteration;
        let snap = search.step(&target, &mut rng);
        assert_eq!(snap, cfg.snapshot_at(i));
        assert!(search.best.score <= before);
        if snap {
            snapshots += 1;
        }
    }
    assert_eq!(search.iteration, 60);
    assert_eq!(snapshots, 31);
}

#[test]
fn seeded_runs_are_reproducible() {
    let target = gradient(10, 10);
    let cfg = config(200, Compositing::Overwrite, Some(DEFAULT_SLACK));
    let first = run(&target, cfg, &mut StdRng::seed_from_u64(99));
    let second = run(&target, cfg, &mut StdRng::seed_from_u64(99));
    assert_eq!(first.accepted, second.accepted);
    assert_eq!(first.best.score, second.best.score);
    for y in 0..10 {
        for x in 0..10 {
            assert_eq!(first.best.canvas.get_pixel(x, y), second.best.canvas.get_pixel(x, y));
        }
    }
}
