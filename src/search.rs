use crate::canvas::{Canvas, Color, blank_grid, canvas_dims};
use crate::fitness::{MAX_DISTANCE, fitness, global_error, global_fitness, promising};
use crate::objects::{Shape, random_batch, random_objects};
use crate::random::draw_between;
use crate::raster::{Compositing, paint, painted};
use rand::rngs::StdRng;
use vstd::prelude::*;

verus! {

/// The score of a state that holds no candidate yet: worse than any fitness.
pub const WORST_SCORE: u128 = 0xffff_ffff_ffff_ffff_ffff_ffff_ffff_ffff;

/// Iterations of a run when none are asked for.
pub const DEFAULT_ITERATIONS: u32 = 100000;

/// Slack of the local pre-check when it is on.
pub const DEFAULT_SLACK: u64 = 10000;

/// Snapshots are taken about this many times over a run.
pub const SNAPSHOTS_PER_RUN: u32 = 30;

/// What a run is asked to do.
#[derive(Clone, Copy, Debug, PartialEq, Eq, Structural)]
pub struct SearchConfig {
    /// Number of iterations.
    pub iteration_budget: u32,
    pub compositing: Compositing,
    /// Whether the current best canvas is handed out for snapshots.
    pub snapshot_enabled: bool,
    /// Least and greatest number of shapes drawn in one iteration.
    pub min_shapes: u32,
    pub max_shapes: u32,
    /// Slack of the local pre-check; `None` turns the pre-check off.
    pub prefilter_slack: Option<u64>,
}

/// Why a configuration is refused.
#[derive(Clone, Copy, Debug, PartialEq, Eq, Structural)]
pub enum ConfigError {
    /// The iteration budget is zero.
    NoIterations,
    /// The shape count range is empty or starts at zero.
    BadShapeRange,
}

impl SearchConfig {
    pub open spec fn valid(self) -> bool {
        &&& self.iteration_budget > 0
        &&& 0 < self.min_shapes <= self.max_shapes
    }

    /// A configuration from its parts, refused when the budget is zero or
    /// the shape count range is not a range of positive numbers.
    pub fn new(
        iteration_budget: u32,
        compositing: Compositing,
        snapshot_enabled: bool,
        min_shapes: u32,
        max_shapes: u32,
        prefilter_slack: Option<u64>,
    ) -> (r: Result<SearchConfig, ConfigError>)
        ensures
            iteration_budget > 0 && 0 < min_shapes <= max_shapes <==> r is Ok,
            iteration_budget == 0 <==> r == Err::<SearchConfig, ConfigError>(ConfigError::NoIterations),
            iteration_budget > 0 && !(0 < min_shapes <= max_shapes) <==> r == Err::<
                SearchConfig,
                ConfigError,
            >(ConfigError::BadShapeRange),
            r is Ok ==> r == Ok::<SearchConfig, ConfigError>(
                (SearchConfig {
                    iteration_budget,
                    compositing,
                    snapshot_enabled,
                    min_shapes,
                    max_shapes,
                    prefilter_slack,
                }),
            ),
    {
        if iteration_budget == 0 {
            Err(ConfigError::NoIterations)
        } else if min_shapes == 0 || min_shapes > max_shapes {
            Err(ConfigError::BadShapeRange)
        } else {
            Ok(
                SearchConfig {
                    iteration_budget,
                    compositing,
                    snapshot_enabled,
                    min_shapes,
                    max_shapes,
                    prefilter_slack,
                },
            )
        }
    }

    /// Iterations between two snapshots.
    pub open spec fn period(self) -> u32 {
        if self.iteration_budget / SNAPSHOTS_PER_RUN > 0 {
            (self.iteration_budget / SNAPSHOTS_PER_RUN) as u32
        } else {
            1
        }
    }

    /// Whether iteration `i` ends with a snapshot: every `period` iterations
    /// from the first, and the last one.
    pub open spec fn snapshot_due(self, i: u32) -> bool {
        self.snapshot_enabled && (i % self.period() == 0 || i + 1 == self.iteration_budget)
    }

    /// Whether iteration `i` ends with a snapshot.
    pub fn snapshot_at(&self, i: u32) -> (r: bool)
        ensures
            r == self.snapshot_due(i),
    {
        let every = self.iteration_budget / SNAPSHOTS_PER_RUN;
        let period = if every > 0 {
            every
        } else {
            1
        };
        self.snapshot_enabled && (i % period == 0 || (i as u64) + 1 == self.iteration_budget as u64)
    }
}

/// Whether the pre-check, if on, lets `s` through.
pub open spec fn survives(s: Shape, target: Seq<Seq<Color>>, base: Seq<Seq<Color>>, slack: Option<u64>) -> bool {
    match slack {
        Option::None => true,
        Option::Some(k) => promising(s, target, base, k),
    }
}

/// `base` with the shapes painted in order, each one that the pre-check
/// against `base` lets through.
pub open spec fn render(
    base: Seq<Seq<Color>>,
    target: Seq<Seq<Color>>,
    shapes: Seq<Shape>,
    mode: Compositing,
    slack: Option<u64>,
) -> Seq<Seq<Color>>
    decreases shapes.len(),
{
    if shapes.len() == 0 {
        base
    } else {
        let prev = render(base, target, shapes.drop_last(), mode, slack);
        if survives(shapes.last(), target, base, slack) {
            painted(prev, shapes.last(), mode)
        } else {
            prev
        }
    }
}

/// The best canvas found so far and its score.
pub struct BestState {
    pub score: u128,
    pub canvas: Canvas,
}

/// `after` is what considering `shapes` makes of `before`: the candidate
/// canvas replaces the best one exactly when it scores strictly lower.
pub open spec fn considered(
    before: BestState,
    after: BestState,
    target: Seq<Seq<Color>>,
    shapes: Seq<Shape>,
    mode: Compositing,
    slack: Option<u64>,
) -> bool {
    let candidate = render(before.canvas@, target, shapes, mode, slack);
    let score = global_error(target, candidate);
    if score < before.score {
        &&& after.score == score
        &&& after.canvas@ == candidate
        &&& after.canvas.same_size(before.canvas)
    } else {
        after == before
    }
}

/// The scores of `s` go strictly down.
pub open spec fn strictly_decreasing(s: Seq<u128>) -> bool {
    forall|i: int, j: int| 0 <= i < j < s.len() ==> s[i] > s[j]
}

impl BestState {
    /// The state before the first iteration: the worst score and a blank
    /// canvas of the target's size.
    pub fn initial(target: &Canvas) -> (r: BestState)
        ensures
            r.score == WORST_SCORE,
            r.canvas.same_size(*target),
            r.canvas@ == blank_grid(target.width(), target.height()),
    {
        let (w, h) = target.dimensions();
        BestState { score: WORST_SCORE, canvas: Canvas::new(w, h) }
    }

    /// One accept-or-reject decision: paints on a copy of the best canvas
    /// every shape of the batch that the pre-check lets through, in order,
    /// scores the copy against `target`, and keeps it when it is strictly
    /// better. Returns whether it was kept.
    pub fn consider(&mut self, target: &Canvas, shapes: &Vec<Shape>, mode: Compositing, slack: Option<u64>) -> (r:
        bool)
        requires
            old(self).canvas.same_size(*target),
        ensures
            considered(*old(self), *final(self), target@, shapes@, mode, slack),
            r == (final(self).score < old(self).score),
            global_error(target@, render(old(self).canvas@, target@, shapes@, mode, slack)) <= MAX_DISTANCE
                * target.width() * target.height(),
    {
        let ghost base = self.canvas@;
        let mut candidate = self.canvas.duplicate();
        let mut i: usize = 0;
        while i < shapes.len()
            invariant
                self.canvas.same_size(*target),
                base == self.canvas@,
                candidate.same_size(*target),
                i <= shapes@.len(),
                candidate@ == render(base, target@, shapes@.take(i as int), mode, slack),
            decreases shapes@.len() - i,
        {
            let s = &shapes[i];
            let keep = match slack {
                Option::None => true,
                Option::Some(k) => fitness(s, target, &self.canvas, k),
            };
            if keep {
                paint(&mut candidate, s, mode);
            }
            assert(shapes@.take(i + 1).drop_last() =~= shapes@.take(i as int));
            i = i + 1;
        }
        assert(shapes@.take(i as int) =~= shapes@);
        let score = global_fitness(target, &candidate);
        if score < self.score {
            self.score = score;
            self.canvas = candidate;
            true
        } else {
            false
        }
    }
}

/// A run of the search, one iteration at a time.
pub struct Search {
    pub config: SearchConfig,
    pub best: BestState,
    /// Iterations done.
    pub iteration: u32,
    /// The scores of the candidates kept, in order.
    pub accepted: Vec<u128>,
}

impl Search {
    /// What holds between iterations.
    pub open spec fn wf(self, target: Canvas) -> bool {
        &&& self.config.valid()
        &&& self.iteration <= self.config.iteration_budget
        &&& self.best.canvas.same_size(target)
        &&& strictly_decreasing(self.accepted@)
        &&& if self.accepted@.len() == 0 {
            self.best.score == WORST_SCORE
        } else {
            &&& self.best.score == self.accepted@.last()
            &&& self.best.score == global_error(target@, self.best.canvas@)
        }
    }

    pub open spec fn done(self) -> bool {
        self.iteration >= self.config.iteration_budget
    }

    /// A run about to start: the worst score and a blank canvas.
    pub fn new(target: &Canvas, config: SearchConfig) -> (r: Search)
        requires
            config.valid(),
        ensures
            r.wf(*target),
            r.config == config,
            r.iteration == 0,
            r.accepted@.len() == 0,
            r.best.canvas@ == blank_grid(target.width(), target.height()),
    {
        Search { config, best: BestState::initial(target), iteration: 0, accepted: Vec::new() }
    }

    /// Whether the iteration budget is spent.
    pub fn is_done(&self) -> (r: bool)
        ensures
            r == self.done(),
    {
        self.iteration >= self.config.iteration_budget
    }

    /// One iteration: draws a batch of random shapes, of a size in the
    /// configured range, considers it, and records the score when the
    /// candidate is kept. Returns whether the current best canvas is due
    /// for a snapshot.
    pub fn step(&mut self, target: &Canvas, rng: &mut StdRng) -> (snapshot: bool)
        requires
            old(self).wf(*target),
            !old(self).done(),
        ensures
            final(self).wf(*target),
            final(self).config == old(self).config,
            final(self).iteration == old(self).iteration + 1,
            snapshot == old(self).config.snapshot_due(old(self).iteration),
            exists|shapes: Seq<Shape>|
                {
                    &&& {
                        ||| old(self).config.min_shapes <= shapes.len() <= old(self).config.max_shapes
                            && random_batch(shapes, canvas_dims(*target).0, canvas_dims(*target).1)
                        ||| shapes.len() == 0 && (target.width() == 0 || target.height() == 0)
                    }
                    &&& #[trigger] considered(
                        old(self).best,
                        final(self).best,
                        target@,
                        shapes,
                        old(self).config.compositing,
                        old(self).config.prefilter_slack,
                    )
                },
            final(self).accepted@ == if final(self).best.score < old(self).best.score {
                old(self).accepted@.push(final(self).best.score)
            } else {
                old(self).accepted@
            },
            old(self).best.score == WORST_SCORE ==> final(self).accepted@.len() > 0,
    {
        let (w, h) = target.dimensions();
        assert(MAX_DISTANCE * w * h < WORST_SCORE) by (nonlinear_arith)
            requires
                w <= 0xffff_ffff,
                h <= 0xffff_ffff,
        ;
        let shapes = if w == 0 || h == 0 {
            Vec::new()
        } else {
            let count = draw_between(rng, self.config.min_shapes, self.config.max_shapes);
            random_objects(rng, w, h, count)
        };
        let ghost before = self.best;
        let kept = self.best.consider(target, &shapes, self.config.compositing, self.config.prefilter_slack);
        if kept {
            self.accepted.push(self.best.score);
        }
        let snapshot = self.config.snapshot_at(self.iteration);
        self.iteration = self.iteration + 1;
        proof {
            let last = self.accepted@.len() - 1;
            if kept {
                assert(self.accepted@[last] == self.best.score);
                assert forall|i: int, j: int| 0 <= i < j < self.accepted@.len() implies self.accepted@[i]
                    > self.accepted@[j] by {
                    if j == last && i < last && old(self).accepted@.len() > 0 {
                        assert(old(self).accepted@[i] >= old(self).accepted@.last());
                    }
                }
            }
            assert(considered(before, self.best, target@, shapes@, self.config.compositing, self.config.prefilter_slack));
        }
        snapshot
    }

    /// The iterations that are left, without snapshots.
    pub fn finish(&mut self, target: &Canvas, rng: &mut StdRng)
        requires
            old(self).wf(*target),
        ensures
            final(self).wf(*target),
            final(self).done(),
            final(self).config == old(self).config,
            final(self).best.score <= old(self).best.score,
            old(self).iteration < old(self).config.iteration_budget ==> final(self).accepted@.len() > 0,
    {
        while !self.is_done()
            invariant
                self.wf(*target),
                self.config == old(self).config,
                self.best.score <= old(self).best.score,
                self.iteration >= old(self).iteration,
                self.iteration > old(self).iteration ==> self.accepted@.len() > 0,
            decreases self.config.iteration_budget - self.iteration,
        {
            self.step(target, rng);
        }
    }
}

/// A full run against `target`: every iteration of the budget, without
/// snapshots. The scores of the candidates kept go strictly down, and the
/// best one is the fitness of the final canvas.
pub fn run(target: &Canvas, config: SearchConfig, rng: &mut StdRng) -> (r: Search)
    requires
        config.valid(),
    ensures
        r.wf(*target),
        r.config == config,
        r.iteration == config.iteration_budget,
        strictly_decreasing(r.accepted@),
        r.accepted@.len() > 0,
        r.best.score == global_error(target@, r.best.canvas@),
{
    let mut search = Search::new(target, config);
    search.finish(target, rng);
    search
}

} // verus!
