use crate::cell::{lemma_cells_equal_by_view, Cell};
use crate::types::Point;
use rand::Rng;
use rayon::iter::{IntoParallelIterator, ParallelIterator};
use vstd::arithmetic::mul::lemma_mul_inequality;
use vstd::prelude::*;

verus! {

/// Probabilities are held as integers out of this many parts: a value of
/// `PROBABILITY_SCALE` means certainty, `0` means (almost) never. A random
/// draw is a value in `0..PROBABILITY_SCALE`.
pub const PROBABILITY_SCALE: u64 = 1_000_000;

/// An alive frequency enters the entropy sum only when it is above one in
/// this many launches.
pub const ENTROPY_THRESHOLD_INVERSE: u128 = 1000;

/// A cell alive in `count` of `launches` launches has a frequency above the
/// entropy threshold. With no launches, any nonzero count is above it.
pub open spec fn counts_towards_entropy(count: int, launches: int) -> bool {
    count * ENTROPY_THRESHOLD_INVERSE > launches
}

/// The coordinates that `index_to_coords` gives for `idx`.
pub open spec fn point_of(width: int, height: int, idx: int) -> (int, int) {
    (idx % height, idx / width)
}

/// A coordinate shifted off one edge of the torus comes back at the other.
pub open spec fn wrap(c: int, size: int) -> int {
    if c < 0 {
        size - 1
    } else if c > size - 1 {
        0
    } else {
        c
    }
}

/// Flat index of the cell at `(x, y)` in a grid `width` cells wide.
pub open spec fn index_of(width: int, x: int, y: int) -> int {
    y * width + x
}

/// Flat index of the neighbour of cell `idx` at offset `(dx, dy)`. The cell's
/// own coordinates are `(idx % height, idx / width)`.
pub open spec fn neighbour_index(width: int, height: int, idx: int, dx: int, dy: int) -> int {
    index_of(width, wrap(idx % height + dx, width), wrap(idx / width + dy, height))
}

/// 1 where the neighbour of `idx` at `(dx, dy)` is alive, else 0.
pub open spec fn alive_neighbour(
    cells: Seq<Cell>,
    width: int,
    height: int,
    idx: int,
    dx: int,
    dy: int,
) -> int {
    if cells[neighbour_index(width, height, idx, dx, dy)]@ {
        1
    } else {
        0
    }
}

/// How many of the eight cells around `idx` are alive.
pub open spec fn live_neighbour_count(cells: Seq<Cell>, width: int, height: int, idx: int) -> int {
    alive_neighbour(cells, width, height, idx, -1, -1) + alive_neighbour(
        cells,
        width,
        height,
        idx,
        -1,
        0,
    ) + alive_neighbour(cells, width, height, idx, -1, 1) + alive_neighbour(
        cells,
        width,
        height,
        idx,
        0,
        -1,
    ) + alive_neighbour(cells, width, height, idx, 0, 1) + alive_neighbour(
        cells,
        width,
        height,
        idx,
        1,
        -1,
    ) + alive_neighbour(cells, width, height, idx, 1, 0) + alive_neighbour(
        cells,
        width,
        height,
        idx,
        1,
        1,
    )
}

/// The standard birth and survival rule: a live cell with two or three live
/// neighbours stays alive, a dead cell with exactly three comes alive.
pub open spec fn rule_alive(alive: bool, neighbours: int) -> bool {
    (alive && (neighbours == 2 || neighbours == 3)) || (!alive && neighbours == 3)
}

/// The state actually taken for a given draw: an "alive" outcome of the rule
/// is kept when the draw is at most `alive_probability`, a "dead" one is kept
/// when the draw is at most `dead_probability`; otherwise it is flipped.
pub open spec fn outcome_for_draw(
    rule: bool,
    draw: int,
    alive_probability: int,
    dead_probability: int,
) -> bool {
    if rule {
        draw <= alive_probability
    } else {
        !(draw <= dead_probability)
    }
}

/// The alive flags of a row of cells.
pub open spec fn alive_flags(cells: Seq<Cell>) -> Seq<bool> {
    cells.map_values(|c: Cell| c@)
}

/// How many of the recorded snapshots have cell `i` alive.
pub open spec fn times_alive(samples: Seq<Seq<bool>>, i: int) -> nat
    decreases samples.len(),
{
    if samples.len() == 0 {
        0
    } else {
        times_alive(samples.drop_last(), i) + if samples.last()[i] {
            1nat
        } else {
            0nat
        }
    }
}

/// The cells that a list of coordinates marks alive: cell `i` is alive when
/// some coordinate points at it.
pub open spec fn marked(coords: Seq<Point>, width: int, i: int) -> bool {
    exists|k: int| 0 <= k < coords.len() && index_of(width, coords[k].x as int, coords[k].y as int) == i
}

/// What a call of `Grid::update` did, for the caller to report.
#[derive(Clone, Copy, Debug, PartialEq, Eq)]
pub enum StepReport {
    /// An ordinary step inside a launch.
    Stepped,
    /// The sampling step of a launch: the alive cells were counted.
    /// `launches` is the number of launches completed before this one, and
    /// `run_complete` says that it equals `max_launch_count`, so that the
    /// counts are final and the entropy is due.
    Sampled { launches: usize, run_complete: bool },
    /// The launch ended: the cells went back to the initial pattern.
    Restarted,
}

/// The whole state of the simulation: the live cells, the pattern each launch
/// starts from, the launch and iteration counters, and how often each cell was
/// alive at the sampling step of a launch.
pub struct Grid {
    pub width: usize,
    pub height: usize,
    pub initial_cells: Vec<Cell>,
    pub cells: Vec<Cell>,
    pub cells_probabilities: Vec<usize>,
    pub iteration: usize,
    pub launch_count: usize,
    pub max_iterations: usize,
    pub max_launch_count: usize,
    /// Out of `PROBABILITY_SCALE`: how likely a "dead" outcome of the rule is kept.
    pub dead_probability: u64,
    /// Out of `PROBABILITY_SCALE`: how likely an "alive" outcome of the rule is kept.
    pub alive_probability: u64,
    /// The alive flags of the grid at each sampling step so far, oldest first.
    pub samples: Ghost<Seq<Seq<bool>>>,
}

impl Grid {
    /// Number of cells of the grid.
    pub open spec fn size(&self) -> int {
        self.width * self.height
    }

    /// Shape of a usable grid: positive dimensions, one entry per cell in each
    /// of the three per-cell vectors, and the iteration counter in its range.
    pub open spec fn wf(&self) -> bool {
        &&& self.width > 0
        &&& self.height > 0
        &&& self.size() <= usize::MAX
        &&& self.cells@.len() == self.size()
        &&& self.initial_cells@.len() == self.size()
        &&& self.cells_probabilities@.len() == self.size()
        &&& self.iteration <= self.max_iterations + 1
        &&& self.max_iterations < usize::MAX
    }

    /// Each counter equals the number of recorded samples with that cell alive.
    pub open spec fn counts_match_samples(&self) -> bool {
        forall|i: int|
            0 <= i < self.cells_probabilities@.len() ==> #[trigger] self.cells_probabilities@[i]
                == times_alive(self.samples@, i)
    }

    /// One sample per completed launch, plus one for the current launch once
    /// its sampling step has passed.
    pub open spec fn launches_match_samples(&self) -> bool {
        self.samples@.len() == self.launch_count + if self.iteration > self.max_iterations {
            1int
        } else {
            0int
        }
    }

    /// Live neighbours of cell `idx` in the current state.
    pub open spec fn spec_live_neighbours(&self, idx: int) -> int {
        live_neighbour_count(self.cells@, self.width as int, self.height as int, idx)
    }

    /// What the standard rule alone makes of cell `idx`.
    pub open spec fn spec_rule_next(&self, idx: int) -> bool {
        rule_alive(self.cells@[idx]@, self.spec_live_neighbours(idx))
    }

    /// The next state of cell `idx` for a given random draw.
    pub open spec fn spec_next_state(&self, idx: int, draw: int) -> bool {
        outcome_for_draw(
            self.spec_rule_next(idx),
            draw,
            self.alive_probability as int,
            self.dead_probability as int,
        )
    }

    /// Some draw in `0..PROBABILITY_SCALE` makes cell `idx` take state `alive`.
    pub open spec fn may_become(&self, idx: int, alive: bool) -> bool {
        exists|draw: int|
            0 <= draw < PROBABILITY_SCALE && #[trigger] self.spec_next_state(idx, draw) == alive
    }

    /// The next state of every cell under the standard rule alone.
    pub open spec fn rule_step(&self) -> Seq<bool> {
        Seq::new(self.cells@.len(), |i: int| self.spec_rule_next(i))
    }

    /// Both probabilities mean certainty: the rule is always followed.
    pub open spec fn certain(&self) -> bool {
        self.alive_probability >= PROBABILITY_SCALE && self.dead_probability >= PROBABILITY_SCALE
    }

    pub fn new(
        width: usize,
        height: usize,
        max_iterations: usize,
        max_launch_count: usize,
        dead_probability: u64,
        alive_probability: u64,
    ) -> (r: Grid)
        requires
            width > 0,
            height > 0,
            width * height <= usize::MAX,
            max_iterations < usize::MAX,
        ensures
            r.wf(),
            r.width == width,
            r.height == height,
            forall|i: int| 0 <= i < r.size() ==> !(#[trigger] r.cells@[i])@,
            r.initial_cells@ == r.cells@,
            forall|i: int| 0 <= i < r.size() ==> #[trigger] r.cells_probabilities@[i] == 0,
            r.iteration == 0,
            r.launch_count == 0,
            r.max_iterations == max_iterations,
            r.max_launch_count == max_launch_count,
            r.dead_probability == dead_probability,
            r.alive_probability == alive_probability,
            r.samples@.len() == 0,
            r.counts_match_samples(),
            r.launches_match_samples(),
    {
        let n = width * height;
        let cells = dead_cells(n);
        let mut cells_probabilities: Vec<usize> = Vec::new();
        let mut i: usize = 0;
        while i < n
            invariant
                i <= n,
                cells_probabilities@.len() == i,
                forall|j: int| 0 <= j < i ==> #[trigger] cells_probabilities@[j] == 0,
            decreases n - i,
        {
            cells_probabilities.push(0);
            i += 1;
        }
        Grid {
            width,
            height,
            initial_cells: cells.clone(),
            cells,
            cells_probabilities,
            iteration: 0,
            launch_count: 0,
            max_iterations,
            max_launch_count,
            dead_probability,
            alive_probability,
            samples: Ghost(Seq::empty()),
        }
    }

    /// Converts a pair of cell coordinates to an index in the cells vector.
    pub fn coords_to_index(&self, pos: Point) -> (r: usize)
        requires
            self.wf(),
            pos.x < self.width,
            pos.y < self.height,
        ensures
            r == index_of(self.width as int, pos.x as int, pos.y as int),
            r < self.size(),
    {
        proof {
            lemma_index_in_grid(self.width as int, self.height as int, pos.x as int, pos.y as int);
        }
        pos.y * self.width + pos.x
    }

    /// Converts an index in the cells vector into a pair of cell coordinates.
    /// The column is taken modulo the height and the row divides by the width,
    /// so the two conversions are inverse only on square grids.
    pub fn index_to_coords(&self, index: usize) -> (r: Point)
        requires
            self.wf(),
        ensures
            r.x == index % self.height,
            r.y == index / self.width,
    {
        Point { x: index % self.height, y: index / self.width }
    }

    /// Replaces the live grid with all-dead cells, then marks alive every
    /// cell that `cells_coords` points at.
    pub fn set_state(&mut self, cells_coords: &[Point])
        requires
            old(self).wf(),
            forall|k: int|
                0 <= k < cells_coords@.len() ==> (#[trigger] cells_coords@[k]).x < old(self).width
                    && cells_coords@[k].y < old(self).height,
        ensures
            final(self).wf(),
            forall|i: int|
                0 <= i < final(self).size() ==> (#[trigger] final(self).cells@[i])@ == marked(
                    cells_coords@,
                    final(self).width as int,
                    i,
                ),
            *final(self) == (Grid { cells: final(self).cells, ..*old(self) }),
    {
        self.cells = self.pattern_cells(cells_coords);
    }

    /// Makes both the live grid and the pattern every launch starts from
    /// hold exactly the cells that `cells_coords` points at.
    pub fn set_initial_state(&mut self, cells_coords: &[Point])
        requires
            old(self).wf(),
            forall|k: int|
                0 <= k < cells_coords@.len() ==> (#[trigger] cells_coords@[k]).x < old(self).width
                    && cells_coords@[k].y < old(self).height,
        ensures
            final(self).wf(),
            forall|i: int|
                0 <= i < final(self).size() ==> (#[trigger] final(self).cells@[i])@ == marked(
                    cells_coords@,
                    final(self).width as int,
                    i,
                ),
            final(self).initial_cells@ == final(self).cells@,
            *final(self) == (Grid {
                cells: final(self).cells,
                initial_cells: final(self).initial_cells,
                ..*old(self)
            }),
    {
        self.initial_cells = self.pattern_cells(cells_coords);
        self.cells = self.pattern_cells(cells_coords);
        proof {
            assert forall|i: int| 0 <= i < self.cells@.len() implies #[trigger] self.cells@[i]
                == self.initial_cells@[i] by {
                lemma_cells_equal_by_view(self.cells@[i], self.initial_cells@[i]);
            }
            assert(self.initial_cells@ == self.cells@);
        }
    }

    /// A grid's worth of cells, alive exactly where `cells_coords` points.
    fn pattern_cells(&self, cells_coords: &[Point]) -> (r: Vec<Cell>)
        requires
            self.wf(),
            forall|k: int|
                0 <= k < cells_coords@.len() ==> (#[trigger] cells_coords@[k]).x < self.width
                    && cells_coords@[k].y < self.height,
        ensures
            r@.len() == self.size(),
            forall|i: int|
                0 <= i < self.size() ==> (#[trigger] r@[i])@ == marked(
                    cells_coords@,
                    self.width as int,
                    i,
                ),
    {
        let mut cells = dead_cells(self.width * self.height);
        let mut k: usize = 0;
        while k < cells_coords.len()
            invariant
                self.wf(),
                k <= cells_coords@.len(),
                cells@.len() == self.size(),
                forall|j: int|
                    0 <= j < cells_coords@.len() ==> (#[trigger] cells_coords@[j]).x < self.width
                        && cells_coords@[j].y < self.height,
                forall|i: int|
                    0 <= i < self.size() ==> (#[trigger] cells@[i])@ == marked(
                        cells_coords@.take(k as int),
                        self.width as int,
                        i,
                    ),
            decreases cells_coords@.len() - k,
        {
            let pos = cells_coords[k];
            let idx = self.coords_to_index(pos);
            cells.set(idx, Cell::new(true));
            proof {
                let before = cells_coords@.take(k as int);
                let after = cells_coords@.take(k + 1);
                assert forall|i: int| 0 <= i < self.size() implies (#[trigger] cells@[i])@ == marked(
                    after,
                    self.width as int,
                    i,
                ) by {
                    if i == idx {
                        assert(after[k as int] == pos);
                    } else {
                        if marked(after, self.width as int, i) {
                            let j = choose|j: int|
                                0 <= j < after.len() && index_of(
                                    self.width as int,
                                    after[j].x as int,
                                    after[j].y as int,
                                ) == i;
                            assert(before[j] == after[j]);
                        }
                        if marked(before, self.width as int, i) {
                            let j = choose|j: int|
                                0 <= j < before.len() && index_of(
                                    self.width as int,
                                    before[j].x as int,
                                    before[j].y as int,
                                ) == i;
                            assert(before[j] == after[j]);
                        }
                    }
                }
            }
            k += 1;
        }
        assert(cells_coords@.take(cells_coords@.len() as int) == cells_coords@);
        cells
    }

    /// Copies the initial pattern back into the live grid and restarts the
    /// iteration count. Launches and counters are left as they are.
    pub fn reset_state(&mut self)
        requires
            old(self).wf(),
        ensures
            final(self).wf(),
            *final(self) == (Grid {
                cells: final(self).cells,
                iteration: 0,
                ..*old(self)
            }),
            final(self).cells@ == old(self).initial_cells@,
            old(self).counts_match_samples() ==> final(self).counts_match_samples(),
            old(self).launches_match_samples() && old(self).iteration <= old(self).max_iterations
                ==> final(self).launches_match_samples(),
    {
        let n = self.initial_cells.len();
        let mut i: usize = 0;
        while i < n
            invariant
                n == old(self).initial_cells@.len(),
                i <= n,
                self.cells@.len() == n,
                *self == (Grid { cells: self.cells, ..*old(self) }),
                forall|j: int| 0 <= j < i ==> #[trigger] self.cells@[j] == self.initial_cells@[j],
            decreases n - i,
        {
            let cell = self.initial_cells[i].clone();
            self.cells.set(i, cell);
            i += 1;
        }
        assert(self.cells@ == self.initial_cells@);
        self.iteration = 0;
    }

    /// Counts cell `idx` once more if it is alive now.
    pub fn set_probability(&mut self, idx: usize)
        requires
            idx < old(self).cells@.len(),
            idx < old(self).cells_probabilities@.len(),
            old(self).cells_probabilities@[idx as int] < usize::MAX,
        ensures
            final(self).cells_probabilities@ == if old(self).cells@[idx as int]@ {
                old(self).cells_probabilities@.update(
                    idx as int,
                    (old(self).cells_probabilities@[idx as int] + 1) as usize,
                )
            } else {
                old(self).cells_probabilities@
            },
            *final(self) == (Grid {
                cells_probabilities: final(self).cells_probabilities,
                ..*old(self)
            }),
    {
        let cell = self.cells[idx].clone();
        if cell.is_alive() {
            let c = self.cells_probabilities[idx];
            self.cells_probabilities.set(idx, c + 1);
        }
    }

    /// Advances the simulation by one step. Inside a launch every cell takes
    /// its next state, all computed from the state before the step. At the
    /// sampling step (`iteration == max_iterations`) each alive cell is also
    /// counted once more. The step after that ends the launch: the cells go
    /// back to the initial pattern, `iteration` to 0, and `launch_count` grows
    /// by one.
    pub fn update(&mut self) -> (r: StepReport)
        requires
            old(self).wf(),
            old(self).launch_count < usize::MAX,
            forall|i: int|
                0 <= i < old(self).cells_probabilities@.len()
                    ==> #[trigger] old(self).cells_probabilities@[i] < usize::MAX,
        ensures
            final(self).wf(),
            final(self).width == old(self).width,
            final(self).height == old(self).height,
            final(self).initial_cells@ == old(self).initial_cells@,
            final(self).max_iterations == old(self).max_iterations,
            final(self).max_launch_count == old(self).max_launch_count,
            final(self).dead_probability == old(self).dead_probability,
            final(self).alive_probability == old(self).alive_probability,
            old(self).iteration <= old(self).max_iterations ==> {
                &&& final(self).iteration == old(self).iteration + 1
                &&& final(self).launch_count == old(self).launch_count
                &&& forall|i: int|
                    0 <= i < final(self).size() ==> old(self).may_become(
                        i,
                        (#[trigger] final(self).cells@[i])@,
                    )
                &&& old(self).certain() ==> alive_flags(final(self).cells@) == old(self).rule_step()
            },
            old(self).iteration < old(self).max_iterations ==> {
                &&& final(self).cells_probabilities@ == old(self).cells_probabilities@
                &&& final(self).samples@ == old(self).samples@
                &&& r == StepReport::Stepped
            },
            old(self).iteration == old(self).max_iterations ==> {
                &&& forall|i: int|
                    0 <= i < final(self).size() ==> #[trigger] final(self).cells_probabilities@[i]
                        == old(self).cells_probabilities@[i] + if final(self).cells@[i]@ {
                        1int
                    } else {
                        0int
                    }
                &&& final(self).samples@ == old(self).samples@.push(alive_flags(final(self).cells@))
                &&& r == (StepReport::Sampled {
                    launches: old(self).launch_count,
                    run_complete: old(self).launch_count == old(self).max_launch_count,
                })
            },
            old(self).iteration > old(self).max_iterations ==> {
                &&& final(self).cells@ == old(self).initial_cells@
                &&& final(self).iteration == 0
                &&& final(self).launch_count == old(self).launch_count + 1
                &&& final(self).cells_probabilities@ == old(self).cells_probabilities@
                &&& final(self).samples@ == old(self).samples@
                &&& r == StepReport::Restarted
            },
            old(self).certain() && alive_flags(old(self).cells@) == old(self).rule_step() && (
            old(self).iteration <= old(self).max_iterations || old(self).initial_cells@ == old(
                self,
            ).cells@) ==> final(self).cells@ == old(self).cells@,
            old(self).counts_match_samples() ==> final(self).counts_match_samples(),
            old(self).launches_match_samples() ==> final(self).launches_match_samples(),
    {
        let ghost pre = *self;
        let next_states = parallel_next_states(self);
        let n = self.cells.len();
        let mut cells: Vec<Cell> = Vec::new();
        let mut i: usize = 0;
        while i < n
            invariant
                i <= n,
                n == pre.cells@.len(),
                next_states@.len() == n,
                cells@.len() == i,
                forall|j: int| 0 <= j < i ==> (#[trigger] cells@[j])@ == next_states@[j],
            decreases n - i,
        {
            cells.push(Cell::new(next_states[i]));
            i += 1;
        }
        self.cells = cells;
        proof {
            if pre.certain() {
                assert forall|j: int| 0 <= j < n implies #[trigger] alive_flags(self.cells@)[j]
                    == pre.rule_step()[j] by {
                    lemma_certain_probabilities_follow_rule(&pre, j);
                }
                assert(alive_flags(self.cells@) == pre.rule_step());
                if alive_flags(pre.cells@) == pre.rule_step() {
                    assert forall|j: int| 0 <= j < n implies #[trigger] self.cells@[j]
                        == pre.cells@[j] by {
                        assert(alive_flags(self.cells@)[j] == alive_flags(pre.cells@)[j]);
                        lemma_cells_equal_by_view(self.cells@[j], pre.cells@[j]);
                    }
                    assert(self.cells@ == pre.cells@);
                }
            }
        }
        let ghost stepped = *self;
        let mut report = StepReport::Stepped;
        if self.iteration == self.max_iterations {
            let mut idx: usize = 0;
            while idx < n
                invariant
                    idx <= n,
                    n == stepped.size(),
                    stepped.wf(),
                    *self == (Grid { cells_probabilities: self.cells_probabilities, ..stepped }),
                    self.cells_probabilities@.len() == n,
                    forall|j: int|
                        0 <= j < n ==> #[trigger] stepped.cells_probabilities@[j] < usize::MAX,
                    forall|j: int|
                        0 <= j < idx ==> #[trigger] self.cells_probabilities@[j]
                            == stepped.cells_probabilities@[j] + if stepped.cells@[j]@ {
                            1int
                        } else {
                            0int
                        },
                    forall|j: int|
                        idx <= j < n ==> #[trigger] self.cells_probabilities@[j]
                            == stepped.cells_probabilities@[j],
                decreases n - idx,
            {
                self.set_probability(idx);
                idx += 1;
            }
            self.samples = Ghost(self.samples@.push(alive_flags(self.cells@)));
            proof {
                if pre.counts_match_samples() {
                    assert forall|j: int| 0 <= j < n implies #[trigger] self.cells_probabilities@[j]
                        == times_alive(self.samples@, j) by {
                        lemma_times_alive_push(pre.samples@, alive_flags(self.cells@), j);
                    }
                }
            }
            report =
            StepReport::Sampled {
                launches: self.launch_count,
                run_complete: self.max_launch_count == self.launch_count,
            };
        }
        if self.iteration == self.max_iterations + 1 {
            self.reset_state();
            self.launch_count += 1;
            report = StepReport::Restarted;
        } else {
            self.iteration += 1;
        }
        report
    }

    /// For each cell, whether its alive frequency over `max_launch_count`
    /// launches is above the threshold and so enters the entropy sum
    /// `|sum of p * log2(p)|`. The others are left out, which also keeps
    /// `log2(0)` out of the sum.
    pub fn entropy_contributors(&self) -> (r: Vec<bool>)
        ensures
            r@.len() == self.cells_probabilities@.len(),
            forall|i: int|
                0 <= i < r@.len() ==> #[trigger] r@[i] == counts_towards_entropy(
                    self.cells_probabilities@[i] as int,
                    self.max_launch_count as int,
                ),
    {
        let size = self.cells_probabilities.len();
        let mut contributors: Vec<bool> = Vec::new();
        let mut idx: usize = 0;
        while idx < size
            invariant
                idx <= size,
                size == self.cells_probabilities@.len(),
                contributors@.len() == idx,
                forall|i: int|
                    0 <= i < idx ==> #[trigger] contributors@[i] == counts_towards_entropy(
                        self.cells_probabilities@[i] as int,
                        self.max_launch_count as int,
                    ),
            decreases size - idx,
        {
            let count = self.cells_probabilities[idx] as u128;
            contributors.push(count * ENTROPY_THRESHOLD_INVERSE > self.max_launch_count as u128);
            idx += 1;
        }
        contributors
    }

    /// 1 when the neighbour at offset `(dx, dy)` of the cell at `pos` is
    /// alive, else 0.
    fn neighbour_alive(&self, pos: Point, dx: i8, dy: i8) -> (r: usize)
        requires
            self.wf(),
            -1 <= dx <= 1,
            -1 <= dy <= 1,
        ensures
            r == (if self.cells@[index_of(
                self.width as int,
                wrap(pos.x + dx, self.width as int),
                wrap(pos.y + dy, self.height as int),
            )]@ {
                1int
            } else {
                0int
            }),
    {
        let neighbour_pos = Point {
            x: wrap_shift(pos.x, dx, self.width),
            y: wrap_shift(pos.y, dy, self.height),
        };
        let idx = self.coords_to_index(neighbour_pos);
        if self.cells[idx].is_alive() {
            1
        } else {
            0
        }
    }

    /// How many of the eight cells around `cell_idx` are alive, on the torus.
    pub fn live_neighbours(&self, cell_idx: usize) -> (r: usize)
        requires
            self.wf(),
            cell_idx < self.size(),
        ensures
            r == self.spec_live_neighbours(cell_idx as int),
            r <= 8,
    {
        let pos = self.index_to_coords(cell_idx);
        let mut count: usize = 0;
        count += self.neighbour_alive(pos, -1, -1);
        count += self.neighbour_alive(pos, -1, 0);
        count += self.neighbour_alive(pos, -1, 1);
        count += self.neighbour_alive(pos, 0, -1);
        count += self.neighbour_alive(pos, 0, 1);
        count += self.neighbour_alive(pos, 1, -1);
        count += self.neighbour_alive(pos, 1, 0);
        count += self.neighbour_alive(pos, 1, 1);
        count
    }

    /// The next state of cell `cell_idx` when the random draw is `draw`: the
    /// standard rule decides, then the draw keeps or flips its outcome.
    pub fn next_state_for_draw(&self, cell_idx: usize, draw: u64) -> (r: bool)
        requires
            self.wf(),
            cell_idx < self.size(),
        ensures
            r == self.spec_next_state(cell_idx as int, draw as int),
    {
        let alive = self.cells[cell_idx].is_alive();
        let n = self.live_neighbours(cell_idx);
        if alive && (n == 2 || n == 3) || (!alive && n == 3) {
            draw <= self.alive_probability
        } else {
            !(draw <= self.dead_probability)
        }
    }

    /// The next state of cell `cell_idx`, with a fresh random draw.
    fn cell_next_state(&self, cell_idx: usize) -> (r: bool)
        requires
            self.wf(),
            cell_idx < self.size(),
        ensures
            self.may_become(cell_idx as int, r),
    {
        let draw = random_below(PROBABILITY_SCALE);
        let r = self.next_state_for_draw(cell_idx, draw);
        assert(self.spec_next_state(cell_idx as int, draw as int) == r);
        r
    }
}

/// A coordinate moved by `off` (one of -1, 0, 1) and wrapped round a torus
/// `size` cells across.
fn wrap_shift(c: usize, off: i8, size: usize) -> (r: usize)
    requires
        size > 0,
        -1 <= off <= 1,
    ensures
        r == wrap(c + off, size as int),
        r < size,
{
    if off < 0 {
        if c == 0 {
            size - 1
        } else if c - 1 > size - 1 {
            0
        } else {
            c - 1
        }
    } else if off == 0 {
        if c > size - 1 {
            0
        } else {
            c
        }
    } else {
        if c >= size - 1 {
            0
        } else {
            c + 1
        }
    }
}

/// Relies on rand's `thread_rng().gen_range(0..bound)`: a value below `bound`
/// (the call panics on an empty range, hence `bound > 0`).
#[verifier::external_body]
fn random_below(bound: u64) -> (r: u64)
    requires
        bound > 0,
    ensures
        r < bound,
{
    rand::thread_rng().gen_range(0..bound)
}

/// Relies on rayon's `collect` of an indexed parallel `map` over `0..len` into
/// a `Vec`: item `i` of the result is the closure's value at `i`, in order,
/// whichever thread computed it. The closure is the verified `cell_next_state`.
#[verifier::external_body]
fn parallel_next_states(grid: &Grid) -> (r: Vec<bool>)
    requires
        grid.wf(),
    ensures
        r@.len() == grid.cells@.len(),
        forall|i: int| 0 <= i < r@.len() ==> grid.may_become(i, #[trigger] r@[i]),
{
    (0..grid.cells.len()).into_par_iter().map(|idx| grid.cell_next_state(idx)).collect()
}

/// With both probabilities at certainty, the only state that cell `idx` can
/// take next is the one that the standard rule gives.
pub proof fn lemma_certain_probabilities_follow_rule(g: &Grid, idx: int)
    requires
        g.certain(),
    ensures
        g.may_become(idx, g.spec_rule_next(idx)),
        !g.may_become(idx, !g.spec_rule_next(idx)),
{
    assert(g.spec_next_state(idx, 0) == g.spec_rule_next(idx));
}

/// Recording one more snapshot adds one to the count of each cell alive in it.
proof fn lemma_times_alive_push(samples: Seq<Seq<bool>>, s: Seq<bool>, i: int)
    ensures
        times_alive(samples.push(s), i) == times_alive(samples, i) + if s[i] {
            1nat
        } else {
            0nat
        },
{
    assert(samples.push(s).drop_last() == samples);
}

/// `y * width + x` lies inside a `width` by `height` grid.
proof fn lemma_index_in_grid(width: int, height: int, x: int, y: int)
    requires
        0 <= x < width,
        0 <= y < height,
    ensures
        0 <= index_of(width, x, y) < width * height,
{
    lemma_mul_inequality(y, height - 1, width);
    assert((height - 1) * width == width * height - width) by (nonlinear_arith);
    assert(0 <= y * width) by (nonlinear_arith)
        requires
            0 <= y,
            0 < width,
    ;
}

/// A row of `n` dead cells.
fn dead_cells(n: usize) -> (r: Vec<Cell>)
    ensures
        r@.len() == n,
        forall|i: int| 0 <= i < n ==> !(#[trigger] r@[i])@,
{
    let mut cells: Vec<Cell> = Vec::new();
    let mut i: usize = 0;
    while i < n
        invariant
            i <= n,
            cells@.len() == i,
            forall|j: int| 0 <= j < i ==> !(#[trigger] cells@[j])@,
        decreases n - i,
    {
        cells.push(Cell::new(false));
        i += 1;
    }
    cells
}

} // verus!
