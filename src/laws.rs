//! Laws that relate several of the grid's operations, or that hold of the
//! torus and of the gathered counts as a whole.

use crate::grid::{counts_towards_entropy, index_of, neighbour_index, point_of, times_alive, Grid};
use vstd::arithmetic::div_mod::{lemma_fundamental_div_mod, lemma_fundamental_div_mod_converse};
use vstd::prelude::*;

verus! {

/// On a square grid, `coords_to_index` and `index_to_coords` undo each other:
/// every coordinate pair comes back from its index, and every index from its
/// coordinate pair.
pub proof fn lemma_coords_index_inverse(g: &Grid)
    requires
        g.wf(),
        g.width == g.height,
    ensures
        forall|x: int, y: int|
            0 <= x < g.width && 0 <= y < g.height ==> point_of(
                g.width as int,
                g.height as int,
                #[trigger] index_of(g.width as int, x, y),
            ) == (x, y),
        forall|i: int|
            0 <= i < g.size() ==> index_of(
                g.width as int,
                (#[trigger] point_of(g.width as int, g.height as int, i)).0,
                point_of(g.width as int, g.height as int, i).1,
            ) == i,
{
    let w = g.width as int;
    assert forall|x: int, y: int| 0 <= x < w && 0 <= y < g.height implies point_of(
        w,
        g.height as int,
        #[trigger] index_of(w, x, y),
    ) == (x, y) by {
        lemma_fundamental_div_mod_converse(index_of(w, x, y), w, y, x);
    }
    assert forall|i: int| 0 <= i < g.size() implies index_of(
        w,
        (#[trigger] point_of(w, g.height as int, i)).0,
        point_of(w, g.height as int, i).1,
    ) == i by {
        lemma_fundamental_div_mod(i, w);
        assert(w * (i / w) == (i / w) * w) by (nonlinear_arith);
    }
}

/// The torus wraps across both edges at once: the neighbour up and to the
/// left of the first cell is the last cell. On a one-cell grid all eight
/// neighbours are that cell itself.
pub proof fn lemma_torus_neighbours(width: int, height: int)
    requires
        width > 0,
        height > 0,
    ensures
        neighbour_index(width, height, 0, -1, -1) == width * height - 1,
        forall|dx: int, dy: int|
            -1 <= dx <= 1 && -1 <= dy <= 1 ==> #[trigger] neighbour_index(1, 1, 0, dx, dy) == 0,
{
    assert((height - 1) * width + (width - 1) == width * height - 1) by (nonlinear_arith);
}

/// Once all `max_launch_count` launches are complete, every counter is at most
/// `max_launch_count`, and equals it exactly for the cells that were alive at
/// every sampling step.
pub proof fn lemma_counts_after_all_launches(g: &Grid)
    requires
        g.wf(),
        g.counts_match_samples(),
        g.launches_match_samples(),
        g.launch_count == g.max_launch_count,
        g.iteration <= g.max_iterations,
    ensures
        g.samples@.len() == g.max_launch_count,
        forall|i: int|
            0 <= i < g.size() ==> #[trigger] g.cells_probabilities@[i] <= g.max_launch_count,
        forall|i: int|
            0 <= i < g.size() ==> (#[trigger] g.cells_probabilities@[i] == g.max_launch_count
                <==> forall|k: int| 0 <= k < g.samples@.len() ==> g.samples@[k][i]),
{
    assert forall|i: int| 0 <= i < g.size() implies #[trigger] g.cells_probabilities@[i]
        <= g.max_launch_count && (g.cells_probabilities@[i] == g.max_launch_count <==> forall|
        k: int,
    | 0 <= k < g.samples@.len() ==> g.samples@[k][i]) by {
        lemma_times_alive_bounds(g.samples@, i);
    }
}

/// A cell is counted at most once per snapshot, and once in every snapshot
/// exactly when it is alive in all of them.
proof fn lemma_times_alive_bounds(samples: Seq<Seq<bool>>, i: int)
    ensures
        times_alive(samples, i) <= samples.len(),
        times_alive(samples, i) == samples.len() <==> forall|k: int|
            0 <= k < samples.len() ==> samples[k][i],
    decreases samples.len(),
{
    if samples.len() > 0 {
        let rest = samples.drop_last();
        lemma_times_alive_bounds(rest, i);
        if forall|k: int| 0 <= k < samples.len() ==> samples[k][i] {
            assert forall|k: int| 0 <= k < rest.len() implies rest[k][i] by {
                assert(rest[k] == samples[k]);
            }
        }
        if times_alive(samples, i) == samples.len() {
            assert forall|k: int| 0 <= k < samples.len() implies samples[k][i] by {
                if k < rest.len() {
                    assert(rest[k] == samples[k]);
                }
            }
        }
    }
}

/// When no cell was ever counted alive, no cell enters the entropy sum, so
/// the sum is empty and the entropy is zero.
pub proof fn lemma_all_dead_history_has_no_entropy_terms(g: &Grid)
    requires
        forall|i: int|
            0 <= i < g.cells_probabilities@.len() ==> #[trigger] g.cells_probabilities@[i] == 0,
    ensures
        forall|i: int|
            0 <= i < g.cells_probabilities@.len() ==> !counts_towards_entropy(
                #[trigger] g.cells_probabilities@[i] as int,
                g.max_launch_count as int,
            ),
{
}

} // verus!
