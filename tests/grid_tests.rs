use prob_life::cell::Cell;
use prob_life::grid::{Grid, StepReport, PROBABILITY_SCALE};
use prob_life::types::Point;

fn certain_grid(width: usize, height: usize, max_iterations: usize, max_launch_count: usize) -> Grid {
    Grid::new(width, height, max_iterations, max_launch_count, PROBABILITY_SCALE, PROBABILITY_SCALE)
}

fn alive_flags(grid: &Grid) -> Vec<bool> {
    grid.cells.iter().map(|c| c.is_alive()).collect()
}

fn pt(x: usize, y: usize) -> Point {
    Point { x, y }
}

#[test]
fn cell_new_and_set_state() {
    let mut c = Cell::new(false);
    assert!(!c.is_alive());
    c.set_state(true);
    assert!(c.is_alive());
    assert!(Cell::new(true).is_alive());
}

#[test]
fn new_grid_is_dead_and_zeroed() {
    let g = Grid::new(4, 3, 5, 7, 10, 20);
    assert_eq!(g.cells.len(), 12);
    assert_eq!(g.initial_cells.len(), 12);
    assert_eq!(g.cells_probabilities.len(), 12);
    assert!(g.cells.iter().all(|c| !c.is_alive()));
    assert!(g.initial_cells.iter().all(|c| !c.is_alive()));
    assert!(g.cells_probabilities.iter().all(|&p| p == 0));
    assert_eq!(g.iteration, 0);
    assert_eq!(g.launch_count, 0);
    assert_eq!(g.max_iterations, 5);
    assert_eq!(g.max_launch_count, 7);
    assert_eq!(g.dead_probability, 10);
    assert_eq!(g.alive_probability, 20);
    assert_eq!(g.width, 4);
    assert_eq!(g.height, 3);
}

#[test]
fn lengths_stay_equal_across_steps() {
    let mut g = Grid::new(5, 4, 2, 3, PROBABILITY_SCALE / 2, PROBABILITY_SCALE / 2);
    g.set_initial_state(&[pt(1, 1), pt(2, 1), pt(3, 2)]);
    for _ in 0..20 {
        g.update();
        assert_eq!(g.cells.len(), 20);
        assert_eq!(g.initial_cells.len(), 20);
        assert_eq!(g.cells_probabilities.len(), 20);
    }
}

#[test]
fn coords_to_index_values() {
    let g = certain_grid(4, 3, 1, 1);
    assert_eq!(g.coords_to_index(pt(0, 0)), 0);
    assert_eq!(g.coords_to_index(pt(3, 0)), 3);
    assert_eq!(g.coords_to_index(pt(1, 2)), 9);
    assert_eq!(g.coords_to_index(pt(3, 2)), 11);
}

#[test]
fn index_to_coords_uses_height_for_column() {
    let g = certain_grid(4, 3, 1, 1);
    let p = g.index_to_coords(9);
    assert_eq!(p, pt(0, 2));
    let q = g.index_to_coords(5);
    assert_eq!(q, pt(2, 1));
}

#[test]
fn coords_and_index_inverse_on_square_grid() {
    let g = certain_grid(5, 5, 1, 1);
    for idx in 0..25 {
        let p = g.index_to_coords(idx);
        assert_eq!(g.coords_to_index(p), idx);
    }
    for y in 0..5 {
        for x in 0..5 {
            assert_eq!(g.index_to_coords(g.coords_to_index(pt(x, y))), pt(x, y));
        }
    }
}

#[test]
fn top_left_neighbours_include_bottom_right() {
    let mut g = certain_grid(3, 3, 1, 1);
    g.set_state(&[pt(2, 2)]);
    assert_eq!(g.live_neighbours(0), 1);
    g.set_state(&[pt(1, 1)]);
    assert_eq!(g.live_neighbours(0), 1);
    g.set_state(&[pt(2, 2), pt(2, 0), pt(0, 2), pt(1, 1)]);
    assert_eq!(g.live_neighbours(0), 4);
}

#[test]
fn one_cell_grid_sees_itself_eight_times() {
    let mut g = certain_grid(1, 1, 1, 1);
    assert_eq!(g.live_neighbours(0), 0);
    g.set_state(&[pt(0, 0)]);
    assert_eq!(g.live_neighbours(0), 8);
}

#[test]
fn edge_neighbours_wrap() {
    let mut g = certain_grid(4, 4, 1, 1);
    g.set_state(&[pt(3, 1), pt(0, 3), pt(3, 3)]);
    // cell (0, 0): neighbours (3, 3), (3, 0), (3, 1), (0, 3), (0, 1), (1, 3), (1, 0), (1, 1)
    assert_eq!(g.live_neighbours(0), 3);
}

#[test]
fn lone_corner_cell_dies_under_certain_probabilities() {
    let mut g = certain_grid(3, 3, 5, 1);
    g.set_state(&[pt(0, 0)]);
    g.update();
    assert!(g.cells.iter().all(|c| !c.is_alive()));
}

#[test]
fn blinker_oscillates_under_certain_probabilities() {
    let mut g = certain_grid(5, 5, 10, 1);
    g.set_state(&[pt(1, 2), pt(2, 2), pt(3, 2)]);
    g.update();
    let mut expected = vec![false; 25];
    expected[g.coords_to_index(pt(2, 1))] = true;
    expected[g.coords_to_index(pt(2, 2))] = true;
    expected[g.coords_to_index(pt(2, 3))] = true;
    assert_eq!(alive_flags(&g), expected);
    g.update();
    let mut back = vec![false; 25];
    back[g.coords_to_index(pt(1, 2))] = true;
    back[g.coords_to_index(pt(2, 2))] = true;
    back[g.coords_to_index(pt(3, 2))] = true;
    assert_eq!(alive_flags(&g), back);
}

#[test]
fn block_is_a_fixed_point() {
    let mut g = certain_grid(4, 4, 3, 2);
    let block = [pt(1, 1), pt(2, 1), pt(1, 2), pt(2, 2)];
    g.set_initial_state(&block);
    let before = alive_flags(&g);
    for _ in 0..12 {
        g.update();
        assert_eq!(alive_flags(&g), before);
    }
}

#[test]
fn next_state_for_draw_keeps_or_flips() {
    let mut g = Grid::new(3, 3, 1, 1, 300, 700);
    g.set_state(&[pt(0, 0), pt(1, 0), pt(2, 0)]);
    // cell (1, 1) is dead with three live neighbours: the rule says alive
    let idx = g.coords_to_index(pt(1, 1));
    assert!(g.next_state_for_draw(idx, 0));
    assert!(g.next_state_for_draw(idx, 700));
    assert!(!g.next_state_for_draw(idx, 701));
    // on a 3x3 torus every cell sees the whole row of three: cell (0, 0) is
    // alive with two live neighbours, so the rule says alive too
    assert!(g.next_state_for_draw(0, 699));
    // an all-dead grid: the rule says dead
    g.set_state(&[]);
    assert!(!g.next_state_for_draw(4, 300));
    assert!(g.next_state_for_draw(4, 301));
    assert!(g.next_state_for_draw(4, PROBABILITY_SCALE - 1));
}

#[test]
fn zero_probabilities_flip_dead_outcomes() {
    let mut g = Grid::new(3, 3, 5, 1, 0, 0);
    g.update();
    // a dead outcome stays dead only for the draw 0
    assert!(g.cells.iter().all(|c| c.is_alive()));
}

#[test]
fn set_initial_state_sets_both() {
    let mut g = certain_grid(3, 2, 1, 1);
    g.set_state(&[pt(0, 0)]);
    g.set_initial_state(&[pt(2, 1), pt(1, 0)]);
    let expected = vec![false, true, false, false, false, true];
    assert_eq!(alive_flags(&g), expected);
    let initial: Vec<bool> = g.initial_cells.iter().map(|c| c.is_alive()).collect();
    assert_eq!(initial, expected);
}

#[test]
fn set_state_clears_first() {
    let mut g = certain_grid(3, 2, 1, 1);
    g.set_state(&[pt(0, 0), pt(1, 1)]);
    g.set_state(&[pt(2, 0), pt(2, 0)]);
    assert_eq!(alive_flags(&g), vec![false, false, true, false, false, false]);
    assert!(g.initial_cells.iter().all(|c| !c.is_alive()));
}

#[test]
fn reset_state_restores_initial_cells() {
    let mut g = Grid::new(4, 4, 3, 2, PROBABILITY_SCALE / 2, PROBABILITY_SCALE / 2);
    g.set_initial_state(&[pt(0, 1), pt(1, 1), pt(2, 1)]);
    for _ in 0..4 {
        g.update();
    }
    let launches = g.launch_count;
    let counts = g.cells_probabilities.clone();
    g.reset_state();
    assert_eq!(g.cells, g.initial_cells);
    assert_eq!(g.iteration, 0);
    assert_eq!(g.launch_count, launches);
    assert_eq!(g.cells_probabilities, counts);
}

#[test]
fn set_probability_counts_alive_only() {
    let mut g = certain_grid(2, 2, 1, 1);
    g.set_state(&[pt(1, 0)]);
    g.set_probability(0);
    g.set_probability(1);
    g.set_probability(1);
    assert_eq!(g.cells_probabilities, vec![0, 2, 0, 0]);
}

#[test]
fn step_reports_follow_the_launch_cycle() {
    let mut g = certain_grid(3, 3, 2, 1);
    assert_eq!(g.update(), StepReport::Stepped);
    assert_eq!(g.iteration, 1);
    assert_eq!(g.update(), StepReport::Stepped);
    assert_eq!(g.iteration, 2);
    assert_eq!(g.update(), StepReport::Sampled { launches: 0, run_complete: false });
    assert_eq!(g.iteration, 3);
    assert_eq!(g.update(), StepReport::Restarted);
    assert_eq!(g.iteration, 0);
    assert_eq!(g.launch_count, 1);
    for _ in 0..2 {
        assert_eq!(g.update(), StepReport::Stepped);
    }
    assert_eq!(g.update(), StepReport::Sampled { launches: 1, run_complete: true });
}

#[test]
fn counts_after_all_launches() {
    let max_iterations = 3;
    let max_launch_count = 4;
    let mut g = certain_grid(4, 4, max_iterations, max_launch_count);
    let block = [pt(1, 1), pt(2, 1), pt(1, 2), pt(2, 2)];
    g.set_initial_state(&block);
    for _ in 0..max_launch_count * (max_iterations + 2) {
        g.update();
    }
    assert_eq!(g.launch_count, max_launch_count);
    assert_eq!(g.iteration, 0);
    for idx in 0..16 {
        let expected = if g.initial_cells[idx].is_alive() { max_launch_count } else { 0 };
        assert_eq!(g.cells_probabilities[idx], expected);
    }
}

#[test]
fn counts_never_exceed_launches() {
    let max_iterations = 2;
    let max_launch_count = 6;
    let mut g = Grid::new(5, 5, max_iterations, max_launch_count, PROBABILITY_SCALE / 3, PROBABILITY_SCALE / 2);
    g.set_initial_state(&[pt(1, 1), pt(2, 2), pt(3, 3)]);
    for _ in 0..max_launch_count * (max_iterations + 2) {
        g.update();
    }
    assert!(g.cells_probabilities.iter().all(|&p| p <= max_launch_count));
}

#[test]
fn all_dead_history_has_no_entropy_terms() {
    let g = certain_grid(3, 3, 2, 5);
    assert!(g.entropy_contributors().iter().all(|&c| !c));
}

#[test]
fn entropy_threshold_is_one_in_a_thousand() {
    let mut g = certain_grid(2, 2, 1, 1000);
    g.cells_probabilities = vec![0, 1, 2, 1000];
    assert_eq!(g.entropy_contributors(), vec![false, false, true, true]);
    g.max_launch_count = 0;
    assert_eq!(g.entropy_contributors(), vec![false, true, true, true]);
}

#[test]
fn draws_stay_below_the_scale() {
    // on a 3x3 torus a full row makes the rule say "alive" for every cell
    let mut g = Grid::new(3, 3, 5, 1, PROBABILITY_SCALE, PROBABILITY_SCALE - 1);
    g.set_state(&[pt(0, 0), pt(1, 0), pt(2, 0)]);
    for idx in 0..9 {
        assert!(g.next_state_for_draw(idx, PROBABILITY_SCALE - 1));
        assert!(!g.next_state_for_draw(idx, PROBABILITY_SCALE));
    }
    g.update();
    assert!(g.cells.iter().all(|c| c.is_alive()));
}
