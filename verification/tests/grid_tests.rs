use life_engine::grid::{Cell, Grid};

fn cell(x: i64, y: i64) -> Cell {
    Cell { x, y }
}

fn live_count(g: &Grid) -> usize {
    g.live_cells().len()
}

#[test]
fn new_grid_is_empty() {
    let g = Grid::new();
    assert_eq!(live_count(&g), 0);
    assert!(!g.is_alive(cell(0, 0)));
}

#[test]
fn set_alive_then_query() {
    let mut g = Grid::new();
    g.set_alive(cell(3, -7));
    assert!(g.is_alive(cell(3, -7)));
    assert!(!g.is_alive(cell(-7, 3)));
    assert_eq!(live_count(&g), 1);
}

#[test]
fn set_alive_is_idempotent() {
    let mut g = Grid::new();
    g.set_alive(cell(5, 5));
    g.set_alive(cell(5, 5));
    assert!(g.is_alive(cell(5, 5)));
    assert_eq!(live_count(&g), 1);
}

#[test]
fn set_dead_removes_and_is_idempotent() {
    let mut g = Grid::new();
    g.set_alive(cell(1, 2));
    g.set_dead(cell(1, 2));
    assert!(!g.is_alive(cell(1, 2)));
    assert_eq!(live_count(&g), 0);
    // Clearing an absent coordinate is a no-op, not an error.
    g.set_dead(cell(1, 2));
    g.set_dead(cell(9, 9));
    assert!(!g.is_alive(cell(1, 2)));
    assert_eq!(live_count(&g), 0);
}

#[test]
fn set_dead_keeps_the_rest() {
    let mut g = Grid::new();
    g.set_alive(cell(0, 0));
    g.set_alive(cell(1, 0));
    g.set_alive(cell(0, 1));
    g.set_dead(cell(1, 0));
    assert!(g.is_alive(cell(0, 0)));
    assert!(!g.is_alive(cell(1, 0)));
    assert!(g.is_alive(cell(0, 1)));
    assert_eq!(live_count(&g), 2);
}

#[test]
fn live_cells_snapshot_is_restartable() {
    let mut g = Grid::new();
    g.set_alive(cell(2, 3));
    g.set_alive(cell(-4, 0));
    let first = g.live_cells();
    let second = g.live_cells();
    assert_eq!(first.len(), 2);
    assert_eq!(second.len(), 2);
    assert!(first.contains(&cell(2, 3)));
    assert!(first.contains(&cell(-4, 0)));
    assert!(second.contains(&cell(2, 3)));
    assert!(second.contains(&cell(-4, 0)));
    // Reading the live set twice left the grid as it was.
    assert!(g.is_alive(cell(2, 3)));
    assert!(g.is_alive(cell(-4, 0)));
}

#[test]
fn step_is_deterministic_across_insertion_order() {
    let mut a = Grid::new();
    a.set_alive(cell(0, 0));
    a.set_alive(cell(1, 0));
    a.set_alive(cell(2, 0));
    let mut b = Grid::new();
    b.set_alive(cell(2, 0));
    b.set_alive(cell(0, 0));
    b.set_alive(cell(1, 0));
    a.step();
    b.step();
    let mut live_a: Vec<(i64, i64)> = a.live_cells().iter().map(|c| (c.x, c.y)).collect();
    let mut live_b: Vec<(i64, i64)> = b.live_cells().iter().map(|c| (c.x, c.y)).collect();
    live_a.sort();
    live_b.sort();
    assert_eq!(live_a, live_b);
}

#[test]
fn block_is_a_still_life() {
    let mut g = Grid::new();
    g.set_alive(cell(10, -2));
    g.set_alive(cell(11, -2));
    g.set_alive(cell(10, -1));
    g.set_alive(cell(11, -1));
    g.step();
    assert!(g.is_alive(cell(10, -2)));
    assert!(g.is_alive(cell(11, -2)));
    assert!(g.is_alive(cell(10, -1)));
    assert!(g.is_alive(cell(11, -1)));
    assert_eq!(live_count(&g), 4);
}

#[test]
fn blinker_oscillates_with_period_two() {
    let mut g = Grid::new();
    g.set_alive(cell(0, 0));
    g.set_alive(cell(1, 0));
    g.set_alive(cell(2, 0));
    g.step();
    assert!(g.is_alive(cell(1, -1)));
    assert!(g.is_alive(cell(1, 0)));
    assert!(g.is_alive(cell(1, 1)));
    assert!(!g.is_alive(cell(0, 0)));
    assert!(!g.is_alive(cell(2, 0)));
    assert_eq!(live_count(&g), 3);
    g.step();
    assert!(g.is_alive(cell(0, 0)));
    assert!(g.is_alive(cell(1, 0)));
    assert!(g.is_alive(cell(2, 0)));
    assert!(!g.is_alive(cell(1, -1)));
    assert!(!g.is_alive(cell(1, 1)));
    assert_eq!(live_count(&g), 3);
}

#[test]
fn dead_cell_with_three_neighbors_is_born() {
    let mut g = Grid::new();
    g.set_alive(cell(-1, 0));
    g.set_alive(cell(0, 1));
    g.set_alive(cell(1, 0));
    assert!(!g.is_alive(cell(0, 0)));
    g.step();
    assert!(g.is_alive(cell(0, 0)));
}

#[test]
fn dead_cell_with_two_neighbors_stays_dead() {
    let mut g = Grid::new();
    g.set_alive(cell(-1, 0));
    g.set_alive(cell(1, 0));
    g.step();
    assert!(!g.is_alive(cell(0, 0)));
    assert_eq!(live_count(&g), 0);
}

#[test]
fn dead_cell_with_four_neighbors_stays_dead() {
    let mut g = Grid::new();
    g.set_alive(cell(-1, 0));
    g.set_alive(cell(1, 0));
    g.set_alive(cell(0, 1));
    g.set_alive(cell(0, -1));
    g.step();
    assert!(!g.is_alive(cell(0, 0)));
}

#[test]
fn live_cell_with_no_neighbor_dies() {
    let mut g = Grid::new();
    g.set_alive(cell(4, 4));
    g.step();
    assert!(!g.is_alive(cell(4, 4)));
    assert_eq!(live_count(&g), 0);
}

#[test]
fn live_cell_with_one_neighbor_dies() {
    let mut g = Grid::new();
    g.set_alive(cell(0, 0));
    g.set_alive(cell(1, 0));
    g.step();
    assert!(!g.is_alive(cell(0, 0)));
    assert!(!g.is_alive(cell(1, 0)));
    assert_eq!(live_count(&g), 0);
}

#[test]
fn live_cell_with_four_neighbors_dies() {
    let mut g = Grid::new();
    g.set_alive(cell(0, 0));
    g.set_alive(cell(-1, 0));
    g.set_alive(cell(1, 0));
    g.set_alive(cell(0, 1));
    g.set_alive(cell(0, -1));
    g.step();
    assert!(!g.is_alive(cell(0, 0)));
}

#[test]
fn step_far_from_origin() {
    // The lattice is unbounded: a blinker far out behaves the same.
    let x: i64 = 40_000_000_000;
    let y: i64 = -3_000_000_000;
    let mut g = Grid::new();
    g.set_alive(cell(x, y));
    g.set_alive(cell(x + 1, y));
    g.set_alive(cell(x + 2, y));
    g.step();
    assert!(g.is_alive(cell(x + 1, y - 1)));
    assert!(g.is_alive(cell(x + 1, y)));
    assert!(g.is_alive(cell(x + 1, y + 1)));
    assert_eq!(live_count(&g), 3);
}
