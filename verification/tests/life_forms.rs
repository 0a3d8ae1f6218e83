use game_of_life::grid::{next_state, Grid};
use game_of_life::pattern::{
    add_blinker, add_block, add_glider, add_lightweight_spaceship, add_pulsar, add_toad,
};
use game_of_life::rules::ALIVE;

fn live_cells(grid: &Grid) -> Vec<(usize, usize)> {
    let mut cells = Vec::new();
    for (y, row) in grid.rows().iter().enumerate() {
        for (x, &state) in row.iter().enumerate() {
            if state == ALIVE {
                cells.push((x, y));
            }
        }
    }
    cells
}

fn after(grid: &Grid, generations: usize) -> Grid {
    let mut current = next_state(grid);
    for _ in 1..generations {
        current = next_state(&current);
    }
    current
}

#[test]
fn block_is_a_still_life() {
    let mut grid = Grid::new(10, 10).unwrap();
    add_block(&mut grid, 4, 4);
    let start = grid.rows().clone();
    let mut current = grid;
    for _ in 0..25 {
        current = next_state(&current);
        assert_eq!(current.rows(), &start);
    }
}

#[test]
fn block_is_still_on_the_smallest_grid_of_the_law() {
    for &(x, y) in &[(0usize, 0usize), (2, 2), (1, 0), (0, 2)] {
        let mut grid = Grid::new(4, 4).unwrap();
        add_block(&mut grid, x, y);
        assert_eq!(after(&grid, 1).rows(), grid.rows());
        assert_eq!(after(&grid, 7).rows(), grid.rows());
    }
}

#[test]
fn blinker_has_period_two() {
    let mut grid = Grid::new(10, 10).unwrap();
    add_blinker(&mut grid, 3, 5);
    let one = after(&grid, 1);
    assert_eq!(live_cells(&one), vec![(4, 4), (4, 5), (4, 6)]);
    assert_ne!(one.rows(), grid.rows());
    assert_eq!(after(&grid, 2).rows(), grid.rows());
    assert_eq!(after(&grid, 3).rows(), one.rows());
}

#[test]
fn blinker_at_the_top_edge_turns_round_the_torus() {
    let mut grid = Grid::new(5, 5).unwrap();
    add_blinker(&mut grid, 2, 0);
    assert_eq!(live_cells(&after(&grid, 1)), vec![(3, 0), (3, 1), (3, 4)]);
    assert_eq!(after(&grid, 2).rows(), grid.rows());
}

#[test]
fn toad_has_period_two() {
    let mut grid = Grid::new(10, 10).unwrap();
    add_toad(&mut grid, 3, 4);
    let one = after(&grid, 1);
    assert_eq!(live_cells(&one), vec![(4, 3), (3, 4), (6, 4), (3, 5), (6, 5), (5, 6)]);
    assert_ne!(one.rows(), grid.rows());
    assert_eq!(after(&grid, 2).rows(), grid.rows());
}

#[test]
fn pulsar_has_period_three() {
    let mut grid = Grid::new(20, 20).unwrap();
    add_pulsar(&mut grid, 3, 3);
    let one = after(&grid, 1);
    let two = after(&grid, 2);
    assert_eq!(live_cells(&grid).len(), 48);
    assert_eq!(live_cells(&one).len(), 56);
    assert_eq!(live_cells(&two).len(), 72);
    assert_ne!(one.rows(), grid.rows());
    assert_ne!(two.rows(), grid.rows());
    assert_eq!(after(&grid, 3).rows(), grid.rows());
    assert_eq!(after(&grid, 6).rows(), grid.rows());
}

#[test]
fn pulsar_returns_on_the_smallest_grid_of_the_law() {
    for &(x, y) in &[(0usize, 0usize), (4, 4), (2, 3)] {
        let mut grid = Grid::new(17, 17).unwrap();
        add_pulsar(&mut grid, x, y);
        assert_eq!(after(&grid, 3).rows(), grid.rows());
    }
}

#[test]
fn glider_moves_one_cell_diagonally_in_four_generations() {
    let mut grid = Grid::new(12, 12).unwrap();
    add_glider(&mut grid, 3, 4);
    let mut moved = Grid::new(12, 12).unwrap();
    add_glider(&mut moved, 4, 5);
    let four = after(&grid, 4);
    assert_eq!(four.rows(), moved.rows());
    assert_eq!(live_cells(&four), vec![(6, 4), (4, 5), (6, 5), (5, 6), (6, 6)]);
    for n in 1..4 {
        assert_ne!(after(&grid, n).rows(), moved.rows());
    }
}

#[test]
fn glider_keeps_moving() {
    let mut grid = Grid::new(12, 12).unwrap();
    add_glider(&mut grid, 1, 2);
    let mut moved = Grid::new(12, 12).unwrap();
    add_glider(&mut moved, 4, 5);
    assert_eq!(after(&grid, 12).rows(), moved.rows());
}

#[test]
fn glider_crosses_the_edge_of_the_torus() {
    let mut grid = Grid::new(6, 6).unwrap();
    add_glider(&mut grid, 3, 4);
    // One cell right and one cell down of (3, 4): the right column and the
    // bottom row come back in at the left and at the top.
    assert_eq!(live_cells(&grid), vec![(5, 3), (3, 4), (5, 4), (4, 5), (5, 5)]);
    assert_eq!(
        live_cells(&after(&grid, 4)),
        vec![(0, 0), (5, 0), (0, 4), (0, 5), (4, 5)]
    );
    // After six such moves the glider is back where it began.
    assert_eq!(after(&grid, 24).rows(), grid.rows());
}

#[test]
fn seven_cell_spaceship_form_after_four_generations() {
    let mut grid = Grid::new(20, 20).unwrap();
    add_lightweight_spaceship(&mut grid, 6, 6);
    assert_eq!(live_cells(&grid).len(), 7);
    assert_eq!(
        live_cells(&after(&grid, 4)),
        vec![(7, 8), (8, 8), (9, 8), (7, 9), (9, 9), (7, 10), (8, 10), (9, 10)]
    );
}
