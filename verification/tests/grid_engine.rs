use game_of_life::grid::{count_neighbors, next_state, Grid, GridError};
use game_of_life::rules::{next_cell_state, ALIVE, DEAD};

fn grid_from(rows: &[&[u8]]) -> Grid {
    Grid::from_rows(rows.iter().map(|r| r.to_vec()).collect()).unwrap()
}

fn live_cells(grid: &Grid) -> Vec<(usize, usize)> {
    let mut cells = Vec::new();
    for (y, row) in grid.rows().iter().enumerate() {
        for (x, &state) in row.iter().enumerate() {
            if state == ALIVE {
                cells.push((x, y));
            }
        }
    }
    cells
}

/// A 3 x 3 torus whose centre is `centre` and which has `neighbors` live
/// cells among the other eight.
fn ring(centre: u8, neighbors: usize) -> Grid {
    let around = [(0, 0), (1, 0), (2, 0), (0, 1), (2, 1), (0, 2), (1, 2), (2, 2)];
    let mut rows = vec![vec![DEAD; 3]; 3];
    rows[1][1] = centre;
    for &(x, y) in around.iter().take(neighbors) {
        rows[y][x] = ALIVE;
    }
    Grid::from_rows(rows).unwrap()
}

#[test]
fn cell_states_are_zero_and_one() {
    assert_eq!(DEAD, 0);
    assert_eq!(ALIVE, 1);
}

#[test]
fn new_grid_is_all_dead() {
    let grid = Grid::new(4, 3).unwrap();
    assert_eq!(grid.width(), 4);
    assert_eq!(grid.height(), 3);
    assert_eq!(grid.rows(), &vec![vec![0u8; 4]; 3]);
}

#[test]
fn new_rejects_zero_width() {
    assert!(matches!(Grid::new(0, 5), Err(GridError::ZeroDimension)));
}

#[test]
fn new_rejects_zero_height() {
    assert!(matches!(Grid::new(5, 0), Err(GridError::ZeroDimension)));
}

#[test]
fn new_accepts_single_cell() {
    let grid = Grid::new(1, 1).unwrap();
    assert_eq!(grid.rows(), &vec![vec![0u8]]);
}

#[test]
fn from_rows_keeps_the_rows() {
    let rows = vec![vec![0, 1, 0], vec![1, 1, 0]];
    let grid = Grid::from_rows(rows.clone()).unwrap();
    assert_eq!(grid.width(), 3);
    assert_eq!(grid.height(), 2);
    assert_eq!(grid.rows(), &rows);
}

#[test]
fn from_rows_rejects_no_rows() {
    assert!(matches!(Grid::from_rows(Vec::new()), Err(GridError::ZeroDimension)));
}

#[test]
fn from_rows_rejects_empty_rows() {
    assert!(matches!(
        Grid::from_rows(vec![Vec::new(), Vec::new()]),
        Err(GridError::ZeroDimension)
    ));
}

#[test]
fn from_rows_rejects_ragged_rows() {
    assert!(matches!(
        Grid::from_rows(vec![vec![0, 0], vec![0, 0, 0]]),
        Err(GridError::RaggedRows)
    ));
}

#[test]
fn from_rows_rejects_other_cell_values() {
    assert!(matches!(
        Grid::from_rows(vec![vec![0, 1], vec![2, 0]]),
        Err(GridError::InvalidCell)
    ));
}

#[test]
fn from_rows_reports_ragged_before_invalid() {
    assert!(matches!(
        Grid::from_rows(vec![vec![7, 0], vec![0]]),
        Err(GridError::RaggedRows)
    ));
}

#[test]
fn get_reads_inside_and_refuses_outside() {
    let grid = grid_from(&[&[0, 1, 0], &[1, 0, 0]]);
    assert_eq!(grid.get(1, 0), Some(1));
    assert_eq!(grid.get(0, 1), Some(1));
    assert_eq!(grid.get(2, 1), Some(0));
    assert_eq!(grid.get(3, 0), None);
    assert_eq!(grid.get(0, 2), None);
}

#[test]
fn set_alive_sets_one_cell() {
    let mut grid = Grid::new(3, 2).unwrap();
    assert!(grid.set_alive(2, 1));
    assert_eq!(grid.rows(), &vec![vec![0, 0, 0], vec![0, 0, 1]]);
    assert!(grid.set_alive(2, 1));
    assert_eq!(grid.rows(), &vec![vec![0, 0, 0], vec![0, 0, 1]]);
}

#[test]
fn set_alive_outside_changes_nothing() {
    let mut grid = Grid::new(3, 2).unwrap();
    assert!(!grid.set_alive(3, 0));
    assert!(!grid.set_alive(0, 2));
    assert_eq!(grid.rows(), &vec![vec![0u8; 3]; 2]);
}

#[test]
fn neighbors_wrap_at_the_corner() {
    let grid = grid_from(&[&[1, 0, 0], &[0, 0, 0], &[0, 0, 0]]);
    assert_eq!(count_neighbors(&grid, 0, 0), 0);
    assert_eq!(count_neighbors(&grid, 2, 2), 1);
    assert_eq!(count_neighbors(&grid, 1, 1), 1);
    assert_eq!(count_neighbors(&grid, 2, 0), 1);
    assert_eq!(count_neighbors(&grid, 0, 2), 1);
}

#[test]
fn corner_cell_counts_the_opposite_corner() {
    let grid = grid_from(&[&[0, 0, 0], &[0, 0, 0], &[0, 0, 1]]);
    assert_eq!(count_neighbors(&grid, 0, 0), 1);
}

#[test]
fn every_cell_has_eight_neighbors() {
    let grid = grid_from(&[&[1, 1, 1, 1], &[1, 1, 1, 1], &[1, 1, 1, 1]]);
    for y in 0..3 {
        for x in 0..4 {
            assert_eq!(count_neighbors(&grid, x, y), 8);
        }
    }
}

#[test]
fn neighbors_on_edges_wrap_both_ways() {
    let grid = grid_from(&[
        &[0, 0, 0, 0, 1],
        &[0, 0, 0, 0, 1],
        &[0, 0, 0, 0, 0],
        &[1, 1, 0, 0, 0],
    ]);
    // (0, 0) sees (4, 0), (4, 1) to its left and (0, 3), (1, 3) above it.
    assert_eq!(count_neighbors(&grid, 0, 0), 4);
    assert_eq!(count_neighbors(&grid, 4, 3), 2);
    assert_eq!(count_neighbors(&grid, 2, 2), 1);
}

#[test]
fn narrow_grid_counts_a_cell_once_for_each_way_round() {
    // On a single row of one cell, all eight neighbours are the cell itself.
    let lone = grid_from(&[&[1]]);
    assert_eq!(count_neighbors(&lone, 0, 0), 8);
    let pair = grid_from(&[&[1, 0]]);
    assert_eq!(count_neighbors(&pair, 0, 0), 2);
    assert_eq!(count_neighbors(&pair, 1, 0), 6);
}

#[test]
fn coordinates_beyond_the_grid_go_round() {
    let grid = grid_from(&[&[1, 0, 0], &[0, 0, 0], &[0, 0, 0]]);
    assert_eq!(count_neighbors(&grid, 3, 3), count_neighbors(&grid, 0, 0));
    assert_eq!(count_neighbors(&grid, 5, 8), count_neighbors(&grid, 2, 2));
    assert_eq!(count_neighbors(&grid, 4, 0), 1);
}

#[test]
fn rule_for_a_dead_cell() {
    let expected = [0u8, 0, 0, 1, 0, 0, 0, 0, 0];
    for n in 0..=8u8 {
        assert_eq!(next_cell_state(DEAD, n), expected[n as usize], "dead cell, {} neighbours", n);
    }
}

#[test]
fn rule_for_a_live_cell() {
    let expected = [0u8, 0, 1, 1, 0, 0, 0, 0, 0];
    for n in 0..=8u8 {
        assert_eq!(next_cell_state(ALIVE, n), expected[n as usize], "live cell, {} neighbours", n);
    }
}

#[test]
fn birth_needs_exactly_three() {
    let expected = [0u8, 0, 0, 1, 0, 0, 0, 0, 0];
    for n in 0..=8usize {
        let grid = ring(DEAD, n);
        assert_eq!(count_neighbors(&grid, 1, 1) as usize, n);
        assert_eq!(next_state(&grid).get(1, 1), Some(expected[n]), "{} neighbours", n);
    }
}

#[test]
fn survival_needs_two_or_three() {
    let expected = [0u8, 0, 1, 1, 0, 0, 0, 0, 0];
    for n in 0..=8usize {
        let grid = ring(ALIVE, n);
        assert_eq!(count_neighbors(&grid, 1, 1) as usize, n);
        assert_eq!(next_state(&grid).get(1, 1), Some(expected[n]), "{} neighbours", n);
    }
}

#[test]
fn next_state_decides_from_the_snapshot() {
    // Updating the cells one by one would kill the top of the upright
    // blinker before its middle row is looked at; the result below needs
    // every cell decided from the grid as it was.
    let rows = vec![
        vec![0, 0, 0, 0, 0],
        vec![0, 0, 1, 0, 0],
        vec![0, 0, 1, 0, 0],
        vec![0, 0, 1, 0, 0],
        vec![0, 0, 0, 0, 0],
    ];
    let grid = Grid::from_rows(rows.clone()).unwrap();
    let next = next_state(&grid);
    assert_eq!(grid.rows(), &rows);
    assert_eq!(next.width(), 5);
    assert_eq!(next.height(), 5);
    assert_eq!(
        next.rows(),
        &vec![
            vec![0, 0, 0, 0, 0],
            vec![0, 0, 0, 0, 0],
            vec![0, 1, 1, 1, 0],
            vec![0, 0, 0, 0, 0],
            vec![0, 0, 0, 0, 0],
        ]
    );
}

#[test]
fn three_cells_in_a_corner_become_a_block() {
    let grid = grid_from(&[
        &[0, 0, 0, 0, 0, 0],
        &[0, 1, 1, 0, 0, 0],
        &[0, 1, 0, 0, 0, 0],
        &[0, 0, 0, 0, 1, 0],
        &[0, 0, 0, 0, 0, 0],
        &[0, 0, 0, 0, 0, 0],
    ]);
    let next = next_state(&grid);
    assert_eq!(live_cells(&next), vec![(1, 1), (2, 1), (1, 2), (2, 2)]);
}

#[test]
fn empty_grid_stays_empty() {
    let grid = Grid::new(7, 4).unwrap();
    assert_eq!(next_state(&grid).rows(), &vec![vec![0u8; 7]; 4]);
}

#[test]
fn full_grid_dies_of_overcrowding() {
    let grid = Grid::from_rows(vec![vec![1u8; 5]; 5]).unwrap();
    assert_eq!(next_state(&grid).rows(), &vec![vec![0u8; 5]; 5]);
}

#[test]
fn next_state_wraps_across_the_edges() {
    // A blinker lying across the left edge turns upright across the top edge.
    let grid = grid_from(&[
        &[1, 1, 0, 0, 1],
        &[0, 0, 0, 0, 0],
        &[0, 0, 0, 0, 0],
        &[0, 0, 0, 0, 0],
        &[0, 0, 0, 0, 0],
    ]);
    let next = next_state(&grid);
    assert_eq!(live_cells(&next), vec![(0, 0), (0, 1), (0, 4)]);
}

#[test]
fn no_place_on_the_torus_is_special() {
    // Moving every cell two columns right and one row down, round the edges,
    // and then stepping gives the same as stepping and then moving.
    let rows = vec![
        vec![1, 0, 0, 1, 0, 1],
        vec![0, 1, 1, 0, 0, 1],
        vec![1, 1, 0, 0, 1, 0],
        vec![0, 0, 1, 0, 1, 1],
        vec![1, 0, 1, 1, 0, 0],
    ];
    let moved = |rows: &Vec<Vec<u8>>| -> Vec<Vec<u8>> {
        let mut out = rows.clone();
        out.rotate_right(1);
        for row in out.iter_mut() {
            row.rotate_right(2);
        }
        out
    };
    let grid = Grid::from_rows(rows.clone()).unwrap();
    let moved_grid = Grid::from_rows(moved(&rows)).unwrap();
    assert_eq!(next_state(&moved_grid).rows(), &moved(next_state(&grid).rows()));
    for y in 0..5 {
        for x in 0..6 {
            assert_eq!(
                count_neighbors(&moved_grid, (x + 2) % 6, (y + 1) % 5),
                count_neighbors(&grid, x, y)
            );
        }
    }
}
