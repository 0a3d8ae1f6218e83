use game_of_life::grid::Grid;
use game_of_life::pattern::{
    add_blinker, add_block, add_glider, add_lightweight_spaceship, add_pulsar, add_toad, offsets,
    place, PatternKind,
};
use game_of_life::rules::ALIVE;

const KINDS: [PatternKind; 6] = [
    PatternKind::Block,
    PatternKind::Blinker,
    PatternKind::Toad,
    PatternKind::Glider,
    PatternKind::LightweightSpaceship,
    PatternKind::Pulsar,
];

fn live_cells(grid: &Grid) -> Vec<(usize, usize)> {
    let mut cells = Vec::new();
    for (y, row) in grid.rows().iter().enumerate() {
        for (x, &state) in row.iter().enumerate() {
            if state == ALIVE {
                cells.push((x, y));
            }
        }
    }
    cells
}

/// The cells that a form anchored at `(ax, ay)` has inside a `w` x `h` grid.
fn expected_cells(kind: PatternKind, w: i64, h: i64, ax: i64, ay: i64) -> Vec<(usize, usize)> {
    let mut cells: Vec<(usize, usize)> = offsets(kind)
        .into_iter()
        .map(|(dx, dy)| (ax + dx, ay + dy))
        .filter(|&(x, y)| 0 <= x && x < w && 0 <= y && y < h)
        .map(|(x, y)| (x as usize, y as usize))
        .collect();
    cells.sort_by_key(|&(x, y)| (y, x));
    cells.dedup();
    cells
}

#[test]
fn block_template() {
    assert_eq!(offsets(PatternKind::Block), vec![(0, 0), (1, 0), (0, 1), (1, 1)]);
}

#[test]
fn blinker_template() {
    assert_eq!(offsets(PatternKind::Blinker), vec![(0, 0), (1, 0), (2, 0)]);
}

#[test]
fn toad_template() {
    assert_eq!(
        offsets(PatternKind::Toad),
        vec![(0, 0), (1, 0), (2, 0), (1, 1), (2, 1), (3, 1)]
    );
}

#[test]
fn glider_template() {
    assert_eq!(
        offsets(PatternKind::Glider),
        vec![(0, 0), (1, 1), (2, -1), (2, 0), (2, 1)]
    );
}

#[test]
fn lightweight_spaceship_template() {
    assert_eq!(
        offsets(PatternKind::LightweightSpaceship),
        vec![(0, 0), (0, 2), (1, 3), (2, 3), (3, 3), (4, 2), (4, 0)]
    );
}

#[test]
fn pulsar_template() {
    let cells = offsets(PatternKind::Pulsar);
    assert_eq!(cells.len(), 48);
    let mut expected = Vec::new();
    for y in 0..13i64 {
        let columns: &[i64] = match y {
            0 | 5 | 7 | 12 => &[2, 3, 4, 8, 9, 10],
            2 | 3 | 4 | 8 | 9 | 10 => &[0, 5, 7, 12],
            _ => &[],
        };
        for &x in columns {
            expected.push((x, y));
        }
    }
    assert_eq!(cells, expected);
}

#[test]
fn template_sizes() {
    let sizes: Vec<usize> = KINDS.iter().map(|&k| offsets(k).len()).collect();
    assert_eq!(sizes, vec![4, 3, 6, 5, 7, 48]);
}

#[test]
fn add_block_sets_a_square() {
    let mut grid = Grid::new(6, 5).unwrap();
    add_block(&mut grid, 2, 1);
    assert_eq!(live_cells(&grid), vec![(2, 1), (3, 1), (2, 2), (3, 2)]);
}

#[test]
fn add_blinker_sets_three_in_a_row() {
    let mut grid = Grid::new(6, 5).unwrap();
    add_blinker(&mut grid, 1, 3);
    assert_eq!(live_cells(&grid), vec![(1, 3), (2, 3), (3, 3)]);
}

#[test]
fn add_toad_sets_two_shifted_rows() {
    let mut grid = Grid::new(6, 5).unwrap();
    add_toad(&mut grid, 1, 2);
    assert_eq!(live_cells(&grid), vec![(1, 2), (2, 2), (3, 2), (2, 3), (3, 3), (4, 3)]);
}

#[test]
fn add_glider_sets_five_cells() {
    let mut grid = Grid::new(6, 5).unwrap();
    add_glider(&mut grid, 1, 2);
    assert_eq!(live_cells(&grid), vec![(3, 1), (1, 2), (3, 2), (2, 3), (3, 3)]);
}

#[test]
fn add_glider_in_the_top_row_drops_the_cell_above() {
    let mut grid = Grid::new(6, 5).unwrap();
    add_glider(&mut grid, 0, 0);
    assert_eq!(live_cells(&grid), vec![(0, 0), (2, 0), (1, 1), (2, 1)]);
}

#[test]
fn add_lightweight_spaceship_sets_seven_cells() {
    let mut grid = Grid::new(8, 6).unwrap();
    add_lightweight_spaceship(&mut grid, 1, 1);
    assert_eq!(
        live_cells(&grid),
        vec![(1, 1), (5, 1), (1, 3), (5, 3), (2, 4), (3, 4), (4, 4)]
    );
}

#[test]
fn add_pulsar_sets_all_48_cells_when_it_fits() {
    let mut grid = Grid::new(20, 20).unwrap();
    add_pulsar(&mut grid, 3, 4);
    let cells = live_cells(&grid);
    assert_eq!(cells.len(), 48);
    assert_eq!(cells, expected_cells(PatternKind::Pulsar, 20, 20, 3, 4));
    assert_eq!(&cells[..6], &[(5, 4), (6, 4), (7, 4), (11, 4), (12, 4), (13, 4)]);
}

#[test]
fn pulsar_near_the_corner_is_clipped() {
    let mut grid = Grid::new(20, 20).unwrap();
    add_pulsar(&mut grid, 15, 16);
    // Of the 13 x 13 footprint only columns 15..=19 and rows 16..=19 are on
    // the grid: offsets (2..=4, 0) and (0, 2..=3).
    assert_eq!(
        live_cells(&grid),
        vec![(17, 16), (18, 16), (19, 16), (15, 18), (15, 19)]
    );
}

#[test]
fn clipped_cells_do_not_wrap_around() {
    let mut grid = Grid::new(20, 20).unwrap();
    add_pulsar(&mut grid, 15, 16);
    for y in 0..16 {
        for x in 0..20 {
            assert_eq!(grid.get(x, y), Some(0), "cell ({}, {})", x, y);
        }
    }
    for y in 0..20 {
        for x in 0..15 {
            assert_eq!(grid.get(x, y), Some(0), "cell ({}, {})", x, y);
        }
    }
}

#[test]
fn pulsar_in_the_last_cell_sets_nothing() {
    let mut grid = Grid::new(20, 20).unwrap();
    add_pulsar(&mut grid, 19, 19);
    assert_eq!(live_cells(&grid), Vec::new());
}

#[test]
fn anchor_beyond_the_grid_sets_nothing() {
    for &kind in KINDS.iter() {
        let mut grid = Grid::new(5, 5).unwrap();
        place(kind, &mut grid, 40, 2);
        place(kind, &mut grid, 2, 40);
        place(kind, &mut grid, -40, -40);
        assert_eq!(live_cells(&grid), Vec::new());
    }
}

#[test]
fn huge_anchors_are_tolerated() {
    for &kind in KINDS.iter() {
        let mut grid = Grid::new(5, 5).unwrap();
        place(kind, &mut grid, i64::MAX, i64::MAX);
        place(kind, &mut grid, i64::MIN, i64::MIN);
        place(kind, &mut grid, i64::MAX, i64::MIN);
        assert_eq!(live_cells(&grid), Vec::new());
    }
    let mut grid = Grid::new(5, 5).unwrap();
    add_block(&mut grid, usize::MAX, usize::MAX);
    add_glider(&mut grid, usize::MAX, 0);
    assert_eq!(live_cells(&grid), Vec::new());
}

#[test]
fn negative_anchor_keeps_the_part_inside() {
    let mut grid = Grid::new(5, 5).unwrap();
    place(PatternKind::Block, &mut grid, -1, -1);
    assert_eq!(live_cells(&grid), vec![(0, 0)]);
    let mut grid = Grid::new(5, 5).unwrap();
    place(PatternKind::Toad, &mut grid, -2, 3);
    assert_eq!(live_cells(&grid), vec![(0, 3), (0, 4), (1, 4)]);
}

#[test]
fn place_agrees_with_the_named_functions() {
    let adders: [fn(&mut Grid, usize, usize); 6] = [
        add_block,
        add_blinker,
        add_toad,
        add_glider,
        add_lightweight_spaceship,
        add_pulsar,
    ];
    for (kind, add) in KINDS.iter().zip(adders.iter()) {
        for &(x, y) in &[(0usize, 0usize), (3, 2), (14, 15), (17, 17)] {
            let mut by_place = Grid::new(18, 18).unwrap();
            let mut by_name = Grid::new(18, 18).unwrap();
            place(*kind, &mut by_place, x as i64, y as i64);
            add(&mut by_name, x, y);
            assert_eq!(by_place.rows(), by_name.rows());
            assert_eq!(
                live_cells(&by_place),
                expected_cells(*kind, 18, 18, x as i64, y as i64)
            );
        }
    }
}

#[test]
fn placing_keeps_what_was_alive() {
    let mut grid = Grid::new(8, 8).unwrap();
    add_blinker(&mut grid, 0, 7);
    add_block(&mut grid, 4, 4);
    assert_eq!(
        live_cells(&grid),
        vec![(4, 4), (5, 4), (4, 5), (5, 5), (0, 7), (1, 7), (2, 7)]
    );
}

#[test]
fn overlapping_forms_leave_only_zeros_and_ones() {
    let mut grid = Grid::new(16, 16).unwrap();
    add_pulsar(&mut grid, 1, 1);
    add_block(&mut grid, 3, 1);
    add_blinker(&mut grid, 2, 1);
    add_toad(&mut grid, 3, 1);
    add_glider(&mut grid, 1, 2);
    add_lightweight_spaceship(&mut grid, 1, 1);
    add_pulsar(&mut grid, 1, 1);
    for row in grid.rows() {
        for &state in row {
            assert!(state == 0 || state == 1);
        }
    }
    // The cell (3, 1) is covered by five of the forms.
    assert_eq!(grid.get(3, 1), Some(1));
}

#[test]
fn overlap_is_the_union() {
    let mut grid = Grid::new(6, 6).unwrap();
    add_block(&mut grid, 1, 1);
    add_blinker(&mut grid, 1, 1);
    assert_eq!(live_cells(&grid), vec![(1, 1), (2, 1), (3, 1), (1, 2), (2, 2)]);
}

#[test]
fn placing_twice_is_placing_once() {
    for &kind in KINDS.iter() {
        let mut once = Grid::new(16, 16).unwrap();
        let mut twice = Grid::new(16, 16).unwrap();
        place(kind, &mut once, 2, 3);
        place(kind, &mut twice, 2, 3);
        place(kind, &mut twice, 2, 3);
        assert_eq!(once.rows(), twice.rows());
    }
}

#[test]
fn placing_keeps_the_dimensions() {
    let mut grid = Grid::new(7, 3).unwrap();
    add_pulsar(&mut grid, 0, 0);
    assert_eq!(grid.width(), 7);
    assert_eq!(grid.height(), 3);
    assert_eq!(live_cells(&grid), vec![(2, 0), (3, 0), (4, 0), (0, 2), (5, 2)]);
}

#[test]
fn placements_can_be_made_in_either_order() {
    let mut one = Grid::new(16, 16).unwrap();
    let mut other = Grid::new(16, 16).unwrap();
    place(PatternKind::Pulsar, &mut one, 1, 1);
    place(PatternKind::Glider, &mut one, 2, 2);
    place(PatternKind::Glider, &mut other, 2, 2);
    place(PatternKind::Pulsar, &mut other, 1, 1);
    assert_eq!(one.rows(), other.rows());
}
