//! The grid engine: the cell array, neighbour counting and the step from one
//! generation to the next.

use vstd::prelude::*;
use crate::rules::{
    advance, blank, cell_at, lemma_count_bounds, lemma_wrap, neighbor_count, next_cell_state,
    well_formed, wrap, ALIVE, DEAD,
};

verus! {

/// Why a grid could not be built.
#[derive(Debug, Clone, Copy, PartialEq, Eq)]
pub enum GridError {
    /// There was no row, or the rows had no column.
    ZeroDimension,
    /// Some row was not as long as the first.
    RaggedRows,
    /// Some cell held a value other than `DEAD` or `ALIVE`.
    InvalidCell,
}

/// The rows held by a nested vector, top row first.
pub open spec fn rows_of(cells: Vec<Vec<u8>>) -> Seq<Seq<u8>> {
    Seq::new(cells@.len(), |y: int| cells@[y]@)
}

/// A rectangular array of cells on a torus. Its dimensions are fixed when it
/// is built, both are positive, and every cell is `DEAD` or `ALIVE`.
pub struct Grid {
    cells: Vec<Vec<u8>>,
}

impl View for Grid {
    type V = Seq<Seq<u8>>;

    /// The rows of cell states, top row first.
    closed spec fn view(&self) -> Seq<Seq<u8>> {
        rows_of(self.cells)
    }
}

/// What `Grid::from_rows` answers for the given rows.
pub open spec fn rows_verdict(rows: Seq<Seq<u8>>) -> Option<GridError> {
    if rows.len() == 0 || rows[0].len() == 0 {
        Some(GridError::ZeroDimension)
    } else if exists|y: int| 0 <= y < rows.len() && (#[trigger] rows[y]).len() != rows[0].len() {
        Some(GridError::RaggedRows)
    } else if exists|x: int, y: int|
        0 <= y < rows.len() && 0 <= x < rows[y].len() && (#[trigger] rows[y][x]) > 1 {
        Some(GridError::InvalidCell)
    } else {
        None
    }
}

impl Grid {
    #[verifier::type_invariant]
    spec fn inv(&self) -> bool {
        well_formed(rows_of(self.cells))
    }

    /// An all-dead grid of the given size. A zero width or height is rejected.
    pub fn new(width: usize, height: usize) -> (made: Result<Grid, GridError>)
        ensures
            made is Err <==> (width == 0 || height == 0),
            made matches Err(e) ==> e == GridError::ZeroDimension,
            made matches Ok(g) ==> {
                &&& well_formed(g@)
                &&& crate::rules::width(g@) == width
                &&& crate::rules::height(g@) == height
                &&& g@ == blank(width as int, height as int)
            },
    {
        if width == 0 || height == 0 {
            return Err(GridError::ZeroDimension);
        }
        let mut cells: Vec<Vec<u8>> = Vec::new();
        let mut y: usize = 0;
        while y < height
            invariant
                y <= height,
                cells@.len() == y,
                forall|j: int| 0 <= j < y ==> (#[trigger] cells@[j])@.len() == width,
                forall|i: int, j: int|
                    0 <= j < y && 0 <= i < width ==> (#[trigger] cells@[j]@[i]) == DEAD,
            decreases height - y,
        {
            let mut row: Vec<u8> = Vec::new();
            let mut x: usize = 0;
            while x < width
                invariant
                    x <= width,
                    row@.len() == x,
                    forall|i: int| 0 <= i < x ==> (#[trigger] row@[i]) == DEAD,
                decreases width - x,
            {
                row.push(DEAD);
                x += 1;
            }
            cells.push(row);
            y += 1;
        }
        assert(rows_of(cells) =~~= blank(width as int, height as int));
        Ok(Grid { cells })
    }

    /// The grid that holds exactly the given rows, if they form one: at least
    /// one row and one column, all rows of one length, every cell 0 or 1.
    pub fn from_rows(rows: Vec<Vec<u8>>) -> (made: Result<Grid, GridError>)
        ensures
            match made {
                Ok(g) => rows_verdict(rows_of(rows)) is None && g@ == rows_of(rows)
                    && well_formed(g@),
                Err(e) => rows_verdict(rows_of(rows)) == Some(e),
            },
    {
        let ghost model = rows_of(rows);
        if rows.len() == 0 || rows[0].len() == 0 {
            return Err(GridError::ZeroDimension);
        }
        let width = rows[0].len();
        let mut y: usize = 0;
        while y < rows.len()
            invariant
                y <= rows.len(),
                model == rows_of(rows),
                width == model[0].len(),
                width > 0,
                forall|j: int| 0 <= j < y ==> (#[trigger] model[j]).len() == width,
            decreases rows.len() - y,
        {
            if rows[y].len() != width {
                assert(model[y as int].len() != model[0].len());
                return Err(GridError::RaggedRows);
            }
            y += 1;
        }
        let mut y: usize = 0;
        while y < rows.len()
            invariant
                y <= rows.len(),
                model == rows_of(rows),
                width == model[0].len(),
                width > 0,
                forall|j: int| 0 <= j < model.len() ==> (#[trigger] model[j]).len() == width,
                forall|i: int, j: int| 0 <= j < y && 0 <= i < width ==> (#[trigger] model[j][i]) <= 1,
            decreases rows.len() - y,
        {
            let row = &rows[y];
            assert(row@ == model[y as int]);
            let mut x: usize = 0;
            while x < width
                invariant
                    x <= width,
                    y < rows.len(),
                    model == rows_of(rows),
                    row@ == model[y as int],
                    row@.len() == width,
                    width == model[0].len(),
                    width > 0,
                    forall|j: int| 0 <= j < model.len() ==> (#[trigger] model[j]).len() == width,
                    forall|i: int| 0 <= i < x ==> (#[trigger] model[y as int][i]) <= 1,
                decreases width - x,
            {
                if row[x] > 1 {
                    assert(model[y as int][x as int] > 1);
                    return Err(GridError::InvalidCell);
                }
                x += 1;
            }
            y += 1;
        }
        Ok(Grid { cells: rows })
    }

    /// Number of columns.
    pub fn width(&self) -> (w: usize)
        ensures
            w == crate::rules::width(self@),
            w > 0,
            well_formed(self@),
    {
        proof {
            use_type_invariant(self);
        }
        self.cells[0].len()
    }

    /// Number of rows.
    pub fn height(&self) -> (h: usize)
        ensures
            h == crate::rules::height(self@),
            h > 0,
            well_formed(self@),
    {
        proof {
            use_type_invariant(self);
        }
        self.cells.len()
    }

    /// The rows of cell states, top row first, for reading.
    pub fn rows(&self) -> (rows: &Vec<Vec<u8>>)
        ensures
            rows_of(*rows) == self@,
            well_formed(self@),
    {
        proof {
            use_type_invariant(self);
        }
        &self.cells
    }

    /// State of the cell in column `x` of row `y`, or `None` outside the grid.
    pub fn get(&self, x: usize, y: usize) -> (state: Option<u8>)
        ensures
            state == if x < crate::rules::width(self@) && y < crate::rules::height(self@) {
                Some(self@[y as int][x as int])
            } else {
                None
            },
    {
        proof {
            use_type_invariant(self);
        }
        if y < self.cells.len() && x < self.cells[0].len() {
            assert(self@[y as int].len() == self@[0].len());
            Some(self.cells[y][x])
        } else {
            None
        }
    }

    /// Makes the cell in column `x` of row `y` alive, whatever it was. A
    /// coordinate outside the grid changes nothing; the answer tells whether
    /// the coordinate was inside.
    pub fn set_alive(&mut self, x: usize, y: usize) -> (inside: bool)
        ensures
            inside == (x < crate::rules::width(old(self)@) && y < crate::rules::height(
                old(self)@,
            )),
            final(self)@ == if inside {
                old(self)@.update(y as int, old(self)@[y as int].update(x as int, ALIVE))
            } else {
                old(self)@
            },
            well_formed(final(self)@),
    {
        proof {
            use_type_invariant(&*self);
        }
        if y < self.cells.len() && x < self.cells[0].len() {
            assert(self@[y as int].len() == self@[0].len());
            raise(&mut self.cells, x, y);
            true
        } else {
            false
        }
    }
}

/// Sets the cell at `(x, y)` to `ALIVE`.
fn raise(cells: &mut Vec<Vec<u8>>, x: usize, y: usize)
    requires
        y < old(cells)@.len(),
        x < old(cells)@[y as int]@.len(),
    ensures
        rows_of(*final(cells)) == rows_of(*old(cells)).update(
            y as int,
            rows_of(*old(cells))[y as int].update(x as int, ALIVE),
        ),
        well_formed(rows_of(*old(cells))) ==> well_formed(rows_of(*final(cells))),
    no_unwind
{
    cells[y][x] = ALIVE;
    proof {
        let before = rows_of(*old(cells));
        let after = rows_of(*cells);
        assert(after =~~= before.update(y as int, before[y as int].update(x as int, ALIVE)));
        if well_formed(before) {
            assert(before[y as int].len() == before[0].len());
            assert forall|j: int| 0 <= j < after.len() implies (#[trigger] after[j]).len()
                == after[0].len() by {
                assert(before[j].len() == before[0].len());
            }
            assert forall|i: int, j: int|
                0 <= j < after.len() && 0 <= i < after[j].len() implies (#[trigger] after[j][i])
                <= 1 by {
                assert(before[j][i] <= 1);
            }
        }
    }
}

/// The coordinate one step before `i` on an axis of length `n`, going round.
fn step_back(i: usize, n: usize) -> (r: usize)
    requires
        i < n,
    ensures
        r == wrap(i - 1, n as int),
        r < n,
{
    proof {
        lemma_wrap(i as int, n as int);
    }
    if i == 0 {
        n - 1
    } else {
        i - 1
    }
}

/// The coordinate one step after `i` on an axis of length `n`, going round.
fn step_forward(i: usize, n: usize) -> (r: usize)
    requires
        i < n,
    ensures
        r == wrap(i + 1, n as int),
        r < n,
{
    proof {
        lemma_wrap(i as int, n as int);
    }
    if i == n - 1 {
        0
    } else {
        i + 1
    }
}

/// Number of live cells among the eight around `(x, y)`, the torus wrapped at
/// every edge. A coordinate beyond the grid is itself taken round the torus.
pub fn count_neighbors(board: &Grid, x: usize, y: usize) -> (count: u8)
    ensures
        count == neighbor_count(board@, x as int, y as int),
        count <= 8,
{
    proof {
        use_type_invariant(board);
    }
    let ghost rows = board@;
    let w = board.cells[0].len();
    let h = board.cells.len();
    let xc = x % w;
    let yc = y % h;
    let xl = step_back(xc, w);
    let xr = step_forward(xc, w);
    let yu = step_back(yc, h);
    let yd = step_forward(yc, h);
    proof {
        lemma_wrap(x as int, w as int);
        lemma_wrap(y as int, h as int);
        lemma_wrap(xc as int, w as int);
        lemma_wrap(yc as int, h as int);
        lemma_count_bounds(rows, x as int, y as int);
        assert(rows[yu as int].len() == w);
        assert(rows[yc as int].len() == w);
        assert(rows[yd as int].len() == w);
        assert(rows[yu as int][xl as int] <= 1 && rows[yu as int][xc as int] <= 1 && rows[yu as int][xr as int] <= 1);
        assert(rows[yc as int][xl as int] <= 1 && rows[yc as int][xr as int] <= 1);
        assert(rows[yd as int][xl as int] <= 1 && rows[yd as int][xc as int] <= 1 && rows[yd as int][xr as int] <= 1);
    }
    let up = &board.cells[yu];
    let mid = &board.cells[yc];
    let down = &board.cells[yd];
    up[xl] + mid[xl] + down[xl] + up[xc] + down[xc] + up[xr] + mid[xr] + down[xr]
}

/// The generation that follows `board`: every cell is decided from the
/// snapshot `board`, which is left as it was, and the result is a new grid of
/// the same dimensions.
pub fn next_state(board: &Grid) -> (next: Grid)
    ensures
        next@ == advance(board@),
        well_formed(next@),
        crate::rules::width(next@) == crate::rules::width(board@),
        crate::rules::height(next@) == crate::rules::height(board@),
{
    proof {
        use_type_invariant(board);
    }
    let ghost rows = board@;
    let w = board.cells[0].len();
    let h = board.cells.len();
    let mut cells: Vec<Vec<u8>> = Vec::new();
    let mut y: usize = 0;
    while y < h
        invariant
            y <= h,
            rows == board@,
            rows == rows_of(board.cells),
            well_formed(rows),
            w == rows[0].len(),
            h == rows.len(),
            cells@.len() == y,
            forall|j: int| 0 <= j < y ==> (#[trigger] cells@[j])@ == advance(rows)[j],
        decreases h - y,
    {
        let mut row: Vec<u8> = Vec::new();
        let mut x: usize = 0;
        while x < w
            invariant
                x <= w,
                y < h,
                rows == board@,
                rows == rows_of(board.cells),
                well_formed(rows),
                w == rows[0].len(),
                h == rows.len(),
                row@.len() == x,
                forall|i: int| 0 <= i < x ==> (#[trigger] row@[i]) == advance(rows)[y as int][i],
            decreases w - x,
        {
            let neighbors = count_neighbors(board, x, y);
            proof {
                lemma_wrap(x as int, w as int);
                lemma_wrap(y as int, h as int);
                assert(rows[y as int].len() == rows[0].len());
            }
            let state = board.cells[y][x];
            assert(state as int == cell_at(rows, x as int, y as int));
            row.push(next_cell_state(state, neighbors));
            x += 1;
        }
        assert(row@ =~= advance(rows)[y as int]);
        cells.push(row);
        y += 1;
    }
    proof {
        assert(rows_of(cells) =~= advance(rows));
        crate::rules::lemma_advance_well_formed(rows);
    }
    Grid { cells }
}

} // verus!
