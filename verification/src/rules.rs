//! The mathematical model: a grid is a sequence of rows of cell states, wrapped
//! into a torus, and a generation follows from the previous one by the
//! birth-on-three, survive-on-two-or-three rule.

use vstd::prelude::*;
use vstd::arithmetic::div_mod::{
    lemma_fundamental_div_mod, lemma_fundamental_div_mod_converse_mod, lemma_small_mod,
};

verus! {

/// State of a live cell.
pub const ALIVE: u8 = 1;

/// State of a dead cell.
pub const DEAD: u8 = 0;

/// Number of rows.
pub open spec fn height(rows: Seq<Seq<u8>>) -> int {
    rows.len() as int
}

/// Number of columns (read off the first row).
pub open spec fn width(rows: Seq<Seq<u8>>) -> int {
    rows[0].len() as int
}

/// A grid is rectangular, has at least one row and one column, and every cell
/// is either `DEAD` or `ALIVE`.
pub open spec fn well_formed(rows: Seq<Seq<u8>>) -> bool {
    &&& rows.len() > 0
    &&& rows[0].len() > 0
    &&& forall|y: int| 0 <= y < rows.len() ==> (#[trigger] rows[y]).len() == rows[0].len()
    &&& forall|x: int, y: int|
        0 <= y < rows.len() && 0 <= x < rows[y].len() ==> (#[trigger] rows[y][x]) <= 1
}

/// The all-dead rows of a `w` x `h` grid.
pub open spec fn blank(w: int, h: int) -> Seq<Seq<u8>> {
    Seq::new(h as nat, |y: int| Seq::new(w as nat, |x: int| DEAD))
}

/// Coordinate `i` folded onto an axis of length `n`.
pub open spec fn wrap(i: int, n: int) -> int {
    (i + n) % n
}

/// State of the cell at `(x, y)`, both coordinates taken around the torus.
pub open spec fn cell_at(rows: Seq<Seq<u8>>, x: int, y: int) -> int {
    rows[wrap(y, height(rows))][wrap(x, width(rows))] as int
}

/// Sum of the states of the eight cells around `(x, y)`.
pub open spec fn neighbor_count(rows: Seq<Seq<u8>>, x: int, y: int) -> int {
    cell_at(rows, x - 1, y - 1) + cell_at(rows, x - 1, y) + cell_at(rows, x - 1, y + 1)
        + cell_at(rows, x, y - 1) + cell_at(rows, x, y + 1)
        + cell_at(rows, x + 1, y - 1) + cell_at(rows, x + 1, y) + cell_at(rows, x + 1, y + 1)
}

/// The transition rule for one cell: a live cell survives on two or three
/// live neighbours, a dead cell is born on exactly three.
pub open spec fn next_cell(state: int, neighbors: int) -> u8 {
    if state == ALIVE as int {
        if neighbors == 2 || neighbors == 3 { ALIVE } else { DEAD }
    } else {
        if neighbors == 3 { ALIVE } else { DEAD }
    }
}

/// The generation that follows `rows`.
pub open spec fn advance(rows: Seq<Seq<u8>>) -> Seq<Seq<u8>> {
    Seq::new(
        rows.len(),
        |y: int| Seq::new(
            rows[0].len(),
            |x: int| next_cell(cell_at(rows, x, y), neighbor_count(rows, x, y)),
        ),
    )
}

/// `wrap` is the remainder by `n`, and moving one step either way from a
/// coordinate already on the axis goes round the ends.
pub proof fn lemma_wrap(i: int, n: int)
    requires
        n > 0,
    ensures
        wrap(i, n) == i % n,
        0 <= wrap(i, n) < n,
        0 <= i < n ==> wrap(i, n) == i,
        wrap(i - 1, n) == if wrap(i, n) == 0 { n - 1 } else { wrap(i, n) - 1 },
        wrap(i + 1, n) == if wrap(i, n) == n - 1 { 0 } else { wrap(i, n) + 1 },
{
    let q = i / n;
    let r = i % n;
    lemma_fundamental_div_mod(i, n);
    assert(q * n == n * q) by (nonlinear_arith);
    assert((q + 1) * n == q * n + n) by (nonlinear_arith);
    assert((q + 2) * n == q * n + n + n) by (nonlinear_arith);
    lemma_fundamental_div_mod_converse_mod(i + n, n, q + 1, r);
    if 0 <= i < n {
        lemma_small_mod(i as nat, n as nat);
    }
    if r == 0 {
        lemma_fundamental_div_mod_converse_mod(i - 1 + n, n, q, n - 1);
    } else {
        lemma_fundamental_div_mod_converse_mod(i - 1 + n, n, q + 1, r - 1);
    }
    if r == n - 1 {
        lemma_fundamental_div_mod_converse_mod(i + 1 + n, n, q + 2, 0);
    } else {
        lemma_fundamental_div_mod_converse_mod(i + 1 + n, n, q + 1, r + 1);
    }
}

/// Every cell of a well-formed grid holds 0 or 1, wherever on the torus it is
/// addressed from, so a neighbour count lies between 0 and 8.
pub proof fn lemma_count_bounds(rows: Seq<Seq<u8>>, x: int, y: int)
    requires
        well_formed(rows),
    ensures
        0 <= cell_at(rows, x, y) <= 1,
        0 <= neighbor_count(rows, x, y) <= 8,
{
    lemma_cell_binary(rows, x, y);
    lemma_cell_binary(rows, x - 1, y - 1);
    lemma_cell_binary(rows, x - 1, y);
    lemma_cell_binary(rows, x - 1, y + 1);
    lemma_cell_binary(rows, x, y - 1);
    lemma_cell_binary(rows, x, y + 1);
    lemma_cell_binary(rows, x + 1, y - 1);
    lemma_cell_binary(rows, x + 1, y);
    lemma_cell_binary(rows, x + 1, y + 1);
}

proof fn lemma_cell_binary(rows: Seq<Seq<u8>>, x: int, y: int)
    requires
        well_formed(rows),
    ensures
        0 <= cell_at(rows, x, y) <= 1,
{
    lemma_wrap(x, width(rows));
    lemma_wrap(y, height(rows));
    let yy = wrap(y, height(rows));
    let xx = wrap(x, width(rows));
    assert(rows[yy].len() == rows[0].len());
    assert(rows[yy][xx] <= 1);
}

/// The next generation of a well-formed grid is well formed and has the same
/// dimensions.
pub proof fn lemma_advance_well_formed(rows: Seq<Seq<u8>>)
    requires
        well_formed(rows),
    ensures
        well_formed(advance(rows)),
        width(advance(rows)) == width(rows),
        height(advance(rows)) == height(rows),
{
    let next = advance(rows);
    assert forall|y: int| 0 <= y < next.len() implies (#[trigger] next[y]).len()
        == next[0].len() by {}
    assert forall|x: int, y: int| 0 <= y < next.len() && 0 <= x < next[y].len() implies (
    #[trigger] next[y][x]) <= 1 by {}
}

/// Birth: a dead cell is alive in the next generation if exactly three of
/// the cells around it are alive, and dead otherwise.
pub proof fn lemma_birth(rows: Seq<Seq<u8>>, x: int, y: int)
    requires
        well_formed(rows),
        0 <= x < width(rows),
        0 <= y < height(rows),
        rows[y][x] == DEAD,
    ensures
        advance(rows)[y][x] == if neighbor_count(rows, x, y) == 3 {
            ALIVE
        } else {
            DEAD
        },
{
    lemma_wrap(x, width(rows));
    lemma_wrap(y, height(rows));
}

/// Survival: a live cell stays alive in the next generation if two or three
/// of the cells around it are alive, and dies otherwise.
pub proof fn lemma_survival(rows: Seq<Seq<u8>>, x: int, y: int)
    requires
        well_formed(rows),
        0 <= x < width(rows),
        0 <= y < height(rows),
        rows[y][x] == ALIVE,
    ensures
        advance(rows)[y][x] == if neighbor_count(rows, x, y) == 2 || neighbor_count(rows, x, y)
            == 3 {
            ALIVE
        } else {
            DEAD
        },
{
    lemma_wrap(x, width(rows));
    lemma_wrap(y, height(rows));
}

/// Executable form of [`next_cell`].
pub fn next_cell_state(state: u8, neighbors: u8) -> (next: u8)
    ensures
        next == next_cell(state as int, neighbors as int),
{
    if state == ALIVE {
        if neighbors == 2 || neighbors == 3 { ALIVE } else { DEAD }
    } else {
        if neighbors == 3 { ALIVE } else { DEAD }
    }
}

} // verus!
