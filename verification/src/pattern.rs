//! The pattern seeder: six well-known life forms, each a fixed list of cell
//! offsets from an anchor, and their placement on a grid.

use vstd::prelude::*;
use crate::grid::Grid;
use crate::rules::{height, well_formed, width, ALIVE, DEAD};

verus! {

/// The life forms that can be placed.
#[derive(Debug, Clone, Copy, PartialEq, Eq, Structural)]
pub enum PatternKind {
    /// Still life: a 2 x 2 square.
    Block,
    /// Oscillator of period 2: three cells in a row.
    Blinker,
    /// Oscillator of period 2: two rows of three, shifted by one.
    Toad,
    /// Spaceship of five cells that travels diagonally.
    Glider,
    /// Seven cells on a 5 x 4 footprint.
    LightweightSpaceship,
    /// Oscillator of period 3 with 48 cells on a 13 x 13 footprint.
    Pulsar,
}

/// The cells of a life form as `(dx, dy)` offsets from its anchor.
pub open spec fn template(kind: PatternKind) -> Seq<(int, int)> {
    match kind {
        PatternKind::Block => seq![
            (0int, 0int), (1int, 0int), (0int, 1int), (1int, 1int),
        ],
        PatternKind::Blinker => seq![
            (0int, 0int), (1int, 0int), (2int, 0int),
        ],
        PatternKind::Toad => seq![
            (0int, 0int), (1int, 0int), (2int, 0int), (1int, 1int), (2int, 1int), (3int, 1int),
        ],
        PatternKind::Glider => seq![
            (0int, 0int), (1int, 1int), (2int, -1int), (2int, 0int), (2int, 1int),
        ],
        PatternKind::LightweightSpaceship => seq![
            (0int, 0int), (0int, 2int), (1int, 3int), (2int, 3int), (3int, 3int), (4int, 2int),
            (4int, 0int),
        ],
        PatternKind::Pulsar => seq![
            (2int, 0int), (3int, 0int), (4int, 0int), (8int, 0int), (9int, 0int), (10int, 0int),
            (0int, 2int), (5int, 2int), (7int, 2int), (12int, 2int), (0int, 3int), (5int, 3int),
            (7int, 3int), (12int, 3int), (0int, 4int), (5int, 4int), (7int, 4int), (12int, 4int),
            (2int, 5int), (3int, 5int), (4int, 5int), (8int, 5int), (9int, 5int), (10int, 5int),
            (2int, 7int), (3int, 7int), (4int, 7int), (8int, 7int), (9int, 7int), (10int, 7int),
            (0int, 8int), (5int, 8int), (7int, 8int), (12int, 8int), (0int, 9int), (5int, 9int),
            (7int, 9int), (12int, 9int), (0int, 10int), (5int, 10int), (7int, 10int), (12int, 10int),
            (2int, 12int), (3int, 12int), (4int, 12int), (8int, 12int), (9int, 12int), (10int, 12int),
        ],
    }
}

/// Executable form of [`template`].
pub fn offsets(kind: PatternKind) -> (list: Vec<(i64, i64)>)
    ensures
        list@.len() == template(kind).len(),
        forall|k: int|
            0 <= k < list@.len() ==> (list@[k].0 as int, list@[k].1 as int) == #[trigger] template(
                kind,
            )[k],
{
    match kind {
        PatternKind::Block => vec![
            (0i64, 0i64), (1i64, 0i64), (0i64, 1i64), (1i64, 1i64),
        ],
        PatternKind::Blinker => vec![
            (0i64, 0i64), (1i64, 0i64), (2i64, 0i64),
        ],
        PatternKind::Toad => vec![
            (0i64, 0i64), (1i64, 0i64), (2i64, 0i64), (1i64, 1i64), (2i64, 1i64), (3i64, 1i64),
        ],
        PatternKind::Glider => vec![
            (0i64, 0i64), (1i64, 1i64), (2i64, -1i64), (2i64, 0i64), (2i64, 1i64),
        ],
        PatternKind::LightweightSpaceship => vec![
            (0i64, 0i64), (0i64, 2i64), (1i64, 3i64), (2i64, 3i64), (3i64, 3i64), (4i64, 2i64),
            (4i64, 0i64),
        ],
        PatternKind::Pulsar => vec![
            (2i64, 0i64), (3i64, 0i64), (4i64, 0i64), (8i64, 0i64), (9i64, 0i64), (10i64, 0i64),
            (0i64, 2i64), (5i64, 2i64), (7i64, 2i64), (12i64, 2i64), (0i64, 3i64), (5i64, 3i64),
            (7i64, 3i64), (12i64, 3i64), (0i64, 4i64), (5i64, 4i64), (7i64, 4i64), (12i64, 4i64),
            (2i64, 5i64), (3i64, 5i64), (4i64, 5i64), (8i64, 5i64), (9i64, 5i64), (10i64, 5i64),
            (2i64, 7i64), (3i64, 7i64), (4i64, 7i64), (8i64, 7i64), (9i64, 7i64), (10i64, 7i64),
            (0i64, 8i64), (5i64, 8i64), (7i64, 8i64), (12i64, 8i64), (0i64, 9i64), (5i64, 9i64),
            (7i64, 9i64), (12i64, 9i64), (0i64, 10i64), (5i64, 10i64), (7i64, 10i64), (12i64, 10i64),
            (2i64, 12i64), (3i64, 12i64), (4i64, 12i64), (8i64, 12i64), (9i64, 12i64), (10i64, 12i64),
        ],
    }
}

/// Whether the life form anchored at `(ax, ay)` has a cell at `(x, y)`.
pub open spec fn covers(kind: PatternKind, ax: int, ay: int, x: int, y: int) -> bool {
    exists|k: int| 0 <= k < template(kind).len() && #[trigger] template(kind)[k] == (x - ax, y - ay)
}

/// The rows after the life form was placed with its anchor at `(ax, ay)`:
/// every cell of the grid that the form covers is alive, every other cell is
/// as it was. Cells of the form that fall outside the grid leave no trace;
/// nothing is carried round the torus.
pub open spec fn stamped(rows: Seq<Seq<u8>>, kind: PatternKind, ax: int, ay: int) -> Seq<Seq<u8>> {
    Seq::new(
        rows.len(),
        |y: int|
            Seq::new(
                rows[y].len(),
                |x: int|
                    if covers(kind, ax, ay, x, y) {
                        ALIVE
                    } else {
                        rows[y][x]
                    },
            ),
    )
}

/// As `covers`, for the first `n` cells of the template only.
spec fn covers_within(kind: PatternKind, ax: int, ay: int, x: int, y: int, n: int) -> bool {
    exists|k: int| 0 <= k < n && #[trigger] template(kind)[k] == (x - ax, y - ay)
}

/// As `stamped`, for the first `n` cells of the template only.
spec fn stamped_within(rows: Seq<Seq<u8>>, kind: PatternKind, ax: int, ay: int, n: int) -> Seq<
    Seq<u8>,
> {
    Seq::new(
        rows.len(),
        |y: int|
            Seq::new(
                rows[y].len(),
                |x: int|
                    if covers_within(kind, ax, ay, x, y, n) {
                        ALIVE
                    } else {
                        rows[y][x]
                    },
            ),
    )
}

/// Placing keeps a grid well formed and its dimensions as they were: a cell
/// that is covered twice, or was alive before, is simply alive.
pub proof fn lemma_stamped_well_formed(rows: Seq<Seq<u8>>, kind: PatternKind, ax: int, ay: int)
    requires
        well_formed(rows),
    ensures
        well_formed(stamped(rows, kind, ax, ay)),
        width(stamped(rows, kind, ax, ay)) == width(rows),
        height(stamped(rows, kind, ax, ay)) == height(rows),
{
    let after = stamped(rows, kind, ax, ay);
    assert forall|y: int| 0 <= y < after.len() implies (#[trigger] after[y]).len()
        == after[0].len() by {
        assert(rows[y].len() == rows[0].len());
    }
    assert forall|x: int, y: int| 0 <= y < after.len() && 0 <= x < after[y].len() implies (
    #[trigger] after[y][x]) <= 1 by {
        assert(rows[y][x] <= 1);
    }
}

/// Placing is a union: a cell is alive afterwards if it was alive before or
/// the form covers it, and dead otherwise.
pub proof fn lemma_stamped_union(
    rows: Seq<Seq<u8>>,
    kind: PatternKind,
    ax: int,
    ay: int,
    x: int,
    y: int,
)
    requires
        well_formed(rows),
        0 <= x < width(rows),
        0 <= y < height(rows),
    ensures
        stamped(rows, kind, ax, ay)[y][x] == if rows[y][x] == ALIVE || covers(kind, ax, ay, x, y) {
            ALIVE
        } else {
            DEAD
        },
{
    assert(rows[y].len() == rows[0].len());
    assert(rows[y][x] <= 1);
}

/// Placing the same form at the same anchor a second time changes nothing.
pub proof fn lemma_stamped_twice(rows: Seq<Seq<u8>>, kind: PatternKind, ax: int, ay: int)
    ensures
        stamped(stamped(rows, kind, ax, ay), kind, ax, ay) == stamped(rows, kind, ax, ay),
{
    let once = stamped(rows, kind, ax, ay);
    let twice = stamped(once, kind, ax, ay);
    assert forall|y: int| 0 <= y < rows.len() implies (#[trigger] twice[y]) =~= once[y] by {}
    assert(twice =~= once);
}

/// Two placements can be made in either order.
pub proof fn lemma_stamped_commutes(
    rows: Seq<Seq<u8>>,
    first: PatternKind,
    ax: int,
    ay: int,
    second: PatternKind,
    bx: int,
    by: int,
)
    ensures
        stamped(stamped(rows, first, ax, ay), second, bx, by) == stamped(
            stamped(rows, second, bx, by),
            first,
            ax,
            ay,
        ),
{
    let one = stamped(stamped(rows, first, ax, ay), second, bx, by);
    let other = stamped(stamped(rows, second, bx, by), first, ax, ay);
    assert forall|y: int| 0 <= y < rows.len() implies (#[trigger] one[y]) =~= other[y] by {}
    assert(one =~= other);
}

/// Places the cells of `kind` on `grid`, the anchor at `(ax, ay)`.
fn stamp(grid: &mut Grid, kind: PatternKind, ax: i128, ay: i128)
    requires
        -0x1_0000_0000_0000_0000 <= ax <= 0x1_0000_0000_0000_0000,
        -0x1_0000_0000_0000_0000 <= ay <= 0x1_0000_0000_0000_0000,
    ensures
        final(grid)@ == stamped(old(grid)@, kind, ax as int, ay as int),
        well_formed(final(grid)@),
        width(final(grid)@) == width(old(grid)@),
        height(final(grid)@) == height(old(grid)@),
{
    let ghost before = grid@;
    let list = offsets(kind);
    let w = grid.width();
    let h = grid.height();
    let mut k: usize = 0;
    assert(grid@ =~~= stamped_within(before, kind, ax as int, ay as int, 0));
    while k < list.len()
        invariant
            k <= list@.len(),
            list@.len() == template(kind).len(),
            forall|j: int|
                0 <= j < list@.len() ==> (list@[j].0 as int, list@[j].1 as int)
                    == #[trigger] template(kind)[j],
            well_formed(before),
            w == before[0].len(),
            h == before.len(),
            -0x1_0000_0000_0000_0000 <= ax <= 0x1_0000_0000_0000_0000,
            -0x1_0000_0000_0000_0000 <= ay <= 0x1_0000_0000_0000_0000,
            grid@ == stamped_within(before, kind, ax as int, ay as int, k as int),
        decreases list@.len() - k,
    {
        let ghost prev = grid@;
        let (dx, dy) = list[k];
        let cx: i128 = ax + dx as i128;
        let cy: i128 = ay + dy as i128;
        if 0 <= cx && cx < w as i128 && 0 <= cy && cy < h as i128 {
            assert(before[cy as int].len() == before[0].len());
            grid.set_alive(cx as usize, cy as usize);
        }
        proof {
            let next = stamped_within(before, kind, ax as int, ay as int, k + 1);
            assert(template(kind)[k as int] == (cx - ax, cy - ay));
            assert forall|x: int, y: int|
                0 <= y < before.len() && 0 <= x < before[y].len() implies covers_within(
                kind,
                ax as int,
                ay as int,
                x,
                y,
                k + 1,
            ) == (covers_within(kind, ax as int, ay as int, x, y, k as int) || (x == cx && y
                == cy)) by {
                if covers_within(kind, ax as int, ay as int, x, y, k + 1) {
                    let j = choose|j: int|
                        0 <= j < k + 1 && #[trigger] template(kind)[j] == (x - ax, y - ay);
                    if j < k {
                        assert(covers_within(kind, ax as int, ay as int, x, y, k as int));
                    }
                }
                if covers_within(kind, ax as int, ay as int, x, y, k as int) {
                    let j = choose|j: int|
                        0 <= j < k && #[trigger] template(kind)[j] == (x - ax, y - ay);
                    assert(0 <= j < k + 1);
                }
            }
            assert forall|y: int| 0 <= y < before.len() implies (#[trigger] grid@[y]) =~= next[y] by {
                assert(before[y].len() == before[0].len());
                assert(prev[y].len() == before[y].len());
            }
            assert(grid@ =~= next);
        }
        k += 1;
    }
    proof {
        assert forall|x: int, y: int| covers_within(
            kind,
            ax as int,
            ay as int,
            x,
            y,
            template(kind).len() as int,
        ) == covers(kind, ax as int, ay as int, x, y) by {}
        assert(grid@ =~~= stamped(before, kind, ax as int, ay as int));
        lemma_stamped_well_formed(before, kind, ax as int, ay as int);
    }
}

/// Places a life form on `grid` with its anchor at `(anchor_x, anchor_y)`.
/// The anchor may lie anywhere, also outside the grid: each cell of the form
/// that falls inside the grid becomes alive, the others are dropped.
pub fn place(kind: PatternKind, grid: &mut Grid, anchor_x: i64, anchor_y: i64)
    ensures
        final(grid)@ == stamped(old(grid)@, kind, anchor_x as int, anchor_y as int),
        well_formed(final(grid)@),
        width(final(grid)@) == width(old(grid)@),
        height(final(grid)@) == height(old(grid)@),
{
    stamp(grid, kind, anchor_x as i128, anchor_y as i128);
}

/// Places a block with its top-left cell at `(x, y)`.
pub fn add_block(board: &mut Grid, x: usize, y: usize)
    ensures
        final(board)@ == stamped(old(board)@, PatternKind::Block, x as int, y as int),
        well_formed(final(board)@),
        width(final(board)@) == width(old(board)@),
        height(final(board)@) == height(old(board)@),
{
    stamp(board, PatternKind::Block, x as i128, y as i128);
}

/// Places a horizontal blinker with its left cell at `(x, y)`.
pub fn add_blinker(board: &mut Grid, x: usize, y: usize)
    ensures
        final(board)@ == stamped(old(board)@, PatternKind::Blinker, x as int, y as int),
        well_formed(final(board)@),
        width(final(board)@) == width(old(board)@),
        height(final(board)@) == height(old(board)@),
{
    stamp(board, PatternKind::Blinker, x as i128, y as i128);
}

/// Places a toad with the left cell of its upper row at `(x, y)`.
pub fn add_toad(board: &mut Grid, x: usize, y: usize)
    ensures
        final(board)@ == stamped(old(board)@, PatternKind::Toad, x as int, y as int),
        well_formed(final(board)@),
        width(final(board)@) == width(old(board)@),
        height(final(board)@) == height(old(board)@),
{
    stamp(board, PatternKind::Toad, x as i128, y as i128);
}

/// Places a glider with its leftmost cell at `(x, y)`. One cell of the glider
/// lies in the row above the anchor; with `y == 0` that cell is dropped.
pub fn add_glider(board: &mut Grid, x: usize, y: usize)
    ensures
        final(board)@ == stamped(old(board)@, PatternKind::Glider, x as int, y as int),
        well_formed(final(board)@),
        width(final(board)@) == width(old(board)@),
        height(final(board)@) == height(old(board)@),
{
    stamp(board, PatternKind::Glider, x as i128, y as i128);
}

/// Places the seven-cell spaceship form with the top-left corner of its
/// footprint at `(x, y)`.
pub fn add_lightweight_spaceship(board: &mut Grid, x: usize, y: usize)
    ensures
        final(board)@ == stamped(
            old(board)@,
            PatternKind::LightweightSpaceship,
            x as int,
            y as int,
        ),
        well_formed(final(board)@),
        width(final(board)@) == width(old(board)@),
        height(final(board)@) == height(old(board)@),
{
    stamp(board, PatternKind::LightweightSpaceship, x as i128, y as i128);
}

/// Places a pulsar with the top-left corner of its 13 x 13 footprint at
/// `(x, y)`.
pub fn add_pulsar(board: &mut Grid, x: usize, y: usize)
    ensures
        final(board)@ == stamped(old(board)@, PatternKind::Pulsar, x as int, y as int),
        well_formed(final(board)@),
        width(final(board)@) == width(old(board)@),
        height(final(board)@) == height(old(board)@),
{
    stamp(board, PatternKind::Pulsar, x as i128, y as i128);
}

} // verus!
