//! Random seeding: life forms of random kind at random anchors inside the
//! grid, all drawn from a random source that the caller hands in.

use vstd::prelude::*;
use rand::rngs::StdRng;
use rand::Rng;
use crate::grid::{Grid, GridError};
use crate::pattern::{
    add_blinker, add_block, add_glider, add_lightweight_spaceship, add_pulsar, add_toad,
    lemma_stamped_union, lemma_stamped_well_formed, stamped, PatternKind,
};
use crate::rules::{blank, height, well_formed, width, ALIVE};

verus! {

/// The random source: the standard generator of the `rand` crate. Nothing is
/// known of its state.
#[verifier::external_type_specification]
#[verifier::external_body]
pub struct ExStdRng(StdRng);

/// Number of life forms to choose from.
pub const KIND_COUNT: usize = 6;

/// The life form that a drawn number stands for.
pub open spec fn kind_at(choice: int) -> Option<PatternKind> {
    if choice == 0 {
        Some(PatternKind::Block)
    } else if choice == 1 {
        Some(PatternKind::Blinker)
    } else if choice == 2 {
        Some(PatternKind::Toad)
    } else if choice == 3 {
        Some(PatternKind::Glider)
    } else if choice == 4 {
        Some(PatternKind::LightweightSpaceship)
    } else if choice == 5 {
        Some(PatternKind::Pulsar)
    } else {
        None
    }
}

/// The rows after one draw `(x, y, choice)` was carried out: the chosen form
/// placed at `(x, y)`; a number that stands for no form leaves them as they
/// were.
pub open spec fn seeded_once(rows: Seq<Seq<u8>>, draw: (int, int, int)) -> Seq<Seq<u8>> {
    match kind_at(draw.2) {
        Some(kind) => stamped(rows, kind, draw.0, draw.1),
        None => rows,
    }
}

/// The rows after all of `draws` were carried out, first to last.
pub open spec fn seeded(rows: Seq<Seq<u8>>, draws: Seq<(int, int, int)>) -> Seq<Seq<u8>>
    decreases draws.len(),
{
    if draws.len() == 0 {
        rows
    } else {
        seeded_once(seeded(rows, draws.drop_last()), draws.last())
    }
}

/// A draw that seeding can make on a grid of the given size: an anchor inside
/// the grid and one of the six forms.
pub open spec fn possible_draw(draw: (int, int, int), width: int, height: int) -> bool {
    &&& 0 <= draw.0 < width
    &&& 0 <= draw.1 < height
    &&& 0 <= draw.2 < KIND_COUNT
}

/// Seeding keeps a grid well formed and its dimensions as they were.
pub proof fn lemma_seeded_well_formed(rows: Seq<Seq<u8>>, draws: Seq<(int, int, int)>)
    requires
        well_formed(rows),
    ensures
        well_formed(seeded(rows, draws)),
        width(seeded(rows, draws)) == width(rows),
        height(seeded(rows, draws)) == height(rows),
    decreases draws.len(),
{
    if draws.len() > 0 {
        let so_far = seeded(rows, draws.drop_last());
        lemma_seeded_well_formed(rows, draws.drop_last());
        match kind_at(draws.last().2) {
            Some(kind) => {
                lemma_stamped_well_formed(so_far, kind, draws.last().0, draws.last().1);
            },
            None => {},
        }
    }
}

/// Seeding never kills: a cell that was alive before is alive afterwards.
pub proof fn lemma_seeded_keeps_alive(
    rows: Seq<Seq<u8>>,
    draws: Seq<(int, int, int)>,
    x: int,
    y: int,
)
    requires
        well_formed(rows),
        0 <= x < width(rows),
        0 <= y < height(rows),
        rows[y][x] == ALIVE,
    ensures
        seeded(rows, draws)[y][x] == ALIVE,
    decreases draws.len(),
{
    if draws.len() > 0 {
        let so_far = seeded(rows, draws.drop_last());
        lemma_seeded_keeps_alive(rows, draws.drop_last(), x, y);
        lemma_seeded_well_formed(rows, draws.drop_last());
        match kind_at(draws.last().2) {
            Some(kind) => {
                lemma_stamped_union(so_far, kind, draws.last().0, draws.last().1, x, y);
            },
            None => {},
        }
    }
}

/// Executable form of [`kind_at`].
pub fn kind_of(choice: usize) -> (kind: Option<PatternKind>)
    ensures
        kind == kind_at(choice as int),
{
    if choice == 0 {
        Some(PatternKind::Block)
    } else if choice == 1 {
        Some(PatternKind::Blinker)
    } else if choice == 2 {
        Some(PatternKind::Toad)
    } else if choice == 3 {
        Some(PatternKind::Glider)
    } else if choice == 4 {
        Some(PatternKind::LightweightSpaceship)
    } else if choice == 5 {
        Some(PatternKind::Pulsar)
    } else {
        None
    }
}

/// Carries out one draw: places the form that `choice` stands for with its
/// anchor at `(x, y)`.
pub fn seed_one(grid: &mut Grid, x: usize, y: usize, choice: usize)
    ensures
        final(grid)@ == seeded_once(old(grid)@, (x as int, y as int, choice as int)),
        well_formed(final(grid)@),
        width(final(grid)@) == width(old(grid)@),
        height(final(grid)@) == height(old(grid)@),
{
    match kind_of(choice) {
        Some(PatternKind::Block) => add_block(grid, x, y),
        Some(PatternKind::Blinker) => add_blinker(grid, x, y),
        Some(PatternKind::Toad) => add_toad(grid, x, y),
        Some(PatternKind::Glider) => add_glider(grid, x, y),
        Some(PatternKind::LightweightSpaceship) => add_lightweight_spaceship(grid, x, y),
        Some(PatternKind::Pulsar) => add_pulsar(grid, x, y),
        None => {
            // Reading a dimension brings the grid's well-formedness into scope.
            let _ = grid.width();
        },
    }
}

/// `Rng::gen_range` of the `rand` crate on the range `0..bound`: some number
/// below `bound`. Which one is not known. The call panics on an empty range,
/// hence the demand on `bound`.
#[verifier::external_body]
fn draw_below(rng: &mut StdRng, bound: usize) -> (drawn: usize)
    requires
        bound > 0,
    ensures
        drawn < bound,
{
    rng.gen_range(0..bound)
}

/// Places `count` life forms, each of a kind drawn from the six and at an
/// anchor drawn from the cells of the grid. What is drawn depends on `rng`
/// alone; the grid ends as some `count` possible draws leave it.
pub fn seed_random(grid: &mut Grid, count: usize, rng: &mut StdRng)
    ensures
        well_formed(final(grid)@),
        width(final(grid)@) == width(old(grid)@),
        height(final(grid)@) == height(old(grid)@),
        exists|draws: Seq<(int, int, int)>|
            {
                &&& draws.len() == count
                &&& forall|k: int|
                    0 <= k < draws.len() ==> possible_draw(
                        #[trigger] draws[k],
                        width(old(grid)@),
                        height(old(grid)@),
                    )
                &&& final(grid)@ == #[trigger] seeded(old(grid)@, draws)
            },
{
    let ghost before = grid@;
    let ghost mut made: Seq<(int, int, int)> = Seq::empty();
    let w = grid.width();
    let h = grid.height();
    let mut n: usize = 0;
    while n < count
        invariant
            n <= count,
            w > 0,
            h > 0,
            w == width(before),
            h == height(before),
            well_formed(grid@),
            width(grid@) == w,
            height(grid@) == h,
            made.len() == n,
            forall|k: int| 0 <= k < made.len() ==> possible_draw(#[trigger] made[k], w as int, h as int),
            grid@ == seeded(before, made),
        decreases count - n,
    {
        let x = draw_below(rng, w);
        let y = draw_below(rng, h);
        let choice = draw_below(rng, KIND_COUNT);
        seed_one(grid, x, y, choice);
        proof {
            let draw = (x as int, y as int, choice as int);
            let longer = made.push(draw);
            assert(longer.drop_last() =~= made);
            assert(longer.last() == draw);
            made = longer;
        }
        n += 1;
    }
    assert(grid@ == seeded(before, made));
}

/// The first generation: a new grid of the given size with `count` life forms
/// drawn onto it. A zero width or height is rejected.
pub fn initial_generation(width: usize, height: usize, count: usize, rng: &mut StdRng) -> (made:
    Result<Grid, GridError>)
    ensures
        made is Err <==> (width == 0 || height == 0),
        made matches Err(e) ==> e == GridError::ZeroDimension,
        made matches Ok(g) ==> {
            &&& well_formed(g@)
            &&& crate::rules::width(g@) == width
            &&& crate::rules::height(g@) == height
            &&& exists|draws: Seq<(int, int, int)>|
                {
                    &&& draws.len() == count
                    &&& forall|k: int|
                        0 <= k < draws.len() ==> possible_draw(
                            #[trigger] draws[k],
                            width as int,
                            height as int,
                        )
                    &&& g@ == #[trigger] seeded(blank(width as int, height as int), draws)
                }
        },
{
    match Grid::new(width, height) {
        Ok(grid) => {
            let mut grid = grid;
            seed_random(&mut grid, count, rng);
            Ok(grid)
        },
        Err(e) => Err(e),
    }
}

} // verus!
