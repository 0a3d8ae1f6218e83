//! What becomes of the life forms: the still life stays, the oscillators
//! return, the glider travels.
//!
//! Each form is followed in the plane first, generation by generation, as a
//! picture given by a formula. A form placed whole on an empty grid is the
//! drawing of its first picture; where the grid leaves a dead cell on every
//! side of all that the form ever covers, the drawing evolves as the picture
//! does.

use vstd::prelude::*;
use crate::pattern::{covers, stamped, template, PatternKind};
use crate::rules::{blank, lemma_wrap, ALIVE, DEAD};
use crate::torus::{
    advance_by, drawn, framed, lemma_drawn_moved, lemma_drawn_step, lemma_lift, lift,
    plane_next, shifted,
};

verus! {

/// A life form placed whole on an empty grid is its picture drawn on the
/// torus.
proof fn lemma_stamped_drawn(
    kind: PatternKind,
    pic: spec_fn(int, int) -> bool,
    w: int,
    h: int,
    ax: int,
    ay: int,
    lx: int,
    ly: int,
)
    requires
        w > 0,
        h > 0,
        framed(pic, w, h, lx, ly),
        forall|i: int, j: int| #[trigger] pic(i, j) == covers(kind, 0, 0, i, j),
        forall|i: int, j: int| #[trigger] pic(i, j) ==> 0 <= ax + i < w && 0 <= ay + j < h,
    ensures
        stamped(blank(w, h), kind, ax, ay) == drawn(pic, w, h, ax, ay, lx, ly),
{
    let placed = stamped(blank(w, h), kind, ax, ay);
    let target = drawn(pic, w, h, ax, ay, lx, ly);
    assert forall|y: int| 0 <= y < h implies (#[trigger] placed[y]) =~= target[y] by {
        assert forall|x: int| 0 <= x < w implies placed[y][x] == target[y][x] by {
            let i = x - ax;
            let j = y - ay;
            lemma_lift(i, lx, w);
            lemma_lift(j, ly, h);
            assert(covers(kind, ax, ay, x, y) == covers(kind, 0, 0, i, j)) by {
                if covers(kind, ax, ay, x, y) {
                    let k = choose|k: int|
                        0 <= k < template(kind).len() && #[trigger] template(kind)[k] == (
                            x - ax,
                            y - ay,
                        );
                    assert(template(kind)[k] == (i - 0, j - 0));
                }
                if covers(kind, 0, 0, i, j) {
                    let k = choose|k: int|
                        0 <= k < template(kind).len() && #[trigger] template(kind)[k] == (
                            i - 0,
                            j - 0,
                        );
                    assert(template(kind)[k] == (x - ax, y - ay));
                }
            }
            assert(pic(i, j) == covers(kind, 0, 0, i, j));
            let li = lift(i, lx, w);
            let lj = lift(j, ly, h);
            if pic(i, j) {
                assert(lx < i < lx + w - 1 && ly < j < ly + h - 1);
            }
            if pic(li, lj) {
                assert(0 <= ax + li < w && 0 <= ay + lj < h);
            }
        }
    }
    assert(placed =~= target);
}

/// The cell of a drawing that shows the cell `(i, j)` of the plane, where
/// that cell lies in the window and its place `(ax + i, ay + j)` on the grid.
proof fn lemma_drawn_at(
    pic: spec_fn(int, int) -> bool,
    w: int,
    h: int,
    ax: int,
    ay: int,
    lx: int,
    ly: int,
    i: int,
    j: int,
)
    requires
        lx <= i < lx + w,
        ly <= j < ly + h,
        0 <= ax + i < w,
        0 <= ay + j < h,
    ensures
        drawn(pic, w, h, ax, ay, lx, ly)[ay + j][ax + i] == if pic(i, j) {
            ALIVE
        } else {
            DEAD
        },
{
    lemma_lift(i, lx, w);
    lemma_lift(j, ly, h);
    assert(ax + i - ax == i && ay + j - ay == j);
}

/// The block as a picture: the square of the cells `(0, 0)` to `(1, 1)`.
pub open spec fn block_0(i: int, j: int) -> bool {
    0 <= j <= 1 && 0 <= i <= 1
}

/// The cells of `block_0` are those of the template.
proof fn lemma_block_template()
    ensures
        forall|i: int, j: int| block_0(i, j) == covers(PatternKind::Block, 0, 0, i, j),
{
    let t = template(PatternKind::Block);
    assert(t[0] == (0int, 0int));
    assert(t[1] == (1int, 0int));
    assert(t[2] == (0int, 1int));
    assert(t[3] == (1int, 1int));
    assert forall|i: int, j: int| block_0(i, j) == covers(PatternKind::Block, 0, 0, i, j) by {
        if block_0(i, j) {
            assert(exists|k: int| 0 <= k < t.len() && #[trigger] t[k] == (i - 0, j - 0));
        }
    }
}

/// In the plane, `block_0` is followed by `block_0`.
proof fn lemma_block_0_next(i: int, j: int)
    ensures
        plane_next(|a: int, b: int| block_0(a, b), i, j) == block_0(i, j),
{
}

/// Still life: a block alone on a grid of at least 4 x 4 cells stays as it
/// is, however many generations pass.
pub proof fn lemma_block_is_still(w: int, h: int, ax: int, ay: int, n: nat)
    requires
        w >= 4,
        h >= 4,
        0 <= ax,
        ax + 1 < w,
        0 <= ay,
        ay + 1 < h,
    ensures
        advance_by(stamped(blank(w, h), PatternKind::Block, ax, ay), n) == stamped(
            blank(w, h),
            PatternKind::Block,
            ax,
            ay,
        ),
    decreases n,
{
    if n > 0 {
        lemma_block_is_still(w, h, ax, ay, (n - 1) as nat);
        let gen0 = |a: int, b: int| block_0(a, b);
        lemma_block_template();
        lemma_stamped_drawn(PatternKind::Block, gen0, w, h, ax, ay, -1, -1);
        assert forall|i: int, j: int| gen0(i, j) == #[trigger] plane_next(gen0, i, j) by {
            lemma_block_0_next(i, j);
        }
        lemma_drawn_step(gen0, gen0, w, h, ax, ay, -1, -1);
    }
}

/// The blinker as placed: three cells in row 0.
pub open spec fn blinker_0(i: int, j: int) -> bool {
    j == 0 && 0 <= i <= 2
}

/// The blinker one generation on: three cells in column 1.
pub open spec fn blinker_1(i: int, j: int) -> bool {
    -1 <= j <= 1 && i == 1
}

/// The cells of `blinker_0` are those of the template.
proof fn lemma_blinker_template()
    ensures
        forall|i: int, j: int| blinker_0(i, j) == covers(PatternKind::Blinker, 0, 0, i, j),
{
    let t = template(PatternKind::Blinker);
    assert(t[0] == (0int, 0int));
    assert(t[1] == (1int, 0int));
    assert(t[2] == (2int, 0int));
    assert forall|i: int, j: int| blinker_0(i, j) == covers(PatternKind::Blinker, 0, 0, i, j) by {
        if blinker_0(i, j) {
            assert(exists|k: int| 0 <= k < t.len() && #[trigger] t[k] == (i - 0, j - 0));
        }
    }
}

/// In the plane, `blinker_0` is followed by `blinker_1`.
proof fn lemma_blinker_0_next(i: int, j: int)
    ensures
        plane_next(|a: int, b: int| blinker_0(a, b), i, j) == blinker_1(i, j),
{
}

/// In the plane, `blinker_1` is followed by `blinker_0`.
proof fn lemma_blinker_1_next(i: int, j: int)
    ensures
        plane_next(|a: int, b: int| blinker_1(a, b), i, j) == blinker_0(i, j),
{
}

/// Oscillator of period 2: a blinker alone on a grid of at least 5 x 5 cells
/// is back as it was placed after two generations, and not after one.
pub proof fn lemma_blinker_period(w: int, h: int, ax: int, ay: int)
    requires
        w >= 5,
        h >= 5,
        0 <= ax,
        ax + 2 < w,
        0 <= ay < h,
    ensures
        ({
            let placed = stamped(blank(w, h), PatternKind::Blinker, ax, ay);
            &&& advance_by(placed, 2) == placed
            &&& advance_by(placed, 1) != placed
        }),
{
    let gen0 = |a: int, b: int| blinker_0(a, b);
    let gen1 = |a: int, b: int| blinker_1(a, b);
    lemma_blinker_template();
    lemma_stamped_drawn(PatternKind::Blinker, gen0, w, h, ax, ay, -1, -2);
    assert forall|i: int, j: int| gen1(i, j) == #[trigger] plane_next(gen0, i, j) by {
        lemma_blinker_0_next(i, j);
    }
    lemma_drawn_step(gen0, gen1, w, h, ax, ay, -1, -2);
    assert forall|i: int, j: int| gen0(i, j) == #[trigger] plane_next(gen1, i, j) by {
        lemma_blinker_1_next(i, j);
    }
    lemma_drawn_step(gen1, gen0, w, h, ax, ay, -1, -2);
    reveal_with_fuel(advance_by, 3);
    lemma_drawn_at(gen0, w, h, ax, ay, -1, -2, 0, 0);
    lemma_drawn_at(gen1, w, h, ax, ay, -1, -2, 0, 0);
}

/// The toad as placed.
pub open spec fn toad_0(i: int, j: int) -> bool {
    ||| j == 0 && 0 <= i <= 2
    ||| j == 1 && 1 <= i <= 3
}

/// The toad one generation on.
pub open spec fn toad_1(i: int, j: int) -> bool {
    ||| j == -1 && i == 1
    ||| 0 <= j <= 1 && (i == 0 || i == 3)
    ||| j == 2 && i == 2
}

/// The cells of `toad_0` are those of the template.
proof fn lemma_toad_template()
    ensures
        forall|i: int, j: int| toad_0(i, j) == covers(PatternKind::Toad, 0, 0, i, j),
{
    let t = template(PatternKind::Toad);
    assert(t[0] == (0int, 0int));
    assert(t[1] == (1int, 0int));
    assert(t[2] == (2int, 0int));
    assert(t[3] == (1int, 1int));
    assert(t[4] == (2int, 1int));
    assert(t[5] == (3int, 1int));
    assert forall|i: int, j: int| toad_0(i, j) == covers(PatternKind::Toad, 0, 0, i, j) by {
        if toad_0(i, j) {
            assert(exists|k: int| 0 <= k < t.len() && #[trigger] t[k] == (i - 0, j - 0));
        }
    }
}

/// In the plane, `toad_0` is followed by `toad_1`.
proof fn lemma_toad_0_next(i: int, j: int)
    ensures
        plane_next(|a: int, b: int| toad_0(a, b), i, j) == toad_1(i, j),
{
}

/// In the plane, `toad_1` is followed by `toad_0`.
proof fn lemma_toad_1_next(i: int, j: int)
    ensures
        plane_next(|a: int, b: int| toad_1(a, b), i, j) == toad_0(i, j),
{
}

/// Oscillator of period 2: a toad alone on a grid of at least 6 x 6 cells is
/// back as it was placed after two generations, and not after one.
pub proof fn lemma_toad_period(w: int, h: int, ax: int, ay: int)
    requires
        w >= 6,
        h >= 6,
        0 <= ax,
        ax + 3 < w,
        0 <= ay,
        ay + 1 < h,
    ensures
        ({
            let placed = stamped(blank(w, h), PatternKind::Toad, ax, ay);
            &&& advance_by(placed, 2) == placed
            &&& advance_by(placed, 1) != placed
        }),
{
    let gen0 = |a: int, b: int| toad_0(a, b);
    let gen1 = |a: int, b: int| toad_1(a, b);
    lemma_toad_template();
    lemma_stamped_drawn(PatternKind::Toad, gen0, w, h, ax, ay, -1, -2);
    assert forall|i: int, j: int| gen1(i, j) == #[trigger] plane_next(gen0, i, j) by {
        lemma_toad_0_next(i, j);
    }
    lemma_drawn_step(gen0, gen1, w, h, ax, ay, -1, -2);
    assert forall|i: int, j: int| gen0(i, j) == #[trigger] plane_next(gen1, i, j) by {
        lemma_toad_1_next(i, j);
    }
    lemma_drawn_step(gen1, gen0, w, h, ax, ay, -1, -2);
    reveal_with_fuel(advance_by, 3);
    lemma_drawn_at(gen0, w, h, ax, ay, -1, -2, 1, 0);
    lemma_drawn_at(gen1, w, h, ax, ay, -1, -2, 1, 0);
}

/// The glider as placed.
pub open spec fn glider_0(i: int, j: int) -> bool {
    ||| j == -1 && i == 2
    ||| j == 0 && (i == 0 || i == 2)
    ||| j == 1 && 1 <= i <= 2
}

/// The glider one generation on.
pub open spec fn glider_1(i: int, j: int) -> bool {
    ||| j == -1 && i == 1
    ||| j == 0 && 2 <= i <= 3
    ||| j == 1 && 1 <= i <= 2
}

/// The glider two generations on.
pub open spec fn glider_2(i: int, j: int) -> bool {
    ||| j == -1 && i == 2
    ||| j == 0 && i == 3
    ||| j == 1 && 1 <= i <= 3
}

/// The glider three generations on.
pub open spec fn glider_3(i: int, j: int) -> bool {
    ||| j == 0 && (i == 1 || i == 3)
    ||| j == 1 && 2 <= i <= 3
    ||| j == 2 && i == 2
}

/// The cells of `glider_0` are those of the template.
proof fn lemma_glider_template()
    ensures
        forall|i: int, j: int| glider_0(i, j) == covers(PatternKind::Glider, 0, 0, i, j),
{
    let t = template(PatternKind::Glider);
    assert(t[0] == (0int, 0int));
    assert(t[1] == (1int, 1int));
    assert(t[2] == (2int, -1int));
    assert(t[3] == (2int, 0int));
    assert(t[4] == (2int, 1int));
    assert forall|i: int, j: int| glider_0(i, j) == covers(PatternKind::Glider, 0, 0, i, j) by {
        if glider_0(i, j) {
            assert(exists|k: int| 0 <= k < t.len() && #[trigger] t[k] == (i - 0, j - 0));
        }
    }
}

/// In the plane, `glider_0` is followed by `glider_1`.
proof fn lemma_glider_0_next(i: int, j: int)
    ensures
        plane_next(|a: int, b: int| glider_0(a, b), i, j) == glider_1(i, j),
{
}

/// In the plane, `glider_1` is followed by `glider_2`.
proof fn lemma_glider_1_next(i: int, j: int)
    ensures
        plane_next(|a: int, b: int| glider_1(a, b), i, j) == glider_2(i, j),
{
}

/// In the plane, `glider_2` is followed by `glider_3`.
proof fn lemma_glider_2_next(i: int, j: int)
    ensures
        plane_next(|a: int, b: int| glider_2(a, b), i, j) == glider_3(i, j),
{
}

/// In the plane, `glider_3` is followed by `glider_0` moved by `(1, 1)`.
proof fn lemma_glider_3_next(i: int, j: int)
    ensures
        plane_next(|a: int, b: int| glider_3(a, b), i, j) == glider_0(i - 1, j - 1),
{
}

/// Spaceship: a glider alone on a grid of at least 6 x 6 cells is, after four
/// generations, the same glider moved by one cell right and one cell down,
/// round the torus where it meets an edge.
pub proof fn lemma_glider_travels(w: int, h: int, ax: int, ay: int)
    requires
        w >= 6,
        h >= 6,
        0 <= ax,
        ax + 2 < w,
        1 <= ay,
        ay + 1 < h,
    ensures
        ({
            let placed = stamped(blank(w, h), PatternKind::Glider, ax, ay);
            &&& advance_by(placed, 4) == shifted(placed, 1, 1)
            &&& ax + 3 < w && ay + 2 < h ==> advance_by(placed, 4) == stamped(
                blank(w, h),
                PatternKind::Glider,
                ax + 1,
                ay + 1,
            )
        }),
{
    let gen0 = |a: int, b: int| glider_0(a, b);
    let gen1 = |a: int, b: int| glider_1(a, b);
    let gen2 = |a: int, b: int| glider_2(a, b);
    let gen3 = |a: int, b: int| glider_3(a, b);
    let gen4 = |a: int, b: int| glider_0(a - 1, b - 1);
    lemma_glider_template();
    lemma_stamped_drawn(PatternKind::Glider, gen0, w, h, ax, ay, -1, -2);
    assert forall|i: int, j: int| gen1(i, j) == #[trigger] plane_next(gen0, i, j) by {
        lemma_glider_0_next(i, j);
    }
    lemma_drawn_step(gen0, gen1, w, h, ax, ay, -1, -2);
    assert forall|i: int, j: int| gen2(i, j) == #[trigger] plane_next(gen1, i, j) by {
        lemma_glider_1_next(i, j);
    }
    lemma_drawn_step(gen1, gen2, w, h, ax, ay, -1, -2);
    assert forall|i: int, j: int| gen3(i, j) == #[trigger] plane_next(gen2, i, j) by {
        lemma_glider_2_next(i, j);
    }
    lemma_drawn_step(gen2, gen3, w, h, ax, ay, -1, -2);
    assert forall|i: int, j: int| gen4(i, j) == #[trigger] plane_next(gen3, i, j) by {
        lemma_glider_3_next(i, j);
    }
    lemma_drawn_step(gen3, gen4, w, h, ax, ay, -1, -2);
    reveal_with_fuel(advance_by, 5);
    lemma_drawn_moved(gen0, gen4, w, h, ax, ay, -1, -2, 1, 1);
    if ax + 3 < w && ay + 2 < h {
        lemma_stamped_drawn(PatternKind::Glider, gen0, w, h, ax + 1, ay + 1, -2, -3);
        let there = drawn(gen0, w, h, ax + 1, ay + 1, -2, -3);
        let here = drawn(gen4, w, h, ax, ay, -1, -2);
        assert forall|y: int| 0 <= y < h implies (#[trigger] there[y]) =~= here[y] by {
            assert forall|x: int| 0 <= x < w implies there[y][x] == here[y][x] by {
                assert(x - (ax + 1) - (-2) == x - ax - (-1));
                assert(y - (ay + 1) - (-3) == y - ay - (-2));
                assert(lift(x - (ax + 1), -2, w) == lift(x - ax, -1, w) - 1);
                assert(lift(y - (ay + 1), -3, h) == lift(y - ay, -2, h) - 1);
            }
        }
        assert(there =~= here);
    }
}

/// The pulsar as placed.
pub open spec fn pulsar_0(i: int, j: int) -> bool {
    ||| (j == 0 || j == 5 || j == 7 || j == 12) && (2 <= i <= 4 || 8 <= i <= 10)
    ||| (2 <= j <= 4 || 8 <= j <= 10) && (i == 0 || i == 5 || i == 7 || i == 12)
}

/// The pulsar one generation on.
pub open spec fn pulsar_1(i: int, j: int) -> bool {
    ||| (-1 <= j <= 0 || 12 <= j <= 13) && (i == 3 || i == 9)
    ||| (j == 1 || j == 5 || j == 7 || j == 11) && (3 <= i <= 4 || 8 <= i <= 9)
    ||| (j == 3 || j == 9) && (-1 <= i <= 1 || 4 <= i <= 5 || 7 <= i <= 8 || 11 <= i <= 13)
    ||| (j == 4 || j == 8) && (i == 1 || i == 3 || i == 5 || i == 7 || i == 9 || i == 11)
}

/// The pulsar two generations on.
pub open spec fn pulsar_2(i: int, j: int) -> bool {
    ||| (j == 0 || j == 12) && (2 <= i <= 3 || 9 <= i <= 10)
    ||| (j == 1 || j == 11) && (3 <= i <= 4 || 8 <= i <= 9)
    ||| (j == 2 || j == 10) && (i == 0 || i == 3 || i == 5 || i == 7 || i == 9 || i == 12)
    ||| (j == 3 || j == 9) && (0 <= i <= 2 || 4 <= i <= 5 || 7 <= i <= 8 || 10 <= i <= 12)
    ||| (j == 4 || j == 8) && (i == 1 || i == 3 || i == 5 || i == 7 || i == 9 || i == 11)
    ||| (j == 5 || j == 7) && (2 <= i <= 4 || 8 <= i <= 10)
}

/// The cells of `pulsar_0` are those of the template.
proof fn lemma_pulsar_template()
    ensures
        forall|i: int, j: int| pulsar_0(i, j) == covers(PatternKind::Pulsar, 0, 0, i, j),
{
    let t = template(PatternKind::Pulsar);
    assert(t[0] == (2int, 0int));
    assert(t[1] == (3int, 0int));
    assert(t[2] == (4int, 0int));
    assert(t[3] == (8int, 0int));
    assert(t[4] == (9int, 0int));
    assert(t[5] == (10int, 0int));
    assert(t[6] == (0int, 2int));
    assert(t[7] == (5int, 2int));
    assert(t[8] == (7int, 2int));
    assert(t[9] == (12int, 2int));
    assert(t[10] == (0int, 3int));
    assert(t[11] == (5int, 3int));
    assert(t[12] == (7int, 3int));
    assert(t[13] == (12int, 3int));
    assert(t[14] == (0int, 4int));
    assert(t[15] == (5int, 4int));
    assert(t[16] == (7int, 4int));
    assert(t[17] == (12int, 4int));
    assert(t[18] == (2int, 5int));
    assert(t[19] == (3int, 5int));
    assert(t[20] == (4int, 5int));
    assert(t[21] == (8int, 5int));
    assert(t[22] == (9int, 5int));
    assert(t[23] == (10int, 5int));
    assert(t[24] == (2int, 7int));
    assert(t[25] == (3int, 7int));
    assert(t[26] == (4int, 7int));
    assert(t[27] == (8int, 7int));
    assert(t[28] == (9int, 7int));
    assert(t[29] == (10int, 7int));
    assert(t[30] == (0int, 8int));
    assert(t[31] == (5int, 8int));
    assert(t[32] == (7int, 8int));
    assert(t[33] == (12int, 8int));
    assert(t[34] == (0int, 9int));
    assert(t[35] == (5int, 9int));
    assert(t[36] == (7int, 9int));
    assert(t[37] == (12int, 9int));
    assert(t[38] == (0int, 10int));
    assert(t[39] == (5int, 10int));
    assert(t[40] == (7int, 10int));
    assert(t[41] == (12int, 10int));
    assert(t[42] == (2int, 12int));
    assert(t[43] == (3int, 12int));
    assert(t[44] == (4int, 12int));
    assert(t[45] == (8int, 12int));
    assert(t[46] == (9int, 12int));
    assert(t[47] == (10int, 12int));
    assert forall|i: int, j: int| pulsar_0(i, j) == covers(PatternKind::Pulsar, 0, 0, i, j) by {
        if pulsar_0(i, j) {
            assert(exists|k: int| 0 <= k < t.len() && #[trigger] t[k] == (i - 0, j - 0));
        }
    }
}

/// In the plane, `pulsar_0` is followed by `pulsar_1`.
proof fn lemma_pulsar_0_next(i: int, j: int)
    ensures
        plane_next(|a: int, b: int| pulsar_0(a, b), i, j) == pulsar_1(i, j),
{
}

/// In the plane, `pulsar_1` is followed by `pulsar_2`.
proof fn lemma_pulsar_1_next(i: int, j: int)
    ensures
        plane_next(|a: int, b: int| pulsar_1(a, b), i, j) == pulsar_2(i, j),
{
}

/// In the plane, `pulsar_2` is followed by `pulsar_0`.
proof fn lemma_pulsar_2_next(i: int, j: int)
    ensures
        plane_next(|a: int, b: int| pulsar_2(a, b), i, j) == pulsar_0(i, j),
{
}

/// Oscillator of period 3: a pulsar alone on a grid of at least 17 x 17 cells
/// is back as it was placed after three generations, and not before.
pub proof fn lemma_pulsar_period(w: int, h: int, ax: int, ay: int)
    requires
        w >= 17,
        h >= 17,
        0 <= ax,
        ax + 12 < w,
        0 <= ay,
        ay + 12 < h,
    ensures
        ({
            let placed = stamped(blank(w, h), PatternKind::Pulsar, ax, ay);
            &&& advance_by(placed, 3) == placed
            &&& advance_by(placed, 1) != placed
            &&& advance_by(placed, 2) != placed
        }),
{
    let gen0 = |a: int, b: int| pulsar_0(a, b);
    let gen1 = |a: int, b: int| pulsar_1(a, b);
    let gen2 = |a: int, b: int| pulsar_2(a, b);
    lemma_pulsar_template();
    lemma_stamped_drawn(PatternKind::Pulsar, gen0, w, h, ax, ay, -2, -2);
    assert forall|i: int, j: int| gen1(i, j) == #[trigger] plane_next(gen0, i, j) by {
        lemma_pulsar_0_next(i, j);
    }
    lemma_drawn_step(gen0, gen1, w, h, ax, ay, -2, -2);
    assert forall|i: int, j: int| gen2(i, j) == #[trigger] plane_next(gen1, i, j) by {
        lemma_pulsar_1_next(i, j);
    }
    lemma_drawn_step(gen1, gen2, w, h, ax, ay, -2, -2);
    assert forall|i: int, j: int| gen0(i, j) == #[trigger] plane_next(gen2, i, j) by {
        lemma_pulsar_2_next(i, j);
    }
    lemma_drawn_step(gen2, gen0, w, h, ax, ay, -2, -2);
    reveal_with_fuel(advance_by, 4);
    lemma_drawn_at(gen0, w, h, ax, ay, -2, -2, 2, 0);
    lemma_drawn_at(gen1, w, h, ax, ay, -2, -2, 2, 0);
    lemma_drawn_at(gen0, w, h, ax, ay, -2, -2, 4, 0);
    lemma_drawn_at(gen2, w, h, ax, ay, -2, -2, 4, 0);
}

/// The seven-cell form as placed.
pub open spec fn seven_0(i: int, j: int) -> bool {
    ||| (j == 0 || j == 2) && (i == 0 || i == 4)
    ||| j == 3 && 1 <= i <= 3
}

/// The seven-cell form one generation on.
pub open spec fn seven_1(i: int, j: int) -> bool {
    ||| 2 <= j <= 3 && 1 <= i <= 3
    ||| j == 4 && i == 2
}

/// The seven-cell form two generations on.
pub open spec fn seven_2(i: int, j: int) -> bool {
    ||| j == 1 && i == 2
    ||| j == 2 && (i == 1 || i == 3)
    ||| j == 4 && 1 <= i <= 3
}

/// The seven-cell form three generations on.
pub open spec fn seven_3(i: int, j: int) -> bool {
    ||| (1 <= j <= 2 || 4 <= j <= 5) && i == 2
    ||| j == 3 && (i == 1 || i == 3)
}

/// The seven-cell form four generations on: a ring of eight cells.
pub open spec fn seven_4(i: int, j: int) -> bool {
    ||| (j == 2 || j == 4) && 1 <= i <= 3
    ||| j == 3 && (i == 1 || i == 3)
}

/// The cells of `seven_0` are those of the template.
proof fn lemma_seven_template()
    ensures
        forall|i: int, j: int| seven_0(i, j) == covers(PatternKind::LightweightSpaceship, 0, 0, i, j),
{
    let t = template(PatternKind::LightweightSpaceship);
    assert(t[0] == (0int, 0int));
    assert(t[1] == (0int, 2int));
    assert(t[2] == (1int, 3int));
    assert(t[3] == (2int, 3int));
    assert(t[4] == (3int, 3int));
    assert(t[5] == (4int, 2int));
    assert(t[6] == (4int, 0int));
    assert forall|i: int, j: int| seven_0(i, j) == covers(PatternKind::LightweightSpaceship, 0, 0, i, j) by {
        if seven_0(i, j) {
            assert(exists|k: int| 0 <= k < t.len() && #[trigger] t[k] == (i - 0, j - 0));
        }
    }
}

/// In the plane, `seven_0` is followed by `seven_1`.
proof fn lemma_seven_0_next(i: int, j: int)
    ensures
        plane_next(|a: int, b: int| seven_0(a, b), i, j) == seven_1(i, j),
{
}

/// In the plane, `seven_1` is followed by `seven_2`.
proof fn lemma_seven_1_next(i: int, j: int)
    ensures
        plane_next(|a: int, b: int| seven_1(a, b), i, j) == seven_2(i, j),
{
}

/// In the plane, `seven_2` is followed by `seven_3`.
proof fn lemma_seven_2_next(i: int, j: int)
    ensures
        plane_next(|a: int, b: int| seven_2(a, b), i, j) == seven_3(i, j),
{
}

/// In the plane, `seven_3` is followed by `seven_4`.
proof fn lemma_seven_3_next(i: int, j: int)
    ensures
        plane_next(|a: int, b: int| seven_3(a, b), i, j) == seven_4(i, j),
{
}

/// The seven-cell form is no spaceship: alone on a grid of at least 7 x 8
/// cells it is, after four generations, not the same form moved by two cells
/// to the right. It has become a ring of eight cells.
pub proof fn lemma_seven_cells_do_not_travel(w: int, h: int, ax: int, ay: int)
    requires
        w >= 7,
        h >= 8,
        0 <= ax,
        ax + 4 < w,
        0 <= ay,
        ay + 3 < h,
    ensures
        ({
            let placed = stamped(blank(w, h), PatternKind::LightweightSpaceship, ax, ay);
            advance_by(placed, 4) != shifted(placed, 2, 0)
        }),
{
    let gen0 = |a: int, b: int| seven_0(a, b);
    let gen1 = |a: int, b: int| seven_1(a, b);
    let gen2 = |a: int, b: int| seven_2(a, b);
    let gen3 = |a: int, b: int| seven_3(a, b);
    let gen4 = |a: int, b: int| seven_4(a, b);
    lemma_seven_template();
    lemma_stamped_drawn(PatternKind::LightweightSpaceship, gen0, w, h, ax, ay, -1, -1);
    assert forall|i: int, j: int| gen1(i, j) == #[trigger] plane_next(gen0, i, j) by {
        lemma_seven_0_next(i, j);
    }
    lemma_drawn_step(gen0, gen1, w, h, ax, ay, -1, -1);
    assert forall|i: int, j: int| gen2(i, j) == #[trigger] plane_next(gen1, i, j) by {
        lemma_seven_1_next(i, j);
    }
    lemma_drawn_step(gen1, gen2, w, h, ax, ay, -1, -1);
    assert forall|i: int, j: int| gen3(i, j) == #[trigger] plane_next(gen2, i, j) by {
        lemma_seven_2_next(i, j);
    }
    lemma_drawn_step(gen2, gen3, w, h, ax, ay, -1, -1);
    assert forall|i: int, j: int| gen4(i, j) == #[trigger] plane_next(gen3, i, j) by {
        lemma_seven_3_next(i, j);
    }
    lemma_drawn_step(gen3, gen4, w, h, ax, ay, -1, -1);
    reveal_with_fuel(advance_by, 5);
    let placed = drawn(gen0, w, h, ax, ay, -1, -1);
    lemma_drawn_at(gen0, w, h, ax, ay, -1, -1, 0, 0);
    lemma_drawn_at(gen4, w, h, ax, ay, -1, -1, 2, 0);
    lemma_wrap(ax + 2 - 2, w);
    lemma_wrap(ay - 0, h);
    assert(shifted(placed, 2, 0)[ay][ax + 2] == placed[ay][ax]);
}

} // verus!
