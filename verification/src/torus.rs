//! Pictures in the unbounded plane and their image on a torus: the means by
//! which the fate of a life form is followed on a grid of any size.
//!
//! A picture says which cells of the plane are alive. Drawn on a torus whose
//! axes are long enough to leave a dead margin around it, it evolves exactly
//! as it does in the plane.

use vstd::prelude::*;
use vstd::arithmetic::div_mod::{lemma_fundamental_div_mod, lemma_mod_multiples_vanish};
use crate::rules::{
    advance, cell_at, height, lemma_wrap, neighbor_count, next_cell, well_formed, width, wrap,
    ALIVE, DEAD,
};

verus! {

/// 1 for a live cell, 0 for a dead one.
pub open spec fn lit(alive: bool) -> int {
    if alive {
        1
    } else {
        0
    }
}

/// Number of live cells among the eight around `(i, j)` in the plane.
pub open spec fn plane_count(pic: spec_fn(int, int) -> bool, i: int, j: int) -> int {
    lit(pic(i - 1, j - 1)) + lit(pic(i - 1, j)) + lit(pic(i - 1, j + 1)) + lit(pic(i, j - 1))
        + lit(pic(i, j + 1)) + lit(pic(i + 1, j - 1)) + lit(pic(i + 1, j)) + lit(
        pic(i + 1, j + 1),
    )
}

/// Whether `(i, j)` is alive in the generation that follows `pic` in the plane.
pub open spec fn plane_next(pic: spec_fn(int, int) -> bool, i: int, j: int) -> bool {
    next_cell(lit(pic(i, j)), plane_count(pic, i, j)) == ALIVE
}

/// The number in the window `lo .. lo + n` that differs from `z` by a
/// multiple of `n`.
pub open spec fn lift(z: int, lo: int, n: int) -> int {
    lo + (z - lo) % n
}

/// The picture drawn on a `w` x `h` torus with its origin at `(ax, ay)`. The
/// cell `(x, y)` shows the cell of the plane that lies in the window starting
/// at `(lx, ly)` and is congruent to `(x - ax, y - ay)`.
pub open spec fn drawn(
    pic: spec_fn(int, int) -> bool,
    w: int,
    h: int,
    ax: int,
    ay: int,
    lx: int,
    ly: int,
) -> Seq<Seq<u8>> {
    Seq::new(
        h as nat,
        |y: int|
            Seq::new(
                w as nat,
                |x: int|
                    if pic(lift(x - ax, lx, w), lift(y - ay, ly, h)) {
                        ALIVE
                    } else {
                        DEAD
                    },
            ),
    )
}

/// The live cells of the picture all lie inside the window of size `w` x `h`
/// that starts at `(lx, ly)`, and not on its border.
pub open spec fn framed(pic: spec_fn(int, int) -> bool, w: int, h: int, lx: int, ly: int) -> bool {
    forall|i: int, j: int| #[trigger] pic(i, j) ==> lx < i < lx + w - 1 && ly < j < ly + h - 1
}

/// The rows after `n` generations.
pub open spec fn advance_by(rows: Seq<Seq<u8>>, n: nat) -> Seq<Seq<u8>>
    decreases n,
{
    if n == 0 {
        rows
    } else {
        advance(advance_by(rows, (n - 1) as nat))
    }
}

/// The rows moved by `(dx, dy)` round the torus: what was at `(x, y)` is at
/// `(x + dx, y + dy)`.
pub open spec fn shifted(rows: Seq<Seq<u8>>, dx: int, dy: int) -> Seq<Seq<u8>> {
    Seq::new(
        rows.len(),
        |y: int|
            Seq::new(
                rows[0].len(),
                |x: int| rows[wrap(y - dy, height(rows))][wrap(x - dx, width(rows))],
            ),
    )
}

/// `lift` lands in its window, leaves alone what is already there, and moves
/// anything else by at least the length of the axis.
pub proof fn lemma_lift(z: int, lo: int, n: int)
    requires
        n > 0,
    ensures
        lo <= lift(z, lo, n) < lo + n,
        lo <= z < lo + n ==> lift(z, lo, n) == z,
        lift(z, lo, n) == z || lift(z, lo, n) <= z - n || lift(z, lo, n) >= z + n,
{
    lemma_wrap(z - lo, n);
    let q = (z - lo) / n;
    lemma_fundamental_div_mod(z - lo, n);
    assert(q >= 1 ==> n * q >= n) by (nonlinear_arith)
        requires
            n > 0,
    ;
    assert(q <= -1 ==> n * q <= -n) by (nonlinear_arith)
        requires
            n > 0,
    ;
    assert(q == 0 ==> n * q == 0) by (nonlinear_arith);
}

/// Adding the same number to two numbers that are congruent to each other
/// gives congruent numbers: here for a number and its remainder.
proof fn lemma_mod_shift(a: int, c: int, n: int)
    requires
        n > 0,
    ensures
        (a % n + c) % n == (a + c) % n,
{
    let q = a / n;
    lemma_fundamental_div_mod(a, n);
    lemma_mod_multiples_vanish(q, a % n + c, n);
    assert(n * q + (a % n + c) == a + c);
}

/// Folding a coordinate before or after moving it comes to the same.
proof fn lemma_wrap_shift(a: int, c: int, n: int)
    requires
        n > 0,
    ensures
        wrap(wrap(a, n) + c, n) == wrap(a + c, n),
{
    lemma_wrap(a, n);
    lemma_wrap(a % n + c, n);
    lemma_wrap(a + c, n);
    lemma_mod_shift(a, c, n);
}

/// The torus has no edge: a cell of the moved rows is the cell of the rows
/// that lies as far back, and it has as many live cells around it.
pub proof fn lemma_shifted_cell(rows: Seq<Seq<u8>>, dx: int, dy: int, x: int, y: int)
    requires
        well_formed(rows),
    ensures
        cell_at(shifted(rows, dx, dy), x, y) == cell_at(rows, x - dx, y - dy),
        neighbor_count(shifted(rows, dx, dy), x, y) == neighbor_count(rows, x - dx, y - dy),
{
    lemma_shifted_at(rows, dx, dy, x, y);
    lemma_shifted_at(rows, dx, dy, x - 1, y - 1);
    lemma_shifted_at(rows, dx, dy, x - 1, y);
    lemma_shifted_at(rows, dx, dy, x - 1, y + 1);
    lemma_shifted_at(rows, dx, dy, x, y - 1);
    lemma_shifted_at(rows, dx, dy, x, y + 1);
    lemma_shifted_at(rows, dx, dy, x + 1, y - 1);
    lemma_shifted_at(rows, dx, dy, x + 1, y);
    lemma_shifted_at(rows, dx, dy, x + 1, y + 1);
}

proof fn lemma_shifted_at(rows: Seq<Seq<u8>>, dx: int, dy: int, x: int, y: int)
    requires
        well_formed(rows),
    ensures
        cell_at(shifted(rows, dx, dy), x, y) == cell_at(rows, x - dx, y - dy),
{
    let w = width(rows);
    let h = height(rows);
    lemma_wrap(x, w);
    lemma_wrap(y, h);
    lemma_wrap_shift(x, -dx, w);
    lemma_wrap_shift(y, -dy, h);
    lemma_wrap(x - dx, w);
    lemma_wrap(y - dy, h);
    assert(rows[wrap(y - dy, h)].len() == rows[0].len());
}

/// Moving the rows round the torus and then taking the next generation is
/// taking the next generation and then moving it: no place on the torus is
/// special.
pub proof fn lemma_advance_shifted(rows: Seq<Seq<u8>>, dx: int, dy: int)
    requires
        well_formed(rows),
    ensures
        advance(shifted(rows, dx, dy)) == shifted(advance(rows), dx, dy),
{
    let w = width(rows);
    let h = height(rows);
    let one = advance(shifted(rows, dx, dy));
    let other = shifted(advance(rows), dx, dy);
    assert forall|y: int| 0 <= y < h implies (#[trigger] one[y]) =~= other[y] by {
        assert forall|x: int| 0 <= x < w implies one[y][x] == other[y][x] by {
            lemma_shifted_cell(rows, dx, dy, x, y);
            lemma_wrap(x - dx, w);
            lemma_wrap(y - dy, h);
            lemma_periodic(rows, x - dx, y - dy);
        }
    }
    assert(one =~= other);
}

/// A cell and the count around it are the same wherever on the torus the
/// coordinate is taken from.
proof fn lemma_periodic(rows: Seq<Seq<u8>>, x: int, y: int)
    requires
        well_formed(rows),
    ensures
        cell_at(rows, wrap(x, width(rows)), wrap(y, height(rows))) == cell_at(rows, x, y),
        neighbor_count(rows, wrap(x, width(rows)), wrap(y, height(rows))) == neighbor_count(
            rows,
            x,
            y,
        ),
{
    let w = width(rows);
    let h = height(rows);
    lemma_wrap_shift(x, 0, w);
    lemma_wrap_shift(x, -1, w);
    lemma_wrap_shift(x, 1, w);
    lemma_wrap_shift(y, 0, h);
    lemma_wrap_shift(y, -1, h);
    lemma_wrap_shift(y, 1, h);
}

/// One step along an axis of the torus is one step in the window, except
/// across the ends of the window, which are joined.
pub proof fn lemma_lift_step(x: int, d: int, ax: int, lo: int, n: int)
    requires
        n > 0,
        -1 <= d <= 1,
    ensures
        lift(wrap(x + d, n) - ax, lo, n) == {
            let t = lift(x - ax, lo, n) + d;
            if t < lo {
                lo + n - 1
            } else if t >= lo + n {
                lo
            } else {
                t
            }
        },
{
    let z = x - ax - lo;
    lemma_wrap(x + d, n);
    lemma_mod_shift(x + d, -ax - lo, n);
    assert((wrap(x + d, n) - ax - lo) % n == (z + d) % n);
    lemma_wrap(z, n);
    lemma_wrap(z + d, n);
}

/// A cell of the drawn picture and the eight around it, read round the torus,
/// are the cell of the plane and the eight around that.
proof fn lemma_drawn_cell(
    pic: spec_fn(int, int) -> bool,
    w: int,
    h: int,
    ax: int,
    ay: int,
    lx: int,
    ly: int,
    x: int,
    y: int,
    dx: int,
    dy: int,
)
    requires
        w > 0,
        h > 0,
        framed(pic, w, h, lx, ly),
        -1 <= dx <= 1,
        -1 <= dy <= 1,
    ensures
        cell_at(drawn(pic, w, h, ax, ay, lx, ly), x + dx, y + dy) == lit(
            pic(lift(x - ax, lx, w) + dx, lift(y - ay, ly, h) + dy),
        ),
{
    let g = drawn(pic, w, h, ax, ay, lx, ly);
    let xx = wrap(x + dx, w);
    let yy = wrap(y + dy, h);
    lemma_wrap(x + dx, w);
    lemma_wrap(y + dy, h);
    lemma_lift_step(x, dx, ax, lx, w);
    lemma_lift_step(y, dy, ay, ly, h);
    lemma_lift(x - ax, lx, w);
    lemma_lift(y - ay, ly, h);
    let i = lift(x - ax, lx, w) + dx;
    let j = lift(y - ay, ly, h) + dy;
    let ii = lift(xx - ax, lx, w);
    let jj = lift(yy - ay, ly, h);
    assert(g[yy][xx] == if pic(ii, jj) { ALIVE } else { DEAD });
    assert(pic(i, j) == pic(ii, jj)) by {
        if pic(i, j) {
            assert(lx < i < lx + w - 1 && ly < j < ly + h - 1);
        }
        if pic(ii, jj) {
            assert(lx < ii < lx + w - 1 && ly < jj < ly + h - 1);
        }
    }
}

/// A picture with a dead margin around it evolves on the torus as it does in
/// the plane: if `next` is the generation that follows `pic` in the plane,
/// the drawing of `next` is the generation that follows the drawing of `pic`.
pub proof fn lemma_drawn_step(
    pic: spec_fn(int, int) -> bool,
    next: spec_fn(int, int) -> bool,
    w: int,
    h: int,
    ax: int,
    ay: int,
    lx: int,
    ly: int,
)
    requires
        w > 0,
        h > 0,
        framed(pic, w, h, lx, ly),
        forall|i: int, j: int| next(i, j) == #[trigger] plane_next(pic, i, j),
    ensures
        advance(drawn(pic, w, h, ax, ay, lx, ly)) == drawn(next, w, h, ax, ay, lx, ly),
{
    let g = drawn(pic, w, h, ax, ay, lx, ly);
    let target = drawn(next, w, h, ax, ay, lx, ly);
    assert forall|y: int| 0 <= y < h implies (#[trigger] advance(g)[y]) =~= target[y] by {
        assert forall|x: int| 0 <= x < w implies advance(g)[y][x] == target[y][x] by {
            lemma_drawn_cell(pic, w, h, ax, ay, lx, ly, x, y, 0, 0);
            lemma_drawn_cell(pic, w, h, ax, ay, lx, ly, x, y, -1, -1);
            lemma_drawn_cell(pic, w, h, ax, ay, lx, ly, x, y, -1, 0);
            lemma_drawn_cell(pic, w, h, ax, ay, lx, ly, x, y, -1, 1);
            lemma_drawn_cell(pic, w, h, ax, ay, lx, ly, x, y, 0, -1);
            lemma_drawn_cell(pic, w, h, ax, ay, lx, ly, x, y, 0, 1);
            lemma_drawn_cell(pic, w, h, ax, ay, lx, ly, x, y, 1, -1);
            lemma_drawn_cell(pic, w, h, ax, ay, lx, ly, x, y, 1, 0);
            lemma_drawn_cell(pic, w, h, ax, ay, lx, ly, x, y, 1, 1);
            let i = lift(x - ax, lx, w);
            let j = lift(y - ay, ly, h);
            assert(neighbor_count(g, x, y) == plane_count(pic, i, j));
            assert(next(i, j) == plane_next(pic, i, j));
        }
    }
    assert(advance(g) =~= target);
}

/// Moving a picture by one cell in the plane moves its drawing by one cell
/// round the torus.
pub proof fn lemma_drawn_moved(
    pic: spec_fn(int, int) -> bool,
    moved: spec_fn(int, int) -> bool,
    w: int,
    h: int,
    ax: int,
    ay: int,
    lx: int,
    ly: int,
    dx: int,
    dy: int,
)
    requires
        w > 0,
        h > 0,
        framed(pic, w, h, lx, ly),
        -1 <= dx <= 1,
        -1 <= dy <= 1,
        forall|i: int, j: int| #[trigger] moved(i, j) == pic(i - dx, j - dy),
    ensures
        drawn(moved, w, h, ax, ay, lx, ly) == shifted(drawn(pic, w, h, ax, ay, lx, ly), dx, dy),
{
    let g = drawn(pic, w, h, ax, ay, lx, ly);
    let target = shifted(g, dx, dy);
    let m = drawn(moved, w, h, ax, ay, lx, ly);
    assert forall|y: int| 0 <= y < h implies (#[trigger] m[y]) =~= target[y] by {
        assert forall|x: int| 0 <= x < w implies m[y][x] == target[y][x] by {
            lemma_drawn_cell(pic, w, h, ax, ay, lx, ly, x, y, -dx, -dy);
            lemma_wrap(x - dx, w);
            lemma_wrap(y - dy, h);
            let i = lift(x - ax, lx, w);
            let j = lift(y - ay, ly, h);
            assert(moved(i, j) == pic(i - dx, j - dy));
            assert(cell_at(g, x + (-dx), y + (-dy)) == g[wrap(y - dy, h)][wrap(x - dx, w)]);
        }
    }
    assert(m =~= target);
}

/// A drawn picture is a well-formed grid of the size of the torus.
pub proof fn lemma_drawn_well_formed(
    pic: spec_fn(int, int) -> bool,
    w: int,
    h: int,
    ax: int,
    ay: int,
    lx: int,
    ly: int,
)
    requires
        w > 0,
        h > 0,
    ensures
        well_formed(drawn(pic, w, h, ax, ay, lx, ly)),
        width(drawn(pic, w, h, ax, ay, lx, ly)) == w,
        height(drawn(pic, w, h, ax, ay, lx, ly)) == h,
{
    let g = drawn(pic, w, h, ax, ay, lx, ly);
    assert forall|y: int| 0 <= y < g.len() implies (#[trigger] g[y]).len() == g[0].len() by {}
    assert forall|x: int, y: int| 0 <= y < g.len() && 0 <= x < g[y].len() implies (
    #[trigger] g[y][x]) <= 1 by {}
}

} // verus!
