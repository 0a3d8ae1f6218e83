//! The render adapter: a pixel surface, and the drawing of one generation
//! onto it in two colors.

use vstd::prelude::*;
use vstd::arithmetic::div_mod::{
    lemma_fundamental_div_mod, lemma_fundamental_div_mod_converse_div,
    lemma_fundamental_div_mod_converse_mod, lemma_mod_bound,
};
use crate::grid::Grid;
use crate::rules::{height, width, ALIVE};

verus! {

/// Color of a dead cell.
pub const DEAD_COLOR: u32 = 0x333355;

/// Color of a live cell.
pub const ALIVE_COLOR: u32 = 0xFFDDDD;

/// What a pixel surface holds: its size, its pixels row by row, and the two
/// colors it draws with.
pub struct Surface {
    pub width: nat,
    pub height: nat,
    pub pixels: Seq<u32>,
    pub background: u32,
    pub current: u32,
}

impl Surface {
    /// There is one pixel for each place of the surface.
    pub open spec fn complete(self) -> bool {
        self.pixels.len() == self.width * self.height
    }

    /// Place of the pixel `(x, y)` among the pixels.
    pub open spec fn index_of(self, x: int, y: int) -> int {
        y * self.width + x
    }
}

/// A surface of `width` x `height` pixels, stored row by row.
pub struct FrameBuffer {
    width: usize,
    height: usize,
    buffer: Vec<u32>,
    background_color: u32,
    current_color: u32,
}

impl View for FrameBuffer {
    type V = Surface;

    closed spec fn view(&self) -> Surface {
        Surface {
            width: self.width as nat,
            height: self.height as nat,
            pixels: self.buffer@,
            background: self.background_color,
            current: self.current_color,
        }
    }
}

/// The color that `render` gives the pixel `(x, y)`: that of a live cell where
/// the grid has one, the background everywhere else.
pub open spec fn painted(rows: Seq<Seq<u8>>, x: int, y: int) -> u32 {
    if 0 <= x < width(rows) && 0 <= y < height(rows) && rows[y][x] == ALIVE {
        ALIVE_COLOR
    } else {
        DEAD_COLOR
    }
}

/// The index `y * width + x` of a pixel inside the surface lies among the
/// pixels, and the pixel can be read back from it.
pub proof fn lemma_index_of(width: int, height: int, x: int, y: int)
    requires
        0 <= x < width,
        0 <= y < height,
    ensures
        0 <= y * width + x < width * height,
        (y * width + x) % width == x,
        (y * width + x) / width == y,
{
    assert(y * width + x < width * height) by (nonlinear_arith)
        requires
            0 <= x < width,
            0 <= y < height,
    ;
    assert(0 <= y * width) by (nonlinear_arith)
        requires
            0 <= y,
            0 < width,
    ;
    lemma_fundamental_div_mod_converse_mod(y * width + x, width, y, x);
    lemma_fundamental_div_mod_converse_div(y * width + x, width, y, x);
}

/// Every place `i` among the pixels is that of one pixel `(i % width,
/// i / width)` inside the surface.
pub proof fn lemma_pixel_of(width: int, height: int, i: int)
    requires
        0 <= width,
        0 <= height,
        0 <= i < width * height,
    ensures
        0 <= i % width < width,
        0 <= i / width < height,
        (i / width) * width + i % width == i,
{
    assert(width > 0) by (nonlinear_arith)
        requires
            0 <= width,
            0 <= i < width * height,
    ;
    lemma_fundamental_div_mod(i, width);
    lemma_mod_bound(i, width);
    let q = i / width;
    assert(q * width == width * q) by (nonlinear_arith);
    assert(0 <= q < height) by (nonlinear_arith)
        requires
            width > 0,
            0 <= i < width * height,
            i == q * width + i % width,
            0 <= i % width < width,
    ;
}

impl FrameBuffer {
    #[verifier::type_invariant]
    spec fn inv(&self) -> bool {
        self.buffer@.len() == self.width * self.height
    }

    /// A black surface that draws in white on black.
    pub fn new(width: usize, height: usize) -> (made: FrameBuffer)
        requires
            width * height <= usize::MAX,
        ensures
            made@.width == width,
            made@.height == height,
            made@.pixels == Seq::new((width * height) as nat, |i: int| 0u32),
            made@.background == 0x000000,
            made@.current == 0xFFFFFF,
            made@.complete(),
    {
        let size = width * height;
        let mut buffer: Vec<u32> = Vec::new();
        let mut i: usize = 0;
        while i < size
            invariant
                i <= size,
                buffer@.len() == i,
                forall|j: int| 0 <= j < i ==> (#[trigger] buffer@[j]) == 0,
            decreases size - i,
        {
            buffer.push(0);
            i += 1;
        }
        assert(buffer@ =~= Seq::new((width * height) as nat, |i: int| 0u32));
        FrameBuffer { width, height, buffer, background_color: 0x000000, current_color: 0xFFFFFF }
    }

    /// Number of pixels in a row.
    pub fn width(&self) -> (w: usize)
        ensures
            w == self@.width,
            self@.complete(),
    {
        proof {
            use_type_invariant(self);
        }
        self.width
    }

    /// Number of rows of pixels.
    pub fn height(&self) -> (h: usize)
        ensures
            h == self@.height,
            self@.complete(),
    {
        proof {
            use_type_invariant(self);
        }
        self.height
    }

    /// The pixels, row by row, for the display to read.
    pub fn buffer(&self) -> (pixels: &Vec<u32>)
        ensures
            pixels@ == self@.pixels,
            self@.complete(),
    {
        proof {
            use_type_invariant(self);
        }
        &self.buffer
    }

    /// Sets the color that `clear` fills with.
    pub fn set_background_color(&mut self, color: u32)
        ensures
            final(self)@ == (Surface { background: color, ..old(self)@ }),
    {
        proof {
            use_type_invariant(&*self);
        }
        self.background_color = color;
    }

    /// Sets the color that `point` draws with.
    pub fn set_current_color(&mut self, color: u32)
        ensures
            final(self)@ == (Surface { current: color, ..old(self)@ }),
    {
        proof {
            use_type_invariant(&*self);
        }
        self.current_color = color;
    }

    /// Fills every pixel with the background color.
    pub fn clear(&mut self)
        ensures
            final(self)@ == (Surface {
                pixels: Seq::new(old(self)@.pixels.len(), |i: int| old(self)@.background),
                ..old(self)@
            }),
    {
        proof {
            use_type_invariant(&*self);
        }
        fill(&mut self.buffer, self.background_color);
    }

    /// Draws the pixel `(x, y)` in the current color. A pixel outside the
    /// surface is not drawn.
    pub fn point(&mut self, x: usize, y: usize)
        ensures
            final(self)@ == if x < old(self)@.width && y < old(self)@.height {
                Surface {
                    pixels: old(self)@.pixels.update(
                        old(self)@.index_of(x as int, y as int),
                        old(self)@.current,
                    ),
                    ..old(self)@
                }
            } else {
                old(self)@
            },
    {
        proof {
            use_type_invariant(&*self);
        }
        if x < self.width && y < self.height {
            let size = self.buffer.len();
            proof {
                lemma_index_of(self.width as int, self.height as int, x as int, y as int);
                assert(0 <= y * self.width) by (nonlinear_arith)
                    requires
                        0 <= y,
                        0 <= self.width,
                ;
            }
            let index = y * self.width + x;
            paint(&mut self.buffer, index, self.current_color);
        }
    }
}

/// Overwrites every element with `color`.
fn fill(buffer: &mut Vec<u32>, color: u32)
    ensures
        final(buffer)@ == Seq::new(old(buffer)@.len(), |i: int| color),
    no_unwind
{
    let mut i: usize = 0;
    while i < buffer.len()
        invariant
            i <= buffer@.len(),
            buffer@.len() == old(buffer)@.len(),
            forall|j: int| 0 <= j < i ==> (#[trigger] buffer@[j]) == color,
        decreases buffer@.len() - i,
    {
        buffer[i] = color;
        i += 1;
    }
    assert(buffer@ =~= Seq::new(old(buffer)@.len(), |i: int| color));
}

/// Overwrites the element at `index` with `color`.
fn paint(buffer: &mut Vec<u32>, index: usize, color: u32)
    requires
        index < old(buffer)@.len(),
    ensures
        final(buffer)@ == old(buffer)@.update(index as int, color),
    no_unwind
{
    buffer[index] = color;
}

/// Draws one generation: the surface is cleared to `DEAD_COLOR`, then the
/// pixel of every live cell is drawn in `ALIVE_COLOR`. Pixel `(x, y)` shows
/// cell `(x, y)`; where surface and grid differ in size, cells beyond the
/// surface are not drawn and pixels beyond the grid stay background.
pub fn render(framebuffer: &mut FrameBuffer, board: &Grid)
    ensures
        final(framebuffer)@ == (Surface {
            width: old(framebuffer)@.width,
            height: old(framebuffer)@.height,
            pixels: Seq::new(
                old(framebuffer)@.pixels.len(),
                |i: int|
                    painted(
                        board@,
                        i % (old(framebuffer)@.width as int),
                        i / (old(framebuffer)@.width as int),
                    ),
            ),
            background: DEAD_COLOR,
            current: ALIVE_COLOR,
        }),
{
    framebuffer.set_background_color(DEAD_COLOR);
    framebuffer.clear();
    framebuffer.set_current_color(ALIVE_COLOR);
    let ghost start = framebuffer@;
    let ghost rows = board@;
    let cells = board.rows();
    let fw = framebuffer.width();
    let fh = framebuffer.height();
    let w = board.width();
    let h = board.height();
    let mut y: usize = 0;
    while y < h
        invariant
            y <= h,
            rows == board@,
            crate::rules::well_formed(rows),
            crate::grid::rows_of(*cells) == rows,
            w == width(rows),
            h == height(rows),
            fw == start.width,
            fh == start.height,
            start.pixels.len() == fw * fh,
            start.background == DEAD_COLOR,
            start.current == ALIVE_COLOR,
            framebuffer@.width == start.width,
            framebuffer@.height == start.height,
            framebuffer@.background == start.background,
            framebuffer@.current == start.current,
            framebuffer@.pixels.len() == start.pixels.len(),
            forall|i: int|
                0 <= i < start.pixels.len() ==> (#[trigger] framebuffer@.pixels[i]) == if i / (
                fw as int) < y {
                    painted(rows, i % (fw as int), i / (fw as int))
                } else {
                    DEAD_COLOR
                },
        decreases h - y,
    {
        let mut x: usize = 0;
        while x < w
            invariant
                x <= w,
                y < h,
                rows == board@,
                crate::rules::well_formed(rows),
                crate::grid::rows_of(*cells) == rows,
                w == width(rows),
                h == height(rows),
                fw == start.width,
                fh == start.height,
                start.pixels.len() == fw * fh,
                start.background == DEAD_COLOR,
                start.current == ALIVE_COLOR,
                framebuffer@.width == start.width,
                framebuffer@.height == start.height,
                framebuffer@.background == start.background,
                framebuffer@.current == start.current,
                framebuffer@.pixels.len() == start.pixels.len(),
                forall|i: int|
                    0 <= i < start.pixels.len() ==> (#[trigger] framebuffer@.pixels[i]) == if i / (
                    fw as int) < y || (i / (fw as int) == y && i % (fw as int) < x) {
                        painted(rows, i % (fw as int), i / (fw as int))
                    } else {
                        DEAD_COLOR
                    },
            decreases w - x,
        {
            assert(rows[y as int].len() == rows[0].len());
            assert(cells@[y as int]@ == rows[y as int]);
            let ghost prev = framebuffer@;
            if cells[y][x] == ALIVE {
                framebuffer.point(x, y);
            }
            proof {
                if x < fw && y < fh {
                    lemma_index_of(fw as int, fh as int, x as int, y as int);
                }
                assert forall|i: int| 0 <= i < start.pixels.len() implies (
                #[trigger] framebuffer@.pixels[i]) == if i / (fw as int) < y || (i / (fw as int)
                    == y && i % (fw as int) < x + 1) {
                    painted(rows, i % (fw as int), i / (fw as int))
                } else {
                    DEAD_COLOR
                } by {
                    lemma_pixel_of(fw as int, fh as int, i);
                    assert(prev.pixels[i] == if i / (fw as int) < y || (i / (fw as int) == y && i
                        % (fw as int) < x) {
                        painted(rows, i % (fw as int), i / (fw as int))
                    } else {
                        DEAD_COLOR
                    });
                }
            }
            x += 1;
        }
        proof {
            assert forall|i: int| 0 <= i < start.pixels.len() implies (
            #[trigger] framebuffer@.pixels[i]) == if i / (fw as int) < y + 1 {
                painted(rows, i % (fw as int), i / (fw as int))
            } else {
                DEAD_COLOR
            } by {
                lemma_pixel_of(fw as int, fh as int, i);
            }
        }
        y += 1;
    }
    proof {
        let goal = Seq::new(
            start.pixels.len(),
            |i: int| painted(rows, i % (fw as int), i / (fw as int)),
        );
        assert forall|i: int| 0 <= i < start.pixels.len() implies framebuffer@.pixels[i]
            == goal[i] by {
            let _ = framebuffer@.pixels[i];
        }
        assert(framebuffer@.pixels =~= goal);
    }
}

} // verus!
