//! Conway's Game of Life on a fixed-size toroidal grid.
//!
//! - `rules`: the mathematical model of a grid and of the step from one
//!   generation to the next.
//! - `grid`: the grid engine, which counts neighbours with wrap-around and
//!   derives each generation from a complete snapshot of the previous one.
//! - `pattern`: the pattern seeder, which stamps six well-known life forms
//!   onto a grid and drops the cells that fall outside.
//! - `seed`: random seeding from a random source that the caller hands in.
//! - `framebuffer`: a pixel surface and the drawing of a generation onto it.
//! - `torus`, `life_forms`: what is proved of the life forms: the block stays,
//!   blinker, toad and pulsar return, the glider travels.

pub mod rules;
pub mod grid;
pub mod pattern;
pub mod seed;
pub mod framebuffer;
pub mod torus;
pub mod life_forms;
