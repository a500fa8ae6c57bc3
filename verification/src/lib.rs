//! Conway's Game of Life on a toroidal grid, with the pixel-layout
//! arithmetic and shader-outcome rules used by a canvas/WebGL front end.
//!
//! The grid logic comes in three flavours of `Universe`: one that keeps an
//! incrementally maintained set of alive coordinates, one whose `tick`
//! reports the coordinates that flipped, and a diagnostic one that supports
//! resizing and bulk reads and writes of the cell buffer.

pub mod cell;
pub mod changes;
pub mod coords;
pub mod diagnostic;
pub mod gfx;
pub mod grid;
pub mod laws;
pub mod layout;
pub mod universe;
