//! A character-cell rasterizer with a depth buffer.
//!
//! A [`Donut`] owns a grid of glyph cells and, beside it, a grid of inverse
//! depths. Surface samples that were already projected to the screen are
//! plotted into it: of all lit samples that land on a cell the nearest one
//! decides the glyph, and the glyph is taken from a ramp of twelve characters
//! ordered from sparse to dense.
//!
//! The geometry that produces the samples works on real numbers and lives
//! with the caller; everything that decides what a cell shows lives here.

pub mod glyph;
pub mod grid;
pub mod sample;
pub mod donut;

pub use crate::donut::Donut;
pub use crate::glyph::{glyph_for, BLANK, RAMP_LEN};
pub use crate::sample::Sample;
