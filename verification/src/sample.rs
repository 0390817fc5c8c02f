//! A surface sample after projection to the screen.

use vstd::prelude::*;

verus! {

/// One point of the surface, as the rasterizer sees it.
///
/// `dx` and `dy` are the whole-cell offsets of its projection from the
/// frame's centre cell, to the right and downwards (the projection may well
/// lie off the grid). `inv_depth` orders samples by nearness: a larger value
/// is nearer to the viewer, and zero stands for "infinitely far", which is
/// never drawn. `lit` says whether the surface faces the light there, and
/// `level` is its luminance in eighths.
#[derive(Clone, Copy, Debug)]
pub struct Sample {
    pub dx: i64,
    pub dy: i64,
    pub inv_depth: u64,
    pub lit: bool,
    pub level: i64,
}

impl Sample {
    /// The row that the sample projects to in a frame of `height` rows.
    pub open spec fn row(self, height: nat) -> int {
        height as int / 2 + self.dy
    }

    /// The column that the sample projects to in a frame of `width` columns.
    pub open spec fn col(self, width: nat) -> int {
        width as int / 2 + self.dx
    }
}

} // verus!
