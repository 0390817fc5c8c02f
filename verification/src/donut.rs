//! The rasterizer: a frame of glyphs with its depth buffer.

use vstd::prelude::*;
use crate::glyph::{glyph_for, BLANK};
use crate::grid::{cell_index, lemma_cell_index_in_range, lemma_plot_wf, lemma_row_in_range, Grid};
use crate::sample::Sample;

verus! {

/// A frame of `height` rows by `width` columns, each cell a glyph with the
/// inverse depth of what was drawn there. Both are stored row-major.
pub struct Donut {
    height: usize,
    width: usize,
    frame: Vec<char>,
    z_buf: Vec<u64>,
}

impl View for Donut {
    type V = Grid;

    closed spec fn view(&self) -> Grid {
        Grid {
            height: self.height as nat,
            width: self.width as nat,
            glyphs: self.frame@,
            depths: self.z_buf@,
        }
    }
}

impl Donut {
    /// The frame's invariant: one glyph and one depth per cell, and every
    /// glyph the blank or one of the ramp.
    pub open spec fn wf(&self) -> bool {
        self@.wf()
    }

    /// A cleared frame of the given size.
    pub fn new(height: usize, width: usize) -> (donut: Donut)
        requires
            height * width <= usize::MAX,
        ensures
            donut.wf(),
            donut@ == Grid::blank(height as nat, width as nat),
    {
        let cells: usize = height * width;
        let mut frame: Vec<char> = Vec::new();
        let mut z_buf: Vec<u64> = Vec::new();
        let mut i: usize = 0;
        while i < cells
            invariant
                i <= cells,
                frame@.len() == i,
                z_buf@.len() == i,
                forall|k: int| 0 <= k < i ==> frame@[k] == BLANK,
                forall|k: int| 0 <= k < i ==> z_buf@[k] == 0,
            decreases cells - i,
        {
            frame.push(BLANK);
            z_buf.push(0);
            i += 1;
        }
        let donut = Donut { height, width, frame, z_buf };
        proof {
            let blank = Grid::blank(height as nat, width as nat);
            assert(donut@.glyphs =~= blank.glyphs);
            assert(donut@.depths =~= blank.depths);
        }
        donut
    }

    /// Where the cell in row `row`, column `col` is stored.
    fn offset(&self, row: usize, col: usize) -> (cell: usize)
        requires
            self.wf(),
            row < self.height,
            col < self.width,
        ensures
            cell == cell_index(self@.width, row as int, col as int),
            cell < self.frame@.len(),
            cell < self.z_buf@.len(),
    {
        proof {
            lemma_cell_index_in_range(self@.height, self@.width, row as int, col as int);
            lemma_row_in_range(self@.height, self@.width, row as int);
            assert(self.frame@.len() == self.frame.len());
        }
        row * self.width + col
    }

    /// Number of rows.
    pub fn height(&self) -> (height: usize)
        ensures
            height == self@.height,
    {
        self.height
    }

    /// Number of columns.
    pub fn width(&self) -> (width: usize)
        ensures
            width == self@.width,
    {
        self.width
    }

    /// The glyph in row `row`, column `col`.
    pub fn glyph_at(&self, row: usize, col: usize) -> (glyph: char)
        requires
            self.wf(),
            row < self@.height,
            col < self@.width,
        ensures
            glyph == self@.glyphs[cell_index(self@.width, row as int, col as int)],
    {
        self.frame[self.offset(row, col)]
    }

    /// The inverse depth stored in row `row`, column `col`; zero where
    /// nothing was drawn.
    pub fn depth_at(&self, row: usize, col: usize) -> (inv_depth: u64)
        requires
            self.wf(),
            row < self@.height,
            col < self@.width,
        ensures
            inv_depth == self@.depths[cell_index(self@.width, row as int, col as int)],
    {
        self.z_buf[self.offset(row, col)]
    }

    /// The glyphs of row `row`, left to right: one line of the picture.
    pub fn row(&self, row: usize) -> (line: Vec<char>)
        requires
            self.wf(),
            row < self@.height,
        ensures
            line@ == self@.row(row as int),
            line@.len() == self@.width,
    {
        let mut line: Vec<char> = Vec::new();
        let mut col: usize = 0;
        proof {
            lemma_row_in_range(self@.height, self@.width, row as int);
        }
        while col < self.width
            invariant
                self.wf(),
                0 <= row * self.width,
                row * self.width + self.width <= self@.glyphs.len(),
                row < self.height,
                col <= self.width,
                line@.len() == col,
                forall|k: int|
                    0 <= k < col ==> #[trigger] line@[k] == self@.glyphs[row * self.width + k],
            decreases self.width - col,
        {
            line.push(self.frame[self.offset(row, col)]);
            col += 1;
        }
        proof {
            assert(line@ =~= self@.row(row as int));
        }
        line
    }

    /// Clears the frame: every cell blank, every depth zero.
    pub fn clear(&mut self)
        requires
            old(self).wf(),
        ensures
            final(self).wf(),
            final(self)@ == Grid::blank(old(self)@.height, old(self)@.width),
    {
        let cells: usize = self.frame.len();
        let mut i: usize = 0;
        while i < cells
            invariant
                i <= cells,
                self.height == old(self).height,
                self.width == old(self).width,
                cells == self.height * self.width,
                self.frame@.len() == cells,
                self.z_buf@.len() == cells,
                forall|k: int| 0 <= k < i ==> self.frame@[k] == BLANK,
                forall|k: int| 0 <= k < i ==> self.z_buf@[k] == 0,
            decreases cells - i,
        {
            self.frame.set(i, BLANK);
            self.z_buf.set(i, 0);
            i += 1;
        }
        proof {
            let blank = Grid::blank(old(self)@.height, old(self)@.width);
            assert(self@.glyphs =~= blank.glyphs);
            assert(self@.depths =~= blank.depths);
        }
    }

    /// Plots one sample and says whether it was drawn.
    ///
    /// The sample is drawn where it falls on the grid, is lit, and is
    /// strictly nearer than what its cell holds; the cell then takes the
    /// sample's glyph and inverse depth. Any other sample is dropped and the
    /// frame stays as it was.
    pub fn plot(&mut self, s: Sample) -> (drawn: bool)
        requires
            old(self).wf(),
        ensures
            final(self).wf(),
            final(self)@ == old(self)@.plot(s),
            final(self)@.height == old(self)@.height,
            final(self)@.width == old(self)@.width,
            drawn == old(self)@.admits(s),
    {
        proof {
            lemma_plot_wf(self@, s);
        }
        if !s.lit {
            return false;
        }
        let y: i128 = (self.height / 2) as i128 + s.dy as i128;
        let x: i128 = (self.width / 2) as i128 + s.dx as i128;
        if y < 0 || y >= self.height as i128 || x < 0 || x >= self.width as i128 {
            return false;
        }
        let row: usize = y as usize;
        let col: usize = x as usize;
        let cell: usize = self.offset(row, col);
        if s.inv_depth > self.z_buf[cell] {
            self.z_buf.set(cell, s.inv_depth);
            self.frame.set(cell, glyph_for(s.level));
            true
        } else {
            false
        }
    }

    /// Renders one frame from a run of samples.
    ///
    /// The frame is cleared first, so nothing of what it held before
    /// survives; then the samples are plotted in order.
    pub fn render(&mut self, samples: &Vec<Sample>)
        requires
            old(self).wf(),
        ensures
            final(self).wf(),
            final(self)@ == old(self)@.render(samples@),
            final(self)@.height == old(self)@.height,
            final(self)@.width == old(self)@.width,
    {
        self.clear();
        let ghost blank = self@;
        let mut i: usize = 0;
        while i < samples.len()
            invariant
                i <= samples.len(),
                self.wf(),
                self@.height == old(self)@.height,
                self@.width == old(self)@.width,
                blank == Grid::blank(old(self)@.height, old(self)@.width),
                self@ == blank.plot_all(samples@.take(i as int)),
            decreases samples.len() - i,
        {
            let s: Sample = samples[i];
            self.plot(s);
            proof {
                let next = samples@.take(i + 1);
                assert(next.drop_last() =~= samples@.take(i as int));
                assert(next.last() == s);
            }
            i += 1;
        }
        proof {
            assert(samples@.take(i as int) =~= samples@);
        }
    }
}

} // verus!
