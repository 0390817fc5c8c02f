//! The mathematical model of a frame and of plotting samples into it.
//!
//! A [`Grid`] is a frame seen as two sequences in row-major order, one of
//! glyphs and one of inverse depths. Plotting is defined one sample at a
//! time; the lemmas below say what a whole frame looks like cell by cell.

use vstd::prelude::*;
use crate::glyph::{glyph_of, is_cell_glyph, lemma_glyph_of_in_ramp, BLANK};
use crate::sample::Sample;

verus! {

/// A frame: `height` rows of `width` cells, row-major, origin top-left.
pub struct Grid {
    pub height: nat,
    pub width: nat,
    pub glyphs: Seq<char>,
    pub depths: Seq<u64>,
}

/// Whether a sample falls on the grid of the given size.
pub open spec fn on_grid(height: nat, width: nat, s: Sample) -> bool {
    0 <= s.row(height) < height && 0 <= s.col(width) < width
}

/// The row-major index of the cell in row `row` and column `col`.
pub open spec fn cell_index(width: nat, row: int, col: int) -> int {
    row * width + col
}

/// Whether a sample is a candidate for cell `cell`: it is lit, falls on the
/// grid, and does so on that cell.
pub open spec fn lands(height: nat, width: nat, s: Sample, cell: int) -> bool {
    on_grid(height, width, s) && s.lit && cell_index(width, s.row(height), s.col(width)) == cell
}

impl Grid {
    /// Both sequences have one entry per cell, and every glyph is the blank
    /// or a glyph of the ramp.
    pub open spec fn wf(self) -> bool {
        &&& self.glyphs.len() == self.height * self.width
        &&& self.depths.len() == self.height * self.width
        &&& forall|k: int| 0 <= k < self.glyphs.len() ==> is_cell_glyph(#[trigger] self.glyphs[k])
    }

    /// The cleared frame: every cell blank and infinitely far.
    pub open spec fn blank(height: nat, width: nat) -> Grid {
        Grid {
            height,
            width,
            glyphs: Seq::new(height * width, |k: int| BLANK),
            depths: Seq::new(height * width, |k: int| 0u64),
        }
    }

    /// The glyphs of one row, left to right.
    pub open spec fn row(self, row: int) -> Seq<char> {
        self.glyphs.subrange(row * self.width, row * self.width + self.width)
    }

    /// The index of the cell that a sample projects to.
    pub open spec fn cell_of(self, s: Sample) -> int {
        cell_index(self.width, s.row(self.height), s.col(self.width))
    }

    /// The visibility test: the sample falls on the grid, is lit, and is
    /// strictly nearer than what its cell holds.
    pub open spec fn admits(self, s: Sample) -> bool {
        &&& on_grid(self.height, self.width, s)
        &&& s.lit
        &&& s.inv_depth > self.depths[self.cell_of(s)]
    }

    /// The frame after one sample: an admitted sample overwrites its cell's
    /// glyph and depth, any other leaves the frame as it was.
    pub open spec fn plot(self, s: Sample) -> Grid {
        if self.admits(s) {
            Grid {
                height: self.height,
                width: self.width,
                glyphs: self.glyphs.update(self.cell_of(s), glyph_of(s.level as int)),
                depths: self.depths.update(self.cell_of(s), s.inv_depth),
            }
        } else {
            self
        }
    }

    /// The frame after a run of samples, plotted in order.
    pub open spec fn plot_all(self, samples: Seq<Sample>) -> Grid
        decreases samples.len(),
    {
        if samples.len() == 0 {
            self
        } else {
            self.plot_all(samples.drop_last()).plot(samples.last())
        }
    }
}

/// What rendering a run of samples produces: they are plotted, in order,
/// into a cleared frame.
pub open spec fn rendered(height: nat, width: nat, samples: Seq<Sample>) -> Grid {
    Grid::blank(height, width).plot_all(samples)
}

impl Grid {
    /// The frame after rendering into this one: what it held before is
    /// cleared away, only its size stays.
    pub open spec fn render(self, samples: Seq<Sample>) -> Grid {
        rendered(self.height, self.width, samples)
    }
}

/// Sample `i` decides cell `cell`: it lands there, every landing sample
/// before it is strictly farther, and none after it is nearer.
pub open spec fn decides(height: nat, width: nat, samples: Seq<Sample>, cell: int, i: int) -> bool {
    &&& 0 <= i < samples.len()
    &&& lands(height, width, samples[i], cell)
    &&& samples[i].inv_depth > 0
    &&& forall|j: int|
        0 <= j < i && lands(height, width, #[trigger] samples[j], cell) ==> samples[j].inv_depth
            < samples[i].inv_depth
    &&& forall|j: int|
        i < j < samples.len() && lands(height, width, #[trigger] samples[j], cell)
            ==> samples[j].inv_depth <= samples[i].inv_depth
}

/// No sample can be drawn on cell `cell`: whatever lands there is
/// infinitely far.
pub open spec fn undecided(height: nat, width: nat, samples: Seq<Sample>, cell: int) -> bool {
    forall|j: int|
        0 <= j < samples.len() && lands(height, width, #[trigger] samples[j], cell)
            ==> samples[j].inv_depth == 0
}

/// A row of the grid occupies `width` consecutive places of the frame.
pub proof fn lemma_row_in_range(height: nat, width: nat, row: int)
    requires
        0 <= row < height,
    ensures
        0 <= row * width,
        row * width + width <= height * width,
{
    assert(row * width >= 0) by (nonlinear_arith)
        requires
            row >= 0,
            width >= 0,
    ;
    assert((row + 1) * width <= height * width) by (nonlinear_arith)
        requires
            row + 1 <= height,
            width >= 0,
    ;
    assert((row + 1) * width == row * width + width) by (nonlinear_arith);
}

/// A row and a column within the grid give an index within the frame.
pub proof fn lemma_cell_index_in_range(height: nat, width: nat, row: int, col: int)
    requires
        0 <= row < height,
        0 <= col < width,
    ensures
        0 <= cell_index(width, row, col) < height * width,
{
    lemma_row_in_range(height, width, row);
}

/// Distinct cells of the grid have distinct indices.
pub proof fn lemma_cell_index_injective(width: nat, row1: int, col1: int, row2: int, col2: int)
    requires
        0 <= col1 < width,
        0 <= col2 < width,
        cell_index(width, row1, col1) == cell_index(width, row2, col2),
    ensures
        row1 == row2,
        col1 == col2,
{
    let x = cell_index(width, row1, col1);
    vstd::arithmetic::div_mod::lemma_fundamental_div_mod_converse(x, width as int, row1, col1);
    vstd::arithmetic::div_mod::lemma_fundamental_div_mod_converse(x, width as int, row2, col2);
}

/// The cleared frame is well formed.
pub proof fn lemma_blank_wf(height: nat, width: nat)
    ensures
        Grid::blank(height, width).wf(),
{
}

/// Plotting keeps the frame's size and keeps it well formed.
pub proof fn lemma_plot_wf(g: Grid, s: Sample)
    requires
        g.wf(),
    ensures
        g.plot(s).wf(),
        g.plot(s).height == g.height,
        g.plot(s).width == g.width,
{
    if g.admits(s) {
        lemma_cell_index_in_range(g.height, g.width, s.row(g.height), s.col(g.width));
        lemma_glyph_of_in_ramp(s.level as int);
        let h = g.plot(s);
        assert forall|k: int| 0 <= k < h.glyphs.len() implies is_cell_glyph(
            #[trigger] h.glyphs[k],
        ) by {
            if k != g.cell_of(s) {
                assert(h.glyphs[k] == g.glyphs[k]);
            }
        }
    }
}

/// Plotting a run of samples keeps the frame's size and keeps it well
/// formed.
pub proof fn lemma_plot_all_wf(g: Grid, samples: Seq<Sample>)
    requires
        g.wf(),
    ensures
        g.plot_all(samples).wf(),
        g.plot_all(samples).height == g.height,
        g.plot_all(samples).width == g.width,
    decreases samples.len(),
{
    if samples.len() > 0 {
        lemma_plot_all_wf(g, samples.drop_last());
        lemma_plot_wf(g.plot_all(samples.drop_last()), samples.last());
    }
}

/// A sample that falls off the grid, or is unlit, changes nothing.
pub proof fn lemma_plot_drops_unseen(g: Grid, s: Sample)
    requires
        !on_grid(g.height, g.width, s) || !s.lit,
    ensures
        g.plot(s) == g,
{
}

/// Plotting changes at most the cell that the sample lands on; every other
/// cell keeps its glyph and its depth.
pub proof fn lemma_plot_touches_one_cell(g: Grid, s: Sample, cell: int)
    requires
        g.wf(),
        0 <= cell < g.height * g.width,
        !lands(g.height, g.width, s, cell),
    ensures
        g.plot(s).glyphs[cell] == g.glyphs[cell],
        g.plot(s).depths[cell] == g.depths[cell],
{
    if g.admits(s) {
        lemma_cell_index_in_range(g.height, g.width, s.row(g.height), s.col(g.width));
    }
}

/// The depth stored in a cell never decreases when a sample is plotted.
pub proof fn lemma_plot_depth_monotonic(g: Grid, s: Sample, cell: int)
    requires
        g.wf(),
        0 <= cell < g.height * g.width,
    ensures
        g.plot(s).depths[cell] >= g.depths[cell],
{
    if g.admits(s) {
        lemma_cell_index_in_range(g.height, g.width, s.row(g.height), s.col(g.width));
    }
}

/// What a rendered frame holds in one cell.
///
/// Returns the index of the sample that decides the cell, or `-1` where no
/// sample can be drawn on it. In the first case the cell shows that sample's
/// glyph and holds its inverse depth; in the second it is blank and holds
/// zero. Either way the stored inverse depth is the greatest among the lit
/// samples that land on the cell, and of several samples equally near the
/// earliest is the one shown.
pub proof fn lemma_rendered_cell(height: nat, width: nat, samples: Seq<Sample>, cell: int) -> (winner:
    int)
    requires
        0 <= cell < height * width,
    ensures
        forall|j: int|
            0 <= j < samples.len() && lands(height, width, #[trigger] samples[j], cell)
                ==> samples[j].inv_depth <= rendered(height, width, samples).depths[cell],
        winner == -1 ==> {
            &&& undecided(height, width, samples, cell)
            &&& rendered(height, width, samples).glyphs[cell] == BLANK
            &&& rendered(height, width, samples).depths[cell] == 0
        },
        winner != -1 ==> {
            &&& decides(height, width, samples, cell, winner)
            &&& rendered(height, width, samples).glyphs[cell] == glyph_of(
                samples[winner].level as int,
            )
            &&& rendered(height, width, samples).depths[cell] == samples[winner].inv_depth
        },
    decreases samples.len(),
{
    if samples.len() == 0 {
        -1
    } else {
        let prev = samples.drop_last();
        let last = samples.last();
        let before = rendered(height, width, prev);
        let after = rendered(height, width, samples);
        let earlier = lemma_rendered_cell(height, width, prev, cell);
        lemma_blank_wf(height, width);
        lemma_plot_all_wf(Grid::blank(height, width), prev);
        assert(after == before.plot(last));
        assert forall|j: int| 0 <= j < prev.len() implies #[trigger] samples[j] == prev[j] by {}
        if lands(height, width, last, cell) && last.inv_depth > before.depths[cell] {
            assert(before.admits(last));
            assert(after.depths[cell] == last.inv_depth);
            assert(after.glyphs[cell] == glyph_of(last.level as int));
            samples.len() - 1
        } else {
            if lands(height, width, last, cell) {
                assert(!before.admits(last));
            } else {
                lemma_plot_touches_one_cell(before, last, cell);
            }
            assert(after.depths[cell] == before.depths[cell]);
            assert(after.glyphs[cell] == before.glyphs[cell]);
            earlier
        }
    }
}

/// At most one sample decides a cell.
pub proof fn lemma_decider_unique(
    height: nat,
    width: nat,
    samples: Seq<Sample>,
    cell: int,
    i: int,
    j: int,
)
    requires
        decides(height, width, samples, cell, i),
        decides(height, width, samples, cell, j),
    ensures
        i == j,
{
}

/// Rendering is a function of the frame's size and the samples alone: two
/// frames of one size come out equal, whatever they held before.
pub proof fn lemma_render_forgets_previous(g1: Grid, g2: Grid, samples: Seq<Sample>)
    requires
        g1.height == g2.height,
        g1.width == g2.width,
    ensures
        g1.render(samples) == g2.render(samples),
{
}

/// Rendering the same samples a second time gives the frame that the first
/// rendering gave.
pub proof fn lemma_render_idempotent(g: Grid, samples: Seq<Sample>)
    ensures
        g.render(samples).render(samples) == g.render(samples),
        g.render(samples).wf(),
        g.render(samples).height == g.height,
        g.render(samples).width == g.width,
{
    lemma_blank_wf(g.height, g.width);
    lemma_plot_all_wf(Grid::blank(g.height, g.width), samples);
}

/// Samples that fall off the grid or are unlit leave no trace: a run of
/// samples renders as the run without them.
pub proof fn lemma_render_ignores_unseen(height: nat, width: nat, samples: Seq<Sample>)
    ensures
        rendered(height, width, samples) == rendered(
            height,
            width,
            samples.filter(|s: Sample| on_grid(height, width, s) && s.lit),
        ),
    decreases samples.len(),
{
    let seen = |s: Sample| on_grid(height, width, s) && s.lit;
    reveal(Seq::filter);
    if samples.len() > 0 {
        let prev = samples.drop_last();
        let last = samples.last();
        lemma_render_ignores_unseen(height, width, prev);
        if seen(last) {
            let kept = samples.filter(seen);
            assert(kept == prev.filter(seen).push(last));
            assert(kept.drop_last() =~= prev.filter(seen));
            assert(kept.last() == last);
        } else {
            assert(samples.filter(seen) == prev.filter(seen));
            lemma_blank_wf(height, width);
            lemma_plot_all_wf(Grid::blank(height, width), prev);
            lemma_plot_drops_unseen(rendered(height, width, prev), last);
        }
    } else {
        assert(samples.filter(seen) =~= samples);
    }
}

/// In a rendered frame a cell is blank exactly where its depth is zero.
pub proof fn lemma_rendered_blank_iff_far(
    height: nat,
    width: nat,
    samples: Seq<Sample>,
    cell: int,
)
    requires
        0 <= cell < height * width,
    ensures
        rendered(height, width, samples).glyphs[cell] == BLANK <==> rendered(
            height,
            width,
            samples,
        ).depths[cell] == 0,
{
    let winner = lemma_rendered_cell(height, width, samples, cell);
    if winner != -1 {
        lemma_glyph_of_in_ramp(samples[winner].level as int);
    }
}

/// A lit sample that falls on the grid at a finite distance never leaves its
/// cell blank: the rendered frame shows a glyph there, drawn at least as
/// near as the sample. So a frame with one such sample is never all
/// background.
pub proof fn lemma_drawn_sample_shows(height: nat, width: nat, samples: Seq<Sample>, i: int)
    requires
        0 <= i < samples.len(),
        on_grid(height, width, samples[i]),
        samples[i].lit,
        samples[i].inv_depth > 0,
    ensures
        0 <= rendered(height, width, samples).cell_of(samples[i]) < height * width,
        rendered(height, width, samples).glyphs[rendered(height, width, samples).cell_of(
            samples[i],
        )] != BLANK,
        rendered(height, width, samples).depths[rendered(height, width, samples).cell_of(
            samples[i],
        )] >= samples[i].inv_depth,
{
    let s = samples[i];
    let cell = cell_index(width, s.row(height), s.col(width));
    lemma_cell_index_in_range(height, width, s.row(height), s.col(width));
    lemma_blank_wf(height, width);
    lemma_plot_all_wf(Grid::blank(height, width), samples);
    assert(lands(height, width, samples[i], cell));
    let winner = lemma_rendered_cell(height, width, samples, cell);
    lemma_rendered_blank_iff_far(height, width, samples, cell);
}

/// On which cell a sample lands, said by row and column: a lit sample lands
/// on the cell that it projects to and on no other.
pub proof fn lemma_lands_on_its_cell(height: nat, width: nat, s: Sample, row: int, col: int)
    requires
        0 <= row < height,
        0 <= col < width,
    ensures
        lands(height, width, s, cell_index(width, row, col)) <==> s.lit && s.row(height) == row
            && s.col(width) == col,
{
    if lands(height, width, s, cell_index(width, row, col)) {
        lemma_cell_index_injective(width, s.row(height), s.col(width), row, col);
    }
}

/// Whether the samples that land on a cell equally near agree on their
/// luminance level, so that it does not matter which of them is shown.
pub open spec fn ties_agree(height: nat, width: nat, samples: Seq<Sample>, cell: int) -> bool {
    forall|i: int, j: int|
        0 <= i < samples.len() && 0 <= j < samples.len() && lands(
            height,
            width,
            #[trigger] samples[i],
            cell,
        ) && lands(height, width, #[trigger] samples[j], cell) && samples[i].inv_depth
            == samples[j].inv_depth ==> glyph_of(samples[i].level as int) == glyph_of(
            samples[j].level as int,
        )
}

/// The order of the samples matters only between samples equally near.
///
/// Two runs that hold the same samples, each as often as the other, render
/// to the same depths; and a cell shows the same glyph in both where the
/// samples that tie on it agree on their glyph.
pub proof fn lemma_render_ignores_order(
    height: nat,
    width: nat,
    first: Seq<Sample>,
    second: Seq<Sample>,
    cell: int,
)
    requires
        0 <= cell < height * width,
        first.to_multiset() == second.to_multiset(),
    ensures
        rendered(height, width, first).depths[cell] == rendered(height, width, second).depths[cell],
        ties_agree(height, width, first, cell) ==> rendered(height, width, first).glyphs[cell]
            == rendered(height, width, second).glyphs[cell],
{
    let a = lemma_rendered_cell(height, width, first, cell);
    let b = lemma_rendered_cell(height, width, second, cell);
    first.to_multiset_ensures();
    second.to_multiset_ensures();
    if a != -1 {
        assert(first.contains(first[a]));
        assert(first.to_multiset().count(first[a]) > 0);
        assert(second.to_multiset().count(first[a]) > 0);
        assert(second.contains(first[a]));
        let k = choose|k: int| 0 <= k < second.len() && second[k] == first[a];
        assert(lands(height, width, second[k], cell));
    }
    if b != -1 {
        assert(second.contains(second[b]));
        assert(second.to_multiset().count(second[b]) > 0);
        assert(first.to_multiset().count(second[b]) > 0);
        assert(first.contains(second[b]));
        let k = choose|k: int| 0 <= k < first.len() && first[k] == second[b];
        assert(lands(height, width, first[k], cell));
        if a != -1 && ties_agree(height, width, first, cell) {
            assert(first[k].inv_depth == first[a].inv_depth);
            assert(glyph_of(first[k].level as int) == glyph_of(first[a].level as int));
        }
    }
}

} // verus!
