//! The glyph ramp: twelve characters ordered from sparse to dense.

use vstd::prelude::*;

verus! {

/// What a cell shows while nothing has been drawn on it.
pub const BLANK: char = ' ';

/// Number of glyphs in the ramp.
pub const RAMP_LEN: usize = 12;

/// The ramp, from the sparsest glyph to the densest.
pub open spec fn ramp() -> Seq<char> {
    seq!['.', ',', '-', '~', ':', ';', '=', '!', '*', '#', '$', '@']
}

/// The place in the ramp that a luminance level selects: the level itself,
/// held to the ramp's range.
pub open spec fn glyph_index(level: int) -> int {
    if level < 0 {
        0
    } else if level >= RAMP_LEN as int {
        RAMP_LEN as int - 1
    } else {
        level
    }
}

/// The glyph that a luminance level selects.
pub open spec fn glyph_of(level: int) -> char {
    ramp()[glyph_index(level)]
}

/// Whether a character may stand in a cell: the blank or a glyph of the ramp.
pub open spec fn is_cell_glyph(c: char) -> bool {
    c == BLANK || exists|i: int| 0 <= i < ramp().len() && ramp()[i] == c
}

/// The glyph for a luminance level, measured in eighths. Levels below the
/// ramp select its first glyph, levels above it its last.
pub fn glyph_for(level: i64) -> (g: char)
    ensures
        g == glyph_of(level as int),
        is_cell_glyph(g),
{
    let g = if level <= 0 {
        '.'
    } else if level == 1 {
        ','
    } else if level == 2 {
        '-'
    } else if level == 3 {
        '~'
    } else if level == 4 {
        ':'
    } else if level == 5 {
        ';'
    } else if level == 6 {
        '='
    } else if level == 7 {
        '!'
    } else if level == 8 {
        '*'
    } else if level == 9 {
        '#'
    } else if level == 10 {
        '$'
    } else {
        '@'
    };
    proof {
        lemma_glyph_of_in_ramp(level as int);
    }
    g
}

/// Every level selects a glyph of the ramp, never the blank.
pub proof fn lemma_glyph_of_in_ramp(level: int)
    ensures
        0 <= glyph_index(level) < ramp().len(),
        ramp().len() == RAMP_LEN,
        is_cell_glyph(glyph_of(level)),
        glyph_of(level) != BLANK,
{
    let i = glyph_index(level);
    assert(ramp()[i] == glyph_of(level));
}

/// A higher luminance level never selects an earlier glyph of the ramp.
pub proof fn lemma_glyph_index_monotonic(lower: int, higher: int)
    requires
        lower <= higher,
    ensures
        glyph_index(lower) <= glyph_index(higher),
{
}

/// Within the ramp's range the level is the index, so distinct levels there
/// select distinct places; outside it the nearest end is taken.
pub proof fn lemma_glyph_index_clamps(level: int)
    ensures
        0 <= level < RAMP_LEN ==> glyph_index(level) == level,
        level < 0 ==> glyph_index(level) == 0,
        level >= RAMP_LEN ==> glyph_index(level) == RAMP_LEN - 1,
{
}

} // verus!
