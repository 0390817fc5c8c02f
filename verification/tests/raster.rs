use donut::{glyph_for, Donut, Sample, BLANK, RAMP_LEN};

const RAMP: [char; 12] = ['.', ',', '-', '~', ':', ';', '=', '!', '*', '#', '$', '@'];

fn lit(dx: i64, dy: i64, inv_depth: u64, level: i64) -> Sample {
    Sample { dx, dy, inv_depth, lit: true, level }
}

fn glyphs(d: &Donut) -> Vec<char> {
    let mut out = Vec::new();
    for row in 0..d.height() {
        for col in 0..d.width() {
            out.push(d.glyph_at(row, col));
        }
    }
    out
}

fn depths(d: &Donut) -> Vec<u64> {
    let mut out = Vec::new();
    for row in 0..d.height() {
        for col in 0..d.width() {
            out.push(d.depth_at(row, col));
        }
    }
    out
}

#[test]
fn new_frame_is_blank_and_far() {
    let d = Donut::new(50, 50);
    assert_eq!(d.height(), 50);
    assert_eq!(d.width(), 50);
    assert!(glyphs(&d).iter().all(|&c| c == BLANK));
    assert!(depths(&d).iter().all(|&z| z == 0));
    assert_eq!(glyphs(&d).len(), 2500);
}

#[test]
fn new_frame_may_be_empty_or_oblong() {
    let empty = Donut::new(0, 7);
    assert_eq!(empty.height(), 0);
    assert_eq!(empty.width(), 7);
    let wide = Donut::new(2, 5);
    assert_eq!(glyphs(&wide).len(), 10);
    assert_eq!(wide.row(1), vec![' '; 5]);
}

#[test]
fn ramp_has_twelve_glyphs_in_order() {
    assert_eq!(RAMP_LEN, 12);
    for (level, &glyph) in RAMP.iter().enumerate() {
        assert_eq!(glyph_for(level as i64), glyph);
    }
}

#[test]
fn glyph_level_is_clamped_to_the_ramp() {
    assert_eq!(glyph_for(-1), '.');
    assert_eq!(glyph_for(i64::MIN), '.');
    assert_eq!(glyph_for(12), '@');
    assert_eq!(glyph_for(13), '@');
    assert_eq!(glyph_for(i64::MAX), '@');
}

#[test]
fn higher_level_never_selects_an_earlier_glyph() {
    let place = |c: char| RAMP.iter().position(|&g| g == c).unwrap();
    let mut before = place(glyph_for(-20));
    for level in -19..40 {
        let here = place(glyph_for(level));
        assert!(before <= here, "level {level}");
        before = here;
    }
}

#[test]
fn glyph_for_never_gives_the_blank() {
    for level in -5..20 {
        assert_ne!(glyph_for(level), BLANK);
    }
}

#[test]
fn centre_sample_lands_on_the_centre_cell() {
    let mut d = Donut::new(50, 50);
    assert!(d.plot(lit(0, 0, 9, 3)));
    assert_eq!(d.glyph_at(25, 25), '~');
    assert_eq!(d.depth_at(25, 25), 9);
    let shown = glyphs(&d).iter().filter(|&&c| c != BLANK).count();
    assert_eq!(shown, 1);
}

#[test]
fn offsets_count_right_and_down_from_the_centre() {
    let mut d = Donut::new(4, 6);
    assert!(d.plot(lit(2, -1, 1, 0)));
    assert_eq!(d.glyph_at(1, 5), '.');
    assert!(d.plot(lit(-3, 1, 1, 11)));
    assert_eq!(d.glyph_at(3, 0), '@');
    assert_eq!(d.row(1), vec![' ', ' ', ' ', ' ', ' ', '.']);
    assert_eq!(d.row(3), vec!['@', ' ', ' ', ' ', ' ', ' ']);
}

#[test]
fn samples_off_the_grid_are_dropped() {
    let mut d = Donut::new(50, 50);
    let off = [
        (-26, 0),
        (25, 0),
        (0, -26),
        (0, 25),
        (i64::MAX, 0),
        (i64::MIN, 0),
        (0, i64::MAX),
        (0, i64::MIN),
        (i64::MIN, i64::MAX),
    ];
    for &(dx, dy) in off.iter() {
        assert!(!d.plot(lit(dx, dy, 100, 5)), "({dx}, {dy})");
    }
    assert!(glyphs(&d).iter().all(|&c| c == BLANK));
    assert!(depths(&d).iter().all(|&z| z == 0));
}

#[test]
fn samples_on_the_border_are_drawn() {
    let mut d = Donut::new(50, 50);
    assert!(d.plot(lit(-25, -25, 1, 1)));
    assert!(d.plot(lit(24, 24, 1, 2)));
    assert_eq!(d.glyph_at(0, 0), ',');
    assert_eq!(d.glyph_at(49, 49), '-');
}

#[test]
fn unlit_sample_is_dropped() {
    let mut d = Donut::new(10, 10);
    let s = Sample { dx: 0, dy: 0, inv_depth: 50, lit: false, level: 4 };
    assert!(!d.plot(s));
    assert_eq!(d.glyph_at(5, 5), BLANK);
    assert_eq!(d.depth_at(5, 5), 0);
}

#[test]
fn infinitely_far_sample_is_dropped() {
    let mut d = Donut::new(10, 10);
    assert!(!d.plot(lit(0, 0, 0, 4)));
    assert_eq!(d.glyph_at(5, 5), BLANK);
}

#[test]
fn nearer_sample_survives_when_plotted_last() {
    let mut d = Donut::new(10, 10);
    assert!(d.plot(lit(1, 1, 20, 2)));
    assert!(d.plot(lit(1, 1, 30, 7)));
    assert_eq!(d.glyph_at(6, 6), '!');
    assert_eq!(d.depth_at(6, 6), 30);
}

#[test]
fn nearer_sample_survives_when_plotted_first() {
    let mut d = Donut::new(10, 10);
    assert!(d.plot(lit(1, 1, 30, 7)));
    assert!(!d.plot(lit(1, 1, 20, 2)));
    assert_eq!(d.glyph_at(6, 6), '!');
    assert_eq!(d.depth_at(6, 6), 30);
}

#[test]
fn of_two_equally_near_samples_the_first_is_shown() {
    let mut d = Donut::new(10, 10);
    assert!(d.plot(lit(0, 0, 30, 1)));
    assert!(!d.plot(lit(0, 0, 30, 9)));
    assert_eq!(d.glyph_at(5, 5), ',');
}

#[test]
fn stored_depth_is_the_greatest_of_the_cell() {
    let mut d = Donut::new(8, 8);
    let samples = vec![
        lit(0, 0, 5, 1),
        lit(1, 0, 50, 2),
        lit(0, 0, 9, 3),
        Sample { dx: 0, dy: 0, inv_depth: 99, lit: false, level: 4 },
        lit(0, 0, 7, 5),
        lit(40, 0, 1000, 6),
    ];
    d.render(&samples);
    assert_eq!(d.depth_at(4, 4), 9);
    assert_eq!(d.glyph_at(4, 4), '~');
    assert_eq!(d.depth_at(4, 5), 50);
    assert_eq!(d.glyph_at(4, 5), '-');
    let shown = glyphs(&d).iter().filter(|&&c| c != BLANK).count();
    assert_eq!(shown, 2);
}

#[test]
fn render_clears_what_was_there() {
    let mut d = Donut::new(6, 6);
    assert!(d.plot(lit(-3, -3, 1000, 11)));
    d.render(&vec![lit(0, 0, 1, 0)]);
    assert_eq!(d.glyph_at(0, 0), BLANK);
    assert_eq!(d.depth_at(0, 0), 0);
    assert_eq!(d.glyph_at(3, 3), '.');
    d.render(&Vec::new());
    assert!(glyphs(&d).iter().all(|&c| c == BLANK));
    assert!(depths(&d).iter().all(|&z| z == 0));
}

#[test]
fn rendering_twice_is_rendering_once() {
    let samples = vec![lit(0, 0, 5, 1), lit(0, 0, 9, 3), lit(-1, 2, 4, 8), lit(2, 2, 4, 30)];
    let mut once = Donut::new(7, 9);
    once.render(&samples);
    let mut twice = Donut::new(7, 9);
    twice.render(&samples);
    twice.render(&samples);
    assert_eq!(glyphs(&once), glyphs(&twice));
    assert_eq!(depths(&once), depths(&twice));
}

#[test]
fn render_is_plotting_into_a_cleared_frame() {
    let samples = vec![lit(0, 0, 5, 1), lit(0, 0, 9, 3), lit(-1, 2, 4, 8), lit(0, 0, 9, 6)];
    let mut rendered = Donut::new(7, 9);
    rendered.render(&samples);
    let mut plotted = Donut::new(7, 9);
    for s in samples.iter() {
        plotted.plot(*s);
    }
    assert_eq!(glyphs(&rendered), glyphs(&plotted));
    assert_eq!(depths(&rendered), depths(&plotted));
}

#[test]
fn clear_blanks_every_cell() {
    let mut d = Donut::new(5, 5);
    assert!(d.plot(lit(0, 0, 3, 3)));
    assert!(d.plot(lit(1, 1, 3, 3)));
    d.clear();
    assert!(glyphs(&d).iter().all(|&c| c == BLANK));
    assert!(depths(&d).iter().all(|&z| z == 0));
    assert_eq!(d.height(), 5);
    assert_eq!(d.width(), 5);
}

#[test]
fn depths_do_not_depend_on_sample_order() {
    let forward = vec![lit(0, 0, 5, 1), lit(0, 0, 9, 3), lit(1, 0, 4, 8), lit(0, 0, 7, 6)];
    let mut backward = forward.clone();
    backward.reverse();
    let mut a = Donut::new(4, 4);
    a.render(&forward);
    let mut b = Donut::new(4, 4);
    b.render(&backward);
    assert_eq!(depths(&a), depths(&b));
    assert_eq!(glyphs(&a), glyphs(&b));
}

#[test]
fn row_reads_the_frame_line_by_line() {
    let mut d = Donut::new(3, 4);
    d.render(&vec![lit(-2, -1, 1, 0), lit(1, 0, 1, 5), lit(0, 1, 1, 11)]);
    assert_eq!(d.row(0), vec!['.', ' ', ' ', ' ']);
    assert_eq!(d.row(1), vec![' ', ' ', ' ', ';']);
    assert_eq!(d.row(2), vec![' ', ' ', '@', ' ']);
    for row in 0..3 {
        let line = d.row(row);
        for col in 0..4 {
            assert_eq!(line[col], d.glyph_at(row, col));
        }
    }
}
