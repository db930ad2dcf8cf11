use std::collections::HashMap;

use segment_clock::{clock_digits, Dot, Paint, SevenDigit, TimePrinter, Widget};

type Grid = HashMap<(u16, u16), char>;

fn apply(grid: &mut Grid, paints: &[Paint]) {
    for p in paints {
        grid.insert((p.col, p.row), p.ch);
    }
}

fn cell(grid: &Grid, col: u16, row: u16) -> char {
    *grid.get(&(col, row)).unwrap_or(&' ')
}

// Segments numbered 1..=7: top, top left, top right, middle, bottom left,
// bottom right, bottom.
fn segment_cells(col: u16, row: u16, n: u16, s: usize) -> Vec<(u16, u16)> {
    let (c0, r0, horizontal) = match s {
        1 => (1, 0, true),
        2 => (0, 1, false),
        3 => (n + 1, 1, false),
        4 => (1, n, true),
        5 => (0, n + 1, false),
        6 => (n + 1, n + 1, false),
        _ => (1, 2 * n, true),
    };
    (0..n)
        .map(|j| if horizontal { (col + c0 + j, row + r0) } else { (col + c0, row + r0 + j) })
        .collect()
}

// Reads back which segments are lit, checking each run is uniform and uses
// the right stroke.
fn read_segments(grid: &Grid, col: u16, row: u16, n: u16) -> Vec<usize> {
    let mut lit = Vec::new();
    for s in 1..=7 {
        let cells = segment_cells(col, row, n, s);
        let stroke = if s == 1 || s == 4 || s == 7 { '_' } else { '|' };
        let first = cell(grid, cells[0].0, cells[0].1);
        for &(c, r) in &cells {
            assert_eq!(cell(grid, c, r), first);
        }
        if first == stroke {
            lit.push(s);
        } else {
            assert_eq!(first, ' ');
        }
    }
    lit
}

fn expected_segments(d: u64) -> Vec<usize> {
    match d {
        0 => vec![1, 2, 3, 5, 6, 7],
        1 => vec![3, 6],
        2 => vec![1, 3, 4, 5, 7],
        3 => vec![1, 3, 4, 6, 7],
        4 => vec![2, 3, 4, 6],
        5 => vec![1, 2, 4, 6, 7],
        6 => vec![1, 2, 4, 5, 6, 7],
        7 => vec![1, 3, 6],
        8 => vec![1, 2, 3, 4, 5, 6, 7],
        9 => vec![1, 2, 3, 4, 6, 7],
        _ => vec![],
    }
}

fn clock_glyph_cols(col: u16, n: u16, space: u16) -> [u16; 6] {
    let w = n + 2;
    [col, col + w, col + 2 * w + space, col + 3 * w + space, col + 4 * w + 2 * space, col + 5 * w + 2 * space]
}

#[test]
fn glyph_shows_each_digit_mask() {
    for n in 1..=4u16 {
        let g = SevenDigit::new(3, 2, n);
        for d in 0..=9u64 {
            let mut grid = Grid::new();
            apply(&mut grid, &g.show(&d));
            assert_eq!(read_segments(&grid, 3, 2, n), expected_segments(d));
        }
    }
}

#[test]
fn glyph_out_of_range_value_is_blank() {
    let g = SevenDigit::new(0, 0, 2);
    for d in [10u64, 42, u64::MAX] {
        let mut grid = Grid::new();
        for (k, v) in grid_fill(&g).into_iter() {
            grid.insert(k, v);
        }
        apply(&mut grid, &g.show(&d));
        assert!(read_segments(&grid, 0, 0, 2).is_empty());
        assert!(g.show(&d).iter().all(|p| p.ch == ' '));
    }
}

fn grid_fill(g: &SevenDigit) -> Vec<((u16, u16), char)> {
    // Paint every segment as 8 would, so a blank result must overwrite it.
    g.show(&8).into_iter().map(|p| ((p.col, p.row), p.ch)).collect()
}

#[test]
fn glyph_show_repaints_stale_strokes() {
    let g = SevenDigit::new(1, 1, 3);
    let mut grid = Grid::new();
    apply(&mut grid, &g.show(&8));
    apply(&mut grid, &g.show(&1));
    assert_eq!(read_segments(&grid, 1, 1, 3), vec![3, 6]);
}

#[test]
fn glyph_show_paint_count_and_order() {
    let g = SevenDigit::new(0, 0, 3);
    let ps = g.show(&0);
    assert_eq!(ps.len(), 21);
    assert_eq!(ps[0], Paint { col: 1, row: 0, ch: '_' });
    assert_eq!(ps[3], Paint { col: 0, row: 1, ch: '|' });
    assert_eq!(ps[9], Paint { col: 1, row: 3, ch: ' ' });
    assert_eq!(ps[20], Paint { col: 3, row: 6, ch: '_' });
}

#[test]
fn glyph_unshow_after_show_blanks_rectangle() {
    let n: u16 = 3;
    let g = SevenDigit::new(4, 5, n);
    for d in 0..=11u64 {
        let mut grid = Grid::new();
        apply(&mut grid, &g.show(&d));
        apply(&mut grid, &g.unshow());
        for c in 4..4 + n + 2 {
            for r in 5..5 + 2 * n + 1 {
                assert_eq!(cell(&grid, c, r), ' ');
            }
        }
        assert!(grid.values().all(|&ch| ch == ' '));
    }
}

#[test]
fn glyph_unshow_twice_same_as_once() {
    let g = SevenDigit::new(2, 2, 2);
    let mut once = Grid::new();
    apply(&mut once, &g.show(&6));
    let mut twice = once.clone();
    apply(&mut once, &g.unshow());
    apply(&mut twice, &g.unshow());
    apply(&mut twice, &g.unshow());
    assert_eq!(once, twice);
}

#[test]
fn glyph_size() {
    for n in [1u16, 2, 3, 10] {
        assert_eq!(SevenDigit::new(0, 0, n).get_size(), [n + 2, 2 * n + 1]);
    }
    assert_eq!(SevenDigit::new(7, 7, 3).get_size(), [5, 7]);
}

#[test]
fn glyph_zero_scale_paints_nothing() {
    let g = SevenDigit::new(0, 0, 0);
    assert!(g.show(&8).is_empty());
    assert!(g.unshow().is_empty());
    assert_eq!(g.get_size(), [2, 1]);
}

#[test]
fn glyph_move_and_unshow() {
    let mut g = SevenDigit::new(0, 0, 2);
    let before = g.unshow();
    let erased = g.move_and_unshow(10, 4);
    assert_eq!(erased, before);
    assert_eq!(g, SevenDigit::new(10, 4, 2));
    let mut grid = Grid::new();
    apply(&mut grid, &g.show(&7));
    assert_eq!(read_segments(&grid, 10, 4, 2), vec![1, 3, 6]);
}

#[test]
fn dot_show_unshow() {
    let mut d = Dot::new(5, 6);
    assert_eq!(d.get_size(), [1, 1]);
    assert_eq!(d.show(&'x'), vec![Paint { col: 5, row: 6, ch: '.' }]);
    assert_eq!(d.unshow(), vec![Paint { col: 5, row: 6, ch: ' ' }]);
    assert_eq!(d.move_and_unshow(1, 2), vec![Paint { col: 5, row: 6, ch: ' ' }]);
    assert_eq!(d, Dot::new(1, 2));
}

#[test]
fn clock_size() {
    let c = TimePrinter::new(2, 2, 3, 3);
    assert_eq!(c.get_size(), [36, 7]);
    let c = TimePrinter::new(0, 0, 1, 0);
    assert_eq!(c.get_size(), [18, 3]);
    let c = TimePrinter::new(0, 0, 5, 4);
    assert_eq!(c.get_size(), [6 * 7 + 8, 11]);
}

#[test]
fn clock_layout_is_deterministic() {
    let a = TimePrinter::new(1, 3, 2, 5);
    let b = TimePrinter::new(1, 3, 2, 5);
    assert_eq!(a.show(&4321), b.show(&4321));
    assert_eq!(a.unshow(), b.unshow());
}

#[test]
fn digits_of_time() {
    assert_eq!(clock_digits(12 * 3600 + 34 * 60 + 56), [1, 2, 3, 4, 5, 6]);
    assert_eq!(clock_digits(0), [0, 0, 0, 0, 0, 0]);
    assert_eq!(clock_digits(23 * 3600 + 59 * 60 + 59), [2, 3, 5, 9, 5, 9]);
    assert_eq!(clock_digits(24 * 3600), [0, 0, 0, 0, 0, 0]);
    assert_eq!(clock_digits(24 * 3600 + 61), clock_digits(61));
}

fn check_clock(t: u64, digits: [u64; 6]) {
    let (col, row, n, space) = (2u16, 2u16, 3u16, 3u16);
    let c = TimePrinter::new(col, row, n, space);
    let mut grid = Grid::new();
    apply(&mut grid, &c.show(&t));
    let cols = clock_glyph_cols(col, n, space);
    for i in 0..6 {
        assert_eq!(read_segments(&grid, cols[i], row, n), expected_segments(digits[i]));
    }
    // Colon dots: columns 2 + 10 + 1 and 2 + 20 + 4, rows 2 + 7/4 and 2 + 21/4.
    for (dc, dr) in [(13, 3), (13, 7), (26, 3), (26, 7)] {
        assert_eq!(cell(&grid, dc, dr), '.');
    }
    let dots = grid.values().filter(|&&ch| ch == '.').count();
    assert_eq!(dots, 4);
}

#[test]
fn clock_shows_12_34_56() {
    check_clock(12 * 3600 + 34 * 60 + 56, [1, 2, 3, 4, 5, 6]);
}

#[test]
fn clock_shows_midnight() {
    check_clock(0, [0, 0, 0, 0, 0, 0]);
    let c = TimePrinter::new(2, 2, 3, 3);
    let mut grid = Grid::new();
    apply(&mut grid, &c.show(&0));
    for col in clock_glyph_cols(2, 3, 3) {
        let lit = read_segments(&grid, col, 2, 3);
        assert_eq!(lit, vec![1, 2, 3, 5, 6, 7]);
        assert!(!lit.contains(&4));
    }
}

#[test]
fn clock_shows_23_59_59() {
    check_clock(23 * 3600 + 59 * 60 + 59, [2, 3, 5, 9, 5, 9]);
}

#[test]
fn clock_wraps_after_a_day() {
    check_clock(24 * 3600, [0, 0, 0, 0, 0, 0]);
    let c = TimePrinter::new(2, 2, 3, 3);
    assert_eq!(c.show(&(24 * 3600)), c.show(&0));
    assert_eq!(c.show(&(9 * 24 * 3600 + 5000)), c.show(&5000));
}

#[test]
fn clock_paints_dots_before_digits() {
    let c = TimePrinter::new(2, 2, 3, 3);
    let ps = c.show(&0);
    assert_eq!(ps.len(), 4 + 6 * 21);
    assert_eq!(ps[0], Paint { col: 13, row: 3, ch: '.' });
    assert_eq!(ps[1], Paint { col: 13, row: 7, ch: '.' });
    assert_eq!(ps[2], Paint { col: 26, row: 3, ch: '.' });
    assert_eq!(ps[3], Paint { col: 26, row: 7, ch: '.' });
    assert_eq!(ps[4], Paint { col: 3, row: 2, ch: '_' });
    let us = c.unshow();
    assert_eq!(us.len(), ps.len());
    assert_eq!(us[0], Paint { col: 13, row: 3, ch: ' ' });
    assert!(us.iter().all(|p| p.ch == ' '));
}

#[test]
fn clock_unshow_blanks_footprint() {
    let c = TimePrinter::new(2, 2, 3, 3);
    let mut grid = Grid::new();
    apply(&mut grid, &c.show(&(23 * 3600 + 59 * 60 + 59)));
    apply(&mut grid, &c.unshow());
    assert!(grid.values().all(|&ch| ch == ' '));
    let mut twice = grid.clone();
    apply(&mut twice, &c.unshow());
    assert_eq!(grid, twice);
}

#[test]
fn clock_move_and_unshow() {
    let mut c = TimePrinter::new(2, 2, 3, 3);
    let mut grid = Grid::new();
    apply(&mut grid, &c.show(&(12 * 3600 + 34 * 60 + 56)));
    let erased = c.move_and_unshow(0, 10);
    apply(&mut grid, &erased);
    assert!(grid.values().all(|&ch| ch == ' '));
    assert_eq!(c.get_size(), [36, 7]);
    assert_eq!(c.show(&0), TimePrinter::new(0, 10, 3, 3).show(&0));
}

#[test]
fn glyph_unshow_keeps_cells_outside_segments() {
    // The corners and the cells enclosed by the segments are never written.
    let g = SevenDigit::new(0, 0, 2);
    let mut grid = Grid::new();
    for c in 0..4u16 {
        for r in 0..5u16 {
            grid.insert((c, r), 'x');
        }
    }
    apply(&mut grid, &g.show(&8));
    apply(&mut grid, &g.unshow());
    for (c, r) in [(0, 0), (3, 0), (1, 1), (2, 1), (1, 3), (2, 3)] {
        assert_eq!(cell(&grid, c, r), 'x');
    }
    for (c, r) in [(1, 0), (2, 0), (0, 1), (0, 2), (3, 1), (3, 2), (1, 2), (2, 2), (0, 3), (0, 4), (3, 3), (3, 4), (1, 4), (2, 4)] {
        assert_eq!(cell(&grid, c, r), ' ');
    }
}
