//! One decimal digit drawn as seven segments.
//!
//! ```text
//!  _      segment 1: top bar
//! |_|     2: top left, 4: middle bar, 3: top right
//! |_|     5: bottom left, 7: bottom bar, 6: bottom right
//! ```
//! With scale `n`, bars are `n` cells long and the glyph occupies
//! `n + 2` columns and `2n + 1` rows.
use vstd::prelude::*;
use crate::screen::{Paint, paints_at, last_paint, cell_after, lemma_last_paint_none,
    lemma_last_paint_some, lemma_last_paint_concat};
use crate::widget::Widget;

verus! {

/// Whether segment `s` is a horizontal bar (drawn with `_`).
pub open spec fn seg_horizontal(s: int) -> bool {
    s == 1 || s == 4 || s == 7
}

/// The character of a lit segment `s`.
pub open spec fn stroke(s: int) -> char {
    if seg_horizontal(s) { '_' } else { '|' }
}

/// Offset (column, row) of the first cell of segment `s` from the glyph's
/// origin, for scale `n`.
pub open spec fn seg_origin(n: int, s: int) -> (int, int) {
    if s == 1 {
        (1, 0)
    } else if s == 2 {
        (0, 1)
    } else if s == 3 {
        (n + 1, 1)
    } else if s == 4 {
        (1, n)
    } else if s == 5 {
        (0, n + 1)
    } else if s == 6 {
        (n + 1, n + 1)
    } else {
        (1, 2 * n)
    }
}

/// The segments lit for the value `d`: none outside 0..=9.
pub open spec fn lit_segments(d: u64) -> Set<int> {
    if d == 0 {
        set![1, 2, 3, 5, 6, 7]
    } else if d == 1 {
        set![3, 6]
    } else if d == 2 {
        set![1, 3, 4, 5, 7]
    } else if d == 3 {
        set![1, 3, 4, 6, 7]
    } else if d == 4 {
        set![2, 3, 4, 6]
    } else if d == 5 {
        set![1, 2, 4, 6, 7]
    } else if d == 6 {
        set![1, 2, 4, 5, 6, 7]
    } else if d == 7 {
        set![1, 3, 6]
    } else if d == 8 {
        set![1, 2, 3, 4, 5, 6, 7]
    } else if d == 9 {
        set![1, 2, 3, 4, 6, 7]
    } else {
        Set::empty()
    }
}

/// What segment `s` is written with when the segments in `lit` are on.
pub open spec fn seg_char(lit: Set<int>, s: int) -> char {
    if lit.contains(s) { stroke(s) } else { ' ' }
}

/// Whether segment `s` is lit for the value `d`, read from the digit's
/// 7-bit mask (most significant bit first: segment 1 is bit 6).
fn segment_lit(d: u64, s: u8) -> (r: bool)
    requires
        1 <= s <= 7,
    ensures
        r == lit_segments(d).contains(s as int),
{
    let mask: u8 = match d {
        0 => 0b1110111,
        1 => 0b0010010,
        2 => 0b1011101,
        3 => 0b1011011,
        4 => 0b0111010,
        5 => 0b1101011,
        6 => 0b1101111,
        7 => 0b1010010,
        8 => 0b1111111,
        9 => 0b1111011,
        _ => 0,
    };
    let sh: u8 = 7 - s;
    let r: bool = mask & (1u8 << sh) != 0;
    proof {
        if d == 0 {
            assert(0b1110111u8 & (1u8 << sh) != 0 <==> (s == 1 || s == 2 || s == 3 || s == 5 || s == 6 || s == 7)) by (bit_vector)
                requires 1 <= s <= 7, sh == 7 - s;
        } else if d == 1 {
            assert(0b0010010u8 & (1u8 << sh) != 0 <==> (s == 3 || s == 6)) by (bit_vector)
                requires 1 <= s <= 7, sh == 7 - s;
        } else if d == 2 {
            assert(0b1011101u8 & (1u8 << sh) != 0 <==> (s == 1 || s == 3 || s == 4 || s == 5 || s == 7)) by (bit_vector)
                requires 1 <= s <= 7, sh == 7 - s;
        } else if d == 3 {
            assert(0b1011011u8 & (1u8 << sh) != 0 <==> (s == 1 || s == 3 || s == 4 || s == 6 || s == 7)) by (bit_vector)
                requires 1 <= s <= 7, sh == 7 - s;
        } else if d == 4 {
            assert(0b0111010u8 & (1u8 << sh) != 0 <==> (s == 2 || s == 3 || s == 4 || s == 6)) by (bit_vector)
                requires 1 <= s <= 7, sh == 7 - s;
        } else if d == 5 {
            assert(0b1101011u8 & (1u8 << sh) != 0 <==> (s == 1 || s == 2 || s == 4 || s == 6 || s == 7)) by (bit_vector)
                requires 1 <= s <= 7, sh == 7 - s;
        } else if d == 6 {
            assert(0b1101111u8 & (1u8 << sh) != 0 <==> (s == 1 || s == 2 || s == 4 || s == 5 || s == 6 || s == 7)) by (bit_vector)
                requires 1 <= s <= 7, sh == 7 - s;
        } else if d == 7 {
            assert(0b1010010u8 & (1u8 << sh) != 0 <==> (s == 1 || s == 3 || s == 6)) by (bit_vector)
                requires 1 <= s <= 7, sh == 7 - s;
        } else if d == 8 {
            assert(0b1111111u8 & (1u8 << sh) != 0) by (bit_vector)
                requires 1 <= s <= 7, sh == 7 - s;
        } else if d == 9 {
            assert(0b1111011u8 & (1u8 << sh) != 0 <==> (s == 1 || s == 2 || s == 3 || s == 4 || s == 6 || s == 7)) by (bit_vector)
                requires 1 <= s <= 7, sh == 7 - s;
        } else {
            assert(0u8 & (1u8 << sh) == 0) by (bit_vector);
        }
    }
    r
}

/// A seven-segment digit with its origin (top left cell) at
/// (`p_col`, `p_row`) and bars `line_length` cells long.
#[derive(Clone, Copy, PartialEq, Eq, Debug, Structural)]
pub struct SevenDigit {
    pub p_col: u16,
    pub p_row: u16,
    pub line_length: u16,
}

impl SevenDigit {
    pub fn new(p_col: u16, p_row: u16, line_length: u16) -> (r: SevenDigit)
        ensures
            r == (SevenDigit { p_col, p_row, line_length }),
    {
        SevenDigit { p_col, p_row, line_length }
    }

    /// The whole glyph rectangle lies in the `u16` coordinate space.
    pub open spec fn fits(self) -> bool {
        self.p_col + self.line_length + 2 <= u16::MAX
            && self.p_row + 2 * self.line_length + 1 <= u16::MAX
    }

    /// Cell `j` (counting from 0) of segment `s`.
    pub open spec fn seg_cell(self, s: int, j: int) -> (int, int) {
        let o = seg_origin(self.line_length as int, s);
        if seg_horizontal(s) {
            (self.p_col + o.0 + j, self.p_row + o.1)
        } else {
            (self.p_col + o.0, self.p_row + o.1 + j)
        }
    }

    /// The paints that write `c` along segment `s`.
    pub open spec fn segment_run(self, s: int, c: char) -> Seq<Paint> {
        Seq::new(
            self.line_length as nat,
            |j: int| Paint { col: self.seg_cell(s, j).0 as u16, row: self.seg_cell(s, j).1 as u16, ch: c },
        )
    }

    /// Segments 1..=m written in order, each lit when it is in `lit`, blank otherwise.
    pub open spec fn runs(self, lit: Set<int>, m: int) -> Seq<Paint>
        decreases m,
    {
        if m <= 0 {
            Seq::empty()
        } else {
            self.runs(lit, m - 1) + self.segment_run(m, seg_char(lit, m))
        }
    }

    /// The cells that some segment covers.
    pub open spec fn in_footprint(self, col: int, row: int) -> bool {
        exists|s: int, j: int|
            1 <= s <= 7 && 0 <= j < self.line_length && #[trigger] self.seg_cell(s, j) == (col, row)
    }

    /// The cells of the glyph's bounding rectangle.
    pub open spec fn in_rect(self, col: int, row: int) -> bool {
        self.p_col <= col < self.p_col + self.line_length + 2
            && self.p_row <= row < self.p_row + 2 * self.line_length + 1
    }

    /// Writes `c` along segment `s`.
    fn paint_run(&self, s: u8, c: char, out: &mut Vec<Paint>)
        requires
            self.fits(),
            1 <= s <= 7,
        ensures
            final(out)@ == old(out)@ + self.segment_run(s as int, c),
    {
        let n: u16 = self.line_length;
        let (c0, r0): (u16, u16) = if s == 1 {
            (1, 0)
        } else if s == 2 {
            (0, 1)
        } else if s == 3 {
            (n + 1, 1)
        } else if s == 4 {
            (1, n)
        } else if s == 5 {
            (0, n + 1)
        } else if s == 6 {
            (n + 1, n + 1)
        } else {
            (1, 2 * n)
        };
        let horizontal: bool = s == 1 || s == 4 || s == 7;
        let ghost start = out@;
        let mut j: u16 = 0;
        while j < n
            invariant
                self.fits(),
                1 <= s <= 7,
                n == self.line_length,
                (c0 as int, r0 as int) == seg_origin(n as int, s as int),
                horizontal == seg_horizontal(s as int),
                j <= n,
                out@ == start + self.segment_run(s as int, c).take(j as int),
            decreases n - j,
        {
            let p = if horizontal {
                Paint { col: self.p_col + c0 + j, row: self.p_row + r0, ch: c }
            } else {
                Paint { col: self.p_col + c0, row: self.p_row + r0 + j, ch: c }
            };
            out.push(p);
            j = j + 1;
            assert(self.segment_run(s as int, c).take(j as int)
                =~= self.segment_run(s as int, c).take(j - 1).push(p));
        }
        assert(self.segment_run(s as int, c).take(n as int) =~= self.segment_run(s as int, c));
    }
}

impl Widget for SevenDigit {
    type PrintingData = u64;

    open spec fn wf(&self) -> bool {
        self.fits()
    }

    open spec fn size_of(&self) -> (int, int) {
        (self.line_length + 2, 2 * self.line_length + 1)
    }

    /// All seven segments, in order, each lit or blanked as `d` asks.
    open spec fn show_paints(&self, d: u64) -> Seq<Paint> {
        self.runs(lit_segments(d), 7)
    }

    /// All seven segments, in order, blanked.
    open spec fn unshow_paints(&self) -> Seq<Paint> {
        self.runs(Set::empty(), 7)
    }

    open spec fn can_relocate(&self, p_col: u16, p_row: u16) -> bool {
        (SevenDigit { p_col, p_row, line_length: self.line_length }).fits()
    }

    open spec fn relocated(&self, p_col: u16, p_row: u16, to: &SevenDigit) -> bool {
        *to == (SevenDigit { p_col, p_row, line_length: self.line_length })
    }

    fn get_size(&self) -> (r: [u16; 2]) {
        [self.line_length + 2, self.line_length * 2 + 1]
    }

    fn show(&self, d: &u64) -> (r: Vec<Paint>) {
        let mut out: Vec<Paint> = Vec::new();
        let mut s: u8 = 1;
        while s <= 7
            invariant
                self.fits(),
                1 <= s <= 8,
                out@ == self.runs(lit_segments(*d), s - 1),
            decreases 8 - s,
        {
            let c = if segment_lit(*d, s) {
                if s == 1 || s == 4 || s == 7 { '_' } else { '|' }
            } else {
                ' '
            };
            self.paint_run(s, c, &mut out);
            s = s + 1;
        }
        out
    }

    fn unshow(&self) -> (r: Vec<Paint>) {
        let mut out: Vec<Paint> = Vec::new();
        let mut s: u8 = 1;
        while s <= 7
            invariant
                self.fits(),
                1 <= s <= 8,
                out@ == self.runs(Set::empty(), s - 1),
            decreases 8 - s,
        {
            self.paint_run(s, ' ', &mut out);
            s = s + 1;
        }
        out
    }

    fn move_and_unshow(&mut self, p_col: u16, p_row: u16) -> (r: Vec<Paint>) {
        let r = self.unshow();
        self.p_col = p_col;
        self.p_row = p_row;
        r
    }
}

/// Distinct cells of distinct segments never coincide.
pub proof fn lemma_segment_cells_disjoint(g: SevenDigit, s: int, j: int, s2: int, j2: int)
    requires
        1 <= s <= 7,
        1 <= s2 <= 7,
        0 <= j < g.line_length,
        0 <= j2 < g.line_length,
        g.seg_cell(s, j) == g.seg_cell(s2, j2),
    ensures
        s == s2,
        j == j2,
{
}

/// Paint `i` of the first `m` segment runs writes a cell of some segment
/// `w.0 <= m`, with that segment's character.
proof fn lemma_runs_at(g: SevenDigit, lit: Set<int>, m: int, i: int) -> (w: (int, int))
    requires
        g.fits(),
        0 <= m <= 7,
        0 <= i < g.runs(lit, m).len(),
    ensures
        1 <= w.0 <= m,
        0 <= w.1 < g.line_length,
        paints_at(g.runs(lit, m)[i], g.seg_cell(w.0, w.1).0, g.seg_cell(w.0, w.1).1),
        g.runs(lit, m)[i].ch == seg_char(lit, w.0),
    decreases m,
{
    let prev = g.runs(lit, m - 1);
    let run = g.segment_run(m, seg_char(lit, m));
    assert(g.runs(lit, m) == prev + run);
    if i < prev.len() {
        assert(g.runs(lit, m)[i] == prev[i]);
        lemma_runs_at(g, lit, m - 1, i)
    } else {
        let j = i - prev.len();
        assert(g.runs(lit, m)[i] == run[j]);
        (m, j)
    }
}

/// Every cell of a segment `s <= m` is written by the first `m` segment runs.
proof fn lemma_runs_cover(g: SevenDigit, lit: Set<int>, m: int, s: int, j: int) -> (i: int)
    requires
        g.fits(),
        1 <= s <= m <= 7,
        0 <= j < g.line_length,
    ensures
        0 <= i < g.runs(lit, m).len(),
        paints_at(g.runs(lit, m)[i], g.seg_cell(s, j).0, g.seg_cell(s, j).1),
    decreases m,
{
    let prev = g.runs(lit, m - 1);
    let run = g.segment_run(m, seg_char(lit, m));
    assert(g.runs(lit, m) == prev + run);
    if s == m {
        assert(g.runs(lit, m)[prev.len() + j] == run[j]);
        prev.len() + j
    } else {
        let i = lemma_runs_cover(g, lit, m - 1, s, j);
        assert(g.runs(lit, m)[i] == prev[i]);
        i
    }
}

/// Every paint of a segment run sequence lands on a cell of the footprint.
proof fn lemma_runs_within(g: SevenDigit, lit: Set<int>, col: int, row: int)
    requires
        g.fits(),
        !g.in_footprint(col, row),
    ensures
        last_paint(g.runs(lit, 7), col, row) == None::<char>,
{
    let ps = g.runs(lit, 7);
    assert forall|i: int| 0 <= i < ps.len() implies !paints_at(#[trigger] ps[i], col, row) by {
        let w = lemma_runs_at(g, lit, 7, i);
        if paints_at(ps[i], col, row) {
            assert(g.seg_cell(w.0, w.1) == (col, row));
        }
    }
    lemma_last_paint_none(ps, col, row);
}

/// After `show(d)`, each cell of segment `s` holds the segment's stroke when
/// `s` is lit for `d` and a blank otherwise; for a value outside 0..=9 every
/// segment is blank.
pub proof fn lemma_show_segments(g: SevenDigit, d: u64, s: int, j: int)
    requires
        g.wf(),
        1 <= s <= 7,
        0 <= j < g.line_length,
    ensures
        last_paint(g.show_paints(d), g.seg_cell(s, j).0, g.seg_cell(s, j).1)
            == Some(seg_char(lit_segments(d), s)),
        lit_segments(d).contains(s) ==> seg_char(lit_segments(d), s) == stroke(s),
        !lit_segments(d).contains(s) ==> seg_char(lit_segments(d), s) == ' ',
        d > 9 ==> seg_char(lit_segments(d), s) == ' ',
{
    let lit = lit_segments(d);
    let ps = g.runs(lit, 7);
    let (col, row) = g.seg_cell(s, j);
    let k = lemma_runs_cover(g, lit, 7, s, j);
    assert forall|i: int| 0 <= i < ps.len() && paints_at(#[trigger] ps[i], col, row) implies ps[i].ch
        == seg_char(lit, s) by {
        let w = lemma_runs_at(g, lit, 7, i);
        lemma_segment_cells_disjoint(g, w.0, w.1, s, j);
    }
    lemma_last_paint_some(ps, col, row, seg_char(lit, s), k);
}

/// `show` writes only cells of the footprint.
pub proof fn lemma_show_within(g: SevenDigit, d: u64, col: int, row: int)
    requires
        g.wf(),
        !g.in_footprint(col, row),
    ensures
        last_paint(g.show_paints(d), col, row) == None::<char>,
{
    lemma_runs_within(g, lit_segments(d), col, row);
}

/// `unshow` writes a blank on every cell of the footprint and nothing else.
pub proof fn lemma_unshow_cells(g: SevenDigit, col: int, row: int)
    requires
        g.wf(),
    ensures
        g.in_footprint(col, row) ==> last_paint(g.unshow_paints(), col, row) == Some(' '),
        !g.in_footprint(col, row) ==> last_paint(g.unshow_paints(), col, row) == None::<char>,
{
    let erased = g.unshow_paints();
    if g.in_footprint(col, row) {
        let (s, j) = choose|s: int, j: int|
            1 <= s <= 7 && 0 <= j < g.line_length && #[trigger] g.seg_cell(s, j) == (col, row);
        let k = lemma_runs_cover(g, Set::empty(), 7, s, j);
        assert forall|i: int| 0 <= i < erased.len() && paints_at(#[trigger] erased[i], col, row) implies erased[i].ch
            == ' ' by {
            lemma_runs_at(g, Set::empty(), 7, i);
        }
        lemma_last_paint_some(erased, col, row, ' ', k);
    } else {
        lemma_runs_within(g, Set::empty(), col, row);
    }
}

/// `unshow` after any `show(d)` blanks every cell of the footprint and leaves
/// every other cell as it was; so a bounding rectangle that was blank before
/// `show` is blank again.
pub proof fn lemma_unshow_after_show(g: SevenDigit, d: u64, before: char, col: int, row: int)
    requires
        g.wf(),
    ensures
        g.in_footprint(col, row) ==> cell_after(before, g.show_paints(d) + g.unshow_paints(), col, row) == ' ',
        !g.in_footprint(col, row) ==> cell_after(before, g.show_paints(d) + g.unshow_paints(), col, row) == before,
        g.in_rect(col, row) && before == ' ' ==> cell_after(before, g.show_paints(d) + g.unshow_paints(), col, row) == ' ',
{
    lemma_last_paint_concat(g.show_paints(d), g.unshow_paints(), col, row);
    lemma_unshow_cells(g, col, row);
    if !g.in_footprint(col, row) {
        lemma_show_within(g, d, col, row);
    }
}

} // verus!
