//! The clock: six seven-segment digits in three groups (hours, minutes,
//! seconds) with a two-dot colon between adjacent groups.
use vstd::prelude::*;
use crate::screen::{Paint, joined, last_paint, cell_after, lemma_last_paint_concat, lemma_joined_none,
    lemma_joined_uniform};
use crate::widget::Widget;
use crate::seven_digit::{SevenDigit, lemma_show_within, lemma_unshow_cells};
use crate::dot::{Dot, lemma_dot_cells};
use vstd::arithmetic::div_mod::lemma_mod_add_multiples_vanish;

verus! {

/// The six decimal digits (hour tens, hour ones, minute tens, minute ones,
/// second tens, second ones) of the time of day `t` seconds after midnight,
/// taken modulo one day.
pub open spec fn time_digits(t: int) -> Seq<u64> {
    let s = t % 86400;
    let h = s / 3600;
    let m = (s % 3600) / 60;
    let sec = s % 60;
    seq![(h / 10) as u64, (h % 10) as u64, (m / 10) as u64, (m % 10) as u64, (sec / 10) as u64, (sec % 10) as u64]
}

/// The six digits that the clock shows for a duration of `t` seconds.
pub fn clock_digits(t: u64) -> (r: [u64; 6])
    ensures
        r@ == time_digits(t as int),
{
    let s: u64 = t % 86400;
    let h: u64 = s / 3600;
    let m: u64 = (s % 3600) / 60;
    let sec: u64 = s % 60;
    let r: [u64; 6] = [h / 10, h % 10, m / 10, m % 10, sec / 10, sec % 10];
    assert(r@ =~= time_digits(t as int));
    r
}

/// Column of digit `i` (0 = hour tens, ..., 5 = second ones) from the
/// clock's origin, for glyph scale `n` and group spacing `space`.
pub open spec fn glyph_col_offset(n: int, space: int, i: int) -> int {
    let w = n + 2;
    if i == 0 {
        0
    } else if i == 1 {
        w
    } else if i == 2 {
        2 * w + space
    } else if i == 3 {
        3 * w + space
    } else if i == 4 {
        4 * w + 2 * space
    } else {
        5 * w + 2 * space
    }
}

/// Offset (column, row) of colon dot `k` from the clock's origin: dots 0 and
/// 1 form the colon after the hours, dots 2 and 3 the one after the minutes;
/// even dots are the upper ones.
pub open spec fn dot_offset(n: int, space: int, k: int) -> (int, int) {
    let w = n + 2;
    let h = 2 * n + 1;
    let col = if k < 2 { 2 * w + space / 2 } else { 4 * w + 3 * space / 2 };
    let row = if k % 2 == 0 { h / 4 } else { 3 * h / 4 };
    (col, row)
}

/// The clock's whole rectangle lies in the `u16` coordinate space.
pub open spec fn layout_fits(p_col: u16, p_row: u16, n: u16, space: u16) -> bool {
    p_col + 6 * (n + 2) + 2 * space <= u16::MAX && p_row + 2 * n + 1 <= u16::MAX
}

/// Digit `i` of a clock with origin (`p_col`, `p_row`).
pub open spec fn glyph_at(p_col: u16, p_row: u16, n: u16, space: u16, i: int) -> SevenDigit {
    SevenDigit {
        p_col: (p_col + glyph_col_offset(n as int, space as int, i)) as u16,
        p_row,
        line_length: n,
    }
}

/// Colon dot `k` of a clock with origin (`p_col`, `p_row`).
pub open spec fn dot_at(p_col: u16, p_row: u16, n: u16, space: u16, k: int) -> Dot {
    Dot {
        p_col: (p_col + dot_offset(n as int, space as int, k).0) as u16,
        p_row: (p_row + dot_offset(n as int, space as int, k).1) as u16,
    }
}

/// A clock with its origin at (`p_col`, `p_row`), digits of scale
/// `line_length` and `space` columns between digit groups.
pub struct TimePrinter {
    p_col: u16,
    p_row: u16,
    line_length: u16,
    space: u16,
    digits: Vec<SevenDigit>,
    dots: Vec<Dot>,
}

impl TimePrinter {
    /// The top left cell of the clock.
    pub closed spec fn origin(&self) -> (u16, u16) {
        (self.p_col, self.p_row)
    }

    /// The digits' bar length.
    pub closed spec fn scale(&self) -> u16 {
        self.line_length
    }

    /// Columns between adjacent digit groups.
    pub closed spec fn spacing(&self) -> u16 {
        self.space
    }

    /// The six digits, hour tens first.
    pub closed spec fn glyphs(&self) -> Seq<SevenDigit> {
        self.digits@
    }

    /// The four colon dots.
    pub closed spec fn marks(&self) -> Seq<Dot> {
        self.dots@
    }

    /// Every part stands where the origin, scale and spacing place it.
    pub open spec fn laid_out(&self) -> bool {
        let (c, r) = self.origin();
        &&& layout_fits(c, r, self.scale(), self.spacing())
        &&& self.glyphs().len() == 6
        &&& self.marks().len() == 4
        &&& forall|i: int| 0 <= i < 6 ==> #[trigger] self.glyphs()[i] == glyph_at(c, r, self.scale(), self.spacing(), i)
        &&& forall|k: int| 0 <= k < 4 ==> #[trigger] self.marks()[k] == dot_at(c, r, self.scale(), self.spacing(), k)
    }

    /// The cells that some part of the clock may write: a colon dot's cell
    /// or a cell of some digit's footprint.
    pub open spec fn in_footprint(&self, col: int, row: int) -> bool {
        (exists|k: int| 0 <= k < 4 && #[trigger] self.marks()[k] == (Dot { p_col: col as u16, p_row: row as u16 })
            && 0 <= col <= u16::MAX && 0 <= row <= u16::MAX)
            || (exists|i: int| 0 <= i < 6 && #[trigger] self.glyphs()[i].in_footprint(col, row))
    }

    /// The paints of each part, colon dots first, for the time `t`.
    pub open spec fn show_parts(&self, t: int) -> (Seq<Seq<Paint>>, Seq<Seq<Paint>>) {
        (
            Seq::new(4, |k: int| self.marks()[k].show_paints('.')),
            Seq::new(6, |i: int| self.glyphs()[i].show_paints(time_digits(t)[i])),
        )
    }

    /// The paints that erase each part, colon dots first.
    pub open spec fn unshow_parts(&self) -> (Seq<Seq<Paint>>, Seq<Seq<Paint>>) {
        (
            Seq::new(4, |k: int| self.marks()[k].unshow_paints()),
            Seq::new(6, |i: int| self.glyphs()[i].unshow_paints()),
        )
    }

    fn layout(p_col: u16, p_row: u16, n: u16, space: u16) -> (r: (Vec<SevenDigit>, Vec<Dot>))
        requires
            layout_fits(p_col, p_row, n, space),
        ensures
            r.0@.len() == 6,
            r.1@.len() == 4,
            forall|i: int| 0 <= i < 6 ==> #[trigger] r.0@[i] == glyph_at(p_col, p_row, n, space, i),
            forall|k: int| 0 <= k < 4 ==> #[trigger] r.1@[k] == dot_at(p_col, p_row, n, space, k),
    {
        let w: u16 = n + 2;
        let h: u16 = n * 2 + 1;
        let digits = vec![
            SevenDigit::new(p_col, p_row, n),
            SevenDigit::new(p_col + w, p_row, n),
            SevenDigit::new(p_col + w * 2 + space, p_row, n),
            SevenDigit::new(p_col + w * 3 + space, p_row, n),
            SevenDigit::new(p_col + w * 4 + space * 2, p_row, n),
            SevenDigit::new(p_col + w * 5 + space * 2, p_row, n),
        ];
        let first_col: u16 = p_col + w * 2 + space / 2;
        let second_col: u16 = p_col + w * 4 + ((space as u32 * 3) / 2) as u16;
        let upper_row: u16 = p_row + h / 4;
        let lower_row: u16 = p_row + ((h as u32 * 3) / 4) as u16;
        let dots = vec![
            Dot::new(first_col, upper_row),
            Dot::new(first_col, lower_row),
            Dot::new(second_col, upper_row),
            Dot::new(second_col, lower_row),
        ];
        (digits, dots)
    }

    pub fn new(p_col: u16, p_row: u16, line_length: u16, space: u16) -> (r: TimePrinter)
        requires
            layout_fits(p_col, p_row, line_length, space),
        ensures
            r.laid_out(),
            r.origin() == (p_col, p_row),
            r.scale() == line_length,
            r.spacing() == space,
    {
        let (digits, dots) = TimePrinter::layout(p_col, p_row, line_length, space);
        TimePrinter { p_col, p_row, line_length, space, digits, dots }
    }
}

/// Appending part `k` to the concatenation of the parts before it.
proof fn lemma_joined_take(parts: Seq<Seq<Paint>>, k: int)
    requires
        0 <= k < parts.len(),
    ensures
        joined(parts.take(k + 1)) == joined(parts.take(k)) + parts[k],
{
    assert(parts.take(k + 1).drop_last() =~= parts.take(k));
}

impl Widget for TimePrinter {
    /// A duration in whole seconds; only its time of day is shown.
    type PrintingData = u64;

    open spec fn wf(&self) -> bool {
        self.laid_out()
    }

    open spec fn size_of(&self) -> (int, int) {
        (6 * (self.scale() + 2) + 2 * self.spacing(), 2 * self.scale() + 1)
    }

    /// The four colon dots, then the six digits of the time of day `t`.
    open spec fn show_paints(&self, t: u64) -> Seq<Paint> {
        joined(self.show_parts(t as int).0) + joined(self.show_parts(t as int).1)
    }

    /// The four colon dots erased, then the six digits.
    open spec fn unshow_paints(&self) -> Seq<Paint> {
        joined(self.unshow_parts().0) + joined(self.unshow_parts().1)
    }

    open spec fn can_relocate(&self, p_col: u16, p_row: u16) -> bool {
        layout_fits(p_col, p_row, self.scale(), self.spacing())
    }

    open spec fn relocated(&self, p_col: u16, p_row: u16, to: &TimePrinter) -> bool {
        &&& to.laid_out()
        &&& to.origin() == (p_col, p_row)
        &&& to.scale() == self.scale()
        &&& to.spacing() == self.spacing()
    }

    fn get_size(&self) -> (r: [u16; 2]) {
        let seg_size: [u16; 2] = self.digits[0].get_size();
        [seg_size[0] * 6 + self.space * 2, seg_size[1]]
    }

    fn show(&self, t: &u64) -> (r: Vec<Paint>) {
        let digits = clock_digits(*t);
        let ghost parts = self.show_parts(*t as int);
        let mut out: Vec<Paint> = Vec::new();
        let mut k: usize = 0;
        while k < 4
            invariant
                self.laid_out(),
                parts == self.show_parts(*t as int),
                k <= 4,
                out@ == joined(parts.0.take(k as int)),
            decreases 4 - k,
        {
            let mut part = self.dots[k].show(&'.');
            out.append(&mut part);
            proof { lemma_joined_take(parts.0, k as int); }
            k = k + 1;
        }
        assert(parts.0.take(4) =~= parts.0);
        let ghost dots_done = out@;
        let mut i: usize = 0;
        while i < 6
            invariant
                self.laid_out(),
                parts == self.show_parts(*t as int),
                digits@ == time_digits(*t as int),
                i <= 6,
                dots_done == joined(parts.0),
                out@ == dots_done + joined(parts.1.take(i as int)),
            decreases 6 - i,
        {
            let mut part = self.digits[i].show(&digits[i]);
            out.append(&mut part);
            proof { lemma_joined_take(parts.1, i as int); }
            i = i + 1;
        }
        assert(parts.1.take(6) =~= parts.1);
        out
    }

    fn unshow(&self) -> (r: Vec<Paint>) {
        let ghost parts = self.unshow_parts();
        let mut out: Vec<Paint> = Vec::new();
        let mut k: usize = 0;
        while k < 4
            invariant
                self.laid_out(),
                parts == self.unshow_parts(),
                k <= 4,
                out@ == joined(parts.0.take(k as int)),
            decreases 4 - k,
        {
            let mut part = self.dots[k].unshow();
            out.append(&mut part);
            proof { lemma_joined_take(parts.0, k as int); }
            k = k + 1;
        }
        assert(parts.0.take(4) =~= parts.0);
        let ghost dots_done = out@;
        let mut i: usize = 0;
        while i < 6
            invariant
                self.laid_out(),
                parts == self.unshow_parts(),
                i <= 6,
                dots_done == joined(parts.0),
                out@ == dots_done + joined(parts.1.take(i as int)),
            decreases 6 - i,
        {
            let mut part = self.digits[i].unshow();
            out.append(&mut part);
            proof { lemma_joined_take(parts.1, i as int); }
            i = i + 1;
        }
        assert(parts.1.take(6) =~= parts.1);
        out
    }

    fn move_and_unshow(&mut self, p_col: u16, p_row: u16) -> (r: Vec<Paint>) {
        let r = self.unshow();
        let (digits, dots) = TimePrinter::layout(p_col, p_row, self.line_length, self.space);
        self.p_col = p_col;
        self.p_row = p_row;
        self.digits = digits;
        self.dots = dots;
        r
    }
}

/// The shown digits depend on the time of day alone: a duration one day
/// longer shows the same digits.
pub proof fn lemma_digits_wrap_daily(t: nat)
    ensures
        time_digits(t + 86400int) == time_digits(t as int),
{
    lemma_mod_add_multiples_vanish(t as int, 86400);
}

/// Two clocks built with the same origin, scale and spacing place all six
/// digits and all four colon dots at the same cells.
pub proof fn lemma_layout_determined(
    p_col: u16,
    p_row: u16,
    line_length: u16,
    space: u16,
    a: TimePrinter,
    b: TimePrinter,
)
    requires
        a.laid_out(),
        b.laid_out(),
        a.origin() == (p_col, p_row) && a.scale() == line_length && a.spacing() == space,
        b.origin() == (p_col, p_row) && b.scale() == line_length && b.spacing() == space,
    ensures
        a.glyphs() == b.glyphs(),
        a.marks() == b.marks(),
        forall|i: int| 0 <= i < 6 ==> #[trigger] a.glyphs()[i] == glyph_at(p_col, p_row, line_length, space, i),
        forall|k: int| 0 <= k < 4 ==> #[trigger] a.marks()[k] == dot_at(p_col, p_row, line_length, space, k),
{
    assert(a.glyphs() =~= b.glyphs());
    assert(a.marks() =~= b.marks());
}

/// `unshow` after any `show(t)` blanks every cell of the clock's footprint
/// and leaves every other cell as it was.
pub proof fn lemma_clock_unshow_after_show(c: TimePrinter, t: u64, before: char, col: int, row: int)
    requires
        c.wf(),
    ensures
        c.in_footprint(col, row) ==> cell_after(before, c.show_paints(t) + c.unshow_paints(), col, row) == ' ',
        !c.in_footprint(col, row) ==> cell_after(before, c.show_paints(t) + c.unshow_paints(), col, row) == before,
{
    let (s0, s1) = c.show_parts(t as int);
    let (u0, u1) = c.unshow_parts();
    assert forall|k: int| 0 <= k < u0.len() implies #[trigger] last_paint(u0[k], col, row) == None::<char>
        || last_paint(u0[k], col, row) == Some(' ') by {
        lemma_dot_cells(c.marks()[k], '.', col, row);
    }
    assert forall|i: int| 0 <= i < u1.len() implies #[trigger] last_paint(u1[i], col, row) == None::<char>
        || last_paint(u1[i], col, row) == Some(' ') by {
        lemma_unshow_cells(c.glyphs()[i], col, row);
    }
    lemma_last_paint_concat(c.show_paints(t), c.unshow_paints(), col, row);
    lemma_last_paint_concat(joined(u0), joined(u1), col, row);
    if c.in_footprint(col, row) {
        if exists|k: int| 0 <= k < 4 && #[trigger] c.marks()[k] == (Dot { p_col: col as u16, p_row: row as u16 })
            && 0 <= col <= u16::MAX && 0 <= row <= u16::MAX {
            let k = choose|k: int| 0 <= k < 4 && #[trigger] c.marks()[k] == (Dot { p_col: col as u16, p_row: row as u16 })
                && 0 <= col <= u16::MAX && 0 <= row <= u16::MAX;
            lemma_dot_cells(c.marks()[k], '.', col, row);
            lemma_joined_uniform(u0, col, row, ' ', k);
            lemma_joined_uniform(u1, col, row, ' ', 0);
        } else {
            let i = choose|i: int| 0 <= i < 6 && #[trigger] c.glyphs()[i].in_footprint(col, row);
            lemma_unshow_cells(c.glyphs()[i], col, row);
            lemma_joined_uniform(u0, col, row, ' ', 0);
            lemma_joined_uniform(u1, col, row, ' ', i);
        }
    } else {
        assert forall|k: int| 0 <= k < 4 implies #[trigger] last_paint(u0[k], col, row) == None::<char> by {
            lemma_dot_cells(c.marks()[k], '.', col, row);
            if c.marks()[k].p_col == col && c.marks()[k].p_row == row {
                assert(c.marks()[k] == (Dot { p_col: col as u16, p_row: row as u16 }));
            }
        }
        assert forall|k: int| 0 <= k < 4 implies #[trigger] last_paint(s0[k], col, row) == None::<char> by {
            lemma_dot_cells(c.marks()[k], '.', col, row);
            if c.marks()[k].p_col == col && c.marks()[k].p_row == row {
                assert(c.marks()[k] == (Dot { p_col: col as u16, p_row: row as u16 }));
            }
        }
        assert forall|i: int| 0 <= i < 6 implies #[trigger] last_paint(u1[i], col, row) == None::<char> by {
            lemma_unshow_cells(c.glyphs()[i], col, row);
        }
        assert forall|i: int| 0 <= i < 6 implies #[trigger] last_paint(s1[i], col, row) == None::<char> by {
            lemma_show_within(c.glyphs()[i], time_digits(t as int)[i], col, row);
        }
        lemma_joined_none(u0, col, row);
        lemma_joined_none(u1, col, row);
        lemma_joined_none(s0, col, row);
        lemma_joined_none(s1, col, row);
        lemma_last_paint_concat(joined(s0), joined(s1), col, row);
    }
}

} // verus!
