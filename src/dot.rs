//! A single-cell separator mark.
use vstd::prelude::*;
use crate::screen::{Paint, paints_at, last_paint, lemma_last_paint_none, lemma_last_paint_some};
use crate::widget::Widget;

verus! {

/// A one-cell widget at (`p_col`, `p_row`) that shows a `.`.
#[derive(Clone, Copy, PartialEq, Eq, Debug, Structural)]
pub struct Dot {
    pub p_col: u16,
    pub p_row: u16,
}

impl Dot {
    pub fn new(p_col: u16, p_row: u16) -> (r: Dot)
        ensures
            r == (Dot { p_col, p_row }),
    {
        Dot { p_col, p_row }
    }
}

impl Widget for Dot {
    /// Ignored: the mark is always `.`.
    type PrintingData = char;

    open spec fn wf(&self) -> bool {
        true
    }

    open spec fn size_of(&self) -> (int, int) {
        (1, 1)
    }

    open spec fn show_paints(&self, data: char) -> Seq<Paint> {
        seq![Paint { col: self.p_col, row: self.p_row, ch: '.' }]
    }

    open spec fn unshow_paints(&self) -> Seq<Paint> {
        seq![Paint { col: self.p_col, row: self.p_row, ch: ' ' }]
    }

    open spec fn can_relocate(&self, p_col: u16, p_row: u16) -> bool {
        true
    }

    open spec fn relocated(&self, p_col: u16, p_row: u16, to: &Dot) -> bool {
        *to == (Dot { p_col, p_row })
    }

    fn get_size(&self) -> (r: [u16; 2]) {
        [1, 1]
    }

    fn show(&self, _data: &char) -> (r: Vec<Paint>) {
        let mut out: Vec<Paint> = Vec::new();
        out.push(Paint { col: self.p_col, row: self.p_row, ch: '.' });
        out
    }

    fn unshow(&self) -> (r: Vec<Paint>) {
        let mut out: Vec<Paint> = Vec::new();
        out.push(Paint { col: self.p_col, row: self.p_row, ch: ' ' });
        out
    }

    fn move_and_unshow(&mut self, p_col: u16, p_row: u16) -> (r: Vec<Paint>) {
        let r = self.unshow();
        self.p_col = p_col;
        self.p_row = p_row;
        r
    }
}

/// A dot writes its own cell only: `.` when shown, a blank when erased.
pub proof fn lemma_dot_cells(d: Dot, data: char, col: int, row: int)
    ensures
        last_paint(d.show_paints(data), col, row)
            == (if d.p_col == col && d.p_row == row { Some('.') } else { None::<char> }),
        last_paint(d.unshow_paints(), col, row)
            == (if d.p_col == col && d.p_row == row { Some(' ') } else { None::<char> }),
{
    let shown = d.show_paints(data);
    let erased = d.unshow_paints();
    if d.p_col == col && d.p_row == row {
        lemma_last_paint_some(shown, col, row, '.', 0);
        lemma_last_paint_some(erased, col, row, ' ', 0);
    } else {
        assert(!paints_at(shown[0], col, row));
        assert(!paints_at(erased[0], col, row));
        lemma_last_paint_none(shown, col, row);
        lemma_last_paint_none(erased, col, row);
    }
}

} // verus!
