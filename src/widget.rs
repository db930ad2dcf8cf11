//! The capability shared by every part of the clock.
use vstd::prelude::*;
use crate::screen::{Paint, cell_after, lemma_repeat_same};

verus! {

/// Something that occupies a rectangle of cells, can draw itself given a
/// value, and can erase itself by writing blanks over every cell it may draw.
pub trait Widget: Sized {
    /// The value that `show` draws.
    type PrintingData;

    /// The widget's geometry is consistent and every cell it may touch has
    /// coordinates that fit in `u16`.
    spec fn wf(&self) -> bool;

    /// (columns, rows) of the rectangle the widget occupies.
    spec fn size_of(&self) -> (int, int);

    /// The paints, in order, that draw `data`.
    spec fn show_paints(&self, data: Self::PrintingData) -> Seq<Paint>;

    /// The paints, in order, that erase the widget.
    spec fn unshow_paints(&self) -> Seq<Paint>;

    /// With its origin at (`p_col`, `p_row`) and its other settings kept,
    /// the widget would still be well formed.
    spec fn can_relocate(&self, p_col: u16, p_row: u16) -> bool;

    /// `to` is this widget with its origin at (`p_col`, `p_row`) and its
    /// other settings kept.
    spec fn relocated(&self, p_col: u16, p_row: u16, to: &Self) -> bool;

    fn get_size(&self) -> (r: [u16; 2])
        requires
            self.wf(),
        ensures
            r@.len() == 2,
            r@[0] as int == self.size_of().0,
            r@[1] as int == self.size_of().1,
    ;

    fn show(&self, data: &Self::PrintingData) -> (r: Vec<Paint>)
        requires
            self.wf(),
        ensures
            r@ == self.show_paints(*data),
    ;

    fn unshow(&self) -> (r: Vec<Paint>)
        requires
            self.wf(),
        ensures
            r@ == self.unshow_paints(),
    ;

    /// Erases the widget where it stands, then moves its origin; nothing is
    /// drawn at the new place.
    fn move_and_unshow(&mut self, p_col: u16, p_row: u16) -> (r: Vec<Paint>)
        requires
            old(self).wf(),
            old(self).can_relocate(p_col, p_row),
        ensures
            r@ == old(self).unshow_paints(),
            old(self).relocated(p_col, p_row, final(self)),
            final(self).wf(),
    ;
}

/// Erasing twice leaves every cell as erasing once does.
pub proof fn lemma_unshow_idempotent<W: Widget>(w: &W, before: char, col: int, row: int)
    ensures
        cell_after(before, w.unshow_paints() + w.unshow_paints(), col, row)
            == cell_after(before, w.unshow_paints(), col, row),
{
    lemma_repeat_same(before, w.unshow_paints(), col, row);
}

} // verus!
