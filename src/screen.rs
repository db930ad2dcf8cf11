//! Paint commands and what a sequence of them leaves in a cell.
use vstd::prelude::*;

verus! {

/// One character written at one cell of a character grid
/// (0-indexed column and row, origin at the top left).
#[derive(Clone, Copy, PartialEq, Eq, Debug, Structural)]
pub struct Paint {
    pub col: u16,
    pub row: u16,
    pub ch: char,
}

/// Whether `p` writes the cell at (`col`, `row`).
pub open spec fn paints_at(p: Paint, col: int, row: int) -> bool {
    p.col as int == col && p.row as int == row
}

/// The character that the last paint of `ps` at (`col`, `row`) writes, if any.
pub open spec fn last_paint(ps: Seq<Paint>, col: int, row: int) -> Option<char>
    decreases ps.len(),
{
    if ps.len() == 0 {
        None
    } else if paints_at(ps.last(), col, row) {
        Some(ps.last().ch)
    } else {
        last_paint(ps.drop_last(), col, row)
    }
}

/// What the cell at (`col`, `row`) holds after `ps` is written over a cell
/// that held `before`.
pub open spec fn cell_after(before: char, ps: Seq<Paint>, col: int, row: int) -> char {
    match last_paint(ps, col, row) {
        Some(c) => c,
        None => before,
    }
}

/// The concatenation of `parts`, in order.
pub open spec fn joined(parts: Seq<Seq<Paint>>) -> Seq<Paint>
    decreases parts.len(),
{
    if parts.len() == 0 {
        Seq::empty()
    } else {
        joined(parts.drop_last()) + parts.last()
    }
}

/// A sequence with no paint at a cell leaves that cell alone.
pub proof fn lemma_last_paint_none(ps: Seq<Paint>, col: int, row: int)
    requires
        forall|i: int| 0 <= i < ps.len() ==> !paints_at(#[trigger] ps[i], col, row),
    ensures
        last_paint(ps, col, row) == None::<char>,
    decreases ps.len(),
{
    if ps.len() > 0 {
        assert(!paints_at(ps[ps.len() - 1], col, row));
        lemma_last_paint_none(ps.drop_last(), col, row);
    }
}

/// Where every paint of `ps` at a cell writes `c`, and at least one does,
/// the cell ends up holding `c`.
pub proof fn lemma_last_paint_some(ps: Seq<Paint>, col: int, row: int, c: char, k: int)
    requires
        0 <= k < ps.len(),
        paints_at(ps[k], col, row),
        forall|i: int| 0 <= i < ps.len() && paints_at(#[trigger] ps[i], col, row) ==> ps[i].ch == c,
    ensures
        last_paint(ps, col, row) == Some(c),
    decreases ps.len(),
{
    let last = ps.len() - 1;
    if !paints_at(ps[last], col, row) {
        let rest = ps.drop_last();
        assert(rest[k] == ps[k]);
        assert forall|i: int| 0 <= i < rest.len() && paints_at(#[trigger] rest[i], col, row) implies rest[i].ch == c by {
            assert(rest[i] == ps[i]);
        }
        lemma_last_paint_some(rest, col, row, c, k);
    }
}

/// Writing `a` and then `b`: a cell that `b` writes holds what `b` wrote there.
pub proof fn lemma_last_paint_concat(a: Seq<Paint>, b: Seq<Paint>, col: int, row: int)
    ensures
        last_paint(a + b, col, row) == (match last_paint(b, col, row) {
            Some(c) => Some(c),
            None => last_paint(a, col, row),
        }),
    decreases b.len(),
{
    if b.len() == 0 {
        assert(a + b =~= a);
    } else {
        assert((a + b).drop_last() =~= a + b.drop_last());
        assert((a + b).last() == b.last());
        lemma_last_paint_concat(a, b.drop_last(), col, row);
    }
}

/// Writing the same sequence twice leaves every cell as writing it once does.
pub proof fn lemma_repeat_same(before: char, ps: Seq<Paint>, col: int, row: int)
    ensures
        cell_after(before, ps + ps, col, row) == cell_after(before, ps, col, row),
{
    lemma_last_paint_concat(ps, ps, col, row);
}

/// A concatenation of parts none of which writes a cell leaves it alone.
pub proof fn lemma_joined_none(parts: Seq<Seq<Paint>>, col: int, row: int)
    requires
        forall|k: int| 0 <= k < parts.len() ==> #[trigger] last_paint(parts[k], col, row) == None::<char>,
    ensures
        last_paint(joined(parts), col, row) == None::<char>,
    decreases parts.len(),
{
    if parts.len() > 0 {
        let rest = parts.drop_last();
        assert forall|k: int| 0 <= k < rest.len() implies #[trigger] last_paint(rest[k], col, row) == None::<char> by {
            assert(rest[k] == parts[k]);
        }
        lemma_joined_none(rest, col, row);
        assert(last_paint(parts[parts.len() - 1], col, row) == None::<char>);
        lemma_last_paint_concat(joined(rest), parts.last(), col, row);
    }
}

/// Where every part that writes a cell leaves `c` there, so does their
/// concatenation; and it does write the cell when part `k0` does.
pub proof fn lemma_joined_uniform(parts: Seq<Seq<Paint>>, col: int, row: int, c: char, k0: int)
    requires
        forall|k: int| 0 <= k < parts.len() ==> #[trigger] last_paint(parts[k], col, row) == None::<char>
            || last_paint(parts[k], col, row) == Some(c),
    ensures
        last_paint(joined(parts), col, row) == None::<char> || last_paint(joined(parts), col, row) == Some(c),
        0 <= k0 < parts.len() && last_paint(parts[k0], col, row) == Some(c)
            ==> last_paint(joined(parts), col, row) == Some(c),
    decreases parts.len(),
{
    if parts.len() > 0 {
        let rest = parts.drop_last();
        assert forall|k: int| 0 <= k < rest.len() implies #[trigger] last_paint(rest[k], col, row) == None::<char>
            || last_paint(rest[k], col, row) == Some(c) by {
            assert(rest[k] == parts[k]);
        }
        if 0 <= k0 < rest.len() {
            assert(rest[k0] == parts[k0]);
        }
        lemma_joined_uniform(rest, col, row, c, k0);
        assert(last_paint(parts[parts.len() - 1], col, row) == None::<char>
            || last_paint(parts[parts.len() - 1], col, row) == Some(c));
        lemma_last_paint_concat(joined(rest), parts.last(), col, row);
    }
}

} // verus!
