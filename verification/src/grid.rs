//! Grids: rows of cells, as a caller assembles them.

use vstd::prelude::*;
use crate::cell::{cells_view, Cell, CellView};

verus! {

/// An ordered sequence of rows, each an ordered sequence of cells.
///
/// Nothing is required of the row lengths here; a [`crate::Sheet`] accepts
/// only the grids that are rectangular.
#[derive(Debug)]
pub struct Grid(pub Vec<Vec<Cell>>);

impl View for Grid {
    type V = Seq<Seq<CellView>>;

    open spec fn view(&self) -> Seq<Seq<CellView>> {
        Seq::new(self.0@.len(), |i: int| cells_view(self.0@[i]@))
    }
}

/// Every row is as long as the first one. A grid without rows is rectangular.
pub open spec fn rectangular(rows: Seq<Seq<CellView>>) -> bool {
    forall|i: int| 0 <= i < rows.len() ==> (#[trigger] rows[i]).len() == rows[0].len()
}

/// Two rows of different lengths anywhere in a grid make it non-rectangular.
pub proof fn lemma_differing_rows_not_rectangular(rows: Seq<Seq<CellView>>, i: int, j: int)
    requires
        0 <= i < rows.len(),
        0 <= j < rows.len(),
        rows[i].len() != rows[j].len(),
    ensures
        !rectangular(rows),
{
}

/// A grid that is not rectangular has a row whose length differs from that of
/// the first row.
pub proof fn lemma_not_rectangular_has_differing_rows(rows: Seq<Seq<CellView>>)
    requires
        !rectangular(rows),
    ensures
        exists|i: int| 0 < i < rows.len() && (#[trigger] rows[i]).len() != rows[0].len(),
{
    let i = choose|i: int| 0 <= i < rows.len() && (#[trigger] rows[i]).len() != rows[0].len();
    assert(0 < i < rows.len() && rows[i].len() != rows[0].len());
}

impl Grid {
    /// Tells whether every row has the length of the first row.
    pub fn is_rectangular(&self) -> (r: bool)
        ensures
            r == rectangular(self@),
    {
        let mut i: usize = 0;
        while i < self.0.len()
            invariant
                i <= self.0.len(),
                forall|k: int| 0 <= k < i ==> (#[trigger] self@[k]).len() == self@[0].len(),
            decreases self.0.len() - i,
        {
            if self.0[i].len() != self.0[0].len() {
                assert(self@[i as int].len() != self@[0].len());
                return false;
            }
            i += 1;
        }
        true
    }
}

} // verus!
