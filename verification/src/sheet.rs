//! Sheets: rectangular grids with read-only column queries.

use vstd::prelude::*;
use crate::cell::{cells_view, Cell, CellView, Value};
use crate::grid::{rectangular, Grid};

verus! {

/// One row's share of a column average: the number found in the column, as
/// its binary64 bit pattern, and the length of the row it was found in. The
/// share itself is the number divided by that length.
#[derive(Debug, Clone, Copy, PartialEq, Eq)]
pub struct AverageTerm {
    pub value: u64,
    pub row_len: usize,
}

/// The number of columns: the length of the first row, or 0 without rows.
pub open spec fn spec_width(rows: Seq<Seq<CellView>>) -> nat {
    if rows.len() == 0 {
        0
    } else {
        rows[0].len()
    }
}

/// Every row has a cell at `column`.
pub open spec fn covers_column(rows: Seq<Seq<CellView>>, column: int) -> bool {
    forall|i: int| 0 <= i < rows.len() ==> 0 <= column < (#[trigger] rows[i]).len()
}

/// The cells at `column`, one per row, in row order.
pub open spec fn spec_column(rows: Seq<Seq<CellView>>, column: int) -> Seq<CellView> {
    Seq::new(rows.len(), |i: int| rows[i][column])
}

/// The row has a cell at `column`, and that cell holds a number.
pub open spec fn has_number_at(row: Seq<CellView>, column: int) -> bool {
    0 <= column < row.len() && row[column].value is Number
}

/// The term that a row with a number at `column` adds to the column average.
pub open spec fn term_at(row: Seq<CellView>, column: int) -> AverageTerm {
    AverageTerm { value: row[column].value->Number_0, row_len: row.len() as usize }
}

/// The terms of the average of `column`: one for each row that has a number
/// there, in row order. Rows that are too short, or hold a text or a
/// reference at `column`, add none.
pub open spec fn spec_average_terms(rows: Seq<Seq<CellView>>, column: int) -> Seq<AverageTerm> {
    rows.filter(|row: Seq<CellView>| has_number_at(row, column)).map_values(
        |row: Seq<CellView>| term_at(row, column),
    )
}

/// Appending a row appends its term, if it has one.
pub proof fn lemma_average_terms_push(rows: Seq<Seq<CellView>>, row: Seq<CellView>, column: int)
    ensures
        spec_average_terms(rows.push(row), column) == if has_number_at(row, column) {
            spec_average_terms(rows, column).push(term_at(row, column))
        } else {
            spec_average_terms(rows, column)
        },
{
    reveal(Seq::filter);
    assert(rows.push(row).drop_last() == rows);
}

/// The terms of two stacked grids are the terms of the upper grid followed by
/// those of the lower one.
pub proof fn lemma_average_terms_add(
    upper: Seq<Seq<CellView>>,
    lower: Seq<Seq<CellView>>,
    column: int,
)
    ensures
        spec_average_terms(upper + lower, column) == spec_average_terms(upper, column)
            + spec_average_terms(lower, column),
    decreases lower.len(),
{
    if lower.len() == 0 {
        assert(upper + lower == upper);
        assert(spec_average_terms(lower, column) == Seq::<AverageTerm>::empty()) by {
            reveal(Seq::filter);
        }
    } else {
        let row = lower.last();
        lemma_average_terms_add(upper, lower.drop_last(), column);
        lemma_average_terms_push(upper + lower.drop_last(), row, column);
        lemma_average_terms_push(lower.drop_last(), row, column);
        assert((upper + lower.drop_last()).push(row) == upper + lower);
        assert(lower.drop_last().push(row) == lower);
    }
}

/// A grid whose rows all have length `len` is rectangular, and `len` is its
/// width unless it has no rows, in which case its width is 0.
pub proof fn lemma_width_of_equal_rows(rows: Seq<Seq<CellView>>, len: nat)
    requires
        forall|i: int| 0 <= i < rows.len() ==> (#[trigger] rows[i]).len() == len,
    ensures
        rectangular(rows),
        rows.len() > 0 ==> spec_width(rows) == len,
        rows.len() == 0 ==> spec_width(rows) == 0,
{
}

/// In a rectangular grid with at least one row, the columns that every row
/// has are exactly those below the width.
pub proof fn lemma_covers_column_below_width(rows: Seq<Seq<CellView>>, column: int)
    requires
        rectangular(rows),
        rows.len() > 0,
    ensures
        covers_column(rows, column) <==> 0 <= column < spec_width(rows),
{
    if covers_column(rows, column) {
        let first = rows[0];
        assert(0 <= column < first.len());
    }
}

/// A grid without rows has every column: there is no row to lack it.
pub proof fn lemma_covers_column_without_rows(rows: Seq<Seq<CellView>>, column: int)
    requires
        rows.len() == 0,
    ensures
        covers_column(rows, column),
{
}

/// The column extracted from a grid has one cell per row, and its `i`-th cell
/// is the cell of row `i` at that column.
pub proof fn lemma_column_cells(rows: Seq<Seq<CellView>>, column: int)
    ensures
        spec_column(rows, column).len() == rows.len(),
        forall|i: int|
            0 <= i < rows.len() ==> (#[trigger] spec_column(rows, column)[i]) == rows[i][column],
{
}

/// A grid without rows has no terms, so the average of any of its columns is
/// the empty sum.
pub proof fn lemma_average_terms_without_rows(rows: Seq<Seq<CellView>>, column: int)
    requires
        rows.len() == 0,
    ensures
        spec_average_terms(rows, column) == Seq::<AverageTerm>::empty(),
{
    reveal(Seq::filter);
}

/// Where every row has length `len` and holds a number at `column`, there is
/// one term per row, in row order: the number of that row over `len`.
pub proof fn lemma_average_terms_all_numbers(rows: Seq<Seq<CellView>>, column: int, len: nat)
    requires
        forall|i: int| 0 <= i < rows.len() ==> (#[trigger] rows[i]).len() == len,
        forall|i: int| 0 <= i < rows.len() ==> has_number_at(#[trigger] rows[i], column),
    ensures
        spec_average_terms(rows, column) == Seq::new(
            rows.len(),
            |i: int| AverageTerm { value: rows[i][column].value->Number_0, row_len: len as usize },
        ),
    decreases rows.len(),
{
    if rows.len() == 0 {
        lemma_average_terms_without_rows(rows, column);
    } else {
        let upper = rows.drop_last();
        lemma_average_terms_all_numbers(upper, column, len);
        lemma_average_terms_push(upper, rows.last(), column);
        assert(upper.push(rows.last()) == rows);
    }
}

/// A row that is too short for `column`, or holds a text or a reference
/// there, adds nothing: the terms are those of the grid without that row.
pub proof fn lemma_average_terms_skip_row(rows: Seq<Seq<CellView>>, column: int, i: int)
    requires
        0 <= i < rows.len(),
        !has_number_at(rows[i], column),
    ensures
        spec_average_terms(rows, column) == spec_average_terms(rows.remove(i), column),
{
    let upper = rows.take(i);
    let lower = rows.skip(i + 1);
    lemma_average_terms_push(upper, rows[i], column);
    lemma_average_terms_add(upper.push(rows[i]), lower, column);
    lemma_average_terms_add(upper, lower, column);
    assert(upper.push(rows[i]) + lower == rows);
    assert(upper + lower == rows.remove(i));
}

/// Where no row has a number at `column`, there are no terms.
pub proof fn lemma_average_terms_no_numbers(rows: Seq<Seq<CellView>>, column: int)
    requires
        forall|i: int| 0 <= i < rows.len() ==> !has_number_at(#[trigger] rows[i], column),
    ensures
        spec_average_terms(rows, column) == Seq::<AverageTerm>::empty(),
    decreases rows.len(),
{
    if rows.len() == 0 {
        lemma_average_terms_without_rows(rows, column);
    } else {
        let upper = rows.drop_last();
        lemma_average_terms_no_numbers(upper, column);
        lemma_average_terms_push(upper, rows.last(), column);
        assert(upper.push(rows.last()) == rows);
    }
}

/// An immutable handle on a rectangular grid.
pub struct Sheet {
    grid: Grid,
}

impl View for Sheet {
    type V = Seq<Seq<CellView>>;

    closed spec fn view(&self) -> Seq<Seq<CellView>> {
        self.grid@
    }
}

impl Sheet {
    #[verifier::type_invariant]
    spec fn well_formed(self) -> bool {
        rectangular(self.grid@)
    }

    /// Wraps a rectangular grid.
    pub fn new(grid: Grid) -> (sheet: Self)
        requires
            rectangular(grid@),
        ensures
            sheet@ == grid@,
    {
        Sheet { grid }
    }

    /// The terms whose sum is the average of `column`, in row order.
    pub fn average_terms(&self, column: u32) -> (terms: Vec<AverageTerm>)
        ensures
            terms@ == spec_average_terms(self@, column as int),
    {
        let mut terms: Vec<AverageTerm> = Vec::new();
        let mut i: usize = 0;
        assert(self@.take(0) == Seq::<Seq<CellView>>::empty());
        while i < self.grid.0.len()
            invariant
                i <= self.grid.0.len(),
                terms@ == spec_average_terms(self@.take(i as int), column as int),
            decreases self.grid.0.len() - i,
        {
            let row = &self.grid.0[i];
            proof {
                lemma_average_terms_push(self@.take(i as int), self@[i as int], column as int);
                assert(self@.take(i as int).push(self@[i as int]) == self@.take(i + 1));
            }
            if (column as usize) < row.len() {
                if let Value::Number(bits) = &row[column as usize].value {
                    terms.push(AverageTerm { value: *bits, row_len: row.len() });
                }
            }
            i += 1;
        }
        assert(self@.take(i as int) == self@);
        terms
    }

    /// Tells whether every row has a cell at `column`.
    pub fn has_column(&self, column: u32) -> (r: bool)
        ensures
            r == covers_column(self@, column as int),
    {
        proof {
            use_type_invariant(self);
        }
        if self.grid.0.len() == 0 {
            true
        } else {
            let r = (column as usize) < self.grid.0[0].len();
            proof {
                if !r {
                    assert(!(column < self@[0].len()));
                }
            }
            r
        }
    }

    /// Copies the cell at `column` out of every row, in row order.
    pub fn get_column(&self, column: u32) -> (cells: Vec<Cell>)
        requires
            covers_column(self@, column as int),
        ensures
            cells_view(cells@) == spec_column(self@, column as int),
    {
        let mut cells: Vec<Cell> = Vec::new();
        let mut i: usize = 0;
        while i < self.grid.0.len()
            invariant
                i <= self.grid.0.len(),
                covers_column(self@, column as int),
                cells@.len() == i,
                forall|k: int| 0 <= k < i ==> (#[trigger] cells@[k])@ == self@[k][column as int],
            decreases self.grid.0.len() - i,
        {
            assert(column < self@[i as int].len());
            let cell = self.grid.0[i][column as usize].clone();
            cells.push(cell);
            i += 1;
        }
        cells
    }

    /// The number of columns, which is the length of every row, reduced to 32
    /// bits.
    pub fn width(&self) -> (r: u32)
        ensures
            rectangular(self@),
            r as int == spec_width(self@) % 0x1_0000_0000,
            spec_width(self@) <= u32::MAX ==> r == spec_width(self@),
    {
        proof {
            use_type_invariant(self);
        }
        if self.grid.0.len() == 0 {
            return 0;
        }
        let n: usize = self.grid.0[0].len();
        let ghost wide: u64 = n as u64;
        assert(wide as u32 == wide % 0x1_0000_0000) by (bit_vector);
        #[verifier::truncate]
        (n as u32)
    }

    /// The number of rows, reduced to 32 bits.
    pub fn height(&self) -> (r: u32)
        ensures
            r as int == self@.len() % 0x1_0000_0000,
            self@.len() <= u32::MAX ==> r == self@.len(),
    {
        let n: usize = self.grid.0.len();
        let ghost wide: u64 = n as u64;
        assert(wide as u32 == wide % 0x1_0000_0000) by (bit_vector);
        #[verifier::truncate]
        (n as u32)
    }
}

} // verus!
