//! Cells and the values they hold.

use vstd::prelude::*;

verus! {

/// What a cell holds: a text, a number, or a reference to another cell.
///
/// A number is a binary64 floating-point value, kept as its IEEE 754 bit
/// pattern, so two numbers are the same value exactly when their bit
/// patterns agree.
#[derive(Debug, PartialEq, Eq)]
pub enum Value {
    String(String),
    Number(u64),
    Reference { column: u32, row: u32 },
}

/// The mathematical content of a [`Value`].
pub enum ValueView {
    String(Seq<char>),
    Number(u64),
    Reference { column: u32, row: u32 },
}

impl View for Value {
    type V = ValueView;

    open spec fn view(&self) -> ValueView {
        match *self {
            Value::String(s) => ValueView::String(s@),
            Value::Number(bits) => ValueView::Number(bits),
            Value::Reference { column, row } => ValueView::Reference { column, row },
        }
    }
}

impl Clone for Value {
    fn clone(&self) -> (r: Self)
        ensures
            r == *self,
    {
        match self {
            Value::String(s) => Value::String(s.clone()),
            Value::Number(bits) => Value::Number(*bits),
            Value::Reference { column, row } => Value::Reference { column: *column, row: *row },
        }
    }
}

/// One addressed entry of a grid: a (column, row) coordinate and a value.
#[derive(Debug, PartialEq, Eq)]
pub struct Cell {
    pub id: (u32, u32),
    pub value: Value,
}

/// The mathematical content of a [`Cell`].
pub struct CellView {
    pub id: (u32, u32),
    pub value: ValueView,
}

impl View for Cell {
    type V = CellView;

    open spec fn view(&self) -> CellView {
        CellView { id: self.id, value: self.value@ }
    }
}

impl Clone for Cell {
    fn clone(&self) -> (r: Self)
        ensures
            r == *self,
    {
        Cell { id: self.id, value: self.value.clone() }
    }
}

/// The contents of a sequence of cells, cell by cell.
pub open spec fn cells_view(cells: Seq<Cell>) -> Seq<CellView> {
    Seq::new(cells.len(), |i: int| cells[i]@)
}

} // verus!
