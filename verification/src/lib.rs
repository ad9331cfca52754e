//! A small collection of verified building blocks: a Fibonacci function, a
//! task record, a rectangular sheet of typed cells with column queries, and a
//! 128-bit item identifier with a hexadecimal text form.

pub mod cell;
pub mod fibonacci;
pub mod grid;
pub mod item_id;
pub mod sheet;
pub mod task;

pub use cell::{Cell, CellView, Value, ValueView};
pub use fibonacci::fib;
pub use grid::Grid;
pub use item_id::{make_id, ItemId, ParseItemIdError};
pub use sheet::{AverageTerm, Sheet};
pub use task::Task;
