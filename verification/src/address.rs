//! A single cell: one column and one row.

use crate::column::{col_shift_left, col_shift_right, col_text, index_between, AsColumn, Column};
use crate::row::{row_shift_down, row_shift_up, row_text, AsRow, Row};
use crate::Index;
use vstd::prelude::*;
use vstd::string::StringExecFns;

verus! {

/// One cell of the sheet, as a column and row pair. An immutable value:
/// every transformation returns a new instance.
#[derive(Copy, Clone, Debug)]
pub struct Address {
    pub column: Column,
    pub row: Row,
}

/// The text of a cell: its column, then its row, with no separator.
pub open spec fn addr_text(a: Address) -> Seq<char> {
    col_text(a.column) + row_text(a.row)
}

/// Whether two addresses name the same cell; the `$` pins play no part.
pub open spec fn addr_same_cell(a: Address, b: Address) -> bool {
    a.column.x == b.column.x && a.row.y == b.row.y
}

/// Whether `p` lies in the rectangle with corners `a` and `b`, taking the
/// least and greatest index of each axis, so the corners may come in any
/// order.
pub open spec fn addr_between(p: Address, a: Address, b: Address) -> bool {
    index_between(p.column.x, a.column.x, b.column.x) && index_between(p.row.y, a.row.y, b.row.y)
}

impl AsColumn for Address {
    open spec fn as_column_spec(&self) -> Column {
        self.column
    }

    fn as_column(&self) -> (c: Column) {
        self.column
    }
}

impl AsRow for Address {
    open spec fn as_row_spec(&self) -> Row {
        self.row
    }

    fn as_row(&self) -> (r: Row) {
        self.row
    }
}

impl Address {
    /// Create the cell at the given zero-based column and row indices, with
    /// neither axis pinned.
    pub fn new(column_index: Index, row_index: Index) -> (r: Self)
        ensures
            r == (Address {
                column: Column { absolute: false, x: column_index },
                row: Row { absolute: false, y: row_index },
            }),
    {
        Address { column: Column::new(column_index), row: Row::new(row_index) }
    }

    /// Given that `a` and `b` form a finite rectangle, is `self` within it?
    pub fn is_between(&self, a: &Self, b: &Self) -> (r: bool)
        ensures
            r == addr_between(*self, *a, *b),
    {
        self.column.is_between(&a.column, &b.column) && self.row.is_between(&a.row, &b.row)
    }

    /// Shift the cell down by the given number of rows.
    pub fn shift_down(&self, rows: Index) -> (r: Self)
        ensures
            r == (Address { column: self.column, row: row_shift_down(self.row, rows) }),
    {
        Address { column: self.column, row: self.row.shift_down(rows) }
    }

    /// Shift the cell left by the given number of columns, never past the
    /// leftmost column.
    pub fn shift_left(&self, columns: Index) -> (r: Self)
        ensures
            r == (Address { column: col_shift_left(self.column, columns), row: self.row }),
    {
        Address { column: self.column.shift_left(columns), row: self.row }
    }

    /// Shift the cell right by the given number of columns.
    pub fn shift_right(&self, columns: Index) -> (r: Self)
        ensures
            r == (Address { column: col_shift_right(self.column, columns), row: self.row }),
    {
        Address { column: self.column.shift_right(columns), row: self.row }
    }

    /// Shift the cell up by the given number of rows, never past the top
    /// row.
    pub fn shift_up(&self, rows: Index) -> (r: Self)
        ensures
            r == (Address { column: self.column, row: row_shift_up(self.row, rows) }),
    {
        Address { column: self.column, row: self.row.shift_up(rows) }
    }

    /// Replace the column with a fresh, relative column at `x`.
    pub fn with_x(&self, x: Index) -> (r: Self)
        ensures
            r == (Address { column: Column { absolute: false, x }, row: self.row }),
    {
        Address { column: Column::new(x), row: self.row }
    }

    /// Replace the row with a fresh, relative row at `y`.
    pub fn with_y(&self, y: Index) -> (r: Self)
        ensures
            r == (Address { column: self.column, row: Row { absolute: false, y } }),
    {
        Address { column: self.column, row: Row::new(y) }
    }

    /// Render the cell: its column, then its row.
    pub fn to_string(&self) -> (r: String)
        ensures
            r@ == addr_text(*self),
    {
        let mut out = self.column.to_string();
        let row_part = self.row.to_string();
        out.append(row_part.as_str());
        out
    }
}

impl PartialEq for Address {
    /// Addresses compare cell by cell; the `$` pins play no part.
    fn eq(&self, other: &Self) -> (r: bool) {
        self.column.x == other.column.x && self.row.y == other.row.y
    }
}

impl vstd::std_specs::cmp::PartialEqSpecImpl for Address {
    open spec fn obeys_eq_spec() -> bool {
        true
    }

    open spec fn eq_spec(&self, other: &Address) -> bool {
        addr_same_cell(*self, *other)
    }
}

impl From<(Index, Index)> for Address {
    /// A pair of indices is a cell address: the column first, then the row.
    fn from(pair: (Index, Index)) -> (r: Self) {
        Address::new(pair.0, pair.1)
    }
}

impl vstd::std_specs::convert::FromSpecImpl<(Index, Index)> for Address {
    open spec fn obeys_from_spec() -> bool {
        true
    }

    open spec fn from_spec(pair: (Index, Index)) -> Self {
        Address {
            column: Column { absolute: false, x: pair.0 },
            row: Row { absolute: false, y: pair.1 },
        }
    }
}

impl From<Address> for Column {
    /// The column of the cell.
    fn from(a: Address) -> (r: Self) {
        a.column
    }
}

impl vstd::std_specs::convert::FromSpecImpl<Address> for Column {
    open spec fn obeys_from_spec() -> bool {
        true
    }

    open spec fn from_spec(a: Address) -> Self {
        a.column
    }
}

impl From<Address> for Row {
    /// The row of the cell.
    fn from(a: Address) -> (r: Self) {
        a.row
    }
}

impl vstd::std_specs::convert::FromSpecImpl<Address> for Row {
    open spec fn obeys_from_spec() -> bool {
        true
    }

    open spec fn from_spec(a: Address) -> Self {
        a.row
    }
}

} // verus!
