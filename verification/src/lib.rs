//! Parsing, rendering and geometry for A1 spreadsheet references.
//!
//! A reference such as `"B2"`, `"A:C"`, `"3:3"`, `"Sheet1!A1:C3"` or
//! `"A1,B2,C3:D4"` is parsed into a structured, zero-based form
//! ([`RangeOrCell`] wrapped by [`A1`]), which supports containment tests,
//! translation, axis overrides, enumeration and rendering back to text.
//! Columns are written with letters `A`-`Z` and rows with one-based
//! numbers, so position `(0, 0)` - the top left corner - is `"A1"`.

mod a1;
mod a1_builder;
mod address;
mod chars;
mod column;
mod error;
mod iterator;
mod laws;
mod numerals;
mod parse;
mod position;
mod range_or_cell;
mod render;
mod row;
mod shift;
mod text;

pub use a1::A1;
pub use a1_builder::{A1Builder, RangeBuilder};
pub use address::Address;
pub use column::Column;
pub use error::Error;
pub use iterator::{
    A1IntoIterator, A1Iterator, HorizontalDirection, RangeOrCellIntoIterator, RangeOrCellIterator,
    VerticalDirection,
};
pub use position::Position;
pub use range_or_cell::RangeOrCell;
pub use row::Row;
pub use shift::Shift;

use vstd::prelude::*;

verus! {

/// Zero-based column or row index.
pub type Index = usize;

/// Create an `A1` referencing the cell at the given zero-based `(x, y)`.
pub fn cell(x: Index, y: Index) -> (r: A1)
    ensures
        r.sheet_name is None,
        r.reference@ == range_or_cell::RefView::Cell(
            Address { column: Column { absolute: false, x }, row: Row { absolute: false, y } },
        ),
{
    A1 { sheet_name: None, reference: RangeOrCell::Cell(Address::new(x, y)) }
}

/// Parse an A1-style string into an `A1`.
pub fn new(s: &str) -> (r: Result<A1, Error>)
    ensures
        match r {
            Ok(a) => parse::parse_a1_model(s@) == Some(
                (parse::opt_str_view(a.sheet_name), a.reference@),
            ),
            Err(e) => parse::parse_a1_model(s@) is None && e is A1ParseError,
        },
{
    A1::parse(s)
}

/// Create a range between the two given zero-based `(x, y)` cells.
pub fn range(from: (Index, Index), to: (Index, Index)) -> (r: A1)
    ensures
        r.sheet_name is None,
        r.reference@ == (range_or_cell::RefView::Range {
            from: Address {
                column: Column { absolute: false, x: from.0 },
                row: Row { absolute: false, y: from.1 },
            },
            to: Address {
                column: Column { absolute: false, x: to.0 },
                row: Row { absolute: false, y: to.1 },
            },
        }),
{
    A1 {
        sheet_name: None,
        reference: RangeOrCell::Range {
            from: Address::new(from.0, from.1),
            to: Address::new(to.0, to.1),
        },
    }
}

/// An entire column.
pub fn column(x: Index) -> (r: A1)
    ensures
        r.sheet_name is None,
        r.reference@ == (range_or_cell::RefView::ColumnRange {
            from: Column { absolute: false, x },
            to: Column { absolute: false, x },
        }),
{
    A1 { sheet_name: None, reference: RangeOrCell::column(x) }
}

/// A range between two columns.
pub fn column_range(xa: Index, xb: Index) -> (r: A1)
    ensures
        r.sheet_name is None,
        r.reference@ == (range_or_cell::RefView::ColumnRange {
            from: Column { absolute: false, x: xa },
            to: Column { absolute: false, x: xb },
        }),
{
    A1 { sheet_name: None, reference: RangeOrCell::column_range(xa, xb) }
}

/// An entire row.
pub fn row(y: Index) -> (r: A1)
    ensures
        r.sheet_name is None,
        r.reference@ == (range_or_cell::RefView::RowRange {
            from: Row { absolute: false, y },
            to: Row { absolute: false, y },
        }),
{
    A1 { sheet_name: None, reference: RangeOrCell::row(y) }
}

/// A range between two rows.
pub fn row_range(ya: Index, yb: Index) -> (r: A1)
    ensures
        r.sheet_name is None,
        r.reference@ == (range_or_cell::RefView::RowRange {
            from: Row { absolute: false, y: ya },
            to: Row { absolute: false, y: yb },
        }),
{
    A1 { sheet_name: None, reference: RangeOrCell::row_range(ya, yb) }
}

} // verus!
