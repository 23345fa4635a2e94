//! A zero-based row reference.

use crate::numerals::{dec_digits, push_dec_digits};
use crate::text::push_char;
use crate::Index;
use vstd::prelude::*;

verus! {

/// A row of the sheet.
///
/// * `absolute` - whether the row was written with a `$` pin; a rendering
///   attribute only, ignored by equality, ordering and geometry
/// * `y` - the zero-based index of the row: for `A1` it is 0, for `A2` it
///   is 1, and so on
#[derive(Copy, Clone, Debug, Eq)]
pub struct Row {
    pub absolute: bool,
    pub y: Index,
}

/// The text of a row on its own: an optional `$`, then its one-based number
/// in decimal.
pub open spec fn row_text(r: Row) -> Seq<char> {
    if r.absolute {
        seq!['$'] + dec_digits((r.y + 1) as nat)
    } else {
        dec_digits((r.y + 1) as nat)
    }
}

/// Shift a row up by `n`, stopping at the top row.
pub open spec fn row_shift_up(r: Row, n: usize) -> Row {
    Row { absolute: r.absolute, y: if r.y >= n { (r.y - n) as usize } else { 0 } }
}

/// Shift a row down by `n`, saturating at the largest index.
pub open spec fn row_shift_down(r: Row, n: usize) -> Row {
    Row {
        absolute: r.absolute,
        y: if r.y + n <= usize::MAX {
            (r.y + n) as usize
        } else {
            usize::MAX
        },
    }
}

/// The ordering of two rows, by index alone.
pub open spec fn row_order(a: Row, b: Row) -> core::cmp::Ordering {
    if a.y < b.y {
        core::cmp::Ordering::Less
    } else if a.y == b.y {
        core::cmp::Ordering::Equal
    } else {
        core::cmp::Ordering::Greater
    }
}

/// A value that designates a row: either a row itself or a cell address,
/// which lies in one.
pub trait AsRow {
    /// The row this value designates.
    spec fn as_row_spec(&self) -> Row;

    /// Return the row this value designates.
    fn as_row(&self) -> (r: Row)
        ensures
            r == self.as_row_spec(),
    ;
}

impl AsRow for Row {
    open spec fn as_row_spec(&self) -> Row {
        *self
    }

    fn as_row(&self) -> (r: Row) {
        *self
    }
}

impl Row {
    /// Create a new `Row` (with `absolute`: `false`).
    pub fn new(y: Index) -> (r: Self)
        ensures
            r == (Row { absolute: false, y }),
    {
        Row { absolute: false, y }
    }

    /// Does `self` contain the given row or address? Either it is the same
    /// row, or a point within the row.
    pub fn contains<T: AsRow>(&self, other: T) -> (r: bool)
        ensures
            r == (self.y == other.as_row_spec().y),
    {
        self.y == other.as_row().y
    }

    /// Is `self` (inclusively) between the given `a` and `b` rows?
    pub fn is_between(&self, a: &Self, b: &Self) -> (r: bool)
        ensures
            r == crate::column::index_between(self.y, a.y, b.y),
    {
        let lo = if a.y <= b.y {
            a.y
        } else {
            b.y
        };
        let hi = if a.y <= b.y {
            b.y
        } else {
            a.y
        };
        lo <= self.y && self.y <= hi
    }

    /// Shift the row down by the given amount, saturating at the largest
    /// index.
    pub fn shift_down(&self, rows: Index) -> (r: Self)
        ensures
            r == row_shift_down(*self, rows),
    {
        if rows == 0 {
            return *self;
        }
        Row {
            absolute: self.absolute,
            y: if rows <= usize::MAX - self.y {
                self.y + rows
            } else {
                usize::MAX
            },
        }
    }

    /// Shift the row up by the given amount, never past the top row.
    pub fn shift_up(&self, rows: Index) -> (r: Self)
        ensures
            r == row_shift_up(*self, rows),
    {
        if rows == 0 {
            return *self;
        }
        Row {
            absolute: self.absolute,
            y: if self.y >= rows {
                self.y - rows
            } else {
                0
            },
        }
    }

    /// Set the `y` and return the adjusted `Row`.
    pub fn with_y(&self, y: Index) -> (r: Self)
        ensures
            r == (Row { absolute: self.absolute, y }),
    {
        Row { absolute: self.absolute, y }
    }

    /// Compare two rows by index alone.
    pub fn cmp(&self, other: &Self) -> (r: core::cmp::Ordering)
        ensures
            r == row_order(*self, *other),
    {
        if self.y < other.y {
            core::cmp::Ordering::Less
        } else if self.y == other.y {
            core::cmp::Ordering::Equal
        } else {
            core::cmp::Ordering::Greater
        }
    }

    /// Compare two rows by index alone; always defined.
    pub fn partial_cmp(&self, other: &Self) -> (r: Option<core::cmp::Ordering>)
        ensures
            r == Some(row_order(*self, *other)),
    {
        Some(self.cmp(other))
    }

    /// Render the row as it appears standing alone on one side of a range:
    /// an optional `$`, then its one-based number.
    pub fn to_string(&self) -> (r: String)
        ensures
            r@ == row_text(*self),
    {
        let mut out = String::new();
        if self.absolute {
            push_char(&mut out, '$');
        }
        push_dec_digits(&mut out, self.y as u128 + 1);
        proof {
            if self.absolute {
                assert(out@ == seq!['$'] + dec_digits((self.y + 1) as nat));
            } else {
                assert(out@ =~= dec_digits((self.y + 1) as nat));
            }
        }
        out
    }
}

impl PartialEq for Row {
    /// Rows compare by index alone; the `$` pin plays no part.
    fn eq(&self, other: &Self) -> (r: bool) {
        self.y == other.y
    }
}

impl vstd::std_specs::cmp::PartialEqSpecImpl for Row {
    open spec fn obeys_eq_spec() -> bool {
        true
    }

    open spec fn eq_spec(&self, other: &Row) -> bool {
        self.y == other.y
    }
}

impl From<Index> for Row {
    /// A bare index is a relative row.
    fn from(index: Index) -> (r: Self) {
        Row::new(index)
    }
}

impl vstd::std_specs::convert::FromSpecImpl<Index> for Row {
    open spec fn obeys_from_spec() -> bool {
        true
    }

    open spec fn from_spec(index: Index) -> Self {
        Row { absolute: false, y: index }
    }
}

} // verus!
