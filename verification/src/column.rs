//! A zero-based column reference.

use crate::numerals::{col_letters, push_col_letters};
use crate::text::push_char;
use crate::Index;
use vstd::prelude::*;

verus! {

/// A column of the sheet.
///
/// * `absolute` - whether the column was written with a `$` pin; a rendering
///   attribute only, ignored by equality, ordering and geometry
/// * `x` - the zero-based index of the column
#[derive(Copy, Clone, Debug, Eq)]
pub struct Column {
    pub absolute: bool,
    pub x: Index,
}

/// The text of a column on its own: an optional `$`, then its letters.
pub open spec fn col_text(c: Column) -> Seq<char> {
    if c.absolute {
        seq!['$'] + col_letters(c.x as nat)
    } else {
        col_letters(c.x as nat)
    }
}

/// Shift a column left by `n`, stopping at the leftmost column.
pub open spec fn col_shift_left(c: Column, n: usize) -> Column {
    Column { absolute: c.absolute, x: if c.x >= n { (c.x - n) as usize } else { 0 } }
}

/// Shift a column right by `n`, saturating at the largest index.
pub open spec fn col_shift_right(c: Column, n: usize) -> Column {
    Column {
        absolute: c.absolute,
        x: if c.x + n <= usize::MAX {
            (c.x + n) as usize
        } else {
            usize::MAX
        },
    }
}

/// Whether `x` lies between `a` and `b`, inclusive, in either order.
pub open spec fn index_between(x: Index, a: Index, b: Index) -> bool {
    if a <= b {
        a <= x <= b
    } else {
        b <= x <= a
    }
}

/// A value that designates a column: either a column itself or a cell
/// address, which lies in one.
pub trait AsColumn {
    /// The column this value designates.
    spec fn as_column_spec(&self) -> Column;

    /// Return the column this value designates.
    fn as_column(&self) -> (c: Column)
        ensures
            c == self.as_column_spec(),
    ;
}

impl AsColumn for Column {
    open spec fn as_column_spec(&self) -> Column {
        *self
    }

    fn as_column(&self) -> (c: Column) {
        *self
    }
}

impl Column {
    /// Create a new `Column` (with `absolute`: `false`).
    pub fn new(x: Index) -> (r: Self)
        ensures
            r == (Column { absolute: false, x }),
    {
        Column { absolute: false, x }
    }

    /// Is `self` (inclusively) between the given `a` and `b` columns?
    pub fn is_between(&self, a: &Self, b: &Self) -> (r: bool)
        ensures
            r == index_between(self.x, a.x, b.x),
    {
        let lo = if a.x <= b.x {
            a.x
        } else {
            b.x
        };
        let hi = if a.x <= b.x {
            b.x
        } else {
            a.x
        };
        lo <= self.x && self.x <= hi
    }

    /// Does `self` contain the given column or address? Either it is the
    /// same column, or a point within the column.
    pub fn contains<T: AsColumn>(&self, other: T) -> (r: bool)
        ensures
            r == (self.x == other.as_column_spec().x),
    {
        self.x == other.as_column().x
    }

    /// Shift the column left by the given amount, never past the leftmost
    /// column.
    pub fn shift_left(&self, columns: Index) -> (r: Self)
        ensures
            r == col_shift_left(*self, columns),
    {
        Column {
            absolute: self.absolute,
            x: if self.x >= columns {
                self.x - columns
            } else {
                0
            },
        }
    }

    /// Shift the column right by the given amount, saturating at the largest
    /// index.
    pub fn shift_right(&self, columns: Index) -> (r: Self)
        ensures
            r == col_shift_right(*self, columns),
    {
        Column {
            absolute: self.absolute,
            x: if columns <= usize::MAX - self.x {
                self.x + columns
            } else {
                usize::MAX
            },
        }
    }

    /// Set the `x` and return the adjusted `Column`.
    pub fn with_x(&self, x: Index) -> (r: Self)
        ensures
            r == (Column { absolute: self.absolute, x }),
    {
        Column { absolute: self.absolute, x }
    }

    /// Compare two columns by index alone.
    pub fn cmp(&self, other: &Self) -> (r: core::cmp::Ordering)
        ensures
            r == col_order(*self, *other),
    {
        if self.x < other.x {
            core::cmp::Ordering::Less
        } else if self.x == other.x {
            core::cmp::Ordering::Equal
        } else {
            core::cmp::Ordering::Greater
        }
    }

    /// Compare two columns by index alone; always defined.
    pub fn partial_cmp(&self, other: &Self) -> (r: Option<core::cmp::Ordering>)
        ensures
            r == Some(col_order(*self, *other)),
    {
        Some(self.cmp(other))
    }

    /// Render the column as it appears standing alone on one side of a
    /// range: an optional `$`, then its letters.
    pub fn to_string(&self) -> (r: String)
        ensures
            r@ == col_text(*self),
    {
        let mut out = String::new();
        if self.absolute {
            push_char(&mut out, '$');
        }
        push_col_letters(&mut out, self.x);
        proof {
            if self.absolute {
                assert(out@ == seq!['$'] + col_letters(self.x as nat));
            } else {
                assert(out@ == Seq::<char>::empty() + col_letters(self.x as nat));
                assert(Seq::<char>::empty() + col_letters(self.x as nat) =~= col_letters(
                    self.x as nat,
                ));
            }
        }
        out
    }
}

/// The ordering of two columns, by index alone.
pub open spec fn col_order(a: Column, b: Column) -> core::cmp::Ordering {
    if a.x < b.x {
        core::cmp::Ordering::Less
    } else if a.x == b.x {
        core::cmp::Ordering::Equal
    } else {
        core::cmp::Ordering::Greater
    }
}

impl PartialEq for Column {
    /// Columns compare by index alone; the `$` pin plays no part.
    fn eq(&self, other: &Self) -> (r: bool) {
        self.x == other.x
    }
}

impl vstd::std_specs::cmp::PartialEqSpecImpl for Column {
    open spec fn obeys_eq_spec() -> bool {
        true
    }

    open spec fn eq_spec(&self, other: &Column) -> bool {
        self.x == other.x
    }
}

impl From<Index> for Column {
    /// A bare index is a relative column.
    fn from(index: Index) -> (r: Self) {
        Column::new(index)
    }
}

impl vstd::std_specs::convert::FromSpecImpl<Index> for Column {
    open spec fn obeys_from_spec() -> bool {
        true
    }

    open spec fn from_spec(index: Index) -> Self {
        Column { absolute: false, x: index }
    }
}

} // verus!
