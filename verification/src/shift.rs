//! A trait for references that can be moved around the sheet.

use vstd::prelude::*;

verus! {

/// References that can be shifted around. Every shift allocates and
/// returns a new reference; since references compose, each composite
/// shifts by shifting its parts.
pub trait Shift: Sized {
    /// Shift the reference down by `rows`.
    fn shift_down(&self, rows: usize) -> Self;

    /// Shift the reference left by `columns`.
    fn shift_left(&self, columns: usize) -> Self;

    /// Shift the reference right by `columns`.
    fn shift_right(&self, columns: usize) -> Self;

    /// Shift the reference up by `rows`.
    fn shift_up(&self, rows: usize) -> Self;
}

} // verus!
