//! A fluent builder for `A1` references.

use crate::a1::A1;
use crate::address::Address;
use crate::column::Column;
use crate::error::Error;
use crate::parse::{opt_str_view, parse_a1_model};
use crate::range_or_cell::{RangeOrCell, RefView};
use crate::row::Row;
use vstd::prelude::*;
use vstd::string::StringExecFns;

verus! {

/// Builds an `A1` step by step; call one of the setters, then `build`.
#[derive(Debug, Default)]
pub struct A1Builder {
    pub sheet_name: Option<String>,
    pub cell: Option<RangeOrCell>,
}

/// Builds a bounded range from two cell-shaped `A1`s.
#[derive(Debug, Default)]
pub struct RangeBuilder {
    pub parent_builder: A1Builder,
    pub from: Option<A1>,
    pub to: Option<A1>,
}

impl A1Builder {
    /// Finish building. Fails when no reference was set.
    pub fn build(self) -> (r: Result<A1, Error>)
        ensures
            match self.cell {
                Some(c) => r matches Ok(a) && a.sheet_name == self.sheet_name && a.reference == c,
                None => r matches Err(e) && e is A1ParseError,
            },
    {
        match self.cell {
            Some(c) => Ok(A1 { reference: c, sheet_name: self.sheet_name }),
            None => Err(Error::parse_error(
                String::new(),
                String::from_str("`build()` called without any reference set"),
            )),
        }
    }

    /// Parse the given string and take its sheet name and reference.
    pub fn a1str(self, a1_str: &str) -> (r: Result<Self, Error>)
        ensures
            match r {
                Ok(b) => b.cell matches Some(c) && parse_a1_model(a1_str@) == Some(
                    (opt_str_view(b.sheet_name), c@),
                ),
                Err(e) => parse_a1_model(a1_str@) is None && e is A1ParseError,
            },
    {
        let a1 = match A1::parse(a1_str) {
            Ok(a) => a,
            Err(e) => {
                return Err(e);
            },
        };
        Ok(A1Builder { cell: Some(a1.reference), sheet_name: a1.sheet_name })
    }

    /// Move on to building a bounded range.
    pub fn range(self) -> (r: RangeBuilder)
        ensures
            r.parent_builder == self,
            r.from is None,
            r.to is None,
    {
        RangeBuilder { parent_builder: self, from: None, to: None }
    }

    /// Set the sheet name.
    pub fn sheet_name(self, sheet_name: &str) -> (r: Self)
        ensures
            r.sheet_name matches Some(n) && n@ == sheet_name@,
            r.cell == self.cell,
    {
        A1Builder { sheet_name: Some(sheet_name.to_owned()), cell: self.cell }
    }

    /// Use the whole column at index `v`.
    pub fn x(self, v: usize) -> (r: Self)
        ensures
            r.cell matches Some(c) && c@ == (RefView::ColumnRange {
                from: Column { absolute: false, x: v },
                to: Column { absolute: false, x: v },
            }),
            r.sheet_name == self.sheet_name,
    {
        A1Builder {
            cell: Some(RangeOrCell::ColumnRange { from: Column::new(v), to: Column::new(v) }),
            sheet_name: self.sheet_name,
        }
    }

    /// Use the single cell at `(xv, yv)`.
    pub fn xy(self, xv: usize, yv: usize) -> (r: Self)
        ensures
            r.cell matches Some(c) && c@ == RefView::Cell(
                Address {
                    column: Column { absolute: false, x: xv },
                    row: Row { absolute: false, y: yv },
                },
            ),
            r.sheet_name == self.sheet_name,
    {
        A1Builder {
            cell: Some(RangeOrCell::Cell(Address::new(xv, yv))),
            sheet_name: self.sheet_name,
        }
    }

    /// Use the whole row at index `v`.
    pub fn y(self, v: usize) -> (r: Self)
        ensures
            r.cell matches Some(c) && c@ == (RefView::RowRange {
                from: Row { absolute: false, y: v },
                to: Row { absolute: false, y: v },
            }),
            r.sheet_name == self.sheet_name,
    {
        A1Builder {
            cell: Some(RangeOrCell::RowRange { from: Row::new(v), to: Row::new(v) }),
            sheet_name: self.sheet_name,
        }
    }
}

impl RangeBuilder {
    /// Set where the range begins.
    pub fn from(self, b: A1) -> (r: Self)
        ensures
            r.from == Some(b),
            r.to == self.to,
            r.parent_builder == self.parent_builder,
    {
        RangeBuilder { from: Some(b), to: self.to, parent_builder: self.parent_builder }
    }

    /// Set where the range ends.
    pub fn to(self, b: A1) -> (r: Self)
        ensures
            r.to == Some(b),
            r.from == self.from,
            r.parent_builder == self.parent_builder,
    {
        RangeBuilder { to: Some(b), from: self.from, parent_builder: self.parent_builder }
    }

    /// Finish building. Both `from` and `to` must have been set, and each
    /// must hold a single cell rather than a range.
    pub fn build(self) -> (r: Result<A1, Error>)
        ensures
            match (self.from, self.to) {
                (Some(f), Some(t)) => match (f.reference, t.reference) {
                    (RangeOrCell::Cell(fp), RangeOrCell::Cell(tp)) => r matches Ok(a)
                        && a.sheet_name == self.parent_builder.sheet_name && a.reference
                        == (RangeOrCell::Range { from: fp, to: tp }),
                    _ => r matches Err(e) && e is A1ParseError,
                },
                _ => r matches Err(e) && e is A1ParseError,
            },
    {
        let parent_builder = self.parent_builder;
        if let Some(from) = self.from {
            if let Some(to) = self.to {
                return match from.reference {
                    RangeOrCell::Cell(from_p) => match to.reference {
                        RangeOrCell::Cell(to_p) => Ok(
                            A1 {
                                sheet_name: parent_builder.sheet_name,
                                reference: RangeOrCell::Range { from: from_p, to: to_p },
                            },
                        ),
                        _ => Err(Error::parse_error(
                            String::new(),
                            String::from_str("`to` must be a cell and not a range"),
                        )),
                    },
                    _ => Err(Error::parse_error(
                        String::new(),
                        String::from_str("`from` must be a cell and not a range"),
                    )),
                };
            }
        }
        Err(Error::parse_error(
            String::new(),
            String::from_str("You must specify both `to` and `from` to build a range"),
        ))
    }
}

} // verus!
