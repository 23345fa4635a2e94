//! Tests of the `Address` type: rectangles, parsing and conversions.

use a1_notation::{Address, Column, Row, A1, RangeOrCell};
use std::str::FromStr;

#[test]
fn is_between_true() {
    let a: Address = (5, 5).into();

    assert!(a.is_between(&(0, 0).into(), &(10, 10).into()));
    assert!(a.is_between(&(4, 5).into(), &(6, 5).into()));
}

#[test]
fn is_between_false() {
    let a: Address = (5, 5).into();

    assert!(!a.is_between(&(8, 8).into(), &(10, 10).into()));
}

#[test]
fn from_str_ok() {
    assert_eq!(Address::new(0, 0), Address::from_str("A1").unwrap());
    assert_eq!(Address::new(50, 50), Address::from_str("AY51").unwrap());
}

#[test]
fn from_str_absolute() {
    let a1 = Address::from_str("$A$1").unwrap();
    assert!(a1.column.absolute);
    assert!(a1.row.absolute);

    let ay51 = Address::from_str("AY$51").unwrap();
    assert!(!ay51.column.absolute);
    assert!(ay51.row.absolute);
}

#[test]
fn from_str_err() {
    assert!(Address::from_str("").is_err());
    assert!(Address::from_str("/foo").is_err());
}

#[test]
fn address_into_a1() {
    let a1: A1 = Address::new(1, 2).into();
    assert_eq!(
        a1,
        A1 {
            sheet_name: None,
            reference: RangeOrCell::Cell(Address::new(1, 2)),
        }
    );
}

#[test]
fn address_into_column() {
    let c: Column = Address::new(1, 2).into();
    assert_eq!(c, Column::new(1));
}

#[test]
fn address_into_row() {
    let r: Row = Address::new(1, 2).into();
    assert_eq!(r, Row::new(2));
}

#[test]
fn address_into_range_or_cell() {
    let r: RangeOrCell = Address::new(1, 2).into();
    assert_eq!(r, RangeOrCell::Cell(Address::new(1, 2)));
}
