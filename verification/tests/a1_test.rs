//! Tests of the `A1` type: containment, shifting, rendering and parsing,
//! and the round trip from a string and back.

use a1_notation::{A1, RangeOrCell};
use std::str::FromStr;

#[test]
fn contains_different_name() {
    let a1_a = A1 {
        sheet_name: Some("Something".to_string()),
        reference: RangeOrCell::Cell((1, 1).into()),
    };
    let a1_b = A1 {
        sheet_name: Some("Something else".to_string()),
        reference: RangeOrCell::Cell((1, 1).into()),
    };

    assert!(!a1_a.contains(&a1_b));
}

#[test]
fn contains_true() {
    let a1_a = A1 {
        sheet_name: None,
        reference: RangeOrCell::Cell((1, 1).into()),
    };
    let a1_b = A1 {
        sheet_name: None,
        reference: RangeOrCell::Cell((1, 1).into()),
    };

    assert!(a1_a.contains(&a1_b));
}

#[test]
fn display() {
    let a1 = A1 {
        sheet_name: Some("Test1".to_string()),
        reference: RangeOrCell::Cell((1, 1).into()),
    };

    assert_eq!("Test1!B2", a1.to_string());
}

#[test]
fn display_without_sheet_name() {
    let a1 = A1 {
        sheet_name: None,
        reference: RangeOrCell::Cell((0, 0).into()),
    };

    assert_eq!("A1", a1.to_string());
}

#[test]
fn display_range() {
    let a1 = A1 {
        sheet_name: None,
        reference: RangeOrCell::ColumnRange {
            from: 1.into(),
            to: 5.into(),
        },
    };

    assert_eq!("B:F", a1.to_string());
}

#[test]
fn from_str() {
    let a1 = A1 {
        sheet_name: None,
        reference: RangeOrCell::Cell((0, 0).into()),
    };

    assert_eq!(a1, A1::from_str("A1").unwrap());
}

#[test]
fn from_str_sheet_name() {
    let a1 = A1 {
        sheet_name: Some("Foo".to_string()),
        reference: RangeOrCell::Cell((0, 0).into()),
    };

    assert_eq!(a1, A1::from_str("Foo!A1").unwrap());
}

#[test]
fn shift_down() {
    let a1 = A1 {
        sheet_name: Some("Test1".to_string()),
        reference: RangeOrCell::Cell((1, 1).into()),
    };

    assert_eq!("Test1!B3", a1.shift_down(1).to_string());
}

#[test]
fn shift_left() {
    let a1 = A1 {
        sheet_name: Some("Test1".to_string()),
        reference: RangeOrCell::Cell((1, 1).into()),
    };

    assert_eq!("Test1!A2", a1.shift_left(1).to_string());
}

#[test]
fn shift_right() {
    let a1 = A1 {
        sheet_name: None,
        reference: RangeOrCell::Cell((1, 1).into()),
    };

    assert_eq!("C2", a1.shift_right(1).to_string());
}

#[test]
fn shift_up() {
    let a1 = A1 {
        sheet_name: None,
        reference: RangeOrCell::Cell((1, 1).into()),
    };

    assert_eq!("B1", a1.shift_up(1).to_string());
}

#[test]
fn with_sheet_name() {
    let a1 = A1 {
        sheet_name: None,
        reference: RangeOrCell::Cell((1, 1).into()),
    };

    assert_eq!(Some("foo".to_string()), a1.with_sheet_name("foo").sheet_name);
}

#[test]
fn with_x() {
    let a1 = A1 {
        sheet_name: None,
        reference: RangeOrCell::Cell((1, 1).into()),
    };

    assert_eq!("F2", a1.with_x(5).to_string());
}

#[test]
fn with_y() {
    let a1 = A1 {
        sheet_name: None,
        reference: RangeOrCell::Cell((1, 1).into()),
    };

    assert_eq!("B22", a1.with_y(21).to_string());
}

#[test]
fn without_sheet_name() {
    let a1 = A1 {
        sheet_name: Some("foo".to_string()),
        reference: RangeOrCell::Cell((1, 1).into()),
    };

    assert_eq!(None, a1.without_sheet_name().sheet_name);
}

#[test]
fn test_a1_to_and_from() {
    assert_eq!("A1", A1::from_str("A1").unwrap().to_string());

    assert_eq!("Foo!A:C", A1::from_str("Foo!A:C").unwrap().to_string());
}

#[test]
fn test_a1_to_and_from_absolute() {
    assert_eq!("$A$1", A1::from_str("$A$1").unwrap().to_string());

    assert_eq!("Foo!$A:$C", A1::from_str("Foo!$A:$C").unwrap().to_string());
}

#[test]
fn rkyv_test_a1_to_and_from() {
    assert_eq!("A1", a1_notation::new("A1").unwrap().to_string());
}
