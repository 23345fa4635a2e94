//! Tests of the scalar `Column` and `Row` types: containment, ranges,
//! shifting, parsing, rendering, ordering and conversions.

use a1_notation::{Address, Column, Row, A1, RangeOrCell};
use std::cmp::Ordering;
use std::str::FromStr;

#[test]
fn contains_false() {
    assert!(!Column::new(5).contains(Column::new(50)));
    assert!(!Column::new(5).contains(Address::new(50, 10)));
}

#[test]
fn scalar_contains_true() {
    assert!(Column::new(5).contains(Column::new(5)));
    assert!(Column::new(5).contains(Address::new(5, 10)));

    assert!(Row::new(0).contains(Row::new(0)));
    assert!(Row::new(0).contains(Address::new(0, 0)));
    assert!(Row::new(0).contains(Address::new(10, 0)));
}

#[test]
fn mod_contains_false() {
    assert!(!Row::new(0).contains(Row::new(1)));
    assert!(!Row::new(0).contains(Address::new(1, 1)));
    assert!(!Row::new(0).contains(Address::new(100, 10)));
}

#[test]
fn mod_is_between_true() {
    assert!(Column::new(5).is_between(&Column::new(0), &Column::new(20)));
    assert!(Column::new(5).is_between(&Column::new(5), &Column::new(20)));

    assert!(Row::new(5).is_between(&Row::new(0), &Row::new(20)));
    assert!(Row::new(5).is_between(&Row::new(5), &Row::new(20)));
}

#[test]
fn mod_is_between_false() {
    assert!(!Column::new(5).is_between(&Column::new(0), &Column::new(2)));

    assert!(!Row::new(5).is_between(&Row::new(0), &Row::new(2)));
}

#[test]
fn scalar_shift_left() {
    assert_eq!(Column::new(5).shift_left(3), Column::new(2));
    assert_eq!(Column::new(5).shift_left(300), Column::new(0));

    assert_eq!(Address::new(2, 2).shift_left(1), (1, 2).into());
    assert_eq!(Address::new(2, 2).shift_left(10), (0, 2).into());
}

#[test]
fn scalar_shift_right() {
    assert_eq!(Column::new(5).shift_right(3), Column::new(8));

    assert_eq!(Address::new(2, 2).shift_right(1), (3, 2).into());
    assert_eq!(Address::new(2, 2).shift_right(10), (12, 2).into());
}

#[test]
fn scalar_shift_down() {
    assert_eq!(Row::new(0).shift_down(1), Row::new(1));
    assert_eq!(Row::new(100).shift_down(1000), Row::new(1100));

    assert_eq!(Address::new(2, 2).shift_down(1), (2, 3).into());
    assert_eq!(Address::new(2, 2).shift_down(10), (2, 12).into());
}

#[test]
fn scalar_shift_up() {
    assert_eq!(Row::new(10).shift_up(5), Row::new(5));
    assert_eq!(Row::new(0).shift_up(10), Row::new(0));
    assert_eq!(Row::new(100).shift_up(0), Row::new(100));

    assert_eq!(Address::new(2, 2).shift_up(1), (2, 1).into());
    assert_eq!(Address::new(2, 2).shift_up(10), (2, 0).into());
}

#[test]
fn from_str_from_str_ok() {
    let a = Column::from_str("A").unwrap();
    assert_eq!(a.x, 0);
    assert!(!a.absolute);

    let z = Column::from_str("Z").unwrap();
    assert_eq!(z.x, 25);
    assert!(!z.absolute);

    assert_eq!(Row::from_str("1").unwrap(), Row::new(0));
    assert_eq!(Row::from_str("124").unwrap(), Row::new(123));
}

#[test]
fn from_str_ok_absolute() {
    let a = Column::from_str("$A").unwrap();
    assert_eq!(a.x, 0);
    assert!(a.absolute);

    let z = Column::from_str("$Z").unwrap();
    assert_eq!(z.x, 25);
    assert!(z.absolute);
}

#[test]
fn from_str_from_str_ok_absolute() {
    assert_eq!(
        Row::from_str("$1").unwrap(),
        Row {
            y: 0,
            absolute: true
        }
    );
    assert_eq!(
        Row::from_str("$124").unwrap(),
        Row {
            y: 123,
            absolute: true
        }
    );
}

#[test]
fn from_str_from_str_err() {
    assert!(Column::from_str("123").is_err());
    assert!(Column::from_str("<foo>").is_err());
}

#[test]
fn from_str_error() {
    assert!(Row::from_str("ABC").is_err());
    assert!(Row::from_str(" ! < ").is_err());
}

#[test]
fn display_relative() {
    assert_eq!(Column::new(0).to_string(), "A");
    assert_eq!(Column::new(1).to_string(), "B");
    assert_eq!(Column::new(2).to_string(), "C");
    assert_eq!(Column::new(25).to_string(), "Z");
    assert_eq!(Column::new(26).to_string(), "AA");
}

#[test]
fn display_absolute() {
    assert_eq!(Column { absolute: true, x: 0 }.to_string(), "$A");
    assert_eq!(Column { absolute: true, x: 25 }.to_string(), "$Z");
}

#[test]
fn display_display_relative() {
    assert_eq!(Row::new(0).to_string(), "1");
    assert_eq!(Row::new(15).to_string(), "16");
    assert_eq!(Row::new(42).to_string(), "43");
    assert_eq!(Row::new(100).to_string(), "101");
}

#[test]
fn display_display_absolute() {
    assert_eq!(Row { y: 0, absolute: true }.to_string(), "$1");
    assert_eq!(Row { y: 10, absolute: true }.to_string(), "$11");
}

#[test]
fn cmp() {
    assert_eq!(Column::new(20).cmp(&Column::new(20)), Ordering::Equal);
    assert_eq!(Column::new(20).cmp(&Column::new(19)), Ordering::Greater);
    assert_eq!(Column::new(20).cmp(&Column::new(21)), Ordering::Less);
}

#[test]
fn ord_cmp() {
    assert_eq!(Row::new(20).cmp(&Row::new(20)), Ordering::Equal);
    assert_eq!(Row::new(20).cmp(&Row::new(19)), Ordering::Greater);
    assert_eq!(Row::new(20).cmp(&Row::new(21)), Ordering::Less);
}

#[test]
fn eq() {
    assert_eq!(Column::new(0), Column::new(0));
    assert_eq!(Column::new(100), Column::new(100));
    assert_ne!(Column::new(1), Column::new(100));
}

#[test]
fn partial_cmp() {
    assert_eq!(
        Column::new(5).partial_cmp(&Column::new(3)),
        Some(Ordering::Greater)
    );
    assert_eq!(
        Column::new(5).partial_cmp(&Column::new(5)),
        Some(Ordering::Equal)
    );
    assert_eq!(
        Column::new(5).partial_cmp(&Column::new(100)),
        Some(Ordering::Less)
    );
}

#[test]
fn partial_ord_partial_cmp() {
    assert_eq!(Row::new(5).partial_cmp(&Row::new(3)), Some(Ordering::Greater));
    assert_eq!(Row::new(5).partial_cmp(&Row::new(5)), Some(Ordering::Equal));
    assert_eq!(Row::new(5).partial_cmp(&Row::new(100)), Some(Ordering::Less));
}

#[test]
fn into_column() {
    assert_eq!(
        RangeOrCell::ColumnRange {
            from: Column::new(0),
            to: Column::new(0),
        },
        Column::new(0).into()
    );
}

#[test]
fn into_a1() {
    assert_eq!(
        A1 {
            sheet_name: None,
            reference: RangeOrCell::ColumnRange {
                from: Column::new(0),
                to: Column::new(0),
            },
        },
        Column::new(0).into()
    );
}

#[test]
fn into_row() {
    assert_eq!(
        RangeOrCell::RowRange {
            from: Row::new(0),
            to: Row::new(0),
        },
        Row::new(0).into()
    );
}

#[test]
fn into_into_a1() {
    assert_eq!(
        A1 {
            sheet_name: None,
            reference: RangeOrCell::RowRange {
                from: Row::new(0),
                to: Row::new(0),
            },
        },
        Row::new(0).into()
    );
}
