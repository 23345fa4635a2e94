//! Tests of the `A1` operations, rendering with sheet names, parsing of
//! quoted names, and enumeration with the sheet name attached.

use a1_notation::{range, A1, RangeOrCell};
use std::str::FromStr;

fn a1_to_strs(a1: &A1) -> Vec<String> {
    let mut it = a1.iter();
    let mut out: Vec<String> = Vec::new();
    while let Some(a) = it.next() {
        out.push(a.to_string());
    }
    out
}

fn a1_into_strs(a1: A1) -> Vec<String> {
    let mut it = a1.into_iter();
    let mut out: Vec<String> = Vec::new();
    while let Some(a) = it.next() {
        out.push(a.to_string());
    }
    out
}

#[test]
fn mod_contains_different_name() {
    let a1_a = A1 {
        sheet_name: Some("Something".to_string()),
        reference: RangeOrCell::Cell((1, 1).into()),
    };
    let a1_b = A1 {
        sheet_name: Some("Something else".to_string()),
        reference: RangeOrCell::Cell((1, 1).into()),
    };

    assert!(!a1_a.contains(&a1_b));
}

#[test]
fn mod_contains_true() {
    let a1_a = A1 {
        sheet_name: None,
        reference: RangeOrCell::Cell((1, 1).into()),
    };
    let a1_b = A1 {
        sheet_name: None,
        reference: RangeOrCell::Cell((1, 1).into()),
    };

    assert!(a1_a.contains(&a1_b));
}

#[test]
fn mod_shift_down() {
    let a1 = A1 {
        sheet_name: Some("Test1".to_string()),
        reference: RangeOrCell::Cell((1, 1).into()),
    };

    assert_eq!("Test1!B3", a1.shift_down(1).to_string());
}

#[test]
fn mod_shift_left() {
    let a1 = A1 {
        sheet_name: Some("Test1".to_string()),
        reference: RangeOrCell::Cell((1, 1).into()),
    };

    assert_eq!("Test1!A2", a1.shift_left(1).to_string());
}

#[test]
fn mod_shift_right() {
    let a1 = A1 {
        sheet_name: None,
        reference: RangeOrCell::Cell((1, 1).into()),
    };

    assert_eq!("C2", a1.shift_right(1).to_string());
}

#[test]
fn mod_shift_up() {
    let a1 = A1 {
        sheet_name: None,
        reference: RangeOrCell::Cell((1, 1).into()),
    };

    assert_eq!("B1", a1.shift_up(1).to_string());
}

#[test]
fn mod_with_sheet_name() {
    let a1 = A1 {
        sheet_name: None,
        reference: RangeOrCell::Cell((1, 1).into()),
    };

    assert_eq!(Some("foo".to_string()), a1.with_sheet_name("foo").sheet_name);
}

#[test]
fn mod_with_x() {
    let a1 = A1 {
        sheet_name: None,
        reference: RangeOrCell::Cell((1, 1).into()),
    };

    assert_eq!("F2", a1.with_x(5).to_string());
}

#[test]
fn mod_with_y() {
    let a1 = A1 {
        sheet_name: None,
        reference: RangeOrCell::Cell((1, 1).into()),
    };

    assert_eq!("B22", a1.with_y(21).to_string());
}

#[test]
fn mod_without_sheet_name() {
    let a1 = A1 {
        sheet_name: Some("foo".to_string()),
        reference: RangeOrCell::Cell((1, 1).into()),
    };

    assert_eq!(None, a1.without_sheet_name().sheet_name);
}

#[test]
fn display_display() {
    let a1 = A1 {
        sheet_name: Some("Test1".to_string()),
        reference: RangeOrCell::Cell((1, 1).into()),
    };

    assert_eq!("Test1!B2", a1.to_string());

    assert_eq!("A1", a1_notation::Address::new(0, 0).to_string());
    assert_eq!("C5", a1_notation::Address::new(2, 4).to_string());
    assert_eq!("AY51", a1_notation::Address::new(50, 50).to_string());
}

#[test]
fn display_quoted_sheet_name() {
    let a1 = A1 {
        sheet_name: Some("Foo Bar".to_string()),
        reference: RangeOrCell::Cell((1, 1).into()),
    };

    assert_eq!("'Foo Bar'!B2", a1.to_string());
}

#[test]
fn display_display_without_sheet_name() {
    let a1 = A1 {
        sheet_name: None,
        reference: RangeOrCell::Cell((0, 0).into()),
    };

    assert_eq!("A1", a1.to_string());
}

#[test]
fn display_display_range() {
    let a1 = A1 {
        sheet_name: None,
        reference: RangeOrCell::ColumnRange {
            from: 1.into(),
            to: 5.into(),
        },
    };

    assert_eq!("B:F", a1.to_string());

    assert_eq!(
        RangeOrCell::Range {
            from: a1_notation::Address::new(0, 0),
            to: a1_notation::Address::new(10, 10)
        }
        .to_string(),
        "A1:K11"
    );
}

#[test]
fn from_str_from_str() {
    assert_eq!(
        A1 {
            sheet_name: None,
            reference: RangeOrCell::Cell((0, 0).into()),
        },
        A1::from_str("A1").unwrap()
    );
}

#[test]
fn from_str_from_str_sheet_name() {
    assert_eq!(
        A1 {
            sheet_name: Some("Foo".to_string()),
            reference: RangeOrCell::Cell((0, 0).into()),
        },
        A1::from_str("Foo!A1").unwrap()
    );
}

#[test]
fn from_str_sheet_name_quotes() {
    assert_eq!(
        A1 {
            sheet_name: Some("Foo Bar".to_string()),
            reference: RangeOrCell::Cell((0, 0).into()),
        },
        A1::from_str("'Foo Bar'!A1").unwrap()
    );
}

#[test]
fn from_str_sheet_name_quotes_escape() {
    assert_eq!(
        A1 {
            sheet_name: Some("Foo's Bar".to_string()),
            reference: RangeOrCell::Cell((0, 0).into()),
        },
        A1::from_str("'Foo''s Bar'!A1").unwrap()
    );
}

#[test]
fn from_str_sheet_name_invalid() {
    // no closing quote
    assert!(A1::from_str("'Foo''s Bar!A1").is_err());

    // no ! after the sheet name
    assert!(A1::from_str("'Foo Bar'").is_err());
}

#[test]
fn iter_no_sheet_name() {
    assert_eq!(
        a1_to_strs(&range((0, 0), (0, 4))),
        vec!["A1", "A2", "A3", "A4", "A5"]
    );
}

#[test]
fn iter_with_sheet_name() {
    assert_eq!(
        a1_to_strs(&range((0, 0), (0, 4)).with_sheet_name("Foo")),
        vec!["Foo!A1", "Foo!A2", "Foo!A3", "Foo!A4", "Foo!A5"]
    );
}

#[test]
fn into_iter_no_sheet_name() {
    assert_eq!(
        a1_into_strs(range((0, 0), (0, 4))),
        vec!["A1", "A2", "A3", "A4", "A5"]
    );
}

#[test]
fn into_iter_with_sheet_name() {
    assert_eq!(
        a1_into_strs(range((0, 0), (0, 4)).with_sheet_name("Foo")),
        vec!["Foo!A1", "Foo!A2", "Foo!A3", "Foo!A4", "Foo!A5"]
    );
}
