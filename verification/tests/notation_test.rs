//! End-to-end scenarios: the zero-based/one-based convention, the column
//! letter law, enumeration order, parse errors, the error rendering, and
//! the builder.

use a1_notation::{cell, column_range, new, A1Builder, Column, Error, RangeOrCell, Row, A1};
use std::str::FromStr;

#[test]
fn display_a1_parse_error() {
    assert_eq!(
        Error::A1ParseError {
            message: "Foo was a bar".to_string(),
            bad_input: "bar".to_string(),
        }
        .to_string(),
        "Foo was a bar (input: `bar`)"
    );
}

#[test]
fn build_range() {
}

#[test]
fn builder_builds_cell() {
    let a1 = A1Builder::default().xy(1, 2).build().unwrap();
    assert_eq!("B3", a1.to_string());
}

#[test]
fn builder_builds_column_and_row() {
    assert_eq!("B:B", A1Builder::default().x(1).build().unwrap().to_string());
    assert_eq!("3:3", A1Builder::default().y(2).build().unwrap().to_string());
}

#[test]
fn builder_builds_range_from_cells() {
    let from = a1_notation::cell(0, 0);
    let to = a1_notation::cell(2, 2);
    let a1 = A1Builder::default()
        .sheet_name("Foo")
        .range()
        .from(from)
        .to(to)
        .build()
        .unwrap();
    assert_eq!("Foo!A1:C3", a1.to_string());
}

#[test]
fn builder_without_reference_fails() {
    assert!(A1Builder::default().build().is_err());
    assert!(A1Builder::default().range().build().is_err());
}

#[test]
fn builder_range_needs_cells() {
    let col = a1_notation::column(3);
    let c = a1_notation::cell(0, 0);
    assert!(A1Builder::default().range().from(col).to(c).build().is_err());
}

#[test]
fn builder_a1str_parses() {
    let b = A1Builder::default().a1str("Foo!B2").unwrap();
    assert_eq!("Foo!B2", b.build().unwrap().to_string());
}

#[test]
fn zero_based_one_based() {
    // the top-left corner (0, 0) is "A1": column index 0, row index 0
    let a1 = new("A1").unwrap();
    assert_eq!(
        a1.reference,
        RangeOrCell::Cell((0, 0).into())
    );
    assert_eq!("A1", a1.to_string());
    assert_eq!("A1", cell(0, 0).to_string());
}

#[test]
fn column_letter_law() {
    assert_eq!(Column::new(0).to_string(), "A");
    assert_eq!(Column::new(1).to_string(), "B");
    assert_eq!(Column::new(25).to_string(), "Z");
    assert_eq!(Column::new(26).to_string(), "AA");
    assert_eq!(Column::new(27).to_string(), "AB");

    assert_eq!(Column::from_str("A").unwrap(), Column::new(0));
    assert_eq!(Column::from_str("B").unwrap(), Column::new(1));
    assert_eq!(Column::from_str("Z").unwrap(), Column::new(25));
    assert_eq!(Column::from_str("AA").unwrap(), Column::new(26));
    assert_eq!(Column::from_str("AB").unwrap(), Column::new(27));
}

#[test]
fn column_letters_case_insensitive() {
    assert_eq!(Column::from_str("aa").unwrap(), Column::new(26));
    assert_eq!(Row::from_str("007").unwrap(), Row::new(6));
}

fn cells_of(r: &RangeOrCell) -> Vec<String> {
    let mut it = r.iter();
    let mut out: Vec<String> = Vec::new();
    while let Some(c) = it.next() {
        out.push(c.to_string());
    }
    out
}

#[test]
fn enumeration_cardinality() {
    // a bounded range from (0, 0) to (2, 2) enumerates exactly 9 cells in
    // row-major order
    let forward = RangeOrCell::Range {
        from: (0, 0).into(),
        to: (2, 2).into(),
    };
    assert_eq!(
        cells_of(&forward),
        vec!["A1", "B1", "C1", "A2", "B2", "C2", "A3", "B3", "C3"]
    );

    // reversing the corners enumerates the same 9 cells in exact reverse
    // order
    let backward = RangeOrCell::Range {
        from: (2, 2).into(),
        to: (0, 0).into(),
    };
    assert_eq!(
        cells_of(&backward),
        vec!["C3", "B3", "A3", "C2", "B2", "A2", "C1", "B1", "A1"]
    );
}

#[test]
fn end_to_end_sheet_range() {
    let a1 = new("Foo!A1:C3").unwrap();
    assert_eq!(a1.sheet_name, Some("Foo".to_string()));
    assert_eq!(
        a1.reference,
        RangeOrCell::Range {
            from: (0, 0).into(),
            to: (2, 2).into(),
        }
    );
}

#[test]
fn end_to_end_column_range() {
    let a1 = new("A:C").unwrap();
    assert_eq!(
        a1.reference,
        RangeOrCell::ColumnRange {
            from: 0.into(),
            to: 2.into(),
        }
    );
    assert_eq!("A:C", a1.to_string());
}

#[test]
fn end_to_end_quoted_sheet() {
    let a1 = new("'My Sheet'!B2").unwrap();
    assert_eq!(a1.sheet_name, Some("My Sheet".to_string()));
    assert_eq!(a1.reference, RangeOrCell::Cell((1, 1).into()));
}

#[test]
fn end_to_end_non_contiguous() {
    let a1 = new("1:3,A1").unwrap();
    assert_eq!(
        a1.reference,
        RangeOrCell::NonContiguous(vec![
            RangeOrCell::RowRange {
                from: 0.into(),
                to: 2.into(),
            },
            RangeOrCell::Cell((0, 0).into()),
        ])
    );
    assert_eq!("1:3, A1", a1.to_string());
}

#[test]
fn end_to_end_containment_and_shift() {
    assert!(column_range(0, 0).contains(&cell(0, 5)));
    assert_eq!("A1", cell(0, 0).shift_left(5).to_string());
}

#[test]
fn quoted_sheet_round_trips_with_doubled_quotes() {
    let a1 = A1 {
        sheet_name: Some("Ann's Sheet".to_string()),
        reference: RangeOrCell::Cell((0, 0).into()),
    };
    let text = a1.to_string();
    assert_eq!("'Ann''s Sheet'!A1", text);
    assert_eq!(a1, A1::from_str(text.as_str()).unwrap());
}

#[test]
fn parse_rejects_malformed_input() {
    // an empty string has neither a column nor a row
    assert!(new("").is_err());
    // a lone letter run is not a cell
    assert!(RangeOrCell::from_str("A").is_err());
    // a zero row is below the one-based floor
    assert!(new("A0").is_err());
    assert!(Row::from_str("0").is_err());
    // an empty piece in a comma-separated list
    assert!(new("A1,,B2").is_err());
    // an invalid character in the column letters
    assert!(new("A!B#").is_err());
}

#[test]
fn parse_rejects_oversized_numbers() {
    // far beyond any machine-sized row index
    assert!(Row::from_str("99999999999999999999999999999").is_err());
    // far beyond any machine-sized column index
    assert!(Column::from_str("AAAAAAAAAAAAAAAAAAAAAAAAAAAAAAAAAAAA").is_err());
}

#[test]
fn union_containment_goes_member_by_member() {
    let union = RangeOrCell::NonContiguous(vec![
        RangeOrCell::ColumnRange {
            from: 0.into(),
            to: 0.into(),
        },
        RangeOrCell::Cell((5, 5).into()),
    ]);

    // a union contains what any one member contains
    assert!(union.contains(&RangeOrCell::Cell((0, 99).into())));
    assert!(union.contains(&RangeOrCell::Cell((5, 5).into())));
    assert!(!union.contains(&RangeOrCell::Cell((4, 4).into())));

    // containing a union means containing every member
    let big = RangeOrCell::Range {
        from: (0, 0).into(),
        to: (9, 9).into(),
    };
    let cells = RangeOrCell::NonContiguous(vec![
        RangeOrCell::Cell((1, 1).into()),
        RangeOrCell::Cell((2, 2).into()),
    ]);
    assert!(big.contains(&cells));
    let far = RangeOrCell::NonContiguous(vec![
        RangeOrCell::Cell((1, 1).into()),
        RangeOrCell::Cell((20, 20).into()),
    ]);
    assert!(!big.contains(&far));
}

#[test]
fn nested_unions_enumerate_flattened() {
    let nested = RangeOrCell::NonContiguous(vec![
        RangeOrCell::NonContiguous(vec![
            RangeOrCell::Cell((0, 0).into()),
            RangeOrCell::Cell((1, 1).into()),
        ]),
        RangeOrCell::Cell((2, 2).into()),
    ]);
    assert_eq!(cells_of(&nested), vec!["A1", "B2", "C3"]);
}

#[test]
fn enumerators_restart_from_the_beginning() {
    let r = RangeOrCell::column_range(0, 2);
    assert_eq!(cells_of(&r), vec!["A:A", "B:B", "C:C"]);
    assert_eq!(cells_of(&r), vec!["A:A", "B:B", "C:C"]);
}
