//! Tests of the enumerators: each shape of reference walks its cells in
//! order, direction derived from its endpoints.

use a1_notation::RangeOrCell;

fn range_to_strs(range: RangeOrCell) -> Vec<String> {
    let mut it = range.iter();
    let mut out: Vec<String> = Vec::new();
    while let Some(r) = it.next() {
        out.push(r.to_string());
    }
    out
}

fn range_into_strs(range: RangeOrCell) -> Vec<String> {
    let mut it = range.into_iter();
    let mut out: Vec<String> = Vec::new();
    while let Some(r) = it.next() {
        out.push(r.to_string());
    }
    out
}

#[test]
fn iter_cell() {
    let range = RangeOrCell::Cell((0, 0).into());

    assert_eq!(range_to_strs(range), vec!["A1"]);
}

#[test]
fn iter_column_range() {
    let range = RangeOrCell::ColumnRange {
        from: 0.into(),
        to: 5.into(),
    };

    assert_eq!(
        range_to_strs(range),
        vec!["A:A", "B:B", "C:C", "D:D", "E:E", "F:F"]
    );
}

#[test]
fn iter_column_range_backwards() {
    let range = RangeOrCell::ColumnRange {
        from: 5.into(),
        to: 0.into(),
    };

    assert_eq!(
        range_to_strs(range),
        vec!["F:F", "E:E", "D:D", "C:C", "B:B", "A:A"]
    );
}

#[test]
fn iter_non_contiguous() {
    let range = RangeOrCell::NonContiguous(vec![
        RangeOrCell::Cell((0, 0).into()),
        RangeOrCell::ColumnRange {
            from: 1.into(),
            to: 2.into(),
        },
        RangeOrCell::Cell((2, 2).into()),
    ]);

    assert_eq!(range_to_strs(range), vec!["A1", "B:B", "C:C", "C3"]);
}

#[test]
fn iter_range() {
    let range = RangeOrCell::Range {
        from: (0, 0).into(),
        to: (3, 3).into(),
    };

    assert_eq!(
        range_to_strs(range),
        vec![
            "A1", "B1", "C1", "D1", "A2", "B2", "C2", "D2", "A3", "B3", "C3", "D3", "A4", "B4",
            "C4", "D4",
        ]
    );
}

#[test]
fn iter_range_backwards() {
    let range = RangeOrCell::Range {
        from: (3, 3).into(),
        to: (0, 0).into(),
    };

    assert_eq!(
        range_to_strs(range),
        vec![
            "D4", "C4", "B4", "A4", "D3", "C3", "B3", "A3", "D2", "C2", "B2", "A2", "D1", "C1",
            "B1", "A1",
        ]
    );
}

#[test]
fn iter_row_range() {
    let range = RangeOrCell::RowRange {
        from: 0.into(),
        to: 5.into(),
    };

    assert_eq!(
        range_to_strs(range),
        vec!["1:1", "2:2", "3:3", "4:4", "5:5", "6:6"]
    );
}

#[test]
fn iter_row_range_backwards() {
    let range = RangeOrCell::RowRange {
        from: 5.into(),
        to: 0.into(),
    };

    assert_eq!(
        range_to_strs(range),
        vec!["6:6", "5:5", "4:4", "3:3", "2:2", "1:1"]
    );
}

#[test]
fn iter_row_range_single() {
    let range = RangeOrCell::RowRange {
        from: 0.into(),
        to: 0.into(),
    };

    assert_eq!(range_to_strs(range), vec!["1:1"]);
}

#[test]
fn into_iter_column_range() {
    assert_eq!(
        range_into_strs(RangeOrCell::column_range(0, 5)),
        vec!["A:A", "B:B", "C:C", "D:D", "E:E", "F:F"]
    );
}
