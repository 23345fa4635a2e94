//! Tests of the `RangeOrCell` type: the pairwise containment rules, the
//! four shifts, the axis overrides, parsing and rendering.

use a1_notation::{Address, Column, Row, A1, RangeOrCell};
use std::str::FromStr;

#[test]
fn contains_cell() {
    assert!(RangeOrCell::Cell((0, 0).into()).contains(&RangeOrCell::Cell((0, 0).into())));

    assert!(
        !RangeOrCell::Cell((0, 0).into()).contains(&RangeOrCell::Range {
            from: (0, 0).into(),
            to: (10, 10).into()
        })
    );
}

#[test]
fn contains_column_range() {
    let col_range = RangeOrCell::ColumnRange {
        from: 0.into(),
        to: 5.into(),
    };

    assert!(col_range.contains(&RangeOrCell::Cell((1, 1).into())));
    assert!(col_range.contains(&RangeOrCell::Cell((0, 0).into())));
    assert!(col_range.contains(&RangeOrCell::ColumnRange {
        from: 1.into(),
        to: 1.into()
    }));

    // the contained region is too big (overlaps it)
    assert!(!col_range.contains(&RangeOrCell::Range {
        from: (0, 0).into(),
        to: (10, 10).into()
    }));
    assert!(!col_range.contains(&RangeOrCell::RowRange {
        from: 0.into(),
        to: 10.into()
    }));
    assert!(!col_range.contains(&RangeOrCell::Cell((100, 100).into())));
}

#[test]
fn contains_range() {
    let range = RangeOrCell::Range {
        from: (0, 0).into(),
        to: (5, 5).into(),
    };

    assert!(range.contains(&RangeOrCell::Cell((1, 1).into())));
    assert!(range.contains(&RangeOrCell::Cell((0, 0).into())));

    // the contained region is too big (overlaps it)
    assert!(!range.contains(&RangeOrCell::Range {
        from: (0, 0).into(),
        to: (10, 10).into()
    }));
    assert!(!range.contains(&RangeOrCell::RowRange {
        from: 1.into(),
        to: 1.into()
    }));
    assert!(!range.contains(&RangeOrCell::ColumnRange {
        from: 0.into(),
        to: 10.into()
    }));
    assert!(!range.contains(&RangeOrCell::Cell((100, 100).into())));
}

#[test]
fn contains_row_range() {
    let row_range = RangeOrCell::RowRange {
        from: 0.into(),
        to: 5.into(),
    };

    assert!(row_range.contains(&RangeOrCell::Cell((1, 1).into())));
    assert!(row_range.contains(&RangeOrCell::Cell((0, 0).into())));
    assert!(row_range.contains(&RangeOrCell::RowRange {
        from: 1.into(),
        to: 1.into()
    }));

    // the contained region is too big (overlaps it)
    assert!(!row_range.contains(&RangeOrCell::Range {
        from: (0, 0).into(),
        to: (10, 10).into()
    }));
    assert!(!row_range.contains(&RangeOrCell::ColumnRange {
        from: 0.into(),
        to: 10.into()
    }));
    assert!(!row_range.contains(&RangeOrCell::Cell((100, 100).into())));
}

#[test]
fn shift_down_cell() {
    assert_eq!(
        RangeOrCell::Cell((10, 10).into()).shift_down(5),
        RangeOrCell::Cell((10, 15).into())
    );
}

#[test]
fn shift_down_non_contiguous() {
    assert_eq!(
        RangeOrCell::NonContiguous(vec![
            RangeOrCell::ColumnRange {
                from: 5.into(),
                to: 10.into()
            },
            RangeOrCell::Range {
                from: (5, 5).into(),
                to: (10, 10).into()
            },
        ])
        .shift_down(55),
        RangeOrCell::NonContiguous(vec![
            RangeOrCell::ColumnRange {
                from: 5.into(),
                to: 10.into()
            },
            RangeOrCell::Range {
                from: (5, 60).into(),
                to: (10, 65).into()
            },
        ])
    );
}

#[test]
fn shift_down_range() {
    assert_eq!(
        RangeOrCell::Range {
            from: (0, 0).into(),
            to: (5, 5).into()
        }
        .shift_down(5),
        RangeOrCell::Range {
            from: (0, 5).into(),
            to: (5, 10).into()
        }
    );
}

#[test]
fn shift_down_row_range() {
    assert_eq!(
        RangeOrCell::RowRange {
            from: 0.into(),
            to: 5.into()
        }
        .shift_down(5),
        RangeOrCell::RowRange {
            from: 5.into(),
            to: 10.into()
        }
    );
}

#[test]
fn shift_left_cell() {
    assert_eq!(
        RangeOrCell::Cell((10, 10).into()).shift_left(5),
        RangeOrCell::Cell((5, 10).into())
    );
}

#[test]
fn shift_left_range() {
    assert_eq!(
        RangeOrCell::Range {
            from: (10, 10).into(),
            to: (15, 15).into()
        }
        .shift_left(5),
        RangeOrCell::Range {
            from: (5, 10).into(),
            to: (10, 15).into()
        }
    );
}

#[test]
fn shift_left_column_range() {
    assert_eq!(
        RangeOrCell::ColumnRange {
            from: 10.into(),
            to: 15.into()
        }
        .shift_left(5),
        RangeOrCell::ColumnRange {
            from: 5.into(),
            to: 10.into()
        }
    );
}

#[test]
fn shift_right_cell() {
    assert_eq!(
        RangeOrCell::Cell((10, 10).into()).shift_right(5),
        RangeOrCell::Cell((15, 10).into())
    );
}

#[test]
fn shift_right_range() {
    assert_eq!(
        RangeOrCell::Range {
            from: (10, 10).into(),
            to: (15, 15).into()
        }
        .shift_right(5),
        RangeOrCell::Range {
            from: (15, 10).into(),
            to: (20, 15).into()
        }
    );
}

#[test]
fn shift_right_column_range() {
    assert_eq!(
        RangeOrCell::ColumnRange {
            from: 10.into(),
            to: 15.into()
        }
        .shift_right(5),
        RangeOrCell::ColumnRange {
            from: 15.into(),
            to: 20.into()
        }
    );
}

#[test]
fn shift_up_cell() {
    assert_eq!(
        RangeOrCell::Cell((10, 10).into()).shift_up(5),
        RangeOrCell::Cell((10, 5).into())
    );
}

#[test]
fn shift_up_range() {
    assert_eq!(
        RangeOrCell::Range {
            from: (50, 50).into(),
            to: (55, 55).into()
        }
        .shift_up(5),
        RangeOrCell::Range {
            from: (50, 45).into(),
            to: (55, 50).into()
        }
    );
}

#[test]
fn shift_up_row_range() {
    assert_eq!(
        RangeOrCell::RowRange {
            from: 25.into(),
            to: 50.into()
        }
        .shift_up(5),
        RangeOrCell::RowRange {
            from: 20.into(),
            to: 45.into()
        }
    );
}

#[test]
fn with_x_cell() {
    assert_eq!(
        RangeOrCell::Cell((10, 10).into()).with_x(5),
        RangeOrCell::Cell((5, 10).into())
    );
}

#[test]
fn with_x_column_range() {
    assert_eq!(
        RangeOrCell::ColumnRange {
            from: 5.into(),
            to: 10.into()
        }
        .with_x(55),
        RangeOrCell::ColumnRange {
            from: 55.into(),
            to: 55.into()
        }
    );
}

#[test]
fn with_x_non_contiguous() {
    assert_eq!(
        RangeOrCell::NonContiguous(vec![
            RangeOrCell::ColumnRange {
                from: 5.into(),
                to: 10.into()
            },
            RangeOrCell::Range {
                from: (5, 5).into(),
                to: (10, 10).into()
            },
        ])
        .with_x(55),
        RangeOrCell::NonContiguous(vec![
            RangeOrCell::ColumnRange {
                from: 55.into(),
                to: 55.into()
            },
            RangeOrCell::Range {
                from: (55, 5).into(),
                to: (55, 10).into()
            },
        ])
    );
}

#[test]
fn with_x_range() {
    assert_eq!(
        RangeOrCell::Range {
            from: (5, 5).into(),
            to: (10, 10).into()
        }
        .with_x(55),
        RangeOrCell::Range {
            from: (55, 5).into(),
            to: (55, 10).into()
        }
    );
}

#[test]
fn with_x_row_range() {
    assert_eq!(
        RangeOrCell::RowRange {
            from: 5.into(),
            to: 10.into()
        }
        .with_x(55),
        RangeOrCell::Range {
            from: (55, 5).into(),
            to: (55, 10).into()
        }
    );
}

#[test]
fn with_y_cell() {
    assert_eq!(
        RangeOrCell::Cell((10, 10).into()).with_y(5),
        RangeOrCell::Cell((10, 5).into())
    );
}

#[test]
fn with_y_column_range() {
    assert_eq!(
        RangeOrCell::ColumnRange {
            from: 5.into(),
            to: 10.into()
        }
        .with_y(55),
        RangeOrCell::Range {
            from: (5, 55).into(),
            to: (10, 55).into()
        }
    );
}

#[test]
fn with_y_non_contiguous() {
    assert_eq!(
        RangeOrCell::NonContiguous(vec![
            RangeOrCell::ColumnRange {
                from: 5.into(),
                to: 10.into()
            },
            RangeOrCell::Range {
                from: (5, 5).into(),
                to: (10, 10).into()
            },
        ])
        .with_y(55),
        RangeOrCell::NonContiguous(vec![
            RangeOrCell::Range {
                from: (5, 55).into(),
                to: (10, 55).into()
            },
            RangeOrCell::Range {
                from: (5, 55).into(),
                to: (10, 55).into()
            },
        ])
    );
}

#[test]
fn with_y_range() {
    assert_eq!(
        RangeOrCell::Range {
            from: (5, 5).into(),
            to: (10, 10).into()
        }
        .with_y(55),
        RangeOrCell::Range {
            from: (5, 55).into(),
            to: (10, 55).into()
        }
    );
}

#[test]
fn with_y_row_range() {
    assert_eq!(
        RangeOrCell::RowRange {
            from: 5.into(),
            to: 10.into()
        }
        .with_y(55),
        RangeOrCell::RowRange {
            from: 55.into(),
            to: 55.into()
        }
    );
}

#[test]
fn display_cell() {
    assert_eq!(RangeOrCell::Cell(Address::new(0, 0)).to_string(), "A1");

    assert_eq!(
        RangeOrCell::Cell(Address::new(100, 100)).to_string(),
        "CW101"
    );
}

#[test]
fn display_column_range() {
    assert_eq!(
        RangeOrCell::ColumnRange {
            from: Column::new(0),
            to: Column::new(10)
        }
        .to_string(),
        "A:K"
    );

    assert_eq!(
        RangeOrCell::ColumnRange {
            from: Column::new(5),
            to: Column::new(5)
        }
        .to_string(),
        "F:F"
    );
}

#[test]
fn display_non_contiguous() {
    assert_eq!(
        RangeOrCell::NonContiguous(vec![
            RangeOrCell::Cell(Address::new(0, 0)),
            RangeOrCell::ColumnRange {
                from: Column::new(0),
                to: Column::new(10)
            },
            RangeOrCell::Range {
                from: Address::new(0, 0),
                to: Address::new(10, 10)
            },
        ])
        .to_string(),
        "A1, A:K, A1:K11"
    );
}

#[test]
fn display_row_range() {
    assert_eq!(
        RangeOrCell::RowRange {
            from: Row::new(0),
            to: Row::new(10)
        }
        .to_string(),
        "1:11"
    );

    assert_eq!(
        RangeOrCell::RowRange {
            from: Row::new(5),
            to: Row::new(5)
        }
        .to_string(),
        "6:6"
    );
}

#[test]
fn from_str_cell() {
    assert_eq!(
        RangeOrCell::Cell(Address::new(0, 0)),
        RangeOrCell::from_str("A1").unwrap()
    );
}

#[test]
fn from_str_non_contiguous() {
    assert_eq!(
        RangeOrCell::NonContiguous(vec![
            RangeOrCell::Cell(Address::new(0, 0)),
            RangeOrCell::Cell(Address::new(1, 1)),
            RangeOrCell::Range {
                from: Address::new(0, 0),
                to: Address::new(2, 2),
            },
        ]),
        RangeOrCell::from_str("A1,B2,A1:C3").unwrap()
    );
}

#[test]
fn from_str_range() {
    assert_eq!(
        RangeOrCell::Range {
            from: Address::new(0, 0),
            to: Address::new(2, 2),
        },
        RangeOrCell::from_str("A1:C3").unwrap()
    );
}

#[test]
fn from_str_row_range() {
    assert_eq!(
        RangeOrCell::RowRange {
            from: Row::new(0),
            to: Row::new(5),
        },
        RangeOrCell::from_str("1:6").unwrap()
    );
}

#[test]
fn from_str_column_range() {
    assert_eq!(
        RangeOrCell::ColumnRange {
            from: Column::new(0),
            to: Column::new(2),
        },
        RangeOrCell::from_str("A:C").unwrap()
    );
}

#[test]
fn into() {
    let range_or_cell = RangeOrCell::Cell(Address::new(0, 0));
    let a1: A1 = range_or_cell.clone().into();

    assert_eq!(a1.sheet_name, None);
    assert_eq!(a1.reference, range_or_cell);
}
