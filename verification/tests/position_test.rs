//! Tests of the three-way `Position` model: projections, containment,
//! orientation, shifting, rendering and parsing.

use a1_notation::Position;
use std::str::FromStr;

#[test]
fn column_some() {
    assert_eq!(
        Some(Position::ColumnRelative(42)),
        Position::Absolute(42, 1).column()
    );

    assert_eq!(
        Some(Position::ColumnRelative(42)),
        Position::ColumnRelative(42).column()
    );
}

#[test]
fn column_none() {
    assert_eq!(None, Position::RowRelative(42).column());
}

#[test]
fn contains_absolute() {
    assert!(Position::Absolute(0, 0).contains(&Position::Absolute(0, 0)));

    assert!(!Position::Absolute(0, 0).contains(&Position::Absolute(1, 4)));
    assert!(!Position::Absolute(0, 0).contains(&Position::ColumnRelative(1)));
    assert!(!Position::Absolute(0, 0).contains(&Position::RowRelative(1)));
}

#[test]
fn contains_column_relative() {
    assert!(Position::ColumnRelative(0).contains(&Position::Absolute(0, 0)));
    assert!(Position::ColumnRelative(0).contains(&Position::ColumnRelative(0)));

    assert!(!Position::ColumnRelative(0).contains(&Position::Absolute(1, 4)));
    assert!(!Position::ColumnRelative(0).contains(&Position::ColumnRelative(1)));
    assert!(!Position::ColumnRelative(0).contains(&Position::RowRelative(1)));
}

#[test]
fn contains_row_relative() {
    assert!(Position::RowRelative(0).contains(&Position::Absolute(0, 0)));
    assert!(Position::RowRelative(0).contains(&Position::RowRelative(0)));

    assert!(!Position::RowRelative(0).contains(&Position::Absolute(1, 4)));
    assert!(!Position::RowRelative(0).contains(&Position::RowRelative(1)));
    assert!(!Position::RowRelative(0).contains(&Position::ColumnRelative(1)));
}

#[test]
fn position_display_absolute() {
    assert_eq!("A1", Position::Absolute(0, 0).to_string());
    assert_eq!("C5", Position::Absolute(2, 4).to_string());
    assert_eq!("AY51", Position::Absolute(50, 50).to_string());
}

#[test]
fn display_column_relative() {
    assert_eq!("A:A", Position::ColumnRelative(0).to_string());
    assert_eq!("AE:AE", Position::ColumnRelative(30).to_string());
}

#[test]
fn display_row_relative() {
    assert_eq!("1:1", Position::RowRelative(0).to_string());
    assert_eq!("31:31", Position::RowRelative(30).to_string());
}

#[test]
fn position_from_str_absolute() {
    assert_eq!(Position::Absolute(0, 0), Position::from_str("A1").unwrap());
    assert_eq!(Position::Absolute(50, 50), Position::from_str("AY51").unwrap());
}

#[test]
fn from_str_column_relative() {
    assert_eq!(Position::ColumnRelative(0), Position::from_str("A").unwrap());
}

#[test]
fn from_str_row_relative() {
    assert_eq!(Position::RowRelative(0), Position::from_str("1").unwrap());
}

#[test]
fn from_str_invalid() {
    assert!(Position::from_str("").is_err());
    assert!(Position::from_str("/foo").is_err());
}

#[test]
fn is_above_absolute() {
    assert!(Position::Absolute(5, 5).is_above(&Position::Absolute(10, 10)));
    assert!(Position::Absolute(5, 5).is_above(&Position::RowRelative(10)));

    assert!(!Position::Absolute(5, 5).is_above(&Position::Absolute(1, 1)));
    assert!(!Position::Absolute(5, 5).is_above(&Position::RowRelative(0)));
    assert!(!Position::Absolute(5, 5).is_above(&Position::ColumnRelative(0)));
}

#[test]
fn is_above_column_relative() {
    assert!(!Position::ColumnRelative(5).is_above(&Position::Absolute(0, 0)));
    assert!(!Position::ColumnRelative(5).is_above(&Position::ColumnRelative(0)));
    assert!(!Position::ColumnRelative(5).is_above(&Position::RowRelative(0)));
}

#[test]
fn is_above_row_relative() {
    assert!(Position::RowRelative(5).is_above(&Position::Absolute(10, 10)));
    assert!(Position::RowRelative(5).is_above(&Position::RowRelative(10)));

    assert!(!Position::RowRelative(5).is_above(&Position::Absolute(1, 1)));
    assert!(!Position::RowRelative(5).is_above(&Position::RowRelative(0)));
    assert!(!Position::RowRelative(5).is_above(&Position::ColumnRelative(0)));
}

#[test]
fn is_below_absolute() {
    assert!(Position::Absolute(50, 50).is_below(&Position::Absolute(10, 10)));
    assert!(Position::Absolute(50, 50).is_below(&Position::RowRelative(10)));

    assert!(!Position::Absolute(0, 0).is_below(&Position::Absolute(1, 1)));
    assert!(!Position::Absolute(0, 0).is_below(&Position::RowRelative(1)));
    assert!(!Position::Absolute(50, 50).is_below(&Position::ColumnRelative(0)));
}

#[test]
fn is_below_column_relative() {
    assert!(!Position::ColumnRelative(50).is_below(&Position::Absolute(0, 0)));
    assert!(!Position::ColumnRelative(50).is_below(&Position::ColumnRelative(0)));
    assert!(!Position::ColumnRelative(50).is_below(&Position::RowRelative(0)));
}

#[test]
fn is_below_row_relative() {
    assert!(Position::RowRelative(50).is_below(&Position::Absolute(10, 10)));
    assert!(Position::RowRelative(50).is_below(&Position::RowRelative(10)));

    assert!(!Position::RowRelative(50).is_below(&Position::Absolute(100, 100)));
    assert!(!Position::RowRelative(0).is_below(&Position::RowRelative(10)));
    assert!(!Position::RowRelative(50).is_below(&Position::ColumnRelative(0)));
}

#[test]
fn is_left_of_absolute() {
    assert!(Position::Absolute(50, 50).is_left_of(&Position::Absolute(100, 100)));
    assert!(Position::Absolute(50, 50).is_left_of(&Position::ColumnRelative(100)));

    assert!(!Position::Absolute(10, 10).is_left_of(&Position::Absolute(1, 1)));
    assert!(!Position::Absolute(10, 10).is_left_of(&Position::RowRelative(1)));
    assert!(!Position::Absolute(50, 50).is_left_of(&Position::ColumnRelative(0)));
}

#[test]
fn is_left_of_column_relative() {
    assert!(Position::ColumnRelative(5).is_left_of(&Position::Absolute(10, 10)));
    assert!(Position::ColumnRelative(5).is_left_of(&Position::ColumnRelative(10)));

    assert!(!Position::ColumnRelative(50).is_left_of(&Position::Absolute(10, 10)));
    assert!(!Position::ColumnRelative(50).is_left_of(&Position::RowRelative(10)));
    assert!(!Position::ColumnRelative(50).is_left_of(&Position::ColumnRelative(0)));
}

#[test]
fn is_left_of_row_relative() {
    assert!(!Position::RowRelative(0).is_left_of(&Position::Absolute(0, 0)));
    assert!(!Position::RowRelative(0).is_left_of(&Position::ColumnRelative(0)));
    assert!(!Position::RowRelative(0).is_left_of(&Position::RowRelative(0)));
}

#[test]
fn is_right_of_absolute() {
    assert!(Position::Absolute(50, 50).is_right_of(&Position::Absolute(10, 10)));
    assert!(Position::Absolute(50, 50).is_right_of(&Position::ColumnRelative(10)));

    assert!(!Position::Absolute(0, 0).is_right_of(&Position::Absolute(1, 1)));
    assert!(!Position::Absolute(0, 0).is_right_of(&Position::RowRelative(1)));
    assert!(!Position::Absolute(0, 0).is_right_of(&Position::ColumnRelative(10)));
}

#[test]
fn is_right_of_column_relative() {
    assert!(Position::ColumnRelative(50).is_right_of(&Position::Absolute(10, 10)));
    assert!(Position::ColumnRelative(50).is_right_of(&Position::ColumnRelative(10)));

    assert!(!Position::ColumnRelative(5).is_right_of(&Position::Absolute(10, 10)));
    assert!(!Position::ColumnRelative(5).is_right_of(&Position::RowRelative(10)));
    assert!(!Position::ColumnRelative(0).is_right_of(&Position::ColumnRelative(10)));
}

#[test]
fn is_right_of_row_relative() {
    assert!(!Position::RowRelative(0).is_right_of(&Position::Absolute(0, 0)));
    assert!(!Position::RowRelative(0).is_right_of(&Position::ColumnRelative(0)));
    assert!(!Position::RowRelative(0).is_right_of(&Position::RowRelative(0)));
}

#[test]
fn row_some() {
    assert_eq!(
        Some(Position::RowRelative(1)),
        Position::Absolute(42, 1).row()
    );

    assert_eq!(
        Some(Position::RowRelative(42)),
        Position::RowRelative(42).row()
    );
}

#[test]
fn row_none() {
    assert_eq!(None, Position::ColumnRelative(42).row());
}

#[test]
fn shift_down_absolute() {
    assert_eq!(Position::Absolute(2, 2).shift_down(1), Position::Absolute(2, 3));
    assert_eq!(Position::Absolute(2, 2).shift_down(10), Position::Absolute(2, 12));
}

#[test]
fn shift_down_column_relative() {
    assert_eq!(Position::ColumnRelative(2).shift_down(1), Position::ColumnRelative(2));
}

#[test]
fn shift_down_row_relative() {
    assert_eq!(Position::RowRelative(2).shift_down(1), Position::RowRelative(3));
    assert_eq!(Position::RowRelative(1).shift_down(100), Position::RowRelative(101));
}

#[test]
fn shift_left_absolute() {
    assert_eq!(Position::Absolute(2, 2).shift_left(1), Position::Absolute(1, 2));
    assert_eq!(Position::Absolute(2, 2).shift_left(10), Position::Absolute(0, 2));
}

#[test]
fn shift_left_column_relative() {
    assert_eq!(Position::ColumnRelative(2).shift_left(1), Position::ColumnRelative(1));
    assert_eq!(Position::ColumnRelative(2).shift_left(10), Position::ColumnRelative(0));
}

#[test]
fn shift_left_row_relative() {
    assert_eq!(Position::RowRelative(2).shift_left(1), Position::RowRelative(2));
}

#[test]
fn shift_right_absolute() {
    assert_eq!(Position::Absolute(2, 2).shift_right(1), Position::Absolute(3, 2));
    assert_eq!(Position::Absolute(2, 2).shift_right(10), Position::Absolute(12, 2));
}

#[test]
fn shift_right_column_relative() {
    assert_eq!(Position::ColumnRelative(2).shift_right(1), Position::ColumnRelative(3));
}

#[test]
fn shift_right_row_relative() {
    assert_eq!(Position::RowRelative(2).shift_right(1), Position::RowRelative(2));
}

#[test]
fn shift_up_absolute() {
    assert_eq!(Position::Absolute(2, 2).shift_up(1), Position::Absolute(2, 1));
    assert_eq!(Position::Absolute(2, 2).shift_up(10), Position::Absolute(2, 0));
}

#[test]
fn shift_up_column_relative() {
    assert_eq!(Position::ColumnRelative(2).shift_up(1), Position::ColumnRelative(2));
}

#[test]
fn shift_up_row_relative() {
    assert_eq!(Position::RowRelative(2).shift_up(1), Position::RowRelative(1));
    assert_eq!(Position::RowRelative(2).shift_up(100), Position::RowRelative(0));
}
