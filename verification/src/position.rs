//! An earlier, three-way model of a position: a fixed cell, a whole
//! column, or a whole row.

use crate::chars::{alpha_char_test, digit_char_test, digit_num, is_alpha_char, is_digit_char,
    letter_num};
use crate::error::Error;
use crate::numerals::{
    col_letters, dec_digits, digits_val, lemma_digits_val_prefix, lemma_letters_val_pos,
    lemma_letters_val_prefix, letters_val, push_col_letters, push_dec_digits,
};
use crate::text::{chars_of, push_char, string_of_range};
use vstd::prelude::*;
use vstd::string::StringExecFns;

verus! {

/// One position of the sheet, in the coarse three-way form.
#[derive(Copy, Clone, Debug, PartialEq, Eq, Structural)]
pub enum Position {
    /// Absolute(x, y)
    ///
    /// * `x` - the column index
    /// * `y` - the row index
    Absolute(usize, usize),
    /// ColumnRelative(x)
    ///
    /// * `x` - the column index; 0 is the leftmost column
    ColumnRelative(usize),
    /// RowRelative(y)
    ///
    /// * `y` - the row index; 0 is the very top row
    RowRelative(usize),
}

/// The text of a position: `A1` for a cell, `A:A` for a column, `1:1` for
/// a row.
pub open spec fn pos_text(p: Position) -> Seq<char> {
    match p {
        Position::Absolute(x, y) => col_letters(x as nat) + dec_digits((y + 1) as nat),
        Position::ColumnRelative(x) => col_letters(x as nat) + seq![':'] + col_letters(x as nat),
        Position::RowRelative(y) => dec_digits((y + 1) as nat) + seq![':'] + dec_digits(
            (y + 1) as nat,
        ),
    }
}

/// The end of the run of letters starting at `i`.
pub open spec fn alpha_prefix(s: Seq<char>, i: int) -> int
    decreases s.len() - i,
{
    if 0 <= i < s.len() && is_alpha_char(s[i]) {
        alpha_prefix(s, i + 1)
    } else {
        i
    }
}

pub proof fn lemma_alpha_prefix(s: Seq<char>, i: int)
    requires
        0 <= i <= s.len(),
    ensures
        i <= alpha_prefix(s, i) <= s.len(),
        forall|j: int| i <= j < alpha_prefix(s, i) ==> is_alpha_char(#[trigger] s[j]),
        alpha_prefix(s, i) < s.len() ==> !is_alpha_char(s[alpha_prefix(s, i)]),
    decreases s.len() - i,
{
    if i < s.len() && is_alpha_char(s[i]) {
        lemma_alpha_prefix(s, i + 1);
    }
}

/// The column part of a position string: the leading letters, which must
/// stop at the end or at a digit. `Ok(None)` when there are no letters;
/// `Err` when the letters stop at another kind of character or the index
/// would not fit in a machine word.
pub open spec fn pos_parse_x(s: Seq<char>) -> Result<Option<usize>, ()> {
    if s.len() == 0 || !is_alpha_char(s[0]) {
        Ok(None)
    } else {
        let k = alpha_prefix(s, 0);
        if k < s.len() && !is_digit_char(s[k]) {
            Err(())
        } else if letters_val(s.take(k)) <= usize::MAX {
            Ok(Some((letters_val(s.take(k)) - 1) as usize))
        } else {
            Err(())
        }
    }
}

/// The row part of a position string, after the letters: all of it must be
/// digits ending in a digit, read as a one-based number. `Ok(None)` when it
/// does not end in a digit; `Err` when it is malformed, zero, or would not
/// fit in a machine word.
pub open spec fn pos_parse_y(s: Seq<char>) -> Result<Option<usize>, ()> {
    if s.len() == 0 || !is_digit_char(s.last()) {
        Ok(None)
    } else if !(forall|i: int| 0 <= i < s.len() ==> is_digit_char(#[trigger] s[i])) {
        Err(())
    } else if digits_val(s) == 0 {
        Err(())
    } else if digits_val(s) <= usize::MAX {
        Ok(Some((digits_val(s) - 1) as usize))
    } else {
        Err(())
    }
}

/// Parse a position: leading letters give the column, trailing digits the
/// row; one of the two may be absent, but not both.
pub open spec fn pos_parse(s: Seq<char>) -> Option<Position> {
    match pos_parse_x(s) {
        Err(_) => None,
        Ok(xo) => {
            let k = if s.len() == 0 || !is_alpha_char(s[0]) {
                0
            } else {
                alpha_prefix(s, 0)
            };
            match pos_parse_y(s.skip(k)) {
                Err(_) => None,
                Ok(yo) => match (xo, yo) {
                    (Some(x), Some(y)) => Some(Position::Absolute(x, y)),
                    (Some(x), None) => Some(Position::ColumnRelative(x)),
                    (None, Some(y)) => Some(Position::RowRelative(y)),
                    (None, None) => None,
                },
            }
        },
    }
}

impl Position {
    /// The column of this position, if it has one, as a column reference.
    pub fn column(&self) -> (r: Option<Self>)
        ensures
            r == match *self {
                Position::Absolute(x, _) => Some(Position::ColumnRelative(x)),
                Position::ColumnRelative(x) => Some(Position::ColumnRelative(x)),
                Position::RowRelative(_) => None::<Position>,
            },
    {
        match self {
            Position::ColumnRelative(x) => Some(Position::ColumnRelative(*x)),
            Position::Absolute(x, _) => Some(Position::ColumnRelative(*x)),
            Position::RowRelative(_) => None,
        }
    }

    /// The row of this position, if it has one, as a row reference.
    pub fn row(&self) -> (r: Option<Self>)
        ensures
            r == match *self {
                Position::Absolute(_, y) => Some(Position::RowRelative(y)),
                Position::RowRelative(y) => Some(Position::RowRelative(y)),
                Position::ColumnRelative(_) => None::<Position>,
            },
    {
        match self {
            Position::RowRelative(y) => Some(Position::RowRelative(*y)),
            Position::Absolute(_, y) => Some(Position::RowRelative(*y)),
            Position::ColumnRelative(_) => None,
        }
    }

    /// Is `other` completely contained by `self`? A cell contains only the
    /// same cell; a column contains cells and the column at its own index;
    /// a row likewise on its axis.
    pub fn contains(&self, other: &Self) -> (r: bool)
        ensures
            r == match (*self, *other) {
                (Position::Absolute(x, y), Position::Absolute(ox, oy)) => x == ox && y == oy,
                (Position::ColumnRelative(x), Position::Absolute(ox, _)) => x == ox,
                (Position::ColumnRelative(x), Position::ColumnRelative(ox)) => x == ox,
                (Position::RowRelative(y), Position::Absolute(_, oy)) => y == oy,
                (Position::RowRelative(y), Position::RowRelative(oy)) => y == oy,
                _ => false,
            },
    {
        match self {
            Position::Absolute(x, y) => match other {
                Position::Absolute(ox, oy) => x == ox && y == oy,
                _ => false,
            },
            Position::ColumnRelative(x) => match other {
                Position::Absolute(ox, _) => x == ox,
                Position::ColumnRelative(ox) => x == ox,
                Position::RowRelative(_) => false,
            },
            Position::RowRelative(y) => match other {
                Position::Absolute(_, oy) => y == oy,
                Position::RowRelative(oy) => y == oy,
                Position::ColumnRelative(_) => false,
            },
        }
    }

    /// Is `self` (inclusively) above `other`? Only positions with a row
    /// component compare; columns never do.
    pub fn is_above(&self, other: &Self) -> (r: bool)
        ensures
            r == match (*self, *other) {
                (Position::Absolute(_, y), Position::Absolute(_, oy)) => y <= oy,
                (Position::Absolute(_, y), Position::RowRelative(oy)) => y <= oy,
                (Position::RowRelative(y), Position::Absolute(_, oy)) => y <= oy,
                (Position::RowRelative(y), Position::RowRelative(oy)) => y <= oy,
                _ => false,
            },
    {
        match self {
            Position::Absolute(_, y) => match other {
                Position::Absolute(_, oy) => y <= oy,
                Position::RowRelative(oy) => y <= oy,
                Position::ColumnRelative(_) => false,
            },
            Position::ColumnRelative(_) => false,
            Position::RowRelative(y) => match other {
                Position::Absolute(_, oy) => y <= oy,
                Position::RowRelative(oy) => y <= oy,
                Position::ColumnRelative(_) => false,
            },
        }
    }

    /// Is `self` (inclusively) below `other`?
    pub fn is_below(&self, other: &Self) -> (r: bool)
        ensures
            r == match (*self, *other) {
                (Position::Absolute(_, y), Position::Absolute(_, oy)) => y >= oy,
                (Position::Absolute(_, y), Position::RowRelative(oy)) => y >= oy,
                (Position::RowRelative(y), Position::Absolute(_, oy)) => y >= oy,
                (Position::RowRelative(y), Position::RowRelative(oy)) => y >= oy,
                _ => false,
            },
    {
        match self {
            Position::Absolute(_, y) => match other {
                Position::Absolute(_, oy) => y >= oy,
                Position::RowRelative(oy) => y >= oy,
                Position::ColumnRelative(_) => false,
            },
            Position::ColumnRelative(_) => false,
            Position::RowRelative(y) => match other {
                Position::Absolute(_, oy) => y >= oy,
                Position::RowRelative(oy) => y >= oy,
                Position::ColumnRelative(_) => false,
            },
        }
    }

    /// Is `self` (inclusively) left of `other`? Only positions with a
    /// column component compare; rows never do.
    pub fn is_left_of(&self, other: &Self) -> (r: bool)
        ensures
            r == match (*self, *other) {
                (Position::Absolute(x, _), Position::Absolute(ox, _)) => x <= ox,
                (Position::Absolute(x, _), Position::ColumnRelative(ox)) => x <= ox,
                (Position::ColumnRelative(x), Position::Absolute(ox, _)) => x <= ox,
                (Position::ColumnRelative(x), Position::ColumnRelative(ox)) => x <= ox,
                _ => false,
            },
    {
        match self {
            Position::Absolute(x, _) => match other {
                Position::Absolute(ox, _) => x <= ox,
                Position::ColumnRelative(ox) => x <= ox,
                Position::RowRelative(_) => false,
            },
            Position::ColumnRelative(x) => match other {
                Position::Absolute(ox, _) => x <= ox,
                Position::ColumnRelative(ox) => x <= ox,
                Position::RowRelative(_) => false,
            },
            Position::RowRelative(_) => false,
        }
    }

    /// Is `self` (inclusively) right of `other`?
    pub fn is_right_of(&self, other: &Self) -> (r: bool)
        ensures
            r == match (*self, *other) {
                (Position::Absolute(x, _), Position::Absolute(ox, _)) => x >= ox,
                (Position::Absolute(x, _), Position::ColumnRelative(ox)) => x >= ox,
                (Position::ColumnRelative(x), Position::Absolute(ox, _)) => x >= ox,
                (Position::ColumnRelative(x), Position::ColumnRelative(ox)) => x >= ox,
                _ => false,
            },
    {
        match self {
            Position::Absolute(x, _) => match other {
                Position::Absolute(ox, _) => x >= ox,
                Position::ColumnRelative(ox) => x >= ox,
                Position::RowRelative(_) => false,
            },
            Position::ColumnRelative(x) => match other {
                Position::Absolute(ox, _) => x >= ox,
                Position::ColumnRelative(ox) => x >= ox,
                Position::RowRelative(_) => false,
            },
            Position::RowRelative(_) => false,
        }
    }

    /// Move down by `rows`; a column reference is unchanged.
    pub fn shift_down(&self, rows: usize) -> (r: Self)
        requires
            match *self {
                Position::Absolute(_, y) => y + rows <= usize::MAX,
                Position::RowRelative(y) => y + rows <= usize::MAX,
                Position::ColumnRelative(_) => true,
            },
        ensures
            r == match *self {
                Position::Absolute(x, y) => Position::Absolute(x, (y + rows) as usize),
                Position::ColumnRelative(x) => Position::ColumnRelative(x),
                Position::RowRelative(y) => Position::RowRelative((y + rows) as usize),
            },
    {
        match self {
            Position::Absolute(x, y) => Position::Absolute(*x, *y + rows),
            Position::ColumnRelative(_) => *self,
            Position::RowRelative(y) => Position::RowRelative(*y + rows),
        }
    }

    /// Move left by `columns`, stopping at the leftmost column; a row
    /// reference is unchanged.
    pub fn shift_left(&self, columns: usize) -> (r: Self)
        ensures
            r == match *self {
                Position::Absolute(x, y) => Position::Absolute(
                    if x >= columns {
                        (x - columns) as usize
                    } else {
                        0
                    },
                    y,
                ),
                Position::ColumnRelative(x) => Position::ColumnRelative(
                    if x >= columns {
                        (x - columns) as usize
                    } else {
                        0
                    },
                ),
                Position::RowRelative(y) => Position::RowRelative(y),
            },
    {
        match self {
            Position::Absolute(x, y) => Position::Absolute(
                if *x >= columns {
                    *x - columns
                } else {
                    0
                },
                *y,
            ),
            Position::ColumnRelative(x) => Position::ColumnRelative(
                if *x >= columns {
                    *x - columns
                } else {
                    0
                },
            ),
            Position::RowRelative(_) => *self,
        }
    }

    /// Move right by `columns`; a row reference is unchanged.
    pub fn shift_right(&self, columns: usize) -> (r: Self)
        requires
            match *self {
                Position::Absolute(x, _) => x + columns <= usize::MAX,
                Position::ColumnRelative(x) => x + columns <= usize::MAX,
                Position::RowRelative(_) => true,
            },
        ensures
            r == match *self {
                Position::Absolute(x, y) => Position::Absolute((x + columns) as usize, y),
                Position::ColumnRelative(x) => Position::ColumnRelative((x + columns) as usize),
                Position::RowRelative(y) => Position::RowRelative(y),
            },
    {
        match self {
            Position::Absolute(x, y) => Position::Absolute(*x + columns, *y),
            Position::ColumnRelative(x) => Position::ColumnRelative(*x + columns),
            Position::RowRelative(_) => *self,
        }
    }

    /// Move up by `rows`, stopping at the top row; a column reference is
    /// unchanged.
    pub fn shift_up(&self, rows: usize) -> (r: Self)
        ensures
            r == match *self {
                Position::Absolute(x, y) => Position::Absolute(
                    x,
                    if y >= rows {
                        (y - rows) as usize
                    } else {
                        0
                    },
                ),
                Position::ColumnRelative(x) => Position::ColumnRelative(x),
                Position::RowRelative(y) => Position::RowRelative(
                    if y >= rows {
                        (y - rows) as usize
                    } else {
                        0
                    },
                ),
            },
    {
        match self {
            Position::Absolute(x, y) => Position::Absolute(
                *x,
                if *y >= rows {
                    *y - rows
                } else {
                    0
                },
            ),
            Position::ColumnRelative(_) => *self,
            Position::RowRelative(y) => Position::RowRelative(
                if *y >= rows {
                    *y - rows
                } else {
                    0
                },
            ),
        }
    }

    /// Set the `x` component: a cell changes column, a column reference
    /// points at the new column, and a row reference becomes a cell.
    pub fn with_x(&self, x: usize) -> (r: Self)
        ensures
            r == match *self {
                Position::Absolute(_, y) => Position::Absolute(x, y),
                Position::ColumnRelative(_) => Position::ColumnRelative(x),
                Position::RowRelative(y) => Position::Absolute(x, y),
            },
    {
        match self {
            Position::Absolute(_, y) => Position::Absolute(x, *y),
            Position::ColumnRelative(_) => Position::ColumnRelative(x),
            Position::RowRelative(y) => Position::Absolute(x, *y),
        }
    }

    /// Set the `y` component: a cell changes row, a row reference points at
    /// the new row, and a column reference becomes a cell.
    pub fn with_y(&self, y: usize) -> (r: Self)
        ensures
            r == match *self {
                Position::Absolute(x, _) => Position::Absolute(x, y),
                Position::ColumnRelative(x) => Position::Absolute(x, y),
                Position::RowRelative(_) => Position::RowRelative(y),
            },
    {
        match self {
            Position::Absolute(x, _) => Position::Absolute(*x, y),
            Position::ColumnRelative(x) => Position::Absolute(*x, y),
            Position::RowRelative(_) => Position::RowRelative(y),
        }
    }

    /// Render the position as it appears inside a two-sided range: a cell
    /// in full, a column as its letters alone, a row as its number alone.
    pub fn display_for_range(&self) -> (r: String)
        ensures
            r@ == match *self {
                Position::Absolute(_, _) => pos_text(*self),
                Position::ColumnRelative(x) => col_letters(x as nat),
                Position::RowRelative(y) => dec_digits((y + 1) as nat),
            },
    {
        match self {
            Position::Absolute(_, _) => self.to_string(),
            Position::ColumnRelative(x) => {
                let mut out = String::new();
                push_col_letters(&mut out, *x);
                proof {
                    assert(out@ =~= col_letters(*x as nat));
                }
                out
            },
            Position::RowRelative(y) => {
                let mut out = String::new();
                push_dec_digits(&mut out, *y as u128 + 1);
                proof {
                    assert(out@ =~= dec_digits((*y + 1) as nat));
                }
                out
            },
        }
    }

    /// Render the position: `A1` for a cell, `A:A` for a column, `1:1` for
    /// a row.
    pub fn to_string(&self) -> (r: String)
        ensures
            r@ == pos_text(*self),
    {
        let mut out = String::new();
        match self {
            Position::Absolute(x, y) => {
                push_col_letters(&mut out, *x);
                push_dec_digits(&mut out, *y as u128 + 1);
                proof {
                    assert(out@ =~= col_letters(*x as nat) + dec_digits((*y + 1) as nat));
                }
            },
            Position::ColumnRelative(x) => {
                push_col_letters(&mut out, *x);
                push_char(&mut out, ':');
                push_col_letters(&mut out, *x);
                proof {
                    assert(out@ =~= col_letters(*x as nat) + seq![':'] + col_letters(*x as nat));
                }
            },
            Position::RowRelative(y) => {
                push_dec_digits(&mut out, *y as u128 + 1);
                push_char(&mut out, ':');
                push_dec_digits(&mut out, *y as u128 + 1);
                proof {
                    assert(out@ =~= dec_digits((*y + 1) as nat) + seq![':'] + dec_digits(
                        (*y + 1) as nat,
                    ));
                }
            },
        }
        out
    }

    /// Parse a position: leading letters are the column, trailing digits
    /// the row, and at least one of the two must be present.
    pub fn parse(s: &str) -> (r: Result<Position, Error>)
        ensures
            match r {
                Ok(p) => pos_parse(s@) == Some(p),
                Err(e) => pos_parse(s@) is None && e is A1ParseError,
            },
    {
        let cs = chars_of(s);
        let n = cs.len();
        // the column letters
        let mut k: usize = 0;
        while k < n && alpha_char_test(cs[k])
            invariant
                0 <= k <= n == cs@.len(),
                cs@ == s@,
                alpha_prefix(cs@, 0) == alpha_prefix(cs@, k as int),
                forall|i: int| 0 <= i < k ==> is_alpha_char(#[trigger] cs@[i]),
            decreases n - k,
        {
            k = k + 1;
        }
        proof {
            assert(alpha_prefix(cs@, k as int) == k);
        }
        let ghost kspec: int = if cs@.len() == 0 || !is_alpha_char(cs@[0]) {
            0
        } else {
            alpha_prefix(cs@, 0)
        };
        proof {
            assert(kspec == k);
        }
        let xo: Option<usize> = if k == 0 {
            None
        } else if k < n && !digit_char_test(cs[k]) {
            return Err(Error::parse_error(
                string_of_range(&cs, k, k + 1),
                String::from_str("Invalid character in A1 notation"),
            ));
        } else {
            let mut acc: u128 = 0;
            let mut j: usize = 0;
            while j < k
                invariant
                    0 <= j <= k <= n == cs@.len(),
                    cs@ == s@,
                    1 <= k,
                    is_alpha_char(cs@[0]),
                    alpha_prefix(cs@, 0) == k as int,
                    k == n || is_digit_char(cs@[k as int]),
                    forall|i: int| 0 <= i < k ==> is_alpha_char(#[trigger] cs@[i]),
                    acc == letters_val(cs@.take(k as int).take(j as int)),
                    acc <= usize::MAX as u128,
                decreases k - j,
            {
                let ghost t = cs@.take(k as int);
                let v = letter_num(cs[j]);
                let acc2: u128 = acc * 26 + v as u128;
                proof {
                    assert(t.take(j + 1).drop_last() =~= t.take(j as int));
                    assert(t.take(j + 1).last() == cs@[j as int]);
                    assert(acc2 == letters_val(t.take(j + 1)));
                }
                if acc2 > usize::MAX as u128 {
                    proof {
                        lemma_letters_val_prefix(t, j + 1);
                        assert(pos_parse_x(cs@) == Err::<Option<usize>, ()>(()));
                    }
                    return Err(Error::parse_error(
                        string_of_range(&cs, 0, k),
                        String::from_str("A1 column is too large to represent"),
                    ));
                }
                acc = acc2;
                j = j + 1;
            }
            proof {
                let t = cs@.take(k as int);
                assert(t.take(k as int) =~= t);
                lemma_letters_val_pos(t);
            }
            Some((acc - 1) as usize)
        };
        proof {
            assert(pos_parse_x(cs@) == Ok::<Option<usize>, ()>(xo));
        }
        // the row number
        let ghost rest = cs@.skip(k as int);
        let yo: Option<usize> = if k == n || !digit_char_test(cs[n - 1]) {
            proof {
                if k < n {
                    assert(rest.last() == cs@[n - 1]);
                }
                assert(pos_parse_y(rest) == Ok::<Option<usize>, ()>(None));
            }
            None
        } else {
            let mut acc: u128 = 0;
            let mut j: usize = k;
            while j < n
                invariant
                    k <= j <= n == cs@.len(),
                    cs@ == s@,
                    k < n,
                    kspec == k,
                    (if cs@.len() == 0 || !is_alpha_char(cs@[0]) {
                        0int
                    } else {
                        alpha_prefix(cs@, 0)
                    }) == k as int,
                    is_digit_char(cs@[n - 1]),
                    pos_parse_x(cs@) == Ok::<Option<usize>, ()>(xo),
                    rest == cs@.skip(k as int),
                    forall|i: int| 0 <= i < j - k ==> is_digit_char(#[trigger] rest[i]),
                    acc == digits_val(rest.take(j - k)),
                    acc <= usize::MAX as u128,
                decreases n - j,
            {
                let c = cs[j];
                if !digit_char_test(c) {
                    proof {
                        assert(!is_digit_char(rest[j - k]));
                        assert(rest.last() == cs@[n - 1]);
                        assert(pos_parse_y(rest) == Err::<Option<usize>, ()>(()));
                    }
                    return Err(Error::parse_error(
                        string_of_range(&cs, k, n),
                        String::from_str("Error parsing number part of A1 reference"),
                    ));
                }
                let v = digit_num(c);
                let acc2: u128 = acc * 10 + v as u128;
                proof {
                    assert(rest.take(j - k + 1).drop_last() =~= rest.take(j - k));
                    assert(rest.take(j - k + 1).last() == rest[j - k]);
                    assert(rest[j - k] == cs@[j as int]);
                    assert(acc2 == digits_val(rest.take(j - k + 1)));
                }
                if acc2 > usize::MAX as u128 {
                    proof {
                        lemma_digits_val_prefix(rest, j - k + 1);
                        assert(rest.last() == cs@[n - 1]);
                        assert(pos_parse_y(rest) == Err::<Option<usize>, ()>(()));
                    }
                    return Err(Error::parse_error(
                        string_of_range(&cs, k, n),
                        String::from_str("Error parsing number part of A1 reference"),
                    ));
                }
                acc = acc2;
                j = j + 1;
            }
            proof {
                assert(rest.take(n - k) =~= rest);
                assert(rest.last() == cs@[n - 1]);
            }
            if acc == 0 {
                proof {
                    assert(pos_parse_y(rest) == Err::<Option<usize>, ()>(()));
                }
                return Err(Error::parse_error(
                    string_of_range(&cs, k, n),
                    String::from_str("A1 reference must be greater than 0"),
                ));
            }
            Some((acc - 1) as usize)
        };
        proof {
            assert(pos_parse_y(cs@.skip(kspec)) == Ok::<Option<usize>, ()>(yo));
        }
        match (xo, yo) {
            (Some(x), Some(y)) => Ok(Position::Absolute(x, y)),
            (Some(x), None) => Ok(Position::ColumnRelative(x)),
            (None, Some(y)) => Ok(Position::RowRelative(y)),
            (None, None) => Err(Error::parse_error(
                String::from_str(""),
                String::from_str(
                    "Error parsing A1 notation: could not determine a row or column",
                ),
            )),
        }
    }
}

impl core::str::FromStr for Position {
    type Err = Error;

    fn from_str(s: &str) -> Result<Position, Error> {
        Position::parse(s)
    }
}

} // verus!
