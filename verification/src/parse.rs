//! Parsing A1 notation: the grammar, stated over character sequences, and
//! the parsers that realise it.
//!
//! A reference string is an optional sheet-name prefix ending in `!`, then
//! one or more comma-separated segments. A segment with no `:` is a cell;
//! one with a `:` is a row range if both sides hold only digits and `$`, a
//! column range if both sides hold only letters and `$`, and otherwise a
//! rectangle between two cells.

use crate::address::Address;
use crate::chars::{
    alpha_char_test, digit_char_test, digit_num, is_alpha_char, is_digit_char, is_ws_char, ws_char_test,
    letter_num,
};
use crate::column::Column;
use crate::error::Error;
use crate::numerals::{
    digits_val, lemma_digits_val_prefix, lemma_letters_val_prefix, letters_val,
};
use crate::range_or_cell::{view_of, views_of, RangeOrCell, RefView};
use crate::row::Row;
use crate::text::{push_char, string_of_range};
use vstd::prelude::*;
use vstd::string::StringExecFns;

verus! {

/// Whether `s` starts with the `$` absolute marker.
pub open spec fn has_dollar(s: Seq<char>) -> bool {
    s.len() > 0 && s[0] == '$'
}

/// `s` with a leading `$` removed, if present.
pub open spec fn strip_dollar(s: Seq<char>) -> Seq<char> {
    if has_dollar(s) {
        s.drop_first()
    } else {
        s
    }
}

/// Every character is a letter or `$`: the shape of a column token.
pub open spec fn all_col_chars(s: Seq<char>) -> bool {
    forall|i: int| 0 <= i < s.len() ==> s[i] == '$' || is_alpha_char(#[trigger] s[i])
}

/// Every character is a digit or `$`: the shape of a row token.
pub open spec fn all_row_chars(s: Seq<char>) -> bool {
    forall|i: int| 0 <= i < s.len() ==> s[i] == '$' || is_digit_char(#[trigger] s[i])
}

/// Parse a column token: an optional `$`, then one or more letters read as
/// a bijective base-26 numeral. `None` when a character is out of place,
/// the letters are missing, or the index would not fit in a machine word.
pub open spec fn parse_col(s: Seq<char>) -> Option<Column> {
    let t = strip_dollar(s);
    if t.len() == 0 || !(forall|i: int| 0 <= i < t.len() ==> is_alpha_char(#[trigger] t[i])) {
        None
    } else if letters_val(t) <= usize::MAX {
        Some(Column { absolute: has_dollar(s), x: (letters_val(t) - 1) as usize })
    } else {
        None
    }
}

/// Parse a row token: an optional `$`, then one or more digits read as a
/// decimal number, which must be at least one. `None` when a character is
/// out of place, the digits are missing, the number is zero, or it would
/// not fit in a machine word.
pub open spec fn parse_row(s: Seq<char>) -> Option<Row> {
    let t = strip_dollar(s);
    if t.len() == 0 || !(forall|i: int| 0 <= i < t.len() ==> is_digit_char(#[trigger] t[i])) {
        None
    } else if digits_val(t) == 0 {
        None
    } else if digits_val(t) <= usize::MAX {
        Some(Row { absolute: has_dollar(s), y: (digits_val(t) - 1) as usize })
    } else {
        None
    }
}

/// Where a cell token splits into its column and row parts: the first
/// position holding a digit, or a `$` past the start.
pub open spec fn addr_split_cond(s: Seq<char>, i: int) -> bool {
    (s[i] == '$' && i > 0) || is_digit_char(s[i])
}

pub open spec fn addr_split_at(s: Seq<char>, i: int) -> Option<int>
    decreases s.len() - i,
{
    if i < 0 || i >= s.len() {
        None
    } else if addr_split_cond(s, i) {
        Some(i)
    } else {
        addr_split_at(s, i + 1)
    }
}

pub proof fn lemma_addr_split_at(s: Seq<char>, i: int)
    requires
        0 <= i <= s.len(),
    ensures
        match addr_split_at(s, i) {
            Some(k) => i <= k < s.len() && addr_split_cond(s, k) && forall|j: int|
                i <= j < k ==> !addr_split_cond(s, j),
            None => forall|j: int| i <= j < s.len() ==> !addr_split_cond(s, j),
        },
    decreases s.len() - i,
{
    if i < s.len() && !addr_split_cond(s, i) {
        lemma_addr_split_at(s, i + 1);
    }
}

/// Parse a cell token: a column part up to the split, then a row part.
/// `None` when no split exists or either part is malformed.
pub open spec fn parse_addr(s: Seq<char>) -> Option<Address> {
    match addr_split_at(s, 0) {
        None => None,
        Some(k) => if k == 0 {
            None
        } else {
            match (parse_col(s.take(k)), parse_row(s.skip(k))) {
                (Some(c), Some(w)) => Some(Address { column: c, row: w }),
                _ => None,
            }
        },
    }
}

/// The first occurrence of `c` in `s`.
pub open spec fn find_char(s: Seq<char>, c: char) -> Option<int>
    decreases s,
{
    if s.len() == 0 {
        None
    } else if s[0] == c {
        Some(0)
    } else {
        match find_char(s.drop_first(), c) {
            Some(i) => Some(i + 1),
            None => None,
        }
    }
}

pub proof fn lemma_find_char(s: Seq<char>, c: char)
    ensures
        match find_char(s, c) {
            Some(i) => 0 <= i < s.len() && s[i] == c && forall|j: int| 0 <= j < i ==> s[j] != c,
            None => forall|j: int| 0 <= j < s.len() ==> s[j] != c,
        },
    decreases s,
{
    if s.len() > 0 && s[0] != c {
        lemma_find_char(s.drop_first(), c);
        match find_char(s.drop_first(), c) {
            Some(i) => {
                assert(s.drop_first()[i] == c);
                assert(s[i + 1] == c);
                assert forall|j: int| 0 <= j < i + 1 implies s[j] != c by {
                    if j > 0 {
                        assert(s.drop_first()[j - 1] != c);
                    }
                }
            },
            None => {
                assert forall|j: int| 0 <= j < s.len() implies s[j] != c by {
                    if j > 0 {
                        assert(s.drop_first()[j - 1] != c);
                    }
                }
            },
        }
    }
}

/// Parse one comma-free segment, dispatching on a structural pre-scan: no
/// `:` means a cell; with a `:`, two all-digit sides form a row range, two
/// all-letter sides a column range, and anything else two cell corners.
pub open spec fn parse_segment(s: Seq<char>) -> Option<RefView> {
    match find_char(s, ':') {
        None => match parse_addr(s) {
            Some(a) => Some(RefView::Cell(a)),
            None => None,
        },
        Some(k) => {
            let l = s.take(k);
            let r = s.skip(k + 1);
            if all_row_chars(l) && all_row_chars(r) {
                match (parse_row(l), parse_row(r)) {
                    (Some(f), Some(t)) => Some(RefView::RowRange { from: f, to: t }),
                    _ => None,
                }
            } else if all_col_chars(l) && all_col_chars(r) {
                match (parse_col(l), parse_col(r)) {
                    (Some(f), Some(t)) => Some(RefView::ColumnRange { from: f, to: t }),
                    _ => None,
                }
            } else {
                match (parse_addr(l), parse_addr(r)) {
                    (Some(f), Some(t)) => Some(RefView::Range { from: f, to: t }),
                    _ => None,
                }
            }
        },
    }
}

/// The pieces of `s` between commas; a string with no comma is one piece,
/// and empty pieces are kept.
pub open spec fn split_commas(s: Seq<char>) -> Seq<Seq<char>>
    decreases s.len(),
    via split_commas_decreases
{
    match find_char(s, ',') {
        None => seq![s],
        Some(k) => seq![s.take(k)] + split_commas(s.skip(k + 1)),
    }
}

#[via_fn]
proof fn split_commas_decreases(s: Seq<char>) {
    lemma_find_char(s, ',');
}

pub proof fn lemma_split_commas_len(s: Seq<char>)
    ensures
        split_commas(s).len() >= 1,
        (find_char(s, ',') is None) == (split_commas(s).len() == 1),
        (find_char(s, ',') is None) ==> split_commas(s) == seq![s],
    decreases s.len(),
{
    lemma_find_char(s, ',');
    match find_char(s, ',') {
        None => {},
        Some(k) => {
            lemma_split_commas_len(s.skip(k + 1));
        },
    }
}

/// Parse every piece as a segment; `None` as soon as one fails.
pub open spec fn parse_segments(ps: Seq<Seq<char>>) -> Option<Seq<RefView>>
    decreases ps,
{
    if ps.len() == 0 {
        Some(Seq::empty())
    } else {
        match (parse_segment(ps[0]), parse_segments(ps.drop_first())) {
            (Some(v), Some(rest)) => Some(seq![v] + rest),
            _ => None,
        }
    }
}

pub proof fn lemma_parse_segments(ps: Seq<Seq<char>>)
    ensures
        match parse_segments(ps) {
            Some(vs) => vs.len() == ps.len() && forall|j: int|
                0 <= j < ps.len() ==> parse_segment(#[trigger] ps[j]) == Some(vs[j]),
            None => exists|j: int| 0 <= j < ps.len() && parse_segment(#[trigger] ps[j]) is None,
        },
    decreases ps,
{
    if ps.len() > 0 {
        lemma_parse_segments(ps.drop_first());
        assert(forall|j: int|
            1 <= j < ps.len() ==> #[trigger] ps[j] == ps.drop_first()[j - 1]);
        match parse_segments(ps) {
            Some(vs) => {
                let rest = parse_segments(ps.drop_first()).unwrap();
                assert forall|j: int| 0 <= j < ps.len() implies parse_segment(#[trigger] ps[j])
                    == Some(vs[j]) by {
                    if j > 0 {
                        assert(parse_segment(ps.drop_first()[j - 1]) == Some(rest[j - 1]));
                        assert(vs[j] == rest[j - 1]);
                    }
                }
            },
            None => {
                if parse_segment(ps[0]) is None {
                    assert(0 <= 0 < ps.len() && parse_segment(ps[0]) is None);
                } else {
                    let j = choose|j: int|
                        0 <= j < ps.drop_first().len() && parse_segment(
                            #[trigger] ps.drop_first()[j],
                        ) is None;
                    assert(parse_segment(ps[j + 1]) is None);
                }
            },
        }
    }
}

/// Parse a full reference: split on commas, parse each piece, and wrap two
/// or more pieces in a union.
pub open spec fn parse_reference(s: Seq<char>) -> Option<RefView> {
    let ps = split_commas(s);
    if ps.len() == 1 {
        parse_segment(s)
    } else {
        match parse_segments(ps) {
            Some(vs) => Some(RefView::NonContiguous(vs)),
            None => None,
        }
    }
}

/// The end of the run of whitespace starting at `i`.
pub open spec fn ws_prefix(s: Seq<char>, i: int) -> int
    decreases s.len() - i,
{
    if 0 <= i < s.len() && is_ws_char(s[i]) {
        ws_prefix(s, i + 1)
    } else {
        i
    }
}

pub proof fn lemma_ws_prefix(s: Seq<char>, i: int)
    requires
        0 <= i <= s.len(),
    ensures
        i <= ws_prefix(s, i) <= s.len(),
        forall|j: int| i <= j < ws_prefix(s, i) ==> is_ws_char(#[trigger] s[j]),
        ws_prefix(s, i) < s.len() ==> !is_ws_char(s[ws_prefix(s, i)]),
    decreases s.len() - i,
{
    if i < s.len() && is_ws_char(s[i]) {
        lemma_ws_prefix(s, i + 1);
    }
}

/// Scan a quoted sheet name from position `i` of `t`, which holds the
/// opening quote at position 0. A doubled quote stands for one literal
/// quote; a lone quote followed by another character closes the name. The
/// result is the name so far and the position just past the closing quote;
/// `None` when the text ends before the name closes.
pub open spec fn qscan(t: Seq<char>, i: int) -> Option<(Seq<char>, int)>
    decreases t.len() - i,
{
    if i < 0 || i >= t.len() {
        None
    } else if t[i] == '\'' {
        if i + 1 < t.len() && t[i + 1] == '\'' {
            match qscan(t, i + 2) {
                Some((nm, c)) => Some((seq!['\''] + nm, c)),
                None => None,
            }
        } else if i + 1 < t.len() {
            Some((Seq::empty(), i + 1))
        } else {
            None
        }
    } else {
        match qscan(t, i + 1) {
            Some((nm, c)) => Some((seq![t[i]] + nm, c)),
            None => None,
        }
    }
}

/// Split off the optional sheet name. A (whitespace-trimmed) leading quote
/// starts a quoted name, which must close and be followed by `!`; otherwise
/// everything before the first `!` is the name, taken raw; with no `!`
/// there is no name.
pub open spec fn sheet_split(s: Seq<char>) -> Option<(Option<Seq<char>>, Seq<char>)> {
    let w = ws_prefix(s, 0);
    if w < s.len() && s[w] == '\'' {
        let t = s.skip(w);
        match qscan(t, 1) {
            Some((nm, c)) => if c < t.len() && t[c] == '!' {
                Some((Some(nm), t.skip(c + 1)))
            } else {
                None
            },
            None => None,
        }
    } else {
        match find_char(s, '!') {
            Some(k) => Some((Some(s.take(k)), s.skip(k + 1))),
            None => Some((None, s)),
        }
    }
}

/// Parse a full string: the optional sheet name, then the reference.
pub open spec fn parse_a1_model(s: Seq<char>) -> Option<(Option<Seq<char>>, RefView)> {
    match sheet_split(s) {
        None => None,
        Some((sheet, rest)) => match parse_reference(rest) {
            Some(v) => Some((sheet, v)),
            None => None,
        },
    }
}


/// A fresh string holding just `c`.
fn char_string(c: char) -> (r: String)
    ensures
        r@ == seq![c],
{
    let mut out = String::new();
    push_char(&mut out, c);
    proof {
        assert(Seq::<char>::empty().push(c) =~= seq![c]);
    }
    out
}

/// A parse error whose message names the offending token.
fn token_error(message: &str, bad_input: String, token: String) -> (r: Error)
    ensures
        r is A1ParseError,
{
    let mut msg = String::from_str(message);
    msg.append(token.as_str());
    Error::parse_error(bad_input, msg)
}

/// The first occurrence of `c` in `cs[lo..hi]`.
fn find_in(cs: &Vec<char>, lo: usize, hi: usize, c: char) -> (r: Option<usize>)
    requires
        lo <= hi <= cs@.len(),
    ensures
        match r {
            Some(i) => lo <= i < hi && find_char(cs@.subrange(lo as int, hi as int), c) == Some(
                i - lo,
            ),
            None => find_char(cs@.subrange(lo as int, hi as int), c) is None,
        },
{
    let ghost sub = cs@.subrange(lo as int, hi as int);
    let mut j: usize = lo;
    while j < hi
        invariant
            lo <= j <= hi <= cs@.len(),
            sub == cs@.subrange(lo as int, hi as int),
            forall|i: int| 0 <= i < j - lo ==> sub[i] != c,
        decreases hi - j,
    {
        if cs[j] == c {
            proof {
                lemma_find_char(sub, c);
                assert(sub[j - lo] == c);
            }
            return Some(j);
        }
        proof {
            assert(sub[j - lo] != c);
        }
        j = j + 1;
    }
    proof {
        lemma_find_char(sub, c);
    }
    None
}

/// Whether every character of `cs[lo..hi]` is a digit or `$`.
fn range_all_row_chars(cs: &Vec<char>, lo: usize, hi: usize) -> (b: bool)
    requires
        lo <= hi <= cs@.len(),
    ensures
        b == all_row_chars(cs@.subrange(lo as int, hi as int)),
{
    let ghost sub = cs@.subrange(lo as int, hi as int);
    let mut j: usize = lo;
    while j < hi
        invariant
            lo <= j <= hi <= cs@.len(),
            sub == cs@.subrange(lo as int, hi as int),
            forall|i: int| 0 <= i < j - lo ==> sub[i] == '$' || is_digit_char(#[trigger] sub[i]),
        decreases hi - j,
    {
        let c = cs[j];
        if !(c == '$' || digit_char_test(c)) {
            proof {
                assert(!(sub[j - lo] == '$' || is_digit_char(sub[j - lo])));
            }
            return false;
        }
        j = j + 1;
    }
    true
}

/// Whether every character of `cs[lo..hi]` is a letter or `$`.
fn range_all_col_chars(cs: &Vec<char>, lo: usize, hi: usize) -> (b: bool)
    requires
        lo <= hi <= cs@.len(),
    ensures
        b == all_col_chars(cs@.subrange(lo as int, hi as int)),
{
    let ghost sub = cs@.subrange(lo as int, hi as int);
    let mut j: usize = lo;
    while j < hi
        invariant
            lo <= j <= hi <= cs@.len(),
            sub == cs@.subrange(lo as int, hi as int),
            forall|i: int| 0 <= i < j - lo ==> sub[i] == '$' || is_alpha_char(#[trigger] sub[i]),
        decreases hi - j,
    {
        let c = cs[j];
        if !(c == '$' || alpha_char_test(c)) {
            proof {
                assert(!(sub[j - lo] == '$' || is_alpha_char(sub[j - lo])));
            }
            return false;
        }
        j = j + 1;
    }
    true
}

/// Parse `cs[lo..hi]` as a column token.
pub(crate) fn parse_col_range(cs: &Vec<char>, lo: usize, hi: usize) -> (r: Result<Column, Error>)
    requires
        lo <= hi <= cs@.len(),
    ensures
        match r {
            Ok(c) => parse_col(cs@.subrange(lo as int, hi as int)) == Some(c),
            Err(e) => parse_col(cs@.subrange(lo as int, hi as int)) is None && e is A1ParseError,
        },
{
    let ghost sub = cs@.subrange(lo as int, hi as int);
    let mut j: usize = lo;
    let mut absolute = false;
    if j < hi && cs[j] == '$' {
        absolute = true;
        j = j + 1;
    }
    let start: usize = j;
    let ghost t = strip_dollar(sub);
    proof {
        assert(t =~= cs@.subrange(start as int, hi as int));
        assert(absolute == has_dollar(sub));
    }
    if start == hi {
        return Err(token_error(
            "Invalid character in A1 notation: ",
            string_of_range(cs, lo, hi),
            string_of_range(cs, lo, hi),
        ));
    }
    let mut acc: u128 = 0;
    while j < hi
        invariant
            lo <= start <= j <= hi <= cs@.len(),
            sub == cs@.subrange(lo as int, hi as int),
            t == cs@.subrange(start as int, hi as int),
            t == strip_dollar(sub),
            absolute == has_dollar(sub),
            forall|i: int| 0 <= i < j - start ==> is_alpha_char(#[trigger] t[i]),
            acc == letters_val(t.take(j - start)),
            acc <= usize::MAX as u128,
        decreases hi - j,
    {
        let c = cs[j];
        if !alpha_char_test(c) {
            proof {
                assert(!is_alpha_char(t[j - start]));
            }
            return Err(token_error(
                "Invalid character in A1 notation: ",
                char_string(c),
                string_of_range(cs, lo, hi),
            ));
        }
        let v = letter_num(c);
        let acc2: u128 = acc * 26 + v as u128;
        proof {
            assert(t.take(j - start + 1).drop_last() =~= t.take(j - start));
            assert(t.take(j - start + 1).last() == t[j - start]);
            assert(t[j - start] == cs@[j as int]);
            assert(acc2 == letters_val(t.take(j - start + 1)));
        }
        if acc2 > usize::MAX as u128 {
            proof {
                lemma_letters_val_prefix(t, j - start + 1);
            }
            return Err(token_error(
                "A1 column is too large to represent: ",
                string_of_range(cs, lo, hi),
                string_of_range(cs, lo, hi),
            ));
        }
        acc = acc2;
        j = j + 1;
    }
    proof {
        assert(t.take(hi - start) =~= t);
        crate::numerals::lemma_letters_val_pos(t);
    }
    Ok(Column { absolute, x: (acc - 1) as usize })
}

/// Parse `cs[lo..hi]` as a row token.
pub(crate) fn parse_row_range(cs: &Vec<char>, lo: usize, hi: usize) -> (r: Result<Row, Error>)
    requires
        lo <= hi <= cs@.len(),
    ensures
        match r {
            Ok(w) => parse_row(cs@.subrange(lo as int, hi as int)) == Some(w),
            Err(e) => parse_row(cs@.subrange(lo as int, hi as int)) is None && e is A1ParseError,
        },
{
    let ghost sub = cs@.subrange(lo as int, hi as int);
    let mut j: usize = lo;
    let mut absolute = false;
    if j < hi && cs[j] == '$' {
        absolute = true;
        j = j + 1;
    }
    let start: usize = j;
    let ghost t = strip_dollar(sub);
    proof {
        assert(t =~= cs@.subrange(start as int, hi as int));
        assert(absolute == has_dollar(sub));
    }
    if start == hi {
        return Err(token_error(
            "Error parsing number part of A1 reference: ",
            string_of_range(cs, lo, hi),
            string_of_range(cs, lo, hi),
        ));
    }
    let mut acc: u128 = 0;
    while j < hi
        invariant
            lo <= start <= j <= hi <= cs@.len(),
            sub == cs@.subrange(lo as int, hi as int),
            t == cs@.subrange(start as int, hi as int),
            t == strip_dollar(sub),
            absolute == has_dollar(sub),
            forall|i: int| 0 <= i < j - start ==> is_digit_char(#[trigger] t[i]),
            acc == digits_val(t.take(j - start)),
            acc <= usize::MAX as u128,
        decreases hi - j,
    {
        let c = cs[j];
        if !digit_char_test(c) {
            proof {
                assert(!is_digit_char(t[j - start]));
            }
            return Err(token_error(
                "Error parsing number part of A1 reference: ",
                char_string(c),
                string_of_range(cs, lo, hi),
            ));
        }
        let v = digit_num(c);
        let acc2: u128 = acc * 10 + v as u128;
        proof {
            assert(t.take(j - start + 1).drop_last() =~= t.take(j - start));
            assert(t.take(j - start + 1).last() == t[j - start]);
            assert(t[j - start] == cs@[j as int]);
            assert(acc2 == digits_val(t.take(j - start + 1)));
        }
        if acc2 > usize::MAX as u128 {
            proof {
                lemma_digits_val_prefix(t, j - start + 1);
            }
            return Err(token_error(
                "A1 row is too large to represent: ",
                string_of_range(cs, lo, hi),
                string_of_range(cs, lo, hi),
            ));
        }
        acc = acc2;
        j = j + 1;
    }
    proof {
        assert(t.take(hi - start) =~= t);
    }
    if acc == 0 {
        return Err(token_error(
            "A1 reference must be greater than 0",
            char_string('0'),
            String::new(),
        ));
    }
    Ok(Row { absolute, y: (acc - 1) as usize })
}

/// Parse `cs[lo..hi]` as a cell token: letters up to the first digit or
/// inner `$`, then the row number.
pub(crate) fn parse_addr_range(cs: &Vec<char>, lo: usize, hi: usize) -> (r: Result<
    Address,
    Error,
>)
    requires
        lo <= hi <= cs@.len(),
    ensures
        match r {
            Ok(a) => parse_addr(cs@.subrange(lo as int, hi as int)) == Some(a),
            Err(e) => parse_addr(cs@.subrange(lo as int, hi as int)) is None && e is A1ParseError,
        },
{
    let ghost sub = cs@.subrange(lo as int, hi as int);
    proof {
        lemma_addr_split_at(sub, 0);
    }
    let mut j: usize = lo;
    while j < hi && !((cs[j] == '$' && j > lo) || digit_char_test(cs[j]))
        invariant
            lo <= j <= hi <= cs@.len(),
            sub == cs@.subrange(lo as int, hi as int),
            forall|i: int| 0 <= i < j - lo ==> !addr_split_cond(sub, i),
        decreases hi - j,
    {
        proof {
            assert(!addr_split_cond(sub, j - lo));
        }
        j = j + 1;
    }
    if j == hi || j == lo {
        proof {
            if j < hi {
                assert(addr_split_cond(sub, j - lo));
            }
        }
        return Err(token_error(
            "You must supply a valid A1 reference with at least one letter followed by a number.",
            string_of_range(cs, lo, hi),
            String::new(),
        ));
    }
    proof {
        assert(addr_split_cond(sub, j - lo));
        assert(addr_split_at(sub, 0) == Some(j - lo));
        assert(sub.take(j - lo) =~= cs@.subrange(lo as int, j as int));
        assert(sub.skip(j - lo) =~= cs@.subrange(j as int, hi as int));
    }
    let column = match parse_col_range(cs, lo, j) {
        Ok(c) => c,
        Err(e) => {
            return Err(e);
        },
    };
    let row = match parse_row_range(cs, j, hi) {
        Ok(w) => w,
        Err(e) => {
            return Err(e);
        },
    };
    Ok(Address { column, row })
}

/// Parse `cs[lo..hi]` as one comma-free segment.
pub(crate) fn parse_segment_range(cs: &Vec<char>, lo: usize, hi: usize) -> (r: Result<
    RangeOrCell,
    Error,
>)
    requires
        lo <= hi <= cs@.len(),
    ensures
        match r {
            Ok(v) => parse_segment(cs@.subrange(lo as int, hi as int)) == Some(v@),
            Err(e) => parse_segment(cs@.subrange(lo as int, hi as int)) is None && e
                is A1ParseError,
        },
{
    let ghost sub = cs@.subrange(lo as int, hi as int);
    match find_in(cs, lo, hi, ':') {
        None => match parse_addr_range(cs, lo, hi) {
            Ok(a) => Ok(RangeOrCell::Cell(a)),
            Err(e) => Err(e),
        },
        Some(k) => {
            proof {
                assert(sub.take(k - lo) =~= cs@.subrange(lo as int, k as int));
                assert(sub.skip(k - lo + 1) =~= cs@.subrange(k + 1, hi as int));
            }
            if range_all_row_chars(cs, lo, k) && range_all_row_chars(cs, k + 1, hi) {
                let from = match parse_row_range(cs, lo, k) {
                    Ok(w) => w,
                    Err(e) => {
                        return Err(e);
                    },
                };
                let to = match parse_row_range(cs, k + 1, hi) {
                    Ok(w) => w,
                    Err(e) => {
                        return Err(e);
                    },
                };
                Ok(RangeOrCell::RowRange { from, to })
            } else if range_all_col_chars(cs, lo, k) && range_all_col_chars(cs, k + 1, hi) {
                let from = match parse_col_range(cs, lo, k) {
                    Ok(c) => c,
                    Err(e) => {
                        return Err(e);
                    },
                };
                let to = match parse_col_range(cs, k + 1, hi) {
                    Ok(c) => c,
                    Err(e) => {
                        return Err(e);
                    },
                };
                Ok(RangeOrCell::ColumnRange { from, to })
            } else {
                let from = match parse_addr_range(cs, lo, k) {
                    Ok(a) => a,
                    Err(e) => {
                        return Err(e);
                    },
                };
                let to = match parse_addr_range(cs, k + 1, hi) {
                    Ok(a) => a,
                    Err(e) => {
                        return Err(e);
                    },
                };
                Ok(RangeOrCell::Range { from, to })
            }
        },
    }
}

/// Parse `cs[lo..hi]` as a whole reference: one segment, or a union of
/// comma-separated segments.
pub(crate) fn parse_reference_range(cs: &Vec<char>, lo: usize, hi: usize) -> (r: Result<
    RangeOrCell,
    Error,
>)
    requires
        lo <= hi <= cs@.len(),
    ensures
        match r {
            Ok(v) => parse_reference(cs@.subrange(lo as int, hi as int)) == Some(v@),
            Err(e) => parse_reference(cs@.subrange(lo as int, hi as int)) is None && e
                is A1ParseError,
        },
{
    let ghost sub = cs@.subrange(lo as int, hi as int);
    let ghost ps = split_commas(sub);
    proof {
        lemma_split_commas_len(sub);
    }
    match find_in(cs, lo, hi, ',') {
        None => {
            let r = parse_segment_range(cs, lo, hi);
            proof {
                assert(ps.len() == 1);
            }
            r
        },
        Some(first) => {
            let mut items: Vec<RangeOrCell> = Vec::new();
            let mut pos: usize = lo;
            let ghost mut p: int = 0;
            loop
                invariant
                    lo <= pos <= hi <= cs@.len(),
                    sub == cs@.subrange(lo as int, hi as int),
                    ps == split_commas(sub),
                    ps.len() >= 2,
                    0 <= p <= ps.len() - 1,
                    items@.len() == p,
                    split_commas(cs@.subrange(pos as int, hi as int)) =~= ps.skip(p),
                    forall|j: int|
                        0 <= j < p ==> parse_segment(ps[j]) == Some((#[trigger] items@[j])@),
                decreases hi - pos,
            {
                let ghost tail = cs@.subrange(pos as int, hi as int);
                proof {
                    lemma_find_char(tail, ',');
                    assert(ps.skip(p)[0] == ps[p]);
                }
                match find_in(cs, pos, hi, ',') {
                    Some(k) => {
                        proof {
                            assert(tail.take(k - pos) =~= cs@.subrange(pos as int, k as int));
                            assert(tail.skip(k - pos + 1) =~= cs@.subrange(k + 1, hi as int));
                            assert(split_commas(tail) == seq![tail.take(k - pos)] + split_commas(
                                tail.skip(k - pos + 1),
                            ));
                            assert(ps[p] == cs@.subrange(pos as int, k as int));
                            assert(split_commas(cs@.subrange(k + 1, hi as int)) =~= ps.skip(p)
                                .drop_first());
                            assert(ps.skip(p).drop_first() =~= ps.skip(p + 1));
                            lemma_split_commas_len(cs@.subrange(k + 1, hi as int));
                        }
                        let item = match parse_segment_range(cs, pos, k) {
                            Ok(v) => v,
                            Err(e) => {
                                proof {
                                    lemma_parse_segments(ps);
                                    assert(parse_segment(ps[p]) is None);
                                    if parse_segments(ps) is Some {
                                        assert(false);
                                    }
                                }
                                return Err(e);
                            },
                        };
                        items.push(item);
                        pos = k + 1;
                        proof {
                            p = p + 1;
                        }
                    },
                    None => {
                        proof {
                            assert(split_commas(tail) == seq![tail]);
                            assert(ps.skip(p).len() == 1);
                            assert(p == ps.len() - 1);
                            assert(ps[p] == tail);
                        }
                        let item = match parse_segment_range(cs, pos, hi) {
                            Ok(v) => v,
                            Err(e) => {
                                proof {
                                    lemma_parse_segments(ps);
                                    assert(parse_segment(ps[p]) is None);
                                    if parse_segments(ps) is Some {
                                        assert(false);
                                    }
                                }
                                return Err(e);
                            },
                        };
                        items.push(item);
                        proof {
                            p = p + 1;
                            lemma_parse_segments(ps);
                            crate::range_or_cell::lemma_views_of(items@);
                            match parse_segments(ps) {
                                Some(vs) => {
                                    assert forall|j: int|
                                        0 <= j < ps.len() implies views_of(items@)[j]
                                        == vs[j] by {
                                        assert(parse_segment(ps[j]) == Some(vs[j]));
                                        assert(parse_segment(ps[j]) == Some((items@[j])@));
                                        assert(views_of(items@)[j] == view_of(items@[j]));
                                    }
                                    assert(views_of(items@) =~= vs);
                                },
                                None => {
                                    let j = choose|j: int|
                                        0 <= j < ps.len() && parse_segment(
                                            #[trigger] ps[j],
                                        ) is None;
                                    assert(parse_segment(ps[j]) == Some((items@[j])@));
                                    assert(false);
                                },
                            }
                        }
                        return Ok(RangeOrCell::NonContiguous(items));
                    },
                }
            }
        },
    }
}


/// The views of an optional owned string.
pub open spec fn opt_str_view(o: Option<String>) -> Option<Seq<char>> {
    match o {
        Some(n) => Some(n@),
        None => None,
    }
}

/// Split off the optional sheet name of `cs`, returning it and the
/// position where the reference text begins.
pub(crate) fn parse_sheet(cs: &Vec<char>) -> (r: Result<(Option<String>, usize), Error>)
    ensures
        match r {
            Ok(pair) => pair.1 <= cs@.len() && sheet_split(cs@) == Some(
                (opt_str_view(pair.0), cs@.skip(pair.1 as int)),
            ),
            Err(e) => sheet_split(cs@) is None && e is A1ParseError,
        },
{
    let n = cs.len();
    let mut w: usize = 0;
    while w < n && ws_char_test(cs[w])
        invariant
            0 <= w <= n == cs@.len(),
            ws_prefix(cs@, 0) == ws_prefix(cs@, w as int),
        decreases n - w,
    {
        w = w + 1;
    }
    proof {
        assert(ws_prefix(cs@, w as int) == w);
    }
    if w < n && cs[w] == '\'' {
        let ghost t = cs@.skip(w as int);
        let mut name = String::new();
        let mut j: usize = w + 1;
        loop
            invariant
                w + 1 <= j <= n == cs@.len(),
                w < n,
                t == cs@.skip(w as int),
                cs@[w as int] == '\'',
                ws_prefix(cs@, 0) == w,
                match qscan(t, j - w) {
                    Some((nm, c)) => qscan(t, 1) == Some((name@ + nm, c)),
                    None => qscan(t, 1) is None,
                },
            decreases n - j,
        {
            if j >= n {
                return Err(Error::parse_error(
                    String::new(),
                    String::from_str("Expected a single-quoted string"),
                ));
            }
            let c = cs[j];
            proof {
                assert(t[j - w] == cs@[j as int]);
            }
            if c == '\'' {
                if j + 1 < n && cs[j + 1] == '\'' {
                    proof {
                        assert(t[j + 1 - w] == cs@[j + 1]);
                    }
                    let ghost pre = name@;
                    push_char(&mut name, '\'');
                    proof {
                        match qscan(t, j + 2 - w) {
                            Some((nm, c2)) => {
                                assert(qscan(t, j - w) == Some((seq!['\''] + nm, c2)));
                                assert(pre + (seq!['\''] + nm) =~= name@ + nm);
                            },
                            None => {},
                        }
                    }
                    j = j + 2;
                } else if j + 1 < n {
                    proof {
                        assert(t[j + 1 - w] == cs@[j + 1]);
                        assert(qscan(t, j - w) == Some((Seq::<char>::empty(), j + 1 - w)));
                        assert(name@ + Seq::<char>::empty() =~= name@);
                        assert(qscan(t, 1) == Some((name@, j + 1 - w)));
                    }
                    if cs[j + 1] == '!' {
                        proof {
                            assert(t.skip(j + 2 - w) =~= cs@.skip(j + 2));
                        }
                        return Ok((Some(name), j + 2));
                    } else {
                        return Err(Error::parse_error(
                            String::new(),
                            String::from_str("Expected a `!` after the single quoted name"),
                        ));
                    }
                } else {
                    return Err(Error::parse_error(
                        String::new(),
                        String::from_str("Expected a single-quoted string"),
                    ));
                }
            } else {
                let ghost pre = name@;
                push_char(&mut name, c);
                proof {
                    match qscan(t, j + 1 - w) {
                        Some((nm, c2)) => {
                            assert(qscan(t, j - w) == Some((seq![t[j - w]] + nm, c2)));
                            assert(pre + (seq![t[j - w]] + nm) =~= name@ + nm);
                        },
                        None => {},
                    }
                }
                j = j + 1;
            }
        }
    } else {
        proof {
            assert(cs@.subrange(0, n as int) =~= cs@);
        }
        match find_in(cs, 0, n, '!') {
            Some(k) => {
                let name = string_of_range(cs, 0, k);
                proof {
                    assert(cs@.take(k as int) =~= cs@.subrange(0, k as int));
                }
                Ok((Some(name), k + 1))
            },
            None => Ok((None, 0)),
        }
    }
}

impl Column {
    /// Parse a column token such as `"A"`, `"$C"` or `"AA"`, in either
    /// case.
    pub fn parse(s: &str) -> (r: Result<Column, Error>)
        ensures
            match r {
                Ok(c) => parse_col(s@) == Some(c),
                Err(e) => parse_col(s@) is None && e is A1ParseError,
            },
    {
        let cs = crate::text::chars_of(s);
        proof {
            assert(cs@.subrange(0, cs@.len() as int) =~= s@);
        }
        let n = cs.len();
        parse_col_range(&cs, 0, n)
    }
}

impl Row {
    /// Parse a row token such as `"1"` or `"$12"`: a one-based number.
    pub fn parse(s: &str) -> (r: Result<Row, Error>)
        ensures
            match r {
                Ok(w) => parse_row(s@) == Some(w),
                Err(e) => parse_row(s@) is None && e is A1ParseError,
            },
    {
        let cs = crate::text::chars_of(s);
        proof {
            assert(cs@.subrange(0, cs@.len() as int) =~= s@);
        }
        let n = cs.len();
        parse_row_range(&cs, 0, n)
    }
}

impl Address {
    /// Parse a cell token such as `"A1"` or `"$B$2"`.
    pub fn parse(s: &str) -> (r: Result<Address, Error>)
        ensures
            match r {
                Ok(a) => parse_addr(s@) == Some(a),
                Err(e) => parse_addr(s@) is None && e is A1ParseError,
            },
    {
        let cs = crate::text::chars_of(s);
        proof {
            assert(cs@.subrange(0, cs@.len() as int) =~= s@);
        }
        let n = cs.len();
        parse_addr_range(&cs, 0, n)
    }
}

impl RangeOrCell {
    /// Parse a reference without a sheet name: one segment, or a union of
    /// comma-separated segments.
    pub fn parse(s: &str) -> (r: Result<RangeOrCell, Error>)
        ensures
            match r {
                Ok(v) => parse_reference(s@) == Some(v@),
                Err(e) => parse_reference(s@) is None && e is A1ParseError,
            },
    {
        let cs = crate::text::chars_of(s);
        proof {
            assert(cs@.subrange(0, cs@.len() as int) =~= s@);
        }
        let n = cs.len();
        parse_reference_range(&cs, 0, n)
    }
}

impl core::str::FromStr for Column {
    type Err = Error;

    fn from_str(s: &str) -> Result<Column, Error> {
        Column::parse(s)
    }
}

impl core::str::FromStr for Row {
    type Err = Error;

    fn from_str(s: &str) -> Result<Row, Error> {
        Row::parse(s)
    }
}

impl core::str::FromStr for Address {
    type Err = Error;

    fn from_str(s: &str) -> Result<Address, Error> {
        Address::parse(s)
    }
}

impl core::str::FromStr for RangeOrCell {
    type Err = Error;

    fn from_str(s: &str) -> Result<RangeOrCell, Error> {
        RangeOrCell::parse(s)
    }
}

} // verus!
