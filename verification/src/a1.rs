//! The outermost reference type: a reference together with an optional
//! sheet name.

use crate::address::Address;
use crate::chars::is_ws_char;
use crate::column::Column;
use crate::error::Error;
use crate::parse::{opt_str_view, parse_a1_model};
use crate::range_or_cell::{
    contains_spec, ref_eq_spec, shifted_down, shifted_left, shifted_right, shifted_up, view_of,
    with_x_spec, with_y_spec, RangeOrCell, RefView,
};
use crate::render::ref_text;
use crate::row::Row;
use crate::text::push_char;
use vstd::prelude::*;
use vstd::string::{StrSliceExecFns, StringExecFns};

verus! {

/// A reference together with the sheet it belongs to, if one was named.
/// This is the type that parsing produces and that carries every general
/// operation.
#[derive(Debug)]
pub struct A1 {
    pub sheet_name: Option<String>,
    pub reference: RangeOrCell,
}

/// Whether a sheet name must be quoted when rendered: it holds whitespace
/// or a quote.
pub open spec fn needs_quotes_spec(n: Seq<char>) -> bool {
    exists|i: int| 0 <= i < n.len() && (is_ws_char(#[trigger] n[i]) || n[i] == '\'')
}

/// A sheet name with every quote doubled, ready to stand between quotes.
pub open spec fn doubled(n: Seq<char>) -> Seq<char>
    decreases n,
{
    if n.len() == 0 {
        Seq::empty()
    } else if n[0] == '\'' {
        seq!['\'', '\''] + doubled(n.drop_first())
    } else {
        seq![n[0]] + doubled(n.drop_first())
    }
}

/// Doubling distributes over appending one character.
pub proof fn lemma_doubled_push(n: Seq<char>, c: char)
    ensures
        doubled(n.push(c)) == doubled(n) + if c == '\'' {
            seq!['\'', '\'']
        } else {
            seq![c]
        },
    decreases n,
{
    let tailtext: Seq<char> = if c == '\'' {
        seq!['\'', '\'']
    } else {
        seq![c]
    };
    if n.len() == 0 {
        assert(n.push(c).drop_first() =~= Seq::<char>::empty());
        assert(n.push(c)[0] == c);
        assert(doubled(Seq::<char>::empty()) =~= Seq::<char>::empty());
        if c == '\'' {
            assert(doubled(n.push(c)) == seq!['\'', '\''] + doubled(n.push(c).drop_first()));
            assert(doubled(n.push(c)) =~= tailtext);
        } else {
            assert(doubled(n.push(c)) == seq![n.push(c)[0]] + doubled(n.push(c).drop_first()));
            assert(doubled(n.push(c)) =~= tailtext);
        }
        assert(doubled(n) + tailtext =~= tailtext);
    } else {
        lemma_doubled_push(n.drop_first(), c);
        assert(n.push(c).drop_first() =~= n.drop_first().push(c));
        assert(n.push(c)[0] == n[0]);
        if n[0] == '\'' {
            assert(doubled(n.push(c)) == seq!['\'', '\''] + (doubled(n.drop_first()) + tailtext));
            assert(seq!['\'', '\''] + (doubled(n.drop_first()) + tailtext) =~= (seq!['\'', '\'']
                + doubled(n.drop_first())) + tailtext);
        } else {
            assert(doubled(n.push(c)) == seq![n[0]] + (doubled(n.drop_first()) + tailtext));
            assert(seq![n[0]] + (doubled(n.drop_first()) + tailtext) =~= (seq![n[0]] + doubled(
                n.drop_first(),
            )) + tailtext);
        }
    }
}

/// The rendered sheet name: quoted, with inner quotes doubled, when it
/// holds whitespace or a quote; otherwise as it stands.
pub open spec fn sheet_text(n: Seq<char>) -> Seq<char> {
    if needs_quotes_spec(n) {
        seq!['\''] + doubled(n) + seq!['\'']
    } else {
        n
    }
}

/// The full rendered text: the sheet name and a `!` when present, then the
/// reference.
pub open spec fn full_text(sheet: Option<Seq<char>>, v: RefView) -> Seq<char> {
    match sheet {
        None => ref_text(v),
        Some(n) => sheet_text(n) + seq!['!'] + ref_text(v),
    }
}

/// Whether two `A1` values are equal: same sheet name, `None` included,
/// and the same reference.
pub open spec fn a1_eq_spec(a: A1, b: A1) -> bool {
    opt_str_view(a.sheet_name) == opt_str_view(b.sheet_name) && ref_eq_spec(
        view_of(a.reference),
        view_of(b.reference),
    )
}

impl A1 {
    /// Is `other` completely contained within `self`? They must also lie in
    /// the same sheet (`self.sheet_name == other.sheet_name`).
    pub fn contains(&self, other: &Self) -> (r: bool)
        ensures
            r == (opt_str_view(self.sheet_name) == opt_str_view(other.sheet_name)
                && contains_spec(self.reference@, other.reference@)),
    {
        let names_match = match (&self.sheet_name, &other.sheet_name) {
            (Option::None, Option::None) => true,
            (Option::Some(a), Option::Some(b)) => *a == *b,
            _ => false,
        };
        names_match && self.reference.contains(&other.reference)
    }

    /// Returns a new `A1` shifted downwards by `rows` rows.
    pub fn shift_down(self, rows: usize) -> (r: Self)
        ensures
            r.sheet_name == self.sheet_name,
            r.reference@ == shifted_down(self.reference@, rows),
    {
        A1 { reference: self.reference.shift_down(rows), sheet_name: self.sheet_name }
    }

    /// Returns a new `A1` shifted left by `columns` columns.
    pub fn shift_left(self, columns: usize) -> (r: Self)
        ensures
            r.sheet_name == self.sheet_name,
            r.reference@ == shifted_left(self.reference@, columns),
    {
        A1 { reference: self.reference.shift_left(columns), sheet_name: self.sheet_name }
    }

    /// Returns a new `A1` shifted right by `columns` columns.
    pub fn shift_right(self, columns: usize) -> (r: Self)
        ensures
            r.sheet_name == self.sheet_name,
            r.reference@ == shifted_right(self.reference@, columns),
    {
        A1 { reference: self.reference.shift_right(columns), sheet_name: self.sheet_name }
    }

    /// Returns a new `A1` shifted up by `rows` rows.
    pub fn shift_up(self, rows: usize) -> (r: Self)
        ensures
            r.sheet_name == self.sheet_name,
            r.reference@ == shifted_up(self.reference@, rows),
    {
        A1 { reference: self.reference.shift_up(rows), sheet_name: self.sheet_name }
    }

    /// A copy of this `A1` with the given `sheet_name`.
    pub fn with_sheet_name(self, sheet_name: &str) -> (r: Self)
        ensures
            r.sheet_name matches Some(n) && n@ == sheet_name@,
            r.reference == self.reference,
    {
        A1 { sheet_name: Some(sheet_name.to_owned()), reference: self.reference }
    }

    /// A copy with the given X position set; a reference that already has
    /// an `x` component has it overwritten.
    pub fn with_x(self, x: usize) -> (r: Self)
        ensures
            r.sheet_name == self.sheet_name,
            r.reference@ == with_x_spec(self.reference@, x),
    {
        A1 { reference: self.reference.with_x(x), sheet_name: self.sheet_name }
    }

    /// A copy with the given Y position set; a reference that already has
    /// a `y` component has it overwritten.
    pub fn with_y(self, y: usize) -> (r: Self)
        ensures
            r.sheet_name == self.sheet_name,
            r.reference@ == with_y_spec(self.reference@, y),
    {
        A1 { reference: self.reference.with_y(y), sheet_name: self.sheet_name }
    }

    /// A copy without any sheet name.
    pub fn without_sheet_name(self) -> (r: Self)
        ensures
            r.sheet_name is None,
            r.reference == self.reference,
    {
        A1 { sheet_name: None, reference: self.reference }
    }

    /// Render the reference, prefixed by its sheet name and `!` when one is
    /// set; a name holding whitespace or a quote is single-quoted with its
    /// own quotes doubled.
    pub fn to_string(&self) -> (r: String)
        ensures
            r@ == full_text(opt_str_view(self.sheet_name), self.reference@),
    {
        match &self.sheet_name {
            Option::None => self.reference.to_string(),
            Option::Some(n) => {
                let cs = crate::text::chars_of(n.as_str());
                let len = cs.len();
                let mut nq = false;
                let mut k: usize = 0;
                while k < len
                    invariant
                        k <= len == cs@.len(),
                        cs@ == n@,
                        nq ==> needs_quotes_spec(n@),
                        !nq ==> forall|i: int|
                            0 <= i < k ==> !(is_ws_char(#[trigger] n@[i]) || n@[i] == '\''),
                    decreases len - k,
                {
                    let c = cs[k];
                    if crate::chars::ws_char_test(c) || c == '\'' {
                        nq = true;
                    }
                    k = k + 1;
                }
                let mut out = String::new();
                if nq {
                    push_char(&mut out, '\'');
                    let mut j: usize = 0;
                    while j < len
                        invariant
                            j <= len == cs@.len(),
                            cs@ == n@,
                            out@ == seq!['\''] + doubled(n@.take(j as int)),
                        decreases len - j,
                    {
                        let c = cs[j];
                        let ghost pre = n@.take(j as int);
                        if c == '\'' {
                            push_char(&mut out, '\'');
                            push_char(&mut out, '\'');
                        } else {
                            push_char(&mut out, c);
                        }
                        proof {
                            lemma_doubled_push(pre, n@[j as int]);
                            assert(pre.push(n@[j as int]) =~= n@.take(j + 1));
                            if c == '\'' {
                                assert(out@ =~= seq!['\''] + doubled(n@.take(j + 1)));
                            } else {
                                assert(out@ =~= seq!['\''] + doubled(n@.take(j + 1)));
                            }
                        }
                        j = j + 1;
                    }
                    push_char(&mut out, '\'');
                    proof {
                        assert(n@.take(len as int) =~= n@);
                        assert(out@ =~= seq!['\''] + doubled(n@) + seq!['\'']);
                    }
                } else {
                    out = n.clone();
                    proof {
                        assert(!needs_quotes_spec(n@));
                    }
                }
                push_char(&mut out, '!');
                let reftext = self.reference.to_string();
                out.append(reftext.as_str());
                proof {
                    assert(out@ =~= sheet_text(n@) + seq!['!'] + ref_text(self.reference@));
                }
                out
            },
        }
    }

    /// Parse a full reference string: an optional sheet name, quoted or
    /// bare, then the reference itself.
    pub fn parse(s: &str) -> (r: Result<A1, Error>)
        ensures
            match r {
                Ok(a) => parse_a1_model(s@) == Some(
                    (opt_str_view(a.sheet_name), a.reference@),
                ),
                Err(e) => parse_a1_model(s@) is None && e is A1ParseError,
            },
    {
        let cs = crate::text::chars_of(s);
        let n = cs.len();
        let (sheet_name, rest_lo) = match crate::parse::parse_sheet(&cs) {
            Ok(pair) => pair,
            Err(e) => {
                return Err(e);
            },
        };
        proof {
            assert(cs@.subrange(rest_lo as int, n as int) =~= cs@.skip(rest_lo as int));
        }
        let reference = match crate::parse::parse_reference_range(&cs, rest_lo, n) {
            Ok(v) => v,
            Err(e) => {
                return Err(e);
            },
        };
        Ok(A1 { sheet_name, reference })
    }
}

impl Clone for A1 {
    /// A deep copy with the same sheet name and reference.
    fn clone(&self) -> (res: Self)
        ensures
            opt_str_view(res.sheet_name) == opt_str_view(self.sheet_name),
            res.reference@ == self.reference@,
    {
        let sheet_name = match &self.sheet_name {
            Option::Some(n) => Some(n.clone()),
            Option::None => None,
        };
        A1 { sheet_name, reference: self.reference.clone() }
    }
}

impl PartialEq for A1 {
    /// Equal sheet names, `None` included, and equal references.
    fn eq(&self, other: &Self) -> (r: bool) {
        let names_match = match (&self.sheet_name, &other.sheet_name) {
            (Option::None, Option::None) => true,
            (Option::Some(a), Option::Some(b)) => *a == *b,
            _ => false,
        };
        names_match && self.reference.ref_eq(&other.reference)
    }
}

impl vstd::std_specs::cmp::PartialEqSpecImpl for A1 {
    open spec fn obeys_eq_spec() -> bool {
        true
    }

    open spec fn eq_spec(&self, other: &A1) -> bool {
        a1_eq_spec(*self, *other)
    }
}

impl core::str::FromStr for A1 {
    type Err = Error;

    fn from_str(s: &str) -> Result<A1, Error> {
        A1::parse(s)
    }
}

impl From<RangeOrCell> for A1 {
    /// A bare reference, with no sheet name.
    fn from(r: RangeOrCell) -> (a: Self) {
        A1 { sheet_name: None, reference: r }
    }
}

impl vstd::std_specs::convert::FromSpecImpl<RangeOrCell> for A1 {
    open spec fn obeys_from_spec() -> bool {
        true
    }

    open spec fn from_spec(r: RangeOrCell) -> Self {
        A1 { sheet_name: None, reference: r }
    }
}

impl From<Column> for A1 {
    /// A lone column, with no sheet name.
    fn from(c: Column) -> (a: Self) {
        A1 { sheet_name: None, reference: RangeOrCell::ColumnRange { from: c, to: c } }
    }
}

impl vstd::std_specs::convert::FromSpecImpl<Column> for A1 {
    open spec fn obeys_from_spec() -> bool {
        true
    }

    open spec fn from_spec(c: Column) -> Self {
        A1 { sheet_name: None, reference: RangeOrCell::ColumnRange { from: c, to: c } }
    }
}

impl From<Row> for A1 {
    /// A lone row, with no sheet name.
    fn from(w: Row) -> (a: Self) {
        A1 { sheet_name: None, reference: RangeOrCell::RowRange { from: w, to: w } }
    }
}

impl vstd::std_specs::convert::FromSpecImpl<Row> for A1 {
    open spec fn obeys_from_spec() -> bool {
        true
    }

    open spec fn from_spec(w: Row) -> Self {
        A1 { sheet_name: None, reference: RangeOrCell::RowRange { from: w, to: w } }
    }
}

impl From<Address> for A1 {
    /// A single cell, with no sheet name.
    fn from(p: Address) -> (a: Self) {
        A1 { sheet_name: None, reference: RangeOrCell::Cell(p) }
    }
}

impl vstd::std_specs::convert::FromSpecImpl<Address> for A1 {
    open spec fn obeys_from_spec() -> bool {
        true
    }

    open spec fn from_spec(p: Address) -> Self {
        A1 { sheet_name: None, reference: RangeOrCell::Cell(p) }
    }
}

} // verus!
