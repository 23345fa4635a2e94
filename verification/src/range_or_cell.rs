//! The five-way reference: a cell, a rectangle, an open column or row band,
//! or a non-contiguous union of references.

use crate::address::{addr_between, addr_same_cell, Address};
use crate::column::{col_shift_left, col_shift_right, index_between, Column};
use crate::row::{row_shift_down, row_shift_up, Row};
use crate::Index;
use vstd::prelude::*;

verus! {

/// A reference to a region of the sheet.
#[derive(Debug)]
pub enum RangeOrCell {
    /// Just a single cell.
    Cell(Address),
    /// A range between two columns, unbounded in height.
    ///
    /// * `from` - where the range begins
    /// * `to` - where the range ends
    ColumnRange { from: Column, to: Column },
    /// An ordered union of references, possibly overlapping.
    NonContiguous(Vec<RangeOrCell>),
    /// A rectangle between two corners; the corners may come in any order,
    /// and the direction is preserved, not normalised.
    ///
    /// * `from` - where the range begins
    /// * `to` - where the range ends
    Range { from: Address, to: Address },
    /// A range between two rows, unbounded in width.
    ///
    /// * `from` - where the range begins
    /// * `to` - where the range ends
    RowRange { from: Row, to: Row },
}

/// The mathematical shape of a reference: the same five cases, with a union
/// held as a sequence. Every contract of [`RangeOrCell`] speaks of this
/// form.
pub enum RefView {
    Cell(Address),
    ColumnRange { from: Column, to: Column },
    NonContiguous(Seq<RefView>),
    Range { from: Address, to: Address },
    RowRange { from: Row, to: Row },
}

pub open spec fn view_of(r: RangeOrCell) -> RefView
    decreases r,
{
    match r {
        RangeOrCell::Cell(a) => RefView::Cell(a),
        RangeOrCell::ColumnRange { from, to } => RefView::ColumnRange { from, to },
        RangeOrCell::NonContiguous(rs) => RefView::NonContiguous(views_of(rs@)),
        RangeOrCell::Range { from, to } => RefView::Range { from, to },
        RangeOrCell::RowRange { from, to } => RefView::RowRange { from, to },
    }
}

pub open spec fn views_of(s: Seq<RangeOrCell>) -> Seq<RefView>
    decreases s,
{
    if s.len() == 0 {
        Seq::empty()
    } else {
        seq![view_of(s[0])] + views_of(s.drop_first())
    }
}

impl View for RangeOrCell {
    type V = RefView;

    open spec fn view(&self) -> RefView {
        view_of(*self)
    }
}

/// `views_of` maps `view_of` over the list, keeping length and order.
pub proof fn lemma_views_of(s: Seq<RangeOrCell>)
    ensures
        views_of(s).len() == s.len(),
        forall|i: int| 0 <= i < s.len() ==> views_of(s)[i] == view_of(#[trigger] s[i]),
    decreases s,
{
    if s.len() > 0 {
        lemma_views_of(s.drop_first());
        assert forall|i: int| 0 <= i < s.len() implies views_of(s)[i] == view_of(
            #[trigger] s[i],
        ) by {
            if i > 0 {
                assert(views_of(s)[i] == views_of(s.drop_first())[i - 1]);
                assert(s.drop_first()[i - 1] == s[i]);
            }
        }
    }
}

/// The number of nodes of a reference, counting every member of every
/// union; the measure by which containment recurses.
pub open spec fn size(v: RefView) -> nat
    decreases v,
{
    match v {
        RefView::NonContiguous(s) => 1 + size_list(s),
        _ => 1,
    }
}

pub open spec fn size_list(s: Seq<RefView>) -> nat
    decreases s,
{
    if s.len() == 0 {
        0
    } else {
        size(s[0]) + size_list(s.drop_first())
    }
}

pub proof fn lemma_size_pos(v: RefView)
    ensures
        size(v) >= 1,
{
}

/// Every member weighs no more than the whole list.
pub proof fn lemma_size_list_bound(s: Seq<RefView>, i: int)
    requires
        0 <= i < s.len(),
    ensures
        size(s[i]) <= size_list(s),
    decreases s,
{
    if i > 0 {
        lemma_size_list_bound(s.drop_first(), i - 1);
        assert(s.drop_first()[i - 1] == s[i]);
    }
}

/// Whether two references have the same shape and the same indices; the `$`
/// pins play no part. This is what `==` on [`RangeOrCell`] decides.
pub open spec fn ref_eq_spec(a: RefView, b: RefView) -> bool
    decreases a,
{
    match (a, b) {
        (RefView::Cell(p), RefView::Cell(q)) => addr_same_cell(p, q),
        (
            RefView::ColumnRange { from: f1, to: t1 },
            RefView::ColumnRange { from: f2, to: t2 },
        ) => f1.x == f2.x && t1.x == t2.x,
        (RefView::NonContiguous(s1), RefView::NonContiguous(s2)) => ref_eq_list(s1, s2),
        (RefView::Range { from: f1, to: t1 }, RefView::Range { from: f2, to: t2 }) => addr_same_cell(
            f1,
            f2,
        ) && addr_same_cell(t1, t2),
        (RefView::RowRange { from: f1, to: t1 }, RefView::RowRange { from: f2, to: t2 }) => f1.y
            == f2.y && t1.y == t2.y,
        _ => false,
    }
}

pub open spec fn ref_eq_list(s1: Seq<RefView>, s2: Seq<RefView>) -> bool
    decreases s1,
{
    if s1.len() != s2.len() {
        false
    } else if s1.len() == 0 {
        true
    } else {
        ref_eq_spec(s1[0], s2[0]) && ref_eq_list(s1.drop_first(), s2.drop_first())
    }
}

pub proof fn lemma_ref_eq_list(s1: Seq<RefView>, s2: Seq<RefView>)
    ensures
        ref_eq_list(s1, s2) <==> (s1.len() == s2.len() && forall|i: int|
            0 <= i < s1.len() ==> ref_eq_spec(#[trigger] s1[i], s2[i])),
    decreases s1,
{
    if s1.len() == s2.len() && s1.len() > 0 {
        lemma_ref_eq_list(s1.drop_first(), s2.drop_first());
        assert forall|i: int|
            0 <= i < s1.drop_first().len() implies #[trigger] s1.drop_first()[i] == s1[i + 1]
            && s2.drop_first()[i] == s2[i + 1] by {}
        if ref_eq_list(s1, s2) {
            assert forall|i: int| 0 <= i < s1.len() implies ref_eq_spec(
                #[trigger] s1[i],
                s2[i],
            ) by {
                if i > 0 {
                    assert(ref_eq_spec(s1.drop_first()[i - 1], s2.drop_first()[i - 1]));
                }
            }
        }
    }
}

/// Whether the reference `a` contains the reference `b`, by the pairwise
/// rules of the five shapes:
///
/// - a cell contains only the same cell;
/// - a column band contains whatever lies fully between its columns, but
///   never a row band, and the mirror holds of row bands;
/// - a rectangle contains cells and rectangles that lie within it, taking
///   its corners in either order, and never an open band;
/// - a union contains `b` when any member does, while `a` contains a union
///   only by containing every member.
pub open spec fn contains_spec(a: RefView, b: RefView) -> bool
    decreases size(a) + size(b), 0int,
{
    match a {
        RefView::Cell(p) => match b {
            RefView::Cell(q) => addr_same_cell(p, q),
            RefView::NonContiguous(os) => contains_all(a, os),
            _ => false,
        },
        RefView::ColumnRange { from, to } => match b {
            RefView::ColumnRange { from: of, to: ot } => index_between(of.x, from.x, to.x)
                && index_between(ot.x, from.x, to.x),
            RefView::Cell(q) => index_between(q.column.x, from.x, to.x),
            RefView::NonContiguous(os) => contains_all(a, os),
            RefView::Range { from: rf, to: rt } => index_between(rf.column.x, from.x, to.x)
                && index_between(rt.column.x, from.x, to.x),
            RefView::RowRange { .. } => false,
        },
        RefView::NonContiguous(rs) => any_contains(rs, b),
        RefView::RowRange { from, to } => match b {
            RefView::ColumnRange { .. } => false,
            RefView::Cell(q) => index_between(q.row.y, from.y, to.y),
            RefView::RowRange { from: of, to: ot } => index_between(of.y, from.y, to.y)
                && index_between(ot.y, from.y, to.y),
            RefView::NonContiguous(os) => contains_all(a, os),
            RefView::Range { from: rf, to: rt } => index_between(rf.row.y, from.y, to.y)
                && index_between(rt.row.y, from.y, to.y),
        },
        RefView::Range { from, to } => match b {
            RefView::ColumnRange { .. } => false,
            RefView::Cell(q) => addr_between(q, from, to),
            RefView::RowRange { .. } => false,
            RefView::NonContiguous(os) => contains_all(a, os),
            RefView::Range { from: of, to: ot } => addr_between(of, from, to) && addr_between(
                ot,
                from,
                to,
            ),
        },
    }
}

/// `a` contains every member of `os`.
pub open spec fn contains_all(a: RefView, os: Seq<RefView>) -> bool
    decreases size(a) + size_list(os), 1int,
    via contains_all_decreases
{
    if os.len() == 0 {
        true
    } else {
        contains_spec(a, os[0]) && contains_all(a, os.drop_first())
    }
}

#[via_fn]
proof fn contains_all_decreases(a: RefView, os: Seq<RefView>) {
    if os.len() > 0 {
        assert(size_list(os) == size(os[0]) + size_list(os.drop_first()));
        lemma_size_pos(os[0]);
    }
}

/// Some member of `rs` contains `t`.
pub open spec fn any_contains(rs: Seq<RefView>, t: RefView) -> bool
    decreases size_list(rs) + size(t), 1int,
    via any_contains_decreases
{
    if rs.len() == 0 {
        false
    } else {
        contains_spec(rs[0], t) || any_contains(rs.drop_first(), t)
    }
}

#[via_fn]
proof fn any_contains_decreases(rs: Seq<RefView>, t: RefView) {
    if rs.len() > 0 {
        assert(size_list(rs) == size(rs[0]) + size_list(rs.drop_first()));
        lemma_size_pos(rs[0]);
    }
}

pub proof fn lemma_contains_all(a: RefView, os: Seq<RefView>)
    ensures
        contains_all(a, os) <==> forall|i: int|
            0 <= i < os.len() ==> contains_spec(a, #[trigger] os[i]),
    decreases os,
{
    if os.len() > 0 {
        lemma_contains_all(a, os.drop_first());
        assert forall|i: int|
            0 <= i < os.drop_first().len() implies #[trigger] os.drop_first()[i] == os[i + 1] by {}
        if contains_all(a, os) {
            assert forall|i: int| 0 <= i < os.len() implies contains_spec(
                a,
                #[trigger] os[i],
            ) by {
                if i > 0 {
                    assert(contains_spec(a, os.drop_first()[i - 1]));
                }
            }
        }
    }
}

pub proof fn lemma_any_contains(rs: Seq<RefView>, t: RefView)
    ensures
        any_contains(rs, t) <==> exists|i: int|
            0 <= i < rs.len() && contains_spec(#[trigger] rs[i], t),
    decreases rs,
{
    if rs.len() > 0 {
        lemma_any_contains(rs.drop_first(), t);
        assert forall|i: int|
            0 <= i < rs.drop_first().len() implies #[trigger] rs.drop_first()[i] == rs[i + 1] by {}
        if any_contains(rs, t) {
            if contains_spec(rs[0], t) {
                assert(0 <= 0 < rs.len() && contains_spec(rs[0], t));
            } else {
                let i = choose|i: int|
                    0 <= i < rs.drop_first().len() && contains_spec(
                        #[trigger] rs.drop_first()[i],
                        t,
                    );
                assert(contains_spec(rs[i + 1], t));
            }
        } else {
            assert forall|i: int| 0 <= i < rs.len() implies !contains_spec(
                #[trigger] rs[i],
                t,
            ) by {
                if i > 0 {
                    assert(rs.drop_first()[i - 1] == rs[i]);
                }
            }
        }
    }
}

impl RangeOrCell {
    /// Create a `RangeOrCell::ColumnRange` covering the single column at
    /// index `x`.
    pub fn column(x: Index) -> (r: Self)
        ensures
            r@ == (RefView::ColumnRange {
                from: Column { absolute: false, x },
                to: Column { absolute: false, x },
            }),
    {
        RangeOrCell::ColumnRange { from: Column::new(x), to: Column::new(x) }
    }

    /// Create a `RangeOrCell::ColumnRange` between two columns.
    pub fn column_range(xa: Index, xb: Index) -> (r: Self)
        ensures
            r@ == (RefView::ColumnRange {
                from: Column { absolute: false, x: xa },
                to: Column { absolute: false, x: xb },
            }),
    {
        RangeOrCell::ColumnRange { from: Column::new(xa), to: Column::new(xb) }
    }

    /// Create a `RangeOrCell::Range` between two addresses.
    pub fn range(aa: Address, ab: Address) -> (r: Self)
        ensures
            r@ == (RefView::Range { from: aa, to: ab }),
    {
        RangeOrCell::Range { from: aa, to: ab }
    }

    /// Create a `RangeOrCell::RowRange` covering the single row at index
    /// `y`.
    pub fn row(y: Index) -> (r: Self)
        ensures
            r@ == (RefView::RowRange {
                from: Row { absolute: false, y },
                to: Row { absolute: false, y },
            }),
    {
        RangeOrCell::RowRange { from: Row::new(y), to: Row::new(y) }
    }

    /// Create a `RangeOrCell::RowRange` between two rows.
    pub fn row_range(ya: Index, yb: Index) -> (r: Self)
        ensures
            r@ == (RefView::RowRange {
                from: Row { absolute: false, y: ya },
                to: Row { absolute: false, y: yb },
            }),
    {
        RangeOrCell::RowRange { from: Row::new(ya), to: Row::new(yb) }
    }

    /// Structural comparison of two references by shape and indices, the
    /// meaning of `==`.
    pub fn ref_eq(&self, other: &Self) -> (r: bool)
        ensures
            r == ref_eq_spec(self@, other@),
        decreases size(self@),
    {
        match (self, other) {
            (RangeOrCell::Cell(p), RangeOrCell::Cell(q)) => p.column.x == q.column.x && p.row.y
                == q.row.y,
            (
                RangeOrCell::ColumnRange { from: f1, to: t1 },
                RangeOrCell::ColumnRange { from: f2, to: t2 },
            ) => f1.x == f2.x && t1.x == t2.x,
            (RangeOrCell::NonContiguous(s1), RangeOrCell::NonContiguous(s2)) => {
                proof {
                    lemma_views_of(s1@);
                    lemma_views_of(s2@);
                }
                if s1.len() != s2.len() {
                    proof {
                        lemma_ref_eq_list(views_of(s1@), views_of(s2@));
                    }
                    return false;
                }
                let mut k: usize = 0;
                while k < s1.len()
                    invariant
                        k <= s1@.len() == s2@.len(),
                        views_of(s1@).len() == s1@.len(),
                        views_of(s2@).len() == s2@.len(),
                        forall|i: int|
                            0 <= i < s1@.len() ==> views_of(s1@)[i] == view_of(#[trigger] s1@[i]),
                        forall|i: int|
                            0 <= i < s2@.len() ==> views_of(s2@)[i] == view_of(#[trigger] s2@[i]),
                        forall|j: int|
                            0 <= j < k ==> ref_eq_spec(#[trigger] views_of(s1@)[j], views_of(
                                s2@,
                            )[j]),
                        self@ == RefView::NonContiguous(views_of(s1@)),
                        other@ == RefView::NonContiguous(views_of(s2@)),
                    decreases s1@.len() - k,
                {
                    proof {
                        lemma_size_list_bound(views_of(s1@), k as int);
                    }
                    if !s1[k].ref_eq(&s2[k]) {
                        proof {
                            lemma_ref_eq_list(views_of(s1@), views_of(s2@));
                        }
                        return false;
                    }
                    k = k + 1;
                }
                proof {
                    lemma_ref_eq_list(views_of(s1@), views_of(s2@));
                }
                true
            },
            (
                RangeOrCell::Range { from: f1, to: t1 },
                RangeOrCell::Range { from: f2, to: t2 },
            ) => f1.column.x == f2.column.x && f1.row.y == f2.row.y && t1.column.x == t2.column.x
                && t1.row.y == t2.row.y,
            (
                RangeOrCell::RowRange { from: f1, to: t1 },
                RangeOrCell::RowRange { from: f2, to: t2 },
            ) => f1.y == f2.y && t1.y == t2.y,
            _ => false,
        }
    }

    /// Is `other` completely contained within `self`? Every combination of
    /// shapes is handled by the rules of [`contains_spec`].
    pub fn contains(&self, other: &Self) -> (r: bool)
        ensures
            r == contains_spec(self@, other@),
        decreases size(self@) + size(other@), 0int,
    {
        match self {
            RangeOrCell::Cell(a) => match other {
                // a cell can only contain itself, nothing larger
                RangeOrCell::Cell(oa) => a.column.x == oa.column.x && a.row.y == oa.row.y,
                // a cell contains a union only by containing every member
                RangeOrCell::NonContiguous(os) => self.contains_each(os),
                _ => false,
            },
            RangeOrCell::ColumnRange { from, to } => match other {
                // it needs to be completely contained by self's column span
                RangeOrCell::ColumnRange { from: of, to: ot } => of.is_between(from, to)
                    && ot.is_between(from, to),
                // the cell just needs to be between the two columns
                RangeOrCell::Cell(a) => a.column.is_between(from, to),
                // the column span has to contain all of other's members
                RangeOrCell::NonContiguous(os) => self.contains_each(os),
                RangeOrCell::Range { from: rf, to: rt } => rf.column.is_between(from, to)
                    && rt.column.is_between(from, to),
                // a row range can never be contained inside a column range
                RangeOrCell::RowRange { .. } => false,
            },
            // any one of the members containing `other` is enough
            RangeOrCell::NonContiguous(rs) => {
                proof {
                    lemma_views_of(rs@);
                }
                let mut k: usize = 0;
                while k < rs.len()
                    invariant
                        k <= rs@.len(),
                        views_of(rs@).len() == rs@.len(),
                        forall|i: int|
                            0 <= i < rs@.len() ==> views_of(rs@)[i] == view_of(#[trigger] rs@[i]),
                        forall|j: int|
                            0 <= j < k ==> !contains_spec(#[trigger] views_of(rs@)[j], other@),
                        self@ == RefView::NonContiguous(views_of(rs@)),
                    decreases rs@.len() - k,
                {
                    proof {
                        lemma_size_list_bound(views_of(rs@), k as int);
                    }
                    if rs[k].contains(other) {
                        proof {
                            lemma_any_contains(views_of(rs@), other@);
                        }
                        return true;
                    }
                    k = k + 1;
                }
                proof {
                    lemma_any_contains(views_of(rs@), other@);
                }
                false
            },
            RangeOrCell::RowRange { from, to } => match other {
                // a column range can never be contained in a row range
                RangeOrCell::ColumnRange { .. } => false,
                // the cell just needs to be between the two rows
                RangeOrCell::Cell(a) => a.row.is_between(from, to),
                RangeOrCell::RowRange { from: of, to: ot } => of.is_between(from, to)
                    && ot.is_between(from, to),
                // the row span has to contain all of other's members
                RangeOrCell::NonContiguous(os) => self.contains_each(os),
                RangeOrCell::Range { from: rf, to: rt } => rf.row.is_between(from, to)
                    && rt.row.is_between(from, to),
            },
            RangeOrCell::Range { from, to } => match other {
                // a bounded range cannot contain an unbounded one
                RangeOrCell::ColumnRange { .. } => false,
                RangeOrCell::Cell(a) => a.is_between(from, to),
                RangeOrCell::RowRange { .. } => false,
                // the rectangle has to contain all of other's members
                RangeOrCell::NonContiguous(os) => self.contains_each(os),
                RangeOrCell::Range { from: of, to: ot } => of.is_between(from, to)
                    && ot.is_between(from, to),
            },
        }
    }

    /// Does `self` contain every member of `os`? `self` must weigh less
    /// than the union holding `os`, which it does in every use, being the
    /// non-union reference on the other side.
    fn contains_each(&self, os: &Vec<RangeOrCell>) -> (r: bool)
        requires
            !(self@ matches RefView::NonContiguous(_)),
        ensures
            r == contains_all(self@, views_of(os@)),
        decreases size(self@) + size_list(views_of(os@)), 1int,
    {
        proof {
            lemma_views_of(os@);
        }
        let mut k: usize = 0;
        while k < os.len()
            invariant
                k <= os@.len(),
                views_of(os@).len() == os@.len(),
                forall|i: int| 0 <= i < os@.len() ==> views_of(os@)[i] == view_of(#[trigger] os@[i]),
                forall|j: int| 0 <= j < k ==> contains_spec(self@, #[trigger] views_of(os@)[j]),
            decreases os@.len() - k,
        {
            proof {
                lemma_size_list_bound(views_of(os@), k as int);
                lemma_size_pos(self@);
            }
            if !self.contains(&os[k]) {
                proof {
                    lemma_contains_all(self@, views_of(os@));
                }
                return false;
            }
            k = k + 1;
        }
        proof {
            lemma_contains_all(self@, views_of(os@));
        }
        true
    }
}

impl Clone for RangeOrCell {
    /// A deep copy with the same shape and indices.
    fn clone(&self) -> (res: Self)
        ensures
            res@ == self@,
        decreases size(self@),
    {
        match self {
            RangeOrCell::Cell(a) => RangeOrCell::Cell(*a),
            RangeOrCell::ColumnRange { from, to } => RangeOrCell::ColumnRange {
                from: *from,
                to: *to,
            },
            RangeOrCell::NonContiguous(rs) => {
                proof {
                    lemma_views_of(rs@);
                }
                let mut out: Vec<RangeOrCell> = Vec::new();
                let mut k: usize = 0;
                while k < rs.len()
                    invariant
                        k <= rs@.len(),
                        out@.len() == k,
                        views_of(rs@).len() == rs@.len(),
                        forall|i: int|
                            0 <= i < rs@.len() ==> views_of(rs@)[i] == view_of(#[trigger] rs@[i]),
                        forall|j: int| 0 <= j < k ==> (#[trigger] out@[j])@ == rs@[j]@,
                        self@ == RefView::NonContiguous(views_of(rs@)),
                    decreases rs@.len() - k,
                {
                    proof {
                        lemma_size_list_bound(views_of(rs@), k as int);
                    }
                    out.push(rs[k].clone());
                    k = k + 1;
                }
                proof {
                    lemma_views_of(out@);
                    assert forall|j: int| 0 <= j < rs@.len() implies views_of(out@)[j] == views_of(
                        rs@,
                    )[j] by {
                        assert(views_of(out@)[j] == view_of(out@[j]));
                        assert((out@[j])@ == rs@[j]@);
                        assert(views_of(rs@)[j] == view_of(rs@[j]));
                    }
                    assert(views_of(out@) =~= views_of(rs@));
                }
                RangeOrCell::NonContiguous(out)
            },
            RangeOrCell::Range { from, to } => RangeOrCell::Range { from: *from, to: *to },
            RangeOrCell::RowRange { from, to } => RangeOrCell::RowRange { from: *from, to: *to },
        }
    }
}

impl PartialEq for RangeOrCell {
    /// References compare by shape and indices; the `$` pins play no part.
    fn eq(&self, other: &Self) -> (r: bool) {
        self.ref_eq(other)
    }
}

impl vstd::std_specs::cmp::PartialEqSpecImpl for RangeOrCell {
    open spec fn obeys_eq_spec() -> bool {
        true
    }

    open spec fn eq_spec(&self, other: &RangeOrCell) -> bool {
        ref_eq_spec(view_of(*self), view_of(*other))
    }
}

impl From<Column> for RangeOrCell {
    /// A lone column is the column range that covers just itself.
    fn from(c: Column) -> (r: Self) {
        RangeOrCell::ColumnRange { from: c, to: c }
    }
}

impl vstd::std_specs::convert::FromSpecImpl<Column> for RangeOrCell {
    open spec fn obeys_from_spec() -> bool {
        true
    }

    open spec fn from_spec(c: Column) -> Self {
        RangeOrCell::ColumnRange { from: c, to: c }
    }
}

impl From<Row> for RangeOrCell {
    /// A lone row is the row range that covers just itself.
    fn from(w: Row) -> (r: Self) {
        RangeOrCell::RowRange { from: w, to: w }
    }
}

impl vstd::std_specs::convert::FromSpecImpl<Row> for RangeOrCell {
    open spec fn obeys_from_spec() -> bool {
        true
    }

    open spec fn from_spec(w: Row) -> Self {
        RangeOrCell::RowRange { from: w, to: w }
    }
}

impl From<Address> for RangeOrCell {
    /// An address is a single-cell reference.
    fn from(a: Address) -> (r: Self) {
        RangeOrCell::Cell(a)
    }
}

impl vstd::std_specs::convert::FromSpecImpl<Address> for RangeOrCell {
    open spec fn obeys_from_spec() -> bool {
        true
    }

    open spec fn from_spec(a: Address) -> Self {
        RangeOrCell::Cell(a)
    }
}


pub open spec fn shifted_down(v: RefView, n: usize) -> RefView
    decreases v,
{
    match v {
        RefView::Cell(a) => RefView::Cell(Address { column: a.column, row: row_shift_down(a.row, n) }),
        RefView::ColumnRange { from, to } => RefView::ColumnRange { from, to },
        RefView::NonContiguous(s) => RefView::NonContiguous(shifted_down_list(s, n)),
        RefView::Range { from, to } => RefView::Range {
            from: Address { column: from.column, row: row_shift_down(from.row, n) },
            to: Address { column: to.column, row: row_shift_down(to.row, n) },
        },
        RefView::RowRange { from, to } => RefView::RowRange { from: row_shift_down(from, n), to: row_shift_down(to, n) },
    }
}

pub open spec fn shifted_down_list(s: Seq<RefView>, n: usize) -> Seq<RefView>
    decreases s,
{
    if s.len() == 0 {
        Seq::empty()
    } else {
        seq![shifted_down(s[0], n)] + shifted_down_list(s.drop_first(), n)
    }
}

pub proof fn lemma_shifted_down_list(s: Seq<RefView>, n: usize)
    ensures
        shifted_down_list(s, n).len() == s.len(),
        forall|i: int| 0 <= i < s.len() ==> shifted_down_list(s, n)[i] == shifted_down(#[trigger] s[i], n),
    decreases s,
{
    if s.len() > 0 {
        lemma_shifted_down_list(s.drop_first(), n);
        assert forall|i: int| 0 <= i < s.len() implies shifted_down_list(s, n)[i] == shifted_down(
            #[trigger] s[i],
            n,
        ) by {
            if i > 0 {
                assert(shifted_down_list(s, n)[i] == shifted_down_list(s.drop_first(), n)[i - 1]);
                assert(s.drop_first()[i - 1] == s[i]);
            }
        }
    }
}

pub open spec fn shifted_left(v: RefView, n: usize) -> RefView
    decreases v,
{
    match v {
        RefView::Cell(a) => RefView::Cell(Address { column: col_shift_left(a.column, n), row: a.row }),
        RefView::ColumnRange { from, to } => RefView::ColumnRange { from: col_shift_left(from, n), to: col_shift_left(to, n) },
        RefView::NonContiguous(s) => RefView::NonContiguous(shifted_left_list(s, n)),
        RefView::Range { from, to } => RefView::Range {
            from: Address { column: col_shift_left(from.column, n), row: from.row },
            to: Address { column: col_shift_left(to.column, n), row: to.row },
        },
        RefView::RowRange { from, to } => RefView::RowRange { from, to },
    }
}

pub open spec fn shifted_left_list(s: Seq<RefView>, n: usize) -> Seq<RefView>
    decreases s,
{
    if s.len() == 0 {
        Seq::empty()
    } else {
        seq![shifted_left(s[0], n)] + shifted_left_list(s.drop_first(), n)
    }
}

pub proof fn lemma_shifted_left_list(s: Seq<RefView>, n: usize)
    ensures
        shifted_left_list(s, n).len() == s.len(),
        forall|i: int| 0 <= i < s.len() ==> shifted_left_list(s, n)[i] == shifted_left(#[trigger] s[i], n),
    decreases s,
{
    if s.len() > 0 {
        lemma_shifted_left_list(s.drop_first(), n);
        assert forall|i: int| 0 <= i < s.len() implies shifted_left_list(s, n)[i] == shifted_left(
            #[trigger] s[i],
            n,
        ) by {
            if i > 0 {
                assert(shifted_left_list(s, n)[i] == shifted_left_list(s.drop_first(), n)[i - 1]);
                assert(s.drop_first()[i - 1] == s[i]);
            }
        }
    }
}

pub open spec fn shifted_right(v: RefView, n: usize) -> RefView
    decreases v,
{
    match v {
        RefView::Cell(a) => RefView::Cell(Address { column: col_shift_right(a.column, n), row: a.row }),
        RefView::ColumnRange { from, to } => RefView::ColumnRange { from: col_shift_right(from, n), to: col_shift_right(to, n) },
        RefView::NonContiguous(s) => RefView::NonContiguous(shifted_right_list(s, n)),
        RefView::Range { from, to } => RefView::Range {
            from: Address { column: col_shift_right(from.column, n), row: from.row },
            to: Address { column: col_shift_right(to.column, n), row: to.row },
        },
        RefView::RowRange { from, to } => RefView::RowRange { from, to },
    }
}

pub open spec fn shifted_right_list(s: Seq<RefView>, n: usize) -> Seq<RefView>
    decreases s,
{
    if s.len() == 0 {
        Seq::empty()
    } else {
        seq![shifted_right(s[0], n)] + shifted_right_list(s.drop_first(), n)
    }
}

pub proof fn lemma_shifted_right_list(s: Seq<RefView>, n: usize)
    ensures
        shifted_right_list(s, n).len() == s.len(),
        forall|i: int| 0 <= i < s.len() ==> shifted_right_list(s, n)[i] == shifted_right(#[trigger] s[i], n),
    decreases s,
{
    if s.len() > 0 {
        lemma_shifted_right_list(s.drop_first(), n);
        assert forall|i: int| 0 <= i < s.len() implies shifted_right_list(s, n)[i] == shifted_right(
            #[trigger] s[i],
            n,
        ) by {
            if i > 0 {
                assert(shifted_right_list(s, n)[i] == shifted_right_list(s.drop_first(), n)[i - 1]);
                assert(s.drop_first()[i - 1] == s[i]);
            }
        }
    }
}

pub open spec fn shifted_up(v: RefView, n: usize) -> RefView
    decreases v,
{
    match v {
        RefView::Cell(a) => RefView::Cell(Address { column: a.column, row: row_shift_up(a.row, n) }),
        RefView::ColumnRange { from, to } => RefView::ColumnRange { from, to },
        RefView::NonContiguous(s) => RefView::NonContiguous(shifted_up_list(s, n)),
        RefView::Range { from, to } => RefView::Range {
            from: Address { column: from.column, row: row_shift_up(from.row, n) },
            to: Address { column: to.column, row: row_shift_up(to.row, n) },
        },
        RefView::RowRange { from, to } => RefView::RowRange { from: row_shift_up(from, n), to: row_shift_up(to, n) },
    }
}

pub open spec fn shifted_up_list(s: Seq<RefView>, n: usize) -> Seq<RefView>
    decreases s,
{
    if s.len() == 0 {
        Seq::empty()
    } else {
        seq![shifted_up(s[0], n)] + shifted_up_list(s.drop_first(), n)
    }
}

pub proof fn lemma_shifted_up_list(s: Seq<RefView>, n: usize)
    ensures
        shifted_up_list(s, n).len() == s.len(),
        forall|i: int| 0 <= i < s.len() ==> shifted_up_list(s, n)[i] == shifted_up(#[trigger] s[i], n),
    decreases s,
{
    if s.len() > 0 {
        lemma_shifted_up_list(s.drop_first(), n);
        assert forall|i: int| 0 <= i < s.len() implies shifted_up_list(s, n)[i] == shifted_up(
            #[trigger] s[i],
            n,
        ) by {
            if i > 0 {
                assert(shifted_up_list(s, n)[i] == shifted_up_list(s.drop_first(), n)[i - 1]);
                assert(s.drop_first()[i - 1] == s[i]);
            }
        }
    }
}

pub open spec fn with_x_spec(v: RefView, n: usize) -> RefView
    decreases v,
{
    match v {
        RefView::Cell(a) => RefView::Cell(Address { column: Column { absolute: false, x: n }, row: a.row }),
        RefView::ColumnRange { from, to } => RefView::ColumnRange {
            from: Column { absolute: from.absolute, x: n },
            to: Column { absolute: to.absolute, x: n },
        },
        RefView::NonContiguous(s) => RefView::NonContiguous(with_x_list(s, n)),
        RefView::Range { from, to } => RefView::Range {
            from: Address { column: Column { absolute: false, x: n }, row: from.row },
            to: Address { column: Column { absolute: false, x: n }, row: to.row },
        },
        RefView::RowRange { from, to } => RefView::Range {
            from: Address {
                column: Column { absolute: false, x: n },
                row: Row { absolute: false, y: from.y },
            },
            to: Address {
                column: Column { absolute: false, x: n },
                row: Row { absolute: false, y: to.y },
            },
        },
    }
}

pub open spec fn with_x_list(s: Seq<RefView>, n: usize) -> Seq<RefView>
    decreases s,
{
    if s.len() == 0 {
        Seq::empty()
    } else {
        seq![with_x_spec(s[0], n)] + with_x_list(s.drop_first(), n)
    }
}

pub proof fn lemma_with_x_list(s: Seq<RefView>, n: usize)
    ensures
        with_x_list(s, n).len() == s.len(),
        forall|i: int| 0 <= i < s.len() ==> with_x_list(s, n)[i] == with_x_spec(#[trigger] s[i], n),
    decreases s,
{
    if s.len() > 0 {
        lemma_with_x_list(s.drop_first(), n);
        assert forall|i: int| 0 <= i < s.len() implies with_x_list(s, n)[i] == with_x_spec(
            #[trigger] s[i],
            n,
        ) by {
            if i > 0 {
                assert(with_x_list(s, n)[i] == with_x_list(s.drop_first(), n)[i - 1]);
                assert(s.drop_first()[i - 1] == s[i]);
            }
        }
    }
}

pub open spec fn with_y_spec(v: RefView, n: usize) -> RefView
    decreases v,
{
    match v {
        RefView::Cell(a) => RefView::Cell(Address { column: a.column, row: Row { absolute: false, y: n } }),
        RefView::ColumnRange { from, to } => RefView::Range {
            from: Address {
                column: Column { absolute: false, x: from.x },
                row: Row { absolute: false, y: n },
            },
            to: Address {
                column: Column { absolute: false, x: to.x },
                row: Row { absolute: false, y: n },
            },
        },
        RefView::NonContiguous(s) => RefView::NonContiguous(with_y_list(s, n)),
        RefView::Range { from, to } => RefView::Range {
            from: Address { column: from.column, row: Row { absolute: false, y: n } },
            to: Address { column: to.column, row: Row { absolute: false, y: n } },
        },
        RefView::RowRange { from, to } => RefView::RowRange {
            from: Row { absolute: from.absolute, y: n },
            to: Row { absolute: to.absolute, y: n },
        },
    }
}

pub open spec fn with_y_list(s: Seq<RefView>, n: usize) -> Seq<RefView>
    decreases s,
{
    if s.len() == 0 {
        Seq::empty()
    } else {
        seq![with_y_spec(s[0], n)] + with_y_list(s.drop_first(), n)
    }
}

pub proof fn lemma_with_y_list(s: Seq<RefView>, n: usize)
    ensures
        with_y_list(s, n).len() == s.len(),
        forall|i: int| 0 <= i < s.len() ==> with_y_list(s, n)[i] == with_y_spec(#[trigger] s[i], n),
    decreases s,
{
    if s.len() > 0 {
        lemma_with_y_list(s.drop_first(), n);
        assert forall|i: int| 0 <= i < s.len() implies with_y_list(s, n)[i] == with_y_spec(
            #[trigger] s[i],
            n,
        ) by {
            if i > 0 {
                assert(with_y_list(s, n)[i] == with_y_list(s.drop_first(), n)[i - 1]);
                assert(s.drop_first()[i - 1] == s[i]);
            }
        }
    }
}

impl RangeOrCell {

    /// Shift the reference down by `rows`; column ranges are unchanged, being
    /// unbounded on that axis.
    pub fn shift_down(&self, rows: usize) -> (r: Self)
        ensures
            r@ == shifted_down(self@, rows),
        decreases size(self@),
    {
        match self {
            RangeOrCell::Cell(a) => RangeOrCell::Cell(a.shift_down(rows)),
            RangeOrCell::ColumnRange { from, to } => RangeOrCell::ColumnRange { from: *from, to: *to },
            RangeOrCell::NonContiguous(rs) => {
                proof {
                    lemma_views_of(rs@);
                }
                let mut out: Vec<RangeOrCell> = Vec::new();
                let mut k: usize = 0;
                while k < rs.len()
                    invariant
                        k <= rs@.len(),
                        out@.len() == k,
                        views_of(rs@).len() == rs@.len(),
                        forall|i: int|
                            0 <= i < rs@.len() ==> views_of(rs@)[i] == view_of(#[trigger] rs@[i]),
                        forall|j: int|
                            0 <= j < k ==> (#[trigger] out@[j])@ == shifted_down(rs@[j]@, rows),
                        self@ == RefView::NonContiguous(views_of(rs@)),
                    decreases rs@.len() - k,
                {
                    proof {
                        lemma_size_list_bound(views_of(rs@), k as int);
                    }
                    out.push(rs[k].shift_down(rows));
                    k = k + 1;
                }
                proof {
                    lemma_views_of(out@);
                    lemma_shifted_down_list(views_of(rs@), rows);
                    assert forall|j: int| 0 <= j < rs@.len() implies views_of(out@)[j] == shifted_down_list(
                        views_of(rs@),
                        rows,
                    )[j] by {
                        assert(views_of(out@)[j] == view_of(out@[j]));
                        assert((out@[j])@ == shifted_down(rs@[j]@, rows));
                        assert(views_of(rs@)[j] == view_of(rs@[j]));
                    }
                    assert(views_of(out@) =~= shifted_down_list(views_of(rs@), rows));
                }
                RangeOrCell::NonContiguous(out)
            },
            RangeOrCell::Range { from, to } => RangeOrCell::Range { from: from.shift_down(rows), to: to.shift_down(rows) },
            RangeOrCell::RowRange { from, to } => RangeOrCell::RowRange { from: from.shift_down(rows), to: to.shift_down(rows) },
        }
    }

    /// Shift the reference left by `columns`, never past the leftmost column;
    /// row ranges are unchanged, being unbounded on that axis.
    pub fn shift_left(&self, columns: usize) -> (r: Self)
        ensures
            r@ == shifted_left(self@, columns),
        decreases size(self@),
    {
        match self {
            RangeOrCell::Cell(a) => RangeOrCell::Cell(a.shift_left(columns)),
            RangeOrCell::ColumnRange { from, to } => RangeOrCell::ColumnRange { from: from.shift_left(columns), to: to.shift_left(columns) },
            RangeOrCell::NonContiguous(rs) => {
                proof {
                    lemma_views_of(rs@);
                }
                let mut out: Vec<RangeOrCell> = Vec::new();
                let mut k: usize = 0;
                while k < rs.len()
                    invariant
                        k <= rs@.len(),
                        out@.len() == k,
                        views_of(rs@).len() == rs@.len(),
                        forall|i: int|
                            0 <= i < rs@.len() ==> views_of(rs@)[i] == view_of(#[trigger] rs@[i]),
                        forall|j: int|
                            0 <= j < k ==> (#[trigger] out@[j])@ == shifted_left(rs@[j]@, columns),
                        self@ == RefView::NonContiguous(views_of(rs@)),
                    decreases rs@.len() - k,
                {
                    proof {
                        lemma_size_list_bound(views_of(rs@), k as int);
                    }
                    out.push(rs[k].shift_left(columns));
                    k = k + 1;
                }
                proof {
                    lemma_views_of(out@);
                    lemma_shifted_left_list(views_of(rs@), columns);
                    assert forall|j: int| 0 <= j < rs@.len() implies views_of(out@)[j] == shifted_left_list(
                        views_of(rs@),
                        columns,
                    )[j] by {
                        assert(views_of(out@)[j] == view_of(out@[j]));
                        assert((out@[j])@ == shifted_left(rs@[j]@, columns));
                        assert(views_of(rs@)[j] == view_of(rs@[j]));
                    }
                    assert(views_of(out@) =~= shifted_left_list(views_of(rs@), columns));
                }
                RangeOrCell::NonContiguous(out)
            },
            RangeOrCell::Range { from, to } => RangeOrCell::Range { from: from.shift_left(columns), to: to.shift_left(columns) },
            RangeOrCell::RowRange { from, to } => RangeOrCell::RowRange { from: *from, to: *to },
        }
    }

    /// Shift the reference right by `columns`; row ranges are unchanged,
    /// being unbounded on that axis.
    pub fn shift_right(&self, columns: usize) -> (r: Self)
        ensures
            r@ == shifted_right(self@, columns),
        decreases size(self@),
    {
        match self {
            RangeOrCell::Cell(a) => RangeOrCell::Cell(a.shift_right(columns)),
            RangeOrCell::ColumnRange { from, to } => RangeOrCell::ColumnRange { from: from.shift_right(columns), to: to.shift_right(columns) },
            RangeOrCell::NonContiguous(rs) => {
                proof {
                    lemma_views_of(rs@);
                }
                let mut out: Vec<RangeOrCell> = Vec::new();
                let mut k: usize = 0;
                while k < rs.len()
                    invariant
                        k <= rs@.len(),
                        out@.len() == k,
                        views_of(rs@).len() == rs@.len(),
                        forall|i: int|
                            0 <= i < rs@.len() ==> views_of(rs@)[i] == view_of(#[trigger] rs@[i]),
                        forall|j: int|
                            0 <= j < k ==> (#[trigger] out@[j])@ == shifted_right(rs@[j]@, columns),
                        self@ == RefView::NonContiguous(views_of(rs@)),
                    decreases rs@.len() - k,
                {
                    proof {
                        lemma_size_list_bound(views_of(rs@), k as int);
                    }
                    out.push(rs[k].shift_right(columns));
                    k = k + 1;
                }
                proof {
                    lemma_views_of(out@);
                    lemma_shifted_right_list(views_of(rs@), columns);
                    assert forall|j: int| 0 <= j < rs@.len() implies views_of(out@)[j] == shifted_right_list(
                        views_of(rs@),
                        columns,
                    )[j] by {
                        assert(views_of(out@)[j] == view_of(out@[j]));
                        assert((out@[j])@ == shifted_right(rs@[j]@, columns));
                        assert(views_of(rs@)[j] == view_of(rs@[j]));
                    }
                    assert(views_of(out@) =~= shifted_right_list(views_of(rs@), columns));
                }
                RangeOrCell::NonContiguous(out)
            },
            RangeOrCell::Range { from, to } => RangeOrCell::Range { from: from.shift_right(columns), to: to.shift_right(columns) },
            RangeOrCell::RowRange { from, to } => RangeOrCell::RowRange { from: *from, to: *to },
        }
    }

    /// Shift the reference up by `rows`, never past the top row; column
    /// ranges are unchanged, being unbounded on that axis.
    pub fn shift_up(&self, rows: usize) -> (r: Self)
        ensures
            r@ == shifted_up(self@, rows),
        decreases size(self@),
    {
        match self {
            RangeOrCell::Cell(a) => RangeOrCell::Cell(a.shift_up(rows)),
            RangeOrCell::ColumnRange { from, to } => RangeOrCell::ColumnRange { from: *from, to: *to },
            RangeOrCell::NonContiguous(rs) => {
                proof {
                    lemma_views_of(rs@);
                }
                let mut out: Vec<RangeOrCell> = Vec::new();
                let mut k: usize = 0;
                while k < rs.len()
                    invariant
                        k <= rs@.len(),
                        out@.len() == k,
                        views_of(rs@).len() == rs@.len(),
                        forall|i: int|
                            0 <= i < rs@.len() ==> views_of(rs@)[i] == view_of(#[trigger] rs@[i]),
                        forall|j: int|
                            0 <= j < k ==> (#[trigger] out@[j])@ == shifted_up(rs@[j]@, rows),
                        self@ == RefView::NonContiguous(views_of(rs@)),
                    decreases rs@.len() - k,
                {
                    proof {
                        lemma_size_list_bound(views_of(rs@), k as int);
                    }
                    out.push(rs[k].shift_up(rows));
                    k = k + 1;
                }
                proof {
                    lemma_views_of(out@);
                    lemma_shifted_up_list(views_of(rs@), rows);
                    assert forall|j: int| 0 <= j < rs@.len() implies views_of(out@)[j] == shifted_up_list(
                        views_of(rs@),
                        rows,
                    )[j] by {
                        assert(views_of(out@)[j] == view_of(out@[j]));
                        assert((out@[j])@ == shifted_up(rs@[j]@, rows));
                        assert(views_of(rs@)[j] == view_of(rs@[j]));
                    }
                    assert(views_of(out@) =~= shifted_up_list(views_of(rs@), rows));
                }
                RangeOrCell::NonContiguous(out)
            },
            RangeOrCell::Range { from, to } => RangeOrCell::Range { from: from.shift_up(rows), to: to.shift_up(rows) },
            RangeOrCell::RowRange { from, to } => RangeOrCell::RowRange { from: from.shift_up(rows), to: to.shift_up(rows) },
        }
    }

    /// Set the `x` component. A cell keeps its row; a column range collapses
    /// onto the single column `x`; a row range, given a column, becomes a
    /// rectangle one column wide; a rectangle moves both corners onto `x`.
    pub fn with_x(&self, x: usize) -> (r: Self)
        ensures
            r@ == with_x_spec(self@, x),
        decreases size(self@),
    {
        match self {
            RangeOrCell::Cell(a) => RangeOrCell::Cell(a.with_x(x)),
            RangeOrCell::ColumnRange { from, to } => RangeOrCell::ColumnRange { from: from.with_x(x), to: to.with_x(x) },
            RangeOrCell::NonContiguous(rs) => {
                proof {
                    lemma_views_of(rs@);
                }
                let mut out: Vec<RangeOrCell> = Vec::new();
                let mut k: usize = 0;
                while k < rs.len()
                    invariant
                        k <= rs@.len(),
                        out@.len() == k,
                        views_of(rs@).len() == rs@.len(),
                        forall|i: int|
                            0 <= i < rs@.len() ==> views_of(rs@)[i] == view_of(#[trigger] rs@[i]),
                        forall|j: int|
                            0 <= j < k ==> (#[trigger] out@[j])@ == with_x_spec(rs@[j]@, x),
                        self@ == RefView::NonContiguous(views_of(rs@)),
                    decreases rs@.len() - k,
                {
                    proof {
                        lemma_size_list_bound(views_of(rs@), k as int);
                    }
                    out.push(rs[k].with_x(x));
                    k = k + 1;
                }
                proof {
                    lemma_views_of(out@);
                    lemma_with_x_list(views_of(rs@), x);
                    assert forall|j: int| 0 <= j < rs@.len() implies views_of(out@)[j] == with_x_list(
                        views_of(rs@),
                        x,
                    )[j] by {
                        assert(views_of(out@)[j] == view_of(out@[j]));
                        assert((out@[j])@ == with_x_spec(rs@[j]@, x));
                        assert(views_of(rs@)[j] == view_of(rs@[j]));
                    }
                    assert(views_of(out@) =~= with_x_list(views_of(rs@), x));
                }
                RangeOrCell::NonContiguous(out)
            },
            RangeOrCell::Range { from, to } => RangeOrCell::Range { from: from.with_x(x), to: to.with_x(x) },
            RangeOrCell::RowRange { from, to } => RangeOrCell::Range { from: Address::new(x, from.y), to: Address::new(x, to.y) },
        }
    }

    /// Set the `y` component. A cell keeps its column; a row range collapses
    /// onto the single row `y`; a column range, given a row, becomes a
    /// rectangle one row tall; a rectangle moves both corners onto `y`.
    pub fn with_y(&self, y: usize) -> (r: Self)
        ensures
            r@ == with_y_spec(self@, y),
        decreases size(self@),
    {
        match self {
            RangeOrCell::Cell(a) => RangeOrCell::Cell(a.with_y(y)),
            RangeOrCell::ColumnRange { from, to } => RangeOrCell::Range { from: Address::new(from.x, y), to: Address::new(to.x, y) },
            RangeOrCell::NonContiguous(rs) => {
                proof {
                    lemma_views_of(rs@);
                }
                let mut out: Vec<RangeOrCell> = Vec::new();
                let mut k: usize = 0;
                while k < rs.len()
                    invariant
                        k <= rs@.len(),
                        out@.len() == k,
                        views_of(rs@).len() == rs@.len(),
                        forall|i: int|
                            0 <= i < rs@.len() ==> views_of(rs@)[i] == view_of(#[trigger] rs@[i]),
                        forall|j: int|
                            0 <= j < k ==> (#[trigger] out@[j])@ == with_y_spec(rs@[j]@, y),
                        self@ == RefView::NonContiguous(views_of(rs@)),
                    decreases rs@.len() - k,
                {
                    proof {
                        lemma_size_list_bound(views_of(rs@), k as int);
                    }
                    out.push(rs[k].with_y(y));
                    k = k + 1;
                }
                proof {
                    lemma_views_of(out@);
                    lemma_with_y_list(views_of(rs@), y);
                    assert forall|j: int| 0 <= j < rs@.len() implies views_of(out@)[j] == with_y_list(
                        views_of(rs@),
                        y,
                    )[j] by {
                        assert(views_of(out@)[j] == view_of(out@[j]));
                        assert((out@[j])@ == with_y_spec(rs@[j]@, y));
                        assert(views_of(rs@)[j] == view_of(rs@[j]));
                    }
                    assert(views_of(out@) =~= with_y_list(views_of(rs@), y));
                }
                RangeOrCell::NonContiguous(out)
            },
            RangeOrCell::Range { from, to } => RangeOrCell::Range { from: from.with_y(y), to: to.with_y(y) },
            RangeOrCell::RowRange { from, to } => RangeOrCell::RowRange { from: from.with_y(y), to: to.with_y(y) },
        }
    }
}

} // verus!
