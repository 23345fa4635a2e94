//! Enumerating the cells a reference covers, lazily and in order.
//!
//! An enumerator is a small state machine built once, at the start: a
//! current position, the bounds, and a direction per axis, the direction
//! being chosen by comparing the endpoints when the enumerator is made. A
//! rectangle walks row-major; a union walks its members in order,
//! exhausting each before the next.

use crate::a1::A1;
use crate::address::Address;
use crate::column::Column;
use crate::range_or_cell::{
    lemma_size_list_bound, lemma_views_of, size, view_of, views_of, RangeOrCell, RefView,
};
use crate::parse::opt_str_view;
use crate::row::Row;
use vstd::arithmetic::div_mod::{lemma_fundamental_div_mod, lemma_fundamental_div_mod_converse};
use vstd::prelude::*;

verus! {

/// Which way a horizontal walk proceeds.
#[derive(Debug, Copy, Clone, PartialEq, Eq, Structural)]
pub enum HorizontalDirection {
    Left,
    Right,
}

/// Which way a vertical walk proceeds.
#[derive(Debug, Copy, Clone, PartialEq, Eq, Structural)]
pub enum VerticalDirection {
    Down,
    Up,
}

/// How many cells a walk from index `a` to index `b`, inclusive, visits.
pub open spec fn walk_count(a: usize, b: usize) -> nat {
    if a <= b {
        (b - a + 1) as nat
    } else {
        (a - b + 1) as nat
    }
}

/// The `i`-th index of the walk from `a` to `b`; meaningful for
/// `0 <= i < walk_count(a, b)`.
pub open spec fn walk_step(a: usize, b: usize, i: int) -> usize {
    if a <= b {
        (a + i) as usize
    } else {
        (a - i) as usize
    }
}

/// The single-column references a column walk emits, carrying the starting
/// column's `$` pin.
pub open spec fn col_walk(from: Column, to: Column) -> Seq<RefView> {
    Seq::new(
        walk_count(from.x, to.x),
        |i: int|
            RefView::ColumnRange {
                from: Column { absolute: from.absolute, x: walk_step(from.x, to.x, i) },
                to: Column { absolute: from.absolute, x: walk_step(from.x, to.x, i) },
            },
    )
}

/// The single-row references a row walk emits.
pub open spec fn row_walk(from: Row, to: Row) -> Seq<RefView> {
    Seq::new(
        walk_count(from.y, to.y),
        |i: int|
            RefView::RowRange {
                from: Row { absolute: from.absolute, y: walk_step(from.y, to.y, i) },
                to: Row { absolute: from.absolute, y: walk_step(from.y, to.y, i) },
            },
    )
}

/// The cells left in the row the cursor `c` stands in, walking its column
/// towards `end`'s.
pub open spec fn rect_rest_of_row(c: Address, end: Address) -> Seq<RefView> {
    Seq::new(
        walk_count(c.column.x, end.column.x),
        |i: int|
            RefView::Cell(
                Address {
                    column: Column {
                        absolute: c.column.absolute,
                        x: walk_step(c.column.x, end.column.x, i),
                    },
                    row: c.row,
                },
            ),
    )
}

/// The cells of the rows after the cursor's, each a full walk from
/// `start`'s column to `end`'s; their columns are relative, the cursor
/// having been reset by a plain axis override at each row start.
pub open spec fn rect_later_rows(c: Address, start: Address, end: Address) -> Seq<RefView> {
    let ccount = walk_count(start.column.x, end.column.x) as int;
    Seq::new(
        ((walk_count(c.row.y, end.row.y) - 1) * ccount) as nat,
        |k: int|
            RefView::Cell(
                Address {
                    column: Column {
                        absolute: false,
                        x: walk_step(start.column.x, end.column.x, k % ccount),
                    },
                    row: Row {
                        absolute: c.row.absolute,
                        y: walk_step(c.row.y, end.row.y, 1 + k / ccount),
                    },
                },
            ),
    )
}

/// Everything a rectangle walk still emits from cursor `c`: the rest of
/// the current row, then the later rows.
pub open spec fn rect_remaining(c: Address, start: Address, end: Address) -> Seq<RefView> {
    rect_rest_of_row(c, end) + rect_later_rows(c, start, end)
}

/// The full enumeration of a reference, in order: a cell emits itself; a
/// column or row range steps one index at a time from `from` to `to`,
/// inclusive, in the direction they imply; a rectangle walks row-major
/// from `from` to `to`; a union concatenates its members' enumerations.
pub open spec fn cells_of(v: RefView) -> Seq<RefView>
    decreases v,
{
    match v {
        RefView::Cell(a) => seq![RefView::Cell(a)],
        RefView::ColumnRange { from, to } => col_walk(from, to),
        RefView::NonContiguous(s) => cells_list(s),
        RefView::Range { from, to } => rect_remaining(from, from, to),
        RefView::RowRange { from, to } => row_walk(from, to),
    }
}

pub open spec fn cells_list(s: Seq<RefView>) -> Seq<RefView>
    decreases s,
{
    if s.len() == 0 {
        Seq::empty()
    } else {
        cells_of(s[0]) + cells_list(s.drop_first())
    }
}

/// A reference that is not a union enumerates at least one item.
pub proof fn lemma_simple_cells_nonempty(v: RefView)
    requires
        !(v matches RefView::NonContiguous(_)),
    ensures
        cells_of(v).len() >= 1,
{
}

pub proof fn lemma_cells_list_concat(s1: Seq<RefView>, s2: Seq<RefView>)
    ensures
        cells_list(s1 + s2) == cells_list(s1) + cells_list(s2),
    decreases s1,
{
    if s1.len() == 0 {
        assert(s1 + s2 =~= s2);
        assert(cells_list(s1) + cells_list(s2) =~= cells_list(s2));
    } else {
        lemma_cells_list_concat(s1.drop_first(), s2);
        assert((s1 + s2).drop_first() =~= s1.drop_first() + s2);
        assert((s1 + s2)[0] == s1[0]);
        assert(cells_of(s1[0]) + (cells_list(s1.drop_first()) + cells_list(s2)) =~= (cells_of(
            s1[0],
        ) + cells_list(s1.drop_first())) + cells_list(s2));
    }
}

/// The members of a union flattened into a list of non-union references,
/// in order.
pub open spec fn flat_refs(v: RefView) -> Seq<RefView>
    decreases v,
{
    match v {
        RefView::NonContiguous(s) => flat_list(s),
        _ => seq![v],
    }
}

pub open spec fn flat_list(s: Seq<RefView>) -> Seq<RefView>
    decreases s,
{
    if s.len() == 0 {
        Seq::empty()
    } else {
        flat_refs(s[0]) + flat_list(s.drop_first())
    }
}

/// Flattening keeps the enumeration: the members of the flat list are all
/// non-unions, and their concatenated enumerations are the union's own.
pub proof fn lemma_flat_refs(v: RefView)
    ensures
        forall|i: int|
            0 <= i < flat_refs(v).len() ==> !((#[trigger] flat_refs(v)[i])
                matches RefView::NonContiguous(_)),
        cells_list(flat_refs(v)) == cells_of(v),
    decreases v,
{
    match v {
        RefView::NonContiguous(s) => {
            lemma_flat_list(s);
        },
        _ => {
            assert(flat_refs(v) == seq![v]);
            assert(flat_refs(v).drop_first() =~= Seq::<RefView>::empty());
            assert(cells_list(flat_refs(v)) == cells_of(v) + cells_list(
                Seq::<RefView>::empty(),
            ));
            assert(cells_of(v) + Seq::<RefView>::empty() =~= cells_of(v));
        },
    }
}

pub proof fn lemma_flat_list(s: Seq<RefView>)
    ensures
        forall|i: int|
            0 <= i < flat_list(s).len() ==> !((#[trigger] flat_list(s)[i])
                matches RefView::NonContiguous(_)),
        cells_list(flat_list(s)) == cells_list(s),
    decreases s,
{
    if s.len() > 0 {
        lemma_flat_refs(s[0]);
        lemma_flat_list(s.drop_first());
        lemma_cells_list_concat(flat_refs(s[0]), flat_list(s.drop_first()));
        assert forall|i: int|
            0 <= i < flat_list(s).len() implies !((#[trigger] flat_list(s)[i])
            matches RefView::NonContiguous(_)) by {
            if i < flat_refs(s[0]).len() {
                assert(flat_list(s)[i] == flat_refs(s[0])[i]);
            } else {
                assert(flat_list(s)[i] == flat_list(s.drop_first())[i - flat_refs(s[0]).len()]);
            }
        }
    }
}

/// Appending a member extends the flat list on the right.
pub proof fn lemma_flat_list_push(s: Seq<RefView>, x: RefView)
    ensures
        flat_list(s.push(x)) == flat_list(s) + flat_refs(x),
    decreases s,
{
    if s.len() == 0 {
        assert(s.push(x)[0] == x);
        assert(s.push(x).drop_first() =~= Seq::<RefView>::empty());
        assert(flat_list(Seq::<RefView>::empty()) == Seq::<RefView>::empty());
        assert(flat_list(s.push(x)) == flat_refs(s.push(x)[0]) + flat_list(
            s.push(x).drop_first(),
        ));
        assert(flat_list(s.push(x)) == flat_refs(x) + Seq::<RefView>::empty());
        assert(flat_refs(x) + Seq::<RefView>::empty() =~= flat_list(s) + flat_refs(x));
    } else {
        lemma_flat_list_push(s.drop_first(), x);
        assert(s.push(x)[0] == s[0]);
        assert(s.push(x).drop_first() =~= s.drop_first().push(x));
        assert(flat_refs(s[0]) + (flat_list(s.drop_first()) + flat_refs(x)) =~= (flat_refs(s[0])
            + flat_list(s.drop_first())) + flat_refs(x));
    }
}

/// Each `RangeOrCell` requires its own strategy of iteration, so the
/// underlying enumerator has a state per shape.
#[derive(Debug)]
pub enum RangeOrCellIterator {
    /// Just stores and emits a single `Address`.
    Cell { address: Option<Address> },
    /// Walks from one column to another, one at a time.
    ColumnRange {
        current: Option<Column>,
        horizontal_direction: HorizontalDirection,
        end: Column,
    },
    /// Walks the flattened members in order, each through its own simple
    /// enumerator, exhausting one before starting the next.
    NonContiguous {
        members: Vec<RangeOrCell>,
        i: usize,
        active: Option<Box<RangeOrCellIterator>>,
    },
    /// Walks row by row, resetting the column cursor at each row start.
    Range {
        current: Option<Address>,
        end: Address,
        horizontal_direction: HorizontalDirection,
        start: Address,
        vertical_direction: VerticalDirection,
    },
    /// Walks from one row to another, one at a time.
    RowRange { current: Option<Row>, end: Row, vertical_direction: VerticalDirection },
}

/// How deeply enumerators nest: a union's enumerator drives simple ones.
pub open spec fn iter_depth(it: RangeOrCellIterator) -> nat {
    match it {
        RangeOrCellIterator::NonContiguous { .. } => 1,
        _ => 0,
    }
}

/// The states an enumerator built by `iter` can reach: the cursor lies on
/// the walk its direction and bounds describe, and a union's members and
/// active enumerator are simple.
pub open spec fn iter_wf(it: RangeOrCellIterator) -> bool
    decreases it,
{
    match it {
        RangeOrCellIterator::Cell { .. } => true,
        RangeOrCellIterator::ColumnRange { current, horizontal_direction, end } => match current {
            Some(c) => if horizontal_direction == HorizontalDirection::Right {
                c.x <= end.x
            } else {
                c.x >= end.x
            },
            None => true,
        },
        RangeOrCellIterator::NonContiguous { members, i, active } => {
            &&& i <= members@.len()
            &&& forall|j: int|
                0 <= j < members@.len() ==> !(view_of(#[trigger] members@[j])
                    matches RefView::NonContiguous(_))
            &&& match active {
                Some(b) => iter_wf(*b) && !(*b matches RangeOrCellIterator::NonContiguous { .. }),
                None => true,
            }
        },
        RangeOrCellIterator::Range {
            current,
            end,
            horizontal_direction,
            start,
            vertical_direction,
        } => match current {
            Some(c) => {
                &&& (horizontal_direction == HorizontalDirection::Right ==> start.column.x
                    <= c.column.x <= end.column.x)
                &&& (horizontal_direction == HorizontalDirection::Left ==> end.column.x
                    <= c.column.x <= start.column.x)
                &&& (vertical_direction == VerticalDirection::Down ==> start.row.y <= c.row.y
                    <= end.row.y)
                &&& (vertical_direction == VerticalDirection::Up ==> end.row.y <= c.row.y
                    <= start.row.y)
            },
            None => true,
        },
        RangeOrCellIterator::RowRange { current, end, vertical_direction } => match current {
            Some(c) => if vertical_direction == VerticalDirection::Down {
                c.y <= end.y
            } else {
                c.y >= end.y
            },
            None => true,
        },
    }
}

/// What the enumerator will still emit, in order.
pub open spec fn iter_remaining(it: RangeOrCellIterator) -> Seq<RefView>
    decreases it,
{
    match it {
        RangeOrCellIterator::Cell { address } => match address {
            Some(a) => seq![RefView::Cell(a)],
            None => Seq::empty(),
        },
        RangeOrCellIterator::ColumnRange { current, horizontal_direction, end } => match current {
            Some(c) => col_walk(c, end),
            None => Seq::empty(),
        },
        RangeOrCellIterator::NonContiguous { members, i, active } => (match active {
            Some(b) => iter_remaining(*b),
            None => Seq::empty(),
        }) + cells_list(views_of(members@).skip(i as int)),
        RangeOrCellIterator::Range { current, end, horizontal_direction, start, .. } => match
            current {
            Some(c) => rect_remaining(c, start, end),
            None => Seq::empty(),
        },
        RangeOrCellIterator::RowRange { current, end, vertical_direction } => match current {
            Some(c) => row_walk(c, end),
            None => Seq::empty(),
        },
    }
}


/// Appending one reference appends its view.
pub proof fn lemma_views_push(s: Seq<RangeOrCell>, x: RangeOrCell)
    ensures
        views_of(s.push(x)) =~= views_of(s).push(view_of(x)),
{
    lemma_views_of(s.push(x));
    lemma_views_of(s);
    assert forall|j: int| 0 <= j < s.len() + 1 implies views_of(s.push(x))[j] == views_of(s).push(
        view_of(x),
    )[j] by {
        assert(views_of(s.push(x))[j] == view_of(s.push(x)[j]));
        if j < s.len() {
            assert(s.push(x)[j] == s[j]);
            assert(views_of(s)[j] == view_of(s[j]));
        } else {
            assert(s.push(x)[j] == x);
        }
    }
}

/// Push the flattened, non-union members of `r` onto `out`, in order.
fn push_flat(out: &mut Vec<RangeOrCell>, r: &RangeOrCell)
    ensures
        views_of(final(out)@) == views_of(old(out)@) + flat_refs(r@),
    decreases size(r@),
{
    match r {
        RangeOrCell::NonContiguous(rs) => {
            proof {
                lemma_views_of(rs@);
            }
            let ghost base = views_of(old(out)@);
            let mut k: usize = 0;
            while k < rs.len()
                invariant
                    k <= rs@.len(),
                    views_of(rs@).len() == rs@.len(),
                    forall|i: int|
                        0 <= i < rs@.len() ==> views_of(rs@)[i] == view_of(#[trigger] rs@[i]),
                    views_of(out@) =~= base + flat_list(views_of(rs@).take(k as int)),
                    r@ == RefView::NonContiguous(views_of(rs@)),
                decreases rs@.len() - k,
            {
                proof {
                    lemma_size_list_bound(views_of(rs@), k as int);
                }
                let ghost before = views_of(out@);
                push_flat(out, &rs[k]);
                proof {
                    let vs = views_of(rs@);
                    lemma_flat_list_push(vs.take(k as int), vs[k as int]);
                    assert(vs.take(k as int).push(vs[k as int]) =~= vs.take(k + 1));
                    assert(views_of(out@) =~= base + (flat_list(vs.take(k as int)) + flat_refs(
                        vs[k as int],
                    )));
                    assert(base + (flat_list(vs.take(k as int)) + flat_refs(vs[k as int])) =~= base
                        + flat_list(vs.take(k + 1)));
                }
                k = k + 1;
            }
            proof {
                assert(views_of(rs@).take(rs@.len() as int) =~= views_of(rs@));
            }
        },
        RangeOrCell::Cell(a) => {
            let ghost before = out@;
            out.push(RangeOrCell::Cell(*a));
            proof {
                lemma_views_push(before, RangeOrCell::Cell(*a));
                assert(views_of(before).push(view_of(RangeOrCell::Cell(*a))) =~= views_of(before) + flat_refs(r@));
                assert(views_of(out@) =~= views_of(before) + flat_refs(r@));
            }
        },
        RangeOrCell::ColumnRange { from, to } => {
            let ghost before = out@;
            out.push(RangeOrCell::ColumnRange { from: *from, to: *to });
            proof {
                lemma_views_push(before, RangeOrCell::ColumnRange { from: *from, to: *to });
                assert(views_of(before).push(view_of(RangeOrCell::ColumnRange { from: *from, to: *to })) =~= views_of(before) + flat_refs(r@));
                assert(views_of(out@) =~= views_of(before) + flat_refs(r@));
            }
        },
        RangeOrCell::Range { from, to } => {
            let ghost before = out@;
            out.push(RangeOrCell::Range { from: *from, to: *to });
            proof {
                lemma_views_push(before, RangeOrCell::Range { from: *from, to: *to });
                assert(views_of(before).push(view_of(RangeOrCell::Range { from: *from, to: *to })) =~= views_of(before) + flat_refs(r@));
                assert(views_of(out@) =~= views_of(before) + flat_refs(r@));
            }
        },
        RangeOrCell::RowRange { from, to } => {
            let ghost before = out@;
            out.push(RangeOrCell::RowRange { from: *from, to: *to });
            proof {
                lemma_views_push(before, RangeOrCell::RowRange { from: *from, to: *to });
                assert(views_of(before).push(view_of(RangeOrCell::RowRange { from: *from, to: *to })) =~= views_of(before) + flat_refs(r@));
                assert(views_of(out@) =~= views_of(before) + flat_refs(r@));
            }
        },
    }
}

fn horizontal_direction(a: &Column, b: &Column) -> (d: HorizontalDirection)
    ensures
        d == if a.x < b.x {
            HorizontalDirection::Right
        } else {
            HorizontalDirection::Left
        },
{
    if a.x < b.x {
        HorizontalDirection::Right
    } else {
        HorizontalDirection::Left
    }
}

fn vertical_direction(a: &Row, b: &Row) -> (d: VerticalDirection)
    ensures
        d == if a.y < b.y {
            VerticalDirection::Down
        } else {
            VerticalDirection::Up
        },
{
    if a.y < b.y {
        VerticalDirection::Down
    } else {
        VerticalDirection::Up
    }
}

impl RangeOrCell {
    /// Build a fresh enumerator over this reference, starting from its
    /// beginning.
    pub fn iter(&self) -> (it: RangeOrCellIterator)
        ensures
            iter_wf(it),
            iter_remaining(it) == cells_of(self@),
            !(self@ matches RefView::NonContiguous(_)) ==> !(it
                matches RangeOrCellIterator::NonContiguous { .. }),
    {
        match self {
            RangeOrCell::Cell(a) => RangeOrCellIterator::Cell { address: Some(*a) },
            RangeOrCell::ColumnRange { from, to } => RangeOrCellIterator::ColumnRange {
                current: Some(*from),
                horizontal_direction: horizontal_direction(from, to),
                end: *to,
            },
            RangeOrCell::NonContiguous(rs) => {
                let mut members: Vec<RangeOrCell> = Vec::new();
                proof {
                    lemma_views_of(members@);
                    assert(views_of(members@) =~= Seq::<RefView>::empty());
                }
                let mut k: usize = 0;
                proof {
                    lemma_views_of(rs@);
                }
                while k < rs.len()
                    invariant
                        k <= rs@.len(),
                        views_of(rs@).len() == rs@.len(),
                        forall|i: int|
                            0 <= i < rs@.len() ==> views_of(rs@)[i] == view_of(#[trigger] rs@[i]),
                        views_of(members@) =~= flat_list(views_of(rs@).take(k as int)),
                        self@ == RefView::NonContiguous(views_of(rs@)),
                    decreases rs@.len() - k,
                {
                    proof {
                        lemma_size_list_bound(views_of(rs@), k as int);
                    }
                    push_flat(&mut members, &rs[k]);
                    proof {
                        let vs = views_of(rs@);
                        lemma_flat_list_push(vs.take(k as int), vs[k as int]);
                        assert(vs.take(k as int).push(vs[k as int]) =~= vs.take(k + 1));
                    }
                    k = k + 1;
                }
                proof {
                    let vs = views_of(rs@);
                    assert(vs.take(rs@.len() as int) =~= vs);
                    lemma_flat_list(vs);
                    lemma_views_of(members@);
                    assert(views_of(members@).skip(0) =~= views_of(members@));
                }
                RangeOrCellIterator::NonContiguous { members, i: 0, active: None }
            },
            RangeOrCell::Range { from, to } => RangeOrCellIterator::Range {
                current: Some(*from),
                end: *to,
                horizontal_direction: horizontal_direction(&from.column, &to.column),
                start: *from,
                vertical_direction: vertical_direction(&from.row, &to.row),
            },
            RangeOrCell::RowRange { from, to } => RangeOrCellIterator::RowRange {
                current: Some(*from),
                end: *to,
                vertical_direction: vertical_direction(from, to),
            },
        }
    }
}

impl RangeOrCellIterator {
    /// Emit the next reference of the walk, or `None` when it is finished.
    pub fn next(&mut self) -> (r: Option<RangeOrCell>)
        requires
            iter_wf(*old(self)),
        ensures
            iter_wf(*final(self)),
            iter_depth(*final(self)) == iter_depth(*old(self)),
            iter_remaining(*old(self)).len() == 0 ==> r is None && iter_remaining(*final(self))
                =~= iter_remaining(*old(self)),
            iter_remaining(*old(self)).len() > 0 ==> (r matches Some(v) && v@ == iter_remaining(
                *old(self),
            )[0] && iter_remaining(*final(self)) == iter_remaining(*old(self)).drop_first()),
        decreases iter_depth(*old(self)),
    {
        match self {
            RangeOrCellIterator::Cell { address } => {
                match *address {
                    Some(a) => {
                        *address = None;
                        Some(RangeOrCell::Cell(a))
                    },
                    None => None,
                }
            },
            RangeOrCellIterator::ColumnRange { current, horizontal_direction, end } => {
                match *current {
                    Some(c) => {
                        let ghost oldwalk = col_walk(c, *end);
                        if c.x == end.x {
                            *current = None;
                            proof {
                                assert(oldwalk.len() == 1);
                                assert(oldwalk.drop_first() =~= Seq::<RefView>::empty());
                            }
                        } else if *horizontal_direction == HorizontalDirection::Right {
                            let c2 = c.shift_right(1);
                            *current = Some(c2);
                            proof {
                                assert(col_walk(c2, *end) =~= oldwalk.drop_first());
                            }
                        } else {
                            let c2 = c.shift_left(1);
                            *current = Some(c2);
                            proof {
                                assert(col_walk(c2, *end) =~= oldwalk.drop_first());
                            }
                        }
                        Some(RangeOrCell::ColumnRange { from: c, to: c })
                    },
                    None => None,
                }
            },
            RangeOrCellIterator::NonContiguous { members, i, active } => {
                proof {
                    lemma_views_of(members@);
                    assert(*old(self) == RangeOrCellIterator::NonContiguous {
                        members: *members,
                        i: *i,
                        active: *active,
                    });
                }
                let ghost oldrem = iter_remaining(*old(self));
                let ghost vs = views_of(members@);
                let ghost oldtail = cells_list(vs.skip(*i as int));
                let mut produced: Option<RangeOrCell> = None;
                if let Some(b) = active {
                    produced = b.next();
                }
                match produced {
                    Some(v) => {
                        proof {
                            assert(iter_remaining(
                                RangeOrCellIterator::NonContiguous {
                                    members: *members,
                                    i: *i,
                                    active: *active,
                                },
                            ) =~= oldrem.drop_first());
                        }
                        Some(v)
                    },
                    None => {
                        // the active enumerator, if any, is spent
                        proof {
                            assert(iter_remaining(
                                RangeOrCellIterator::NonContiguous {
                                    members: *members,
                                    i: *i,
                                    active: *active,
                                },
                            ) =~= oldtail);
                            assert(oldrem =~= oldtail);
                        }
                        if *i < members.len() {
                            proof {
                                assert(vs[*i as int] == view_of(members@[*i as int]));
                                assert(!(view_of(members@[*i as int])
                                    matches RefView::NonContiguous(_)));
                                assert(vs.skip(*i as int)[0] == vs[*i as int]);
                                assert(vs.skip(*i as int).drop_first() =~= vs.skip(
                                    *i as int + 1,
                                ));
                                lemma_simple_cells_nonempty(vs[*i as int]);
                            }
                            let mut fresh = members[*i].iter();
                            let out = fresh.next();
                            *active = Some(Box::new(fresh));
                            *i = *i + 1;
                            proof {
                                assert(iter_remaining(
                                    RangeOrCellIterator::NonContiguous {
                                        members: *members,
                                        i: *i,
                                        active: *active,
                                    },
                                ) =~= oldrem.drop_first());
                            }
                            out
                        } else {
                            proof {
                                assert(vs.skip(*i as int) =~= Seq::<RefView>::empty());
                                assert(oldtail.len() == 0);
                            }
                            None
                        }
                    },
                }
            },
            RangeOrCellIterator::Range {
                current,
                end,
                horizontal_direction,
                start,
                vertical_direction,
            } => {
                match *current {
                    Some(c) => {
                        let ghost oldrem = rect_remaining(c, *start, *end);
                        if c.column.x == end.column.x && c.row.y == end.row.y {
                            *current = None;
                            proof {
                                lemma_rect_remaining_last(c, *start, *end);
                            }
                        } else if c.column.x == end.column.x {
                            let stepped = if *vertical_direction == VerticalDirection::Up {
                                c.shift_up(1)
                            } else {
                                c.shift_down(1)
                            };
                            let c2 = stepped.with_x(start.column.x);
                            *current = Some(c2);
                            proof {
                                lemma_rect_remaining_row_advance(c, c2, *start, *end);
                            }
                        } else {
                            let c2 = if *horizontal_direction == HorizontalDirection::Left {
                                c.shift_left(1)
                            } else {
                                c.shift_right(1)
                            };
                            *current = Some(c2);
                            proof {
                                lemma_rect_remaining_col_advance(c, c2, *start, *end);
                            }
                        }
                        Some(RangeOrCell::Cell(c))
                    },
                    None => None,
                }
            },
            RangeOrCellIterator::RowRange { current, end, vertical_direction } => {
                match *current {
                    Some(c) => {
                        let ghost oldwalk = row_walk(c, *end);
                        if c.y == end.y {
                            *current = None;
                            proof {
                                assert(oldwalk.len() == 1);
                                assert(oldwalk.drop_first() =~= Seq::<RefView>::empty());
                            }
                        } else if *vertical_direction == VerticalDirection::Down {
                            let c2 = c.shift_down(1);
                            *current = Some(c2);
                            proof {
                                assert(row_walk(c2, *end) =~= oldwalk.drop_first());
                            }
                        } else {
                            let c2 = c.shift_up(1);
                            *current = Some(c2);
                            proof {
                                assert(row_walk(c2, *end) =~= oldwalk.drop_first());
                            }
                        }
                        Some(RangeOrCell::RowRange { from: c, to: c })
                    },
                    None => None,
                }
            },
        }
    }
}

/// At the final cell, the walk holds exactly that cell.
proof fn lemma_rect_remaining_last(c: Address, start: Address, end: Address)
    requires
        c.column.x == end.column.x,
        c.row.y == end.row.y,
    ensures
        rect_remaining(c, start, end) =~= seq![RefView::Cell(c)],
{
    let ccount = walk_count(start.column.x, end.column.x) as int;
    assert(rect_rest_of_row(c, end).len() == 1);
    assert(rect_rest_of_row(c, end)[0] == RefView::Cell(c));
    assert(walk_count(c.row.y, end.row.y) == 1);
    assert((walk_count(c.row.y, end.row.y) - 1) * ccount == 0) by {
        vstd::arithmetic::mul::lemma_mul_basics(ccount);
    }
    assert(rect_later_rows(c, start, end).len() == 0);
}

/// Stepping within a row drops the first remaining cell.
proof fn lemma_rect_remaining_col_advance(c: Address, c2: Address, start: Address, end: Address)
    requires
        c.column.x != end.column.x,
        c2.row == c.row,
        c2.column.absolute == c.column.absolute,
        c2.column.x == if c.column.x <= end.column.x {
            c.column.x + 1
        } else {
            c.column.x - 1
        },
    ensures
        rect_remaining(c2, start, end) =~= rect_remaining(c, start, end).drop_first(),
        rect_remaining(c, start, end)[0] == RefView::Cell(c),
{
    let rest = rect_rest_of_row(c, end);
    let rest2 = rect_rest_of_row(c2, end);
    assert(rest[0] == RefView::Cell(c));
    assert(rest2 =~= rest.drop_first());
    assert(rect_later_rows(c2, start, end) =~= rect_later_rows(c, start, end));
    assert((rest + rect_later_rows(c, start, end)).drop_first() =~= rest.drop_first()
        + rect_later_rows(c, start, end));
}

/// Moving to the start of the next row also just drops the first
/// remaining cell: the rest of the new row and the rows after it together
/// are the old later rows.
proof fn lemma_rect_remaining_row_advance(c: Address, c2: Address, start: Address, end: Address)
    requires
        c.column.x == end.column.x,
        c.row.y != end.row.y,
        c2.column.absolute == false,
        c2.column.x == start.column.x,
        c2.row.absolute == c.row.absolute,
        c2.row.y == if c.row.y <= end.row.y {
            c.row.y + 1
        } else {
            c.row.y - 1
        },
    ensures
        rect_remaining(c2, start, end) =~= rect_remaining(c, start, end).drop_first(),
        rect_remaining(c, start, end)[0] == RefView::Cell(c),
{
    let ccount = walk_count(start.column.x, end.column.x) as int;
    let rest = rect_rest_of_row(c, end);
    let later = rect_later_rows(c, start, end);
    let rest2 = rect_rest_of_row(c2, end);
    let later2 = rect_later_rows(c2, start, end);
    assert(rest.len() == 1);
    assert(rest[0] == RefView::Cell(c));
    assert(walk_count(c.row.y, end.row.y) == walk_count(c2.row.y, end.row.y) + 1);
    assert(rest2.len() == ccount);
    assert(later.len() == (walk_count(c.row.y, end.row.y) - 1) * ccount);
    assert(later2.len() == (walk_count(c2.row.y, end.row.y) - 1) * ccount);
    assert((walk_count(c.row.y, end.row.y) - 1) * ccount == ccount + (walk_count(
        c2.row.y,
        end.row.y,
    ) - 1) * ccount) by {
        assert((walk_count(c.row.y, end.row.y) - 1) * ccount == (1 + (walk_count(
            c2.row.y,
            end.row.y,
        ) - 1)) * ccount);
        vstd::arithmetic::mul::lemma_mul_is_distributive_add_other_way(
            ccount,
            1,
            walk_count(c2.row.y, end.row.y) - 1,
        );
    }
    // the rest of the new row matches the first later row
    assert(ccount >= 1);
    assert forall|k: int| 0 <= k < ccount implies later[k] == rest2[k] by {
        lemma_fundamental_div_mod_converse(k, ccount, 0, k);
        assert(walk_step(c.row.y, end.row.y, 1) == c2.row.y);
    }
    // the rows after the new row match the later rows shifted by one row
    assert forall|k: int| 0 <= k < later2.len() implies later2[k] == later[ccount + k] by {
        lemma_fundamental_div_mod(k, ccount);
        assert(0 <= k % ccount < ccount) by {
            vstd::arithmetic::div_mod::lemma_mod_division_less_than_divisor(k, ccount);
        }
        assert((1 + k / ccount) * ccount == ccount + (k / ccount) * ccount) by {
            vstd::arithmetic::mul::lemma_mul_is_distributive_add_other_way(
                ccount,
                1,
                k / ccount,
            );
        }
        assert((k / ccount) * ccount == ccount * (k / ccount)) by {
            vstd::arithmetic::mul::lemma_mul_is_commutative(k / ccount, ccount);
        }
        lemma_fundamental_div_mod_converse(ccount + k, ccount, 1 + k / ccount, k % ccount);
        assert(walk_step(c.row.y, end.row.y, 1 + (1 + k / ccount)) == walk_step(
            c2.row.y,
            end.row.y,
            1 + k / ccount,
        ));
    }
    assert(rect_remaining(c2, start, end).len() == rect_remaining(c, start, end).len() - 1);
    assert forall|k: int| 0 <= k < rect_remaining(c2, start, end).len() implies rect_remaining(
        c2,
        start,
        end,
    )[k] == rect_remaining(c, start, end)[k + 1] by {
        if k < ccount {
            assert(rect_remaining(c2, start, end)[k] == rest2[k]);
            assert(rect_remaining(c, start, end)[k + 1] == later[k]);
        } else {
            assert(rect_remaining(c2, start, end)[k] == later2[k - ccount]);
            assert(rect_remaining(c, start, end)[k + 1] == later[k]);
            assert(later2[k - ccount] == later[ccount + (k - ccount)]);
        }
    }
}

/// The enumerator of an `A1`: the reference's walk, each item carrying the
/// sheet name.
pub struct A1Iterator {
    pub sheet_name: Option<String>,
    pub reference_iter: RangeOrCellIterator,
}

impl A1 {
    /// Build a fresh enumerator; each item carries this reference's sheet
    /// name.
    pub fn iter(&self) -> (it: A1Iterator)
        ensures
            iter_wf(it.reference_iter),
            iter_remaining(it.reference_iter) == cells_of(self.reference@),
            opt_str_view(it.sheet_name) == opt_str_view(self.sheet_name),
    {
        let sheet_name = match &self.sheet_name {
            Option::Some(n) => Some(n.clone()),
            Option::None => None,
        };
        A1Iterator { sheet_name, reference_iter: self.reference.iter() }
    }
}

impl A1Iterator {
    /// Emit the next single reference, with the sheet name attached, or
    /// `None` when the walk is finished.
    pub fn next(&mut self) -> (r: Option<A1>)
        requires
            iter_wf(old(self).reference_iter),
        ensures
            iter_wf(final(self).reference_iter),
            final(self).sheet_name == old(self).sheet_name,
            iter_remaining(old(self).reference_iter).len() == 0 ==> r is None,
            iter_remaining(old(self).reference_iter).len() > 0 ==> (r matches Some(a)
                && opt_str_view(a.sheet_name) == opt_str_view(old(self).sheet_name)
                && a.reference@ == iter_remaining(old(self).reference_iter)[0] && iter_remaining(
                final(self).reference_iter,
            ) == iter_remaining(old(self).reference_iter).drop_first()),
    {
        match self.reference_iter.next() {
            Some(v) => {
                let sheet_name = match &self.sheet_name {
                    Option::Some(n) => Some(n.clone()),
                    Option::None => None,
                };
                Some(A1 { sheet_name, reference: v })
            },
            None => None,
        }
    }
}

/// The consuming form of the reference enumerator.
pub struct RangeOrCellIntoIterator {
    pub inner_iter: RangeOrCellIterator,
}

impl RangeOrCellIntoIterator {
    /// Emit the next reference of the walk, or `None` when it is finished.
    pub fn next(&mut self) -> (r: Option<RangeOrCell>)
        requires
            iter_wf(old(self).inner_iter),
        ensures
            iter_wf(final(self).inner_iter),
            iter_remaining(old(self).inner_iter).len() == 0 ==> r is None,
            iter_remaining(old(self).inner_iter).len() > 0 ==> (r matches Some(v) && v@
                == iter_remaining(old(self).inner_iter)[0] && iter_remaining(
                final(self).inner_iter,
            ) == iter_remaining(old(self).inner_iter).drop_first()),
    {
        self.inner_iter.next()
    }
}

impl RangeOrCell {
    /// Consume the reference into an enumerator over its cells.
    pub fn into_iter(self) -> (it: RangeOrCellIntoIterator)
        ensures
            iter_wf(it.inner_iter),
            iter_remaining(it.inner_iter) == cells_of(self@),
    {
        RangeOrCellIntoIterator { inner_iter: self.iter() }
    }
}

/// The consuming form of the `A1` enumerator.
pub struct A1IntoIterator {
    pub inner_iter: A1Iterator,
}

impl A1IntoIterator {
    /// Emit the next single reference, with the sheet name attached, or
    /// `None` when the walk is finished.
    pub fn next(&mut self) -> (r: Option<A1>)
        requires
            iter_wf(old(self).inner_iter.reference_iter),
        ensures
            iter_wf(final(self).inner_iter.reference_iter),
            iter_remaining(old(self).inner_iter.reference_iter).len() == 0 ==> r is None,
            iter_remaining(old(self).inner_iter.reference_iter).len() > 0 ==> (r matches Some(a)
                && opt_str_view(a.sheet_name) == opt_str_view(old(self).inner_iter.sheet_name)
                && a.reference@ == iter_remaining(old(self).inner_iter.reference_iter)[0]),
    {
        self.inner_iter.next()
    }
}

impl A1 {
    /// Consume the reference into an enumerator over its cells.
    pub fn into_iter(self) -> (it: A1IntoIterator)
        ensures
            iter_wf(it.inner_iter.reference_iter),
            iter_remaining(it.inner_iter.reference_iter) == cells_of(self.reference@),
            opt_str_view(it.inner_iter.sheet_name) == opt_str_view(self.sheet_name),
    {
        A1IntoIterator { inner_iter: self.iter() }
    }
}

} // verus!
