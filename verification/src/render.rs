//! Rendering a reference back to A1 notation.

use crate::address::{addr_text, Address};
use crate::column::col_text;
use crate::range_or_cell::{
    lemma_size_list_bound, lemma_views_of, size, view_of, views_of, RangeOrCell, RefView,
};
use crate::row::row_text;
use crate::text::push_char;
use vstd::prelude::*;
use vstd::string::StringExecFns;

verus! {

/// The text of a reference. A cell shows column then row; the two-sided
/// forms join their endpoints with `:`, each endpoint showing only its own
/// axis for the open ranges; a union joins its members with a comma and a
/// space.
pub open spec fn ref_text(v: RefView) -> Seq<char>
    decreases v,
{
    match v {
        RefView::Cell(a) => addr_text(a),
        RefView::ColumnRange { from, to } => col_text(from) + seq![':'] + col_text(to),
        RefView::NonContiguous(s) => ref_list_text(s),
        RefView::Range { from, to } => addr_text(from) + seq![':'] + addr_text(to),
        RefView::RowRange { from, to } => row_text(from) + seq![':'] + row_text(to),
    }
}

/// The members' texts joined by `", "`.
pub open spec fn ref_list_text(s: Seq<RefView>) -> Seq<char>
    decreases s,
{
    if s.len() == 0 {
        Seq::empty()
    } else if s.len() == 1 {
        ref_text(s[0])
    } else {
        ref_text(s[0]) + seq![',', ' '] + ref_list_text(s.drop_first())
    }
}

/// Appending one member extends the joined text by a separator and the
/// member's own text.
pub proof fn lemma_ref_list_text_push(s: Seq<RefView>, x: RefView)
    ensures
        ref_list_text(s.push(x)) == if s.len() == 0 {
            ref_text(x)
        } else {
            ref_list_text(s) + seq![',', ' '] + ref_text(x)
        },
    decreases s,
{
    let e = s.push(x);
    if s.len() == 0 {
        assert(e.len() == 1);
        assert(e[0] == x);
    } else {
        lemma_ref_list_text_push(s.drop_first(), x);
        assert(e.drop_first() =~= s.drop_first().push(x));
        assert(e[0] == s[0]);
        if s.len() == 1 {
            assert(s.drop_first().len() == 0);
            assert(ref_list_text(e) == ref_text(s[0]) + seq![',', ' '] + ref_text(x));
            assert(ref_list_text(s) == ref_text(s[0]));
        } else {
            assert(ref_list_text(e) == ref_text(s[0]) + seq![',', ' '] + ref_list_text(
                s.drop_first().push(x),
            ));
            assert(ref_list_text(s.drop_first().push(x)) == ref_list_text(s.drop_first()) + seq![
                ',',
                ' ',
            ] + ref_text(x));
            assert(ref_list_text(s) == ref_text(s[0]) + seq![',', ' '] + ref_list_text(
                s.drop_first(),
            ));
            assert((ref_text(s[0]) + seq![',', ' '] + (ref_list_text(s.drop_first()) + seq![
                ',',
                ' ',
            ] + ref_text(x))) =~= (ref_list_text(s) + seq![',', ' '] + ref_text(x)));
        }
    }
}

impl RangeOrCell {
    /// Render the reference in A1 notation.
    pub fn to_string(&self) -> (r: String)
        ensures
            r@ == ref_text(self@),
        decreases size(self@),
    {
        match self {
            RangeOrCell::Cell(a) => a.to_string(),
            RangeOrCell::ColumnRange { from, to } => {
                let mut out = from.to_string();
                push_char(&mut out, ':');
                let t = to.to_string();
                out.append(t.as_str());
                proof {
                    assert(out@ =~= col_text(*from) + seq![':'] + col_text(*to));
                }
                out
            },
            RangeOrCell::NonContiguous(rs) => {
                proof {
                    lemma_views_of(rs@);
                }
                let mut out = String::new();
                let mut k: usize = 0;
                while k < rs.len()
                    invariant
                        k <= rs@.len(),
                        views_of(rs@).len() == rs@.len(),
                        forall|i: int|
                            0 <= i < rs@.len() ==> views_of(rs@)[i] == view_of(#[trigger] rs@[i]),
                        out@ == ref_list_text(views_of(rs@).take(k as int)),
                        self@ == RefView::NonContiguous(views_of(rs@)),
                    decreases rs@.len() - k,
                {
                    proof {
                        lemma_size_list_bound(views_of(rs@), k as int);
                    }
                    if k > 0 {
                        push_char(&mut out, ',');
                        push_char(&mut out, ' ');
                    }
                    let m = rs[k].to_string();
                    out.append(m.as_str());
                    proof {
                        let vs = views_of(rs@);
                        lemma_ref_list_text_push(vs.take(k as int), vs[k as int]);
                        assert(vs.take(k as int).push(vs[k as int]) =~= vs.take(k + 1));
                        if k > 0 {
                            assert(out@ =~= ref_list_text(vs.take(k as int)) + seq![',', ' ']
                                + ref_text(vs[k as int]));
                        } else {
                            assert(vs.take(0int).len() == 0);
                            assert(out@ =~= ref_text(vs[0]));
                        }
                    }
                    k = k + 1;
                }
                proof {
                    assert(views_of(rs@).take(rs@.len() as int) =~= views_of(rs@));
                }
                out
            },
            RangeOrCell::Range { from, to } => {
                let mut out = from.to_string();
                push_char(&mut out, ':');
                let t = to.to_string();
                out.append(t.as_str());
                proof {
                    assert(out@ =~= addr_text(*from) + seq![':'] + addr_text(*to));
                }
                out
            },
            RangeOrCell::RowRange { from, to } => {
                let mut out = from.to_string();
                push_char(&mut out, ':');
                let t = to.to_string();
                out.append(t.as_str());
                proof {
                    assert(out@ =~= row_text(*from) + seq![':'] + row_text(*to));
                }
                out
            },
        }
    }
}

} // verus!
