//! The general laws of the reference model, stated and proved once over
//! the spec-level forms that every contract of the crate uses.

use crate::a1::{doubled, full_text, needs_quotes_spec, sheet_text};
use crate::address::{addr_text, Address};
use crate::chars::{is_alpha_char, is_digit_char, is_ws_char};
use crate::column::{col_text, Column};
use crate::numerals::{
    col_letters, dec_digits, lemma_col_letters_val, lemma_dec_digits_val,
};
use crate::parse::{
    addr_split_at, addr_split_cond, all_col_chars, all_row_chars, find_char, lemma_addr_split_at,
    lemma_find_char, lemma_split_commas_len, parse_a1_model, parse_addr, parse_col,
    parse_reference, parse_row, parse_segment, qscan, sheet_split, ws_prefix,
};
use crate::range_or_cell::{
    contains_spec, lemma_any_contains, lemma_contains_all, shifted_left, RefView,
};
use crate::render::ref_text;
use crate::row::{row_text, Row};
use vstd::prelude::*;

verus! {

/// Shift boundedness: shifting a cell standing in the leftmost column left
/// by any amount leaves it in the leftmost column; the shift saturates,
/// with no underflow and no failure.
pub proof fn lemma_shift_left_at_origin(v: RefView, n: usize)
    requires
        v matches RefView::Cell(a) && a.column.x == 0,
    ensures
        shifted_left(v, n) matches RefView::Cell(b) && b.column.x == 0 && b.row
            == v->Cell_0.row,
{
}

/// Containment reflexivity: every reference that is not a union contains
/// an equal copy of itself. A union need not: it contains a copy only when
/// a single member covers every member.
pub proof fn lemma_contains_reflexive(v: RefView)
    requires
        !(v matches RefView::NonContiguous(_)),
    ensures
        contains_spec(v, v),
{
}

/// Union containment, one side: a union contains `c` exactly when one of
/// its members contains `c`.
pub proof fn lemma_union_contains(members: Seq<RefView>, c: RefView)
    ensures
        contains_spec(RefView::NonContiguous(members), c) <==> exists|i: int|
            0 <= i < members.len() && contains_spec(#[trigger] members[i], c),
{
    lemma_any_contains(members, c);
}

/// Union containment, the other side: a reference that is not itself a
/// union contains a union exactly when it contains every member. A union
/// on the left instead goes member by member, so the two sides are not
/// symmetric.
pub proof fn lemma_contains_union(v: RefView, members: Seq<RefView>)
    requires
        !(v matches RefView::NonContiguous(_)),
    ensures
        contains_spec(v, RefView::NonContiguous(members)) <==> forall|i: int|
            0 <= i < members.len() ==> contains_spec(v, #[trigger] members[i]),
{
    lemma_contains_all(v, members);
}

/// The references whose rendered text parses back: every shape except a
/// union, with every index below the greatest machine word. A union fails
/// because its members are rendered joined by `", "` while parsing splits
/// on the bare comma, leaving a leading space; an index at the very top
/// fails because parsing computes the one-based value, one beyond it.
pub open spec fn renders_canonically(v: RefView) -> bool {
    match v {
        RefView::Cell(a) => a.column.x < usize::MAX && a.row.y < usize::MAX,
        RefView::ColumnRange { from, to } => from.x < usize::MAX && to.x < usize::MAX,
        RefView::NonContiguous(_) => false,
        RefView::Range { from, to } => from.column.x < usize::MAX && from.row.y < usize::MAX
            && to.column.x < usize::MAX && to.row.y < usize::MAX,
        RefView::RowRange { from, to } => from.y < usize::MAX && to.y < usize::MAX,
    }
}

/// The sheet names whose rendered text parses back: any name that is
/// quoted when rendered, and otherwise any without a `!`, which would end
/// the name early when read.
pub open spec fn sheet_renders_canonically(sheet: Option<Seq<char>>) -> bool {
    match sheet {
        None => true,
        Some(n) => needs_quotes_spec(n) || forall|i: int| 0 <= i < n.len() ==> n[i] != '!',
    }
}


proof fn lemma_find_char_is(s: Seq<char>, c: char, k: int)
    requires
        0 <= k < s.len(),
        s[k] == c,
        forall|j: int| 0 <= j < k ==> s[j] != c,
    ensures
        find_char(s, c) == Some(k),
{
    lemma_find_char(s, c);
}

proof fn lemma_find_char_none(s: Seq<char>, c: char)
    requires
        forall|j: int| 0 <= j < s.len() ==> s[j] != c,
    ensures
        find_char(s, c) is None,
{
    lemma_find_char(s, c);
}

/// The rendered text of a column parses back to it, holds only letters
/// and a possible leading `$`, and is visibly not a row token.
proof fn lemma_parse_col_text(c: Column)
    requires
        c.x < usize::MAX,
    ensures
        parse_col(col_text(c)) == Some(c),
        col_text(c).len() >= 1,
        forall|i: int|
            0 <= i < col_text(c).len() ==> (col_text(c)[i] == '$' || is_alpha_char(
                #[trigger] col_text(c)[i],
            )),
        forall|i: int| 1 <= i < col_text(c).len() ==> is_alpha_char(#[trigger] col_text(c)[i]),
        is_alpha_char(col_text(c).last()),
        all_col_chars(col_text(c)),
        !all_row_chars(col_text(c)),
{
    lemma_col_letters_val(c.x as nat);
    let s = col_text(c);
    let t = col_letters(c.x as nat);
    assert(forall|i: int| 0 <= i < t.len() ==> is_alpha_char(#[trigger] t[i]));
    if c.absolute {
        assert(s == seq!['$'] + t);
        assert(s[0] == '$');
        assert(forall|i: int| 1 <= i < s.len() ==> s[i] == t[i - 1]);
        assert(crate::parse::has_dollar(s));
        assert(crate::parse::strip_dollar(s) =~= t);
    } else {
        assert(s == t);
        assert(s[0] == t[0]);
        assert(!crate::parse::has_dollar(s));
        assert(crate::parse::strip_dollar(s) =~= t);
    }
    assert(s.last() == t.last());
    assert(crate::numerals::letters_val(t) == c.x + 1);
    assert(!is_digit_char(s.last()) && s.last() != '$');
    assert(!all_row_chars(s)) by {
        assert(!(s[s.len() - 1] == '$' || is_digit_char(s[s.len() - 1])));
    }
}

/// The rendered text of a row parses back to it, holds only digits and a
/// possible leading `$`, and is visibly not a column token.
proof fn lemma_parse_row_text(r: Row)
    requires
        r.y < usize::MAX,
    ensures
        parse_row(row_text(r)) == Some(r),
        row_text(r).len() >= 1,
        forall|i: int|
            0 <= i < row_text(r).len() ==> (row_text(r)[i] == '$' || is_digit_char(
                #[trigger] row_text(r)[i],
            )),
        is_digit_char(row_text(r).last()),
        is_digit_char(row_text(r)[0]) || row_text(r)[0] == '$',
        all_row_chars(row_text(r)),
        !all_col_chars(row_text(r)),
{
    lemma_dec_digits_val((r.y + 1) as nat);
    let s = row_text(r);
    let t = dec_digits((r.y + 1) as nat);
    assert(forall|i: int| 0 <= i < t.len() ==> is_digit_char(#[trigger] t[i]));
    if r.absolute {
        assert(s == seq!['$'] + t);
        assert(s[0] == '$');
        assert(forall|i: int| 1 <= i < s.len() ==> s[i] == t[i - 1]);
        assert(crate::parse::has_dollar(s));
        assert(crate::parse::strip_dollar(s) =~= t);
    } else {
        assert(s == t);
        assert(s[0] == t[0]);
        assert(!crate::parse::has_dollar(s));
        assert(crate::parse::strip_dollar(s) =~= t);
    }
    assert(s.last() == t.last());
    assert(crate::numerals::digits_val(t) == r.y + 1);
    assert(!all_col_chars(s)) by {
        assert(!(s[s.len() - 1] == '$' || is_alpha_char(s[s.len() - 1])));
    }
}

/// The rendered text of a cell parses back to it and holds only letters,
/// digits and `$`; it is visibly neither a pure row nor a pure column
/// token.
proof fn lemma_parse_addr_text(a: Address)
    requires
        a.column.x < usize::MAX,
        a.row.y < usize::MAX,
    ensures
        parse_addr(addr_text(a)) == Some(a),
        addr_text(a).len() >= 2,
        forall|i: int|
            0 <= i < addr_text(a).len() ==> (addr_text(a)[i] == '$' || is_alpha_char(
                #[trigger] addr_text(a)[i],
            ) || is_digit_char(addr_text(a)[i])),
        !all_row_chars(addr_text(a)),
        !all_col_chars(addr_text(a)),
{
    lemma_parse_col_text(a.column);
    lemma_parse_row_text(a.row);
    let s = addr_text(a);
    let cl = col_text(a.column);
    let rw = row_text(a.row);
    let k = cl.len() as int;
    assert(forall|i: int| 0 <= i < k ==> s[i] == cl[i]);
    assert(forall|i: int| k <= i < s.len() ==> s[i] == rw[i - k]);
    assert forall|j: int| 0 <= j < k implies !addr_split_cond(s, j) by {
        if j == 0 {
            assert(s[0] == cl[0]);
            assert(cl[0] == '$' || is_alpha_char(cl[0]));
        } else {
            assert(is_alpha_char(cl[j]));
        }
    }
    assert(addr_split_cond(s, k)) by {
        assert(s[k] == rw[0]);
    }
    lemma_addr_split_at(s, 0);
    match addr_split_at(s, 0) {
        None => {
            assert(false);
        },
        Some(k2) => {
            if k2 < k {
                assert(addr_split_cond(s, k2));
                assert(false);
            }
            if k2 > k {
                assert(!addr_split_cond(s, k));
                assert(false);
            }
        },
    }
    assert(s.take(k) =~= cl);
    assert(s.skip(k) =~= rw);
    assert(!all_row_chars(s)) by {
        assert(is_alpha_char(cl.last()));
        assert(s[k - 1] == cl.last());
        assert(!(s[k - 1] == '$' || is_digit_char(s[k - 1])));
    }
    assert(!all_col_chars(s)) by {
        assert(s[s.len() - 1] == rw.last());
        assert(!(s[s.len() - 1] == '$' || is_alpha_char(s[s.len() - 1])));
    }
}

/// The rendered text of a non-union reference parses back as one segment,
/// and holds only letters, digits, `$` and `:`.
proof fn lemma_parse_segment_text(v: RefView)
    requires
        renders_canonically(v),
    ensures
        parse_segment(ref_text(v)) == Some(v),
        ref_text(v).len() >= 1,
        forall|i: int|
            0 <= i < ref_text(v).len() ==> (ref_text(v)[i] == '$' || is_alpha_char(
                #[trigger] ref_text(v)[i],
            ) || is_digit_char(ref_text(v)[i]) || ref_text(v)[i] == ':'),
{
    let s = ref_text(v);
    match v {
        RefView::Cell(a) => {
            lemma_parse_addr_text(a);
            lemma_find_char_none(s, ':');
        },
        RefView::ColumnRange { from, to } => {
            lemma_parse_col_text(from);
            lemma_parse_col_text(to);
            let cl = col_text(from);
            let cr = col_text(to);
            let k = cl.len() as int;
            assert(forall|i: int| 0 <= i < k ==> s[i] == cl[i]);
            assert(s[k] == ':');
            assert(forall|i: int| k + 1 <= i < s.len() ==> s[i] == cr[i - k - 1]);
            lemma_find_char_is(s, ':', k);
            assert(s.take(k) =~= cl);
            assert(s.skip(k + 1) =~= cr);
        },
        RefView::NonContiguous(_) => {
            assert(false);
        },
        RefView::Range { from, to } => {
            lemma_parse_addr_text(from);
            lemma_parse_addr_text(to);
            let al = addr_text(from);
            let ar = addr_text(to);
            let k = al.len() as int;
            assert(forall|i: int| 0 <= i < k ==> s[i] == al[i]);
            assert(s[k] == ':');
            assert(forall|i: int| k + 1 <= i < s.len() ==> s[i] == ar[i - k - 1]);
            lemma_find_char_is(s, ':', k);
            assert(s.take(k) =~= al);
            assert(s.skip(k + 1) =~= ar);
        },
        RefView::RowRange { from, to } => {
            lemma_parse_row_text(from);
            lemma_parse_row_text(to);
            let rl = row_text(from);
            let rr = row_text(to);
            let k = rl.len() as int;
            assert(forall|i: int| 0 <= i < k ==> s[i] == rl[i]);
            assert(s[k] == ':');
            assert(forall|i: int| k + 1 <= i < s.len() ==> s[i] == rr[i - k - 1]);
            lemma_find_char_is(s, ':', k);
            assert(s.take(k) =~= rl);
            assert(s.skip(k + 1) =~= rr);
        },
    }
}

/// The rendered text of a non-union reference parses back as a whole
/// reference: it holds no comma, so it is a single piece.
proof fn lemma_parse_reference_text(v: RefView)
    requires
        renders_canonically(v),
    ensures
        parse_reference(ref_text(v)) == Some(v),
        ref_text(v).len() >= 1,
        forall|i: int|
            0 <= i < ref_text(v).len() ==> (ref_text(v)[i] == '$' || is_alpha_char(
                #[trigger] ref_text(v)[i],
            ) || is_digit_char(ref_text(v)[i]) || ref_text(v)[i] == ':'),
{
    lemma_parse_segment_text(v);
    let s = ref_text(v);
    lemma_find_char_none(s, ',');
    lemma_split_commas_len(s);
}


/// Scanning a doubled name between quotes recovers the name: each doubled
/// quote reads back as one, and the single quote that follows, trailed by
/// any other character, closes the scan.
proof fn lemma_qscan_doubled(t: Seq<char>, i: int, n: Seq<char>)
    requires
        0 <= i,
        i + doubled(n).len() + 1 < t.len(),
        t.subrange(i, i + doubled(n).len()) == doubled(n),
        t[i + doubled(n).len()] == '\'',
        t[i + doubled(n).len() + 1] != '\'',
    ensures
        qscan(t, i) == Some((n, i + doubled(n).len() + 1)),
    decreases n.len(),
{
    let d = doubled(n);
    if n.len() == 0 {
        assert(d.len() == 0);
        assert(t[i] == '\'');
        assert(t[i + 1] != '\'');
        assert(qscan(t, i) == Some((Seq::<char>::empty(), i + 1)));
    } else {
        let n1 = n.drop_first();
        let d1 = doubled(n1);
        if n[0] == '\'' {
            assert(d == seq!['\'', '\''] + d1);
            assert(t[i] == d[0] && d[0] == '\'') by {
                assert(t.subrange(i, i + d.len())[0] == t[i]);
            }
            assert(t[i + 1] == d[1] && d[1] == '\'') by {
                assert(t.subrange(i, i + d.len())[1] == t[i + 1]);
            }
            assert(t.subrange(i + 2, i + 2 + d1.len()) == d1) by {
                assert(t.subrange(i + 2, i + 2 + d1.len()) =~= d1) by {
                    assert forall|j: int| 0 <= j < d1.len() implies t.subrange(
                        i + 2,
                        i + 2 + d1.len(),
                    )[j] == d1[j] by {
                        assert(t.subrange(i, i + d.len())[j + 2] == t[i + 2 + j]);
                        assert(d[j + 2] == d1[j]);
                    }
                }
            }
            lemma_qscan_doubled(t, i + 2, n1);
            assert(seq!['\''] + n1 =~= n);
        } else {
            assert(d == seq![n[0]] + d1);
            assert(t[i] == d[0] && d[0] == n[0]) by {
                assert(t.subrange(i, i + d.len())[0] == t[i]);
            }
            assert(t[i] != '\'');
            assert(t.subrange(i + 1, i + 1 + d1.len()) == d1) by {
                assert(t.subrange(i + 1, i + 1 + d1.len()) =~= d1) by {
                    assert forall|j: int| 0 <= j < d1.len() implies t.subrange(
                        i + 1,
                        i + 1 + d1.len(),
                    )[j] == d1[j] by {
                        assert(t.subrange(i, i + d.len())[j + 1] == t[i + 1 + j]);
                        assert(d[j + 1] == d1[j]);
                    }
                }
            }
            lemma_qscan_doubled(t, i + 1, n1);
            assert(seq![t[i]] + n1 =~= n);
        }
    }
}

/// Splitting the rendered text of a sheet name and reference recovers
/// exactly the name, quoted or bare, and the reference text.
proof fn lemma_sheet_split_render(sheet: Option<Seq<char>>, rest: Seq<char>)
    requires
        sheet_renders_canonically(sheet),
        rest.len() >= 1,
        forall|i: int|
            0 <= i < rest.len() ==> (rest[i] == '$' || is_alpha_char(#[trigger] rest[i])
                || is_digit_char(rest[i]) || rest[i] == ':'),
    ensures
        ({
            let s = match sheet {
                None => rest,
                Some(n) => sheet_text(n) + seq!['!'] + rest,
            };
            sheet_split(s) == Some((sheet, rest))
        }),
{
    match sheet {
        None => {
            let s = rest;
            assert(!is_ws_char(s[0]));
            assert(ws_prefix(s, 0) == 0);
            assert(s[0] != '\'');
            lemma_find_char_none(s, '!');
        },
        Some(n) => {
            let s = sheet_text(n) + seq!['!'] + rest;
            if needs_quotes_spec(n) {
                let d = doubled(n);
                assert(sheet_text(n) == seq!['\''] + d + seq!['\'']);
                assert(s[0] == '\'');
                assert(!is_ws_char('\''));
                assert(ws_prefix(s, 0) == 0);
                let t = s.skip(0);
                assert(t =~= s);
                assert(t.subrange(1, 1 + d.len() as int) =~= d);
                assert(t[1 + d.len() as int] == '\'');
                assert(t[2 + d.len() as int] == '!');
                lemma_qscan_doubled(t, 1, n);
                assert(qscan(t, 1) == Some((n, 2 + d.len() as int)));
                assert(t.skip(2 + d.len() as int + 1) =~= rest);
            } else {
                assert(sheet_text(n) == n);
                assert(forall|i: int|
                    0 <= i < n.len() ==> !(is_ws_char(#[trigger] n[i]) || n[i] == '\''));
                if n.len() > 0 {
                    assert(s[0] == n[0]);
                    assert(!is_ws_char(s[0]));
                    assert(s[0] != '\'');
                } else {
                    assert(s[0] == '!');
                    assert(!is_ws_char('!'));
                }
                assert(ws_prefix(s, 0) == 0);
                assert(forall|i: int| 0 <= i < n.len() ==> s[i] == n[i]);
                assert(s[n.len() as int] == '!');
                lemma_find_char_is(s, '!', n.len() as int);
                assert(s.take(n.len() as int) =~= n);
                assert(s.skip(n.len() as int + 1) =~= rest);
            }
        },
    }
}

/// Round trip, first half: parsing the rendered text of a canonical
/// reference recovers exactly the sheet name and the reference. A
/// canonical reference is any shape but a union, with indices below the
/// top machine word, under a sheet name that is `None`, quoted when
/// rendered, or free of `!`.
pub proof fn lemma_parse_inverts_render(sheet: Option<Seq<char>>, v: RefView)
    requires
        renders_canonically(v),
        sheet_renders_canonically(sheet),
    ensures
        parse_a1_model(full_text(sheet, v)) == Some((sheet, v)),
{
    lemma_parse_reference_text(v);
    lemma_sheet_split_render(sheet, ref_text(v));
}

/// Round trip: for every canonical reference string - one that some
/// canonical sheet name and reference render to - parsing succeeds and
/// rendering the parse gives back the very same string, markers and
/// casing included.
pub proof fn lemma_round_trip(s: Seq<char>, sheet: Option<Seq<char>>, v: RefView)
    requires
        renders_canonically(v),
        sheet_renders_canonically(sheet),
        s == full_text(sheet, v),
    ensures
        parse_a1_model(s) matches Some(m) && full_text(m.0, m.1) == s,
{
    lemma_parse_inverts_render(sheet, v);
}

} // verus!
