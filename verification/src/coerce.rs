//! Numeric coercion: a string column every one of whose present values is,
//! after trimming, a float literal is replaced by a numeric column of those
//! trimmed literals — unless any value equals the marker string reserved for
//! vertical lines, or the column has no present value at all.
use vstd::prelude::*;

use crate::numlit::{check_float_chars, is_float_literal};
use crate::table::{ColView, Column, ColumnData, Table, cols_view, push_cell};
use crate::text::{chars_eq, chars_string, str_chars, trim_chars, trim_spec};

verus! {

/// Some present cell is, after trimming, exactly the marker.
pub open spec fn has_marker_cell(c: Seq<Option<Seq<char>>>, marker: Seq<char>) -> bool {
    exists|i: int|
        0 <= i < c.len() && ((#[trigger] c[i]) matches Some(s) && trim_spec(s) == marker)
}

/// Some cell is present.
pub open spec fn has_some_cell(c: Seq<Option<Seq<char>>>) -> bool {
    exists|i: int| 0 <= i < c.len() && (#[trigger] c[i]) is Some
}

/// Every present cell is, after trimming, a float literal.
pub open spec fn all_cells_parse(c: Seq<Option<Seq<char>>>) -> bool {
    forall|i: int|
        0 <= i < c.len() ==> ((#[trigger] c[i]) matches Some(s) ==> is_float_literal(trim_spec(s)))
}

/// When a string column is numerically coerced: no marker anywhere, at least
/// one present value, and every present value parses.
pub open spec fn numeric_convertible(c: Seq<Option<Seq<char>>>, marker: Seq<char>) -> bool {
    !has_marker_cell(c, marker) && has_some_cell(c) && all_cells_parse(c)
}

/// The coerced cells: each present value trimmed, missing values kept.
pub open spec fn trimmed_cells(c: Seq<Option<Seq<char>>>) -> Seq<Option<Seq<char>>> {
    Seq::new(
        c.len(),
        |i: int|
            match c[i] {
                Some(s) => Some(trim_spec(s)),
                None => None,
            },
    )
}

/// What numeric coercion does to one named column.
pub open spec fn numeric_coerce_view(nc: (Seq<char>, ColView), marker: Seq<char>) -> (
    Seq<char>,
    ColView,
) {
    match nc.1 {
        ColView::Str(c) => if numeric_convertible(c, marker) {
            (nc.0, ColView::Float(trimmed_cells(c)))
        } else {
            nc
        },
        _ => nc,
    }
}

/// Scan a string column: does it hold the marker, does it hold any present
/// value, does every present value parse as a float?
pub fn scan_str_cells(cells: &Vec<Option<String>>, marker: &String) -> (r: (bool, bool, bool))
    ensures
        r.0 == has_marker_cell(cells.deep_view(), marker@),
        r.1 == has_some_cell(cells.deep_view()),
        r.2 == all_cells_parse(cells.deep_view()),
{
    let ghost dv = cells.deep_view();
    let marker_chars = str_chars(marker.as_str());
    let n = cells.len();
    let mut found_marker = false;
    let mut found_some = false;
    let mut all_parse = true;
    let mut i: usize = 0;
    while i < n
        invariant
            0 <= i <= n,
            n == cells@.len(),
            dv == cells.deep_view(),
            marker_chars@ == marker@,
            found_marker == exists|j: int|
                0 <= j < i && ((#[trigger] dv[j]) matches Some(s) && trim_spec(s) == marker@),
            found_some == exists|j: int| 0 <= j < i && (#[trigger] dv[j]) is Some,
            all_parse == forall|j: int|
                0 <= j < i ==> ((#[trigger] dv[j]) matches Some(s) ==> is_float_literal(
                    trim_spec(s),
                )),
        decreases n - i,
    {
        proof {
            assert(dv[i as int] == match cells@[i as int] {
                Some(s) => Some(s@),
                None => None::<Seq<char>>,
            });
        }
        match &cells[i] {
            Some(s) => {
                let sc = str_chars(s.as_str());
                let tr = trim_chars(&sc);
                if chars_eq(&tr, &marker_chars) {
                    found_marker = true;
                }
                found_some = true;
                if !check_float_chars(&tr) {
                    all_parse = false;
                }
            },
            None => {},
        }
        i = i + 1;
    }
    (found_marker, found_some, all_parse)
}

/// Copy a string column's cells with each present value trimmed.
fn trim_cells(cells: &Vec<Option<String>>) -> (r: Vec<Option<String>>)
    ensures
        r.deep_view() == trimmed_cells(cells.deep_view()),
{
    let ghost dv = cells.deep_view();
    let n = cells.len();
    let mut out: Vec<Option<String>> = Vec::new();
    let mut i: usize = 0;
    while i < n
        invariant
            0 <= i <= n,
            n == cells@.len(),
            dv == cells.deep_view(),
            out.deep_view() =~= trimmed_cells(dv).subrange(0, i as int),
        decreases n - i,
    {
        proof {
            assert(dv[i as int] == match cells@[i as int] {
                Some(s) => Some(s@),
                None => None::<Seq<char>>,
            });
        }
        let val: Option<String> = match &cells[i] {
            Some(s) => Some(crate::text::trim_string(s.as_str())),
            None => None,
        };
        push_cell(&mut out, val);
        i = i + 1;
        proof {
            assert(out.deep_view() =~= trimmed_cells(dv).subrange(0, i as int));
        }
    }
    proof {
        assert(trimmed_cells(dv).subrange(0, n as int) == trimmed_cells(dv));
    }
    out
}

/// Copy a string column's cells unchanged.
pub fn clone_cells(cells: &Vec<Option<String>>) -> (r: Vec<Option<String>>)
    ensures
        r.deep_view() == cells.deep_view(),
{
    let ghost dv = cells.deep_view();
    let n = cells.len();
    let mut out: Vec<Option<String>> = Vec::new();
    let mut i: usize = 0;
    while i < n
        invariant
            0 <= i <= n,
            n == cells@.len(),
            dv == cells.deep_view(),
            out.deep_view() =~= dv.subrange(0, i as int),
        decreases n - i,
    {
        proof {
            assert(dv[i as int] == match cells@[i as int] {
                Some(s) => Some(s@),
                None => None::<Seq<char>>,
            });
        }
        let val: Option<String> = match &cells[i] {
            Some(s) => Some(s.clone()),
            None => None,
        };
        push_cell(&mut out, val);
        i = i + 1;
        proof {
            assert(out.deep_view() =~= dv.subrange(0, i as int));
        }
    }
    proof {
        assert(dv.subrange(0, n as int) == dv);
    }
    out
}

/// Copy plain cells unchanged.
pub fn clone_i64_cells(cells: &Vec<Option<i64>>) -> (r: Vec<Option<i64>>)
    ensures
        r@ == cells@,
{
    let n = cells.len();
    let mut out: Vec<Option<i64>> = Vec::new();
    let mut i: usize = 0;
    while i < n
        invariant
            0 <= i <= n,
            n == cells@.len(),
            out@ =~= cells@.subrange(0, i as int),
        decreases n - i,
    {
        out.push(cells[i]);
        i = i + 1;
        proof {
            assert(out@ =~= cells@.subrange(0, i as int));
        }
    }
    proof {
        assert(cells@.subrange(0, n as int) == cells@);
    }
    out
}

/// Copy date cells unchanged.
pub fn clone_i32_cells(cells: &Vec<Option<i32>>) -> (r: Vec<Option<i32>>)
    ensures
        r@ == cells@,
{
    let n = cells.len();
    let mut out: Vec<Option<i32>> = Vec::new();
    let mut i: usize = 0;
    while i < n
        invariant
            0 <= i <= n,
            n == cells@.len(),
            out@ =~= cells@.subrange(0, i as int),
        decreases n - i,
    {
        out.push(cells[i]);
        i = i + 1;
        proof {
            assert(out@ =~= cells@.subrange(0, i as int));
        }
    }
    proof {
        assert(cells@.subrange(0, n as int) == cells@);
    }
    out
}

/// Copy boolean cells unchanged.
pub fn clone_bool_cells(cells: &Vec<Option<bool>>) -> (r: Vec<Option<bool>>)
    ensures
        r@ == cells@,
{
    let n = cells.len();
    let mut out: Vec<Option<bool>> = Vec::new();
    let mut i: usize = 0;
    while i < n
        invariant
            0 <= i <= n,
            n == cells@.len(),
            out@ =~= cells@.subrange(0, i as int),
        decreases n - i,
    {
        out.push(cells[i]);
        i = i + 1;
        proof {
            assert(out@ =~= cells@.subrange(0, i as int));
        }
    }
    proof {
        assert(cells@.subrange(0, n as int) == cells@);
    }
    out
}

/// Copy a column unchanged.
pub fn clone_column(c: &Column) -> (r: Column)
    ensures
        r.name@ == c.name@,
        r.data.dview() == c.data.dview(),
{
    let name = c.name.clone();
    let data = match &c.data {
        ColumnData::Str(v) => ColumnData::Str(clone_cells(v)),
        ColumnData::Float(v) => ColumnData::Float(clone_cells(v)),
        ColumnData::Int(v) => ColumnData::Int(clone_i64_cells(v)),
        ColumnData::Bool(v) => ColumnData::Bool(clone_bool_cells(v)),
        ColumnData::Date(v) => ColumnData::Date(clone_i32_cells(v)),
        ColumnData::Datetime(v) => ColumnData::Datetime(clone_i64_cells(v)),
    };
    Column { name, data }
}

/// Replace every string column all of whose present values are trimmed float
/// literals — and none of which is the marker — by a numeric column of the
/// trimmed literals.
#[verifier::loop_isolation(false)]
pub fn coerce_numeric(t: &mut Table, marker: &String)
    ensures
        final(t).tview() == old(t).tview().map_values(
            |nc: (Seq<char>, ColView)| numeric_coerce_view(nc, marker@),
        ),
        final(t).columns@.len() == old(t).columns@.len(),
        old(t).wf() ==> final(t).wf(),
{
    let ghost target = old(t).tview().map_values(
        |nc: (Seq<char>, ColView)| numeric_coerce_view(nc, marker@),
    );
    let w = t.columns.len();
    let mut new_cols: Vec<Column> = Vec::new();
    let mut j: usize = 0;
    while j < w
        invariant
            0 <= j <= w,
            new_cols@.len() == j,
            cols_view(new_cols@) =~= target.subrange(0, j as int),
        decreases w - j,
    {
        let col = &t.columns[j];
        let new_col: Column = match &col.data {
            ColumnData::Str(cells) => {
                let (has_marker, has_some, all_parse) = scan_str_cells(cells, marker);
                if !has_marker && has_some && all_parse {
                    Column { name: col.name.clone(), data: ColumnData::Float(trim_cells(cells)) }
                } else {
                    clone_column(col)
                }
            },
            _ => clone_column(col),
        };
        proof {
            assert((new_col.name@, new_col.data.dview()) == numeric_coerce_view(
                (col.name@, col.data.dview()),
                marker@,
            ));
            assert(old(t).tview()[j as int] == (col.name@, col.data.dview()));
        }
        new_cols.push(new_col);
        j = j + 1;
        proof {
            assert(cols_view(new_cols@) =~= target.subrange(0, j as int));
        }
    }
    proof {
        assert(target.subrange(0, w as int) == target);
    }
    t.columns = new_cols;
    proof {
        assert(t.tview() =~= target);
        if old(t).wf() {
            assert forall|a: int| 0 <= a < t.columns@.len() implies (#[trigger] t.columns@[a].data).spec_len()
                == t.spec_height() by {
                lemma_len_dview(&t.columns@[a].data);
                lemma_len_dview(&old(t).columns@[a].data);
                if t.columns@.len() > 0 {
                    lemma_len_dview(&t.columns@[0].data);
                    lemma_len_dview(&old(t).columns@[0].data);
                    assert(t.tview()[a].1.len() == old(t).tview()[a].1.len());
                    assert(t.tview()[0].1.len() == old(t).tview()[0].1.len());
                }
            }
            assert forall|a: int, b: int|
                0 <= a < b < t.columns@.len() implies t.columns@[a].name@
                != t.columns@[b].name@ by {
                assert(t.tview()[a].0 == old(t).tview()[a].0);
                assert(t.tview()[b].0 == old(t).tview()[b].0);
            }
        }
    }
}

/// Law: a string column whose present values all parse, and which holds at
/// least one present value and no marker, is replaced by a numeric column of
/// the trimmed literals, with missing cells exactly where the original had
/// them; every cell of the coerced column is a literal the float parser
/// accepts.
pub proof fn lemma_numeric_coercion_applies(
    name: Seq<char>,
    c: Seq<Option<Seq<char>>>,
    marker: Seq<char>,
)
    requires
        numeric_convertible(c, marker),
    ensures
        numeric_coerce_view((name, ColView::Str(c)), marker) == (
            name,
            ColView::Float(trimmed_cells(c)),
        ),
        trimmed_cells(c).len() == c.len(),
        forall|i: int|
            0 <= i < c.len() ==> ((#[trigger] trimmed_cells(c)[i]) is None == c[i] is None),
        forall|i: int|
            0 <= i < c.len() ==> match #[trigger] trimmed_cells(c)[i] {
                Some(l) => is_float_literal(l),
                None => true,
            },
{
    assert forall|i: int|
        0 <= i < c.len() implies match #[trigger] trimmed_cells(c)[i] {
        Some(l) => is_float_literal(l),
        None => true,
    } by {
        assert(c[i] matches Some(s) ==> is_float_literal(trim_spec(s)));
    }
}

/// Law: one present value that is neither the marker nor a float literal
/// keeps the whole column a string column.
pub proof fn lemma_bad_value_blocks_coercion(
    name: Seq<char>,
    c: Seq<Option<Seq<char>>>,
    marker: Seq<char>,
    i: int,
)
    requires
        0 <= i < c.len(),
        c[i] matches Some(s) && !is_float_literal(trim_spec(s)),
    ensures
        numeric_coerce_view((name, ColView::Str(c)), marker) == (name, ColView::Str(c)),
{
    assert(!all_cells_parse(c));
}

/// Law: a column holding the marker anywhere is never numerically coerced,
/// however many of its other values are numeric.
pub proof fn lemma_marker_blocks_coercion(
    name: Seq<char>,
    c: Seq<Option<Seq<char>>>,
    marker: Seq<char>,
    i: int,
)
    requires
        0 <= i < c.len(),
        c[i] matches Some(s) && trim_spec(s) == marker,
    ensures
        numeric_coerce_view((name, ColView::Str(c)), marker) == (name, ColView::Str(c)),
{
    assert(has_marker_cell(c, marker));
}

/// A column's length equals its view's length.
pub proof fn lemma_len_dview(d: &ColumnData)
    ensures
        d.spec_len() == d.dview().len(),
{
}

} // verus!
