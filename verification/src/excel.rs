//! Building a table from spreadsheet cells. The caller hands over the rows
//! of the first worksheet with every empty or error cell already a missing
//! value; here the header row is found (the first row that is not entirely
//! missing), column names are taken from it — a blank header cell names its
//! column `col_<n>` — and all later rows become string cells.
use vstd::prelude::*;

use crate::error::AppError;
use crate::table::{Column, ColumnData, Table, opt_view, push_cell};
use crate::text::{chars_eq, chars_string, dec_str, str_chars, trim_chars, trim_spec, u64_to_chars};

verus! {

/// A row with no present cell.
pub open spec fn row_all_empty(row: Seq<Option<Seq<char>>>) -> bool {
    forall|j: int| 0 <= j < row.len() ==> (#[trigger] row[j]) is None
}

/// The index of the first row with a present cell, or -1.
pub open spec fn header_idx_spec(rows: Seq<Seq<Option<Seq<char>>>>) -> int
    decreases rows.len(),
{
    if rows.len() == 0 {
        -1
    } else if !row_all_empty(rows[0]) {
        0
    } else if header_idx_spec(rows.skip(1)) < 0 {
        -1
    } else {
        1 + header_idx_spec(rows.skip(1))
    }
}

/// The width of the widest row.
pub open spec fn max_row_len(rows: Seq<Seq<Option<Seq<char>>>>) -> int
    decreases rows.len(),
{
    if rows.len() == 0 {
        0
    } else if rows[0].len() >= max_row_len(rows.skip(1)) {
        rows[0].len() as int
    } else {
        max_row_len(rows.skip(1))
    }
}

/// The generated name of a column whose header cell is blank.
pub open spec fn gen_col_name(n: int) -> Seq<char> {
    seq!['c', 'o', 'l', '_'] + dec_str(n)
}

/// The name of column `j`: the trimmed header cell, or `col_<j+1>` when that
/// cell is missing, absent or blank.
pub open spec fn excel_header_name(rows: Seq<Seq<Option<Seq<char>>>>, hi: int, j: int) -> Seq<
    char,
> {
    let c = if j < rows[hi].len() {
        rows[hi][j]
    } else {
        None
    };
    match c {
        Some(s) => if trim_spec(s).len() == 0 {
            gen_col_name(j + 1)
        } else {
            trim_spec(s)
        },
        None => gen_col_name(j + 1),
    }
}

/// The cell of column `j` in data row `r` (rows below the header).
pub open spec fn excel_cell(rows: Seq<Seq<Option<Seq<char>>>>, hi: int, j: int, r: int) -> Option<
    Seq<char>,
> {
    let row = rows[hi + 1 + r];
    if j < row.len() {
        row[j]
    } else {
        None
    }
}

/// An element of the deep view of rows.
proof fn lemma_rows_elem(v: &Vec<Vec<Option<String>>>, i: int)
    requires
        0 <= i < v@.len(),
    ensures
        v.deep_view()[i] == v@[i].deep_view(),
        v@[i].deep_view().len() == v@[i]@.len(),
{
    assert(v.deep_view()[i] == v@[i].deep_view());
}

proof fn lemma_cell_elem(row: &Vec<Option<String>>, j: int)
    requires
        0 <= j < row@.len(),
    ensures
        row.deep_view()[j] == opt_view(row@[j]),
{
}

/// The first row with a present cell is the one `header_idx_spec` gives.
proof fn lemma_header_idx_first(rows: Seq<Seq<Option<Seq<char>>>>, i: int)
    requires
        0 <= i < rows.len(),
        !row_all_empty(rows[i]),
        forall|k: int| 0 <= k < i ==> row_all_empty(#[trigger] rows[k]),
    ensures
        header_idx_spec(rows) == i,
    decreases i,
{
    if i > 0 {
        lemma_header_idx_first(rows.skip(1), i - 1);
    }
}

proof fn lemma_header_idx_none(rows: Seq<Seq<Option<Seq<char>>>>)
    requires
        forall|k: int| 0 <= k < rows.len() ==> row_all_empty(#[trigger] rows[k]),
    ensures
        header_idx_spec(rows) < 0,
    decreases rows.len(),
{
    if rows.len() > 0 {
        assert forall|k: int|
            0 <= k < rows.skip(1).len() implies row_all_empty(#[trigger] rows.skip(1)[k]) by {
            assert(rows.skip(1)[k] == rows[k + 1]);
        }
        lemma_header_idx_none(rows.skip(1));
    }
}

/// Does this row hold any present cell?
fn row_has_value(row: &Vec<Option<String>>) -> (r: bool)
    ensures
        r == !row_all_empty(row.deep_view()),
{
    let n = row.len();
    let mut i: usize = 0;
    while i < n
        invariant
            0 <= i <= n,
            n == row@.len(),
            forall|j: int| 0 <= j < i ==> (#[trigger] row.deep_view()[j]) is None,
        decreases n - i,
    {
        proof {
            lemma_cell_elem(row, i as int);
        }
        if row[i].is_some() {
            return true;
        }
        i = i + 1;
    }
    proof {
        assert(row.deep_view().len() == row@.len());
    }
    false
}

/// Build a table of string columns from spreadsheet rows: the first row that
/// is not entirely missing names the columns, each later row is one data
/// row, short rows read as missing cells. Fails when no row has a value,
/// when the rows are all zero-width, or when two columns end up under one
/// name.
#[verifier::loop_isolation(false)]
pub fn table_from_cells(rows: &Vec<Vec<Option<String>>>) -> (r: Result<Table, AppError>)
    ensures
        match r {
            Ok(t) => {
                let rv = rows.deep_view();
                let hi = header_idx_spec(rv);
                &&& hi >= 0
                &&& max_row_len(rv) > 0
                &&& t.wf()
                &&& t.columns@.len() == max_row_len(rv)
                &&& t.spec_height() == rv.len() - hi - 1
                &&& forall|j: int|
                    0 <= j < t.columns@.len() ==> (#[trigger] t.columns@[j]).name@
                        == excel_header_name(rv, hi, j)
                &&& forall|j: int| 0 <= j < t.columns@.len() ==> t.columns@[j].data is Str
                &&& forall|j: int, rr: int|
                    0 <= j < t.columns@.len() && 0 <= rr < t.spec_height() ==> (
                    #[trigger] t.columns@[j].data.cell(rr)) == (match excel_cell(rv, hi, j, rr) {
                        Some(s) => crate::table::CellV::S(s),
                        None => crate::table::CellV::Null,
                    })
            },
            Err(e) => match e {
                AppError::SpreadsheetParse(_) => header_idx_spec(rows.deep_view()) < 0
                    || max_row_len(rows.deep_view()) <= 0,
                AppError::DuplicateColumn(_) => header_idx_spec(rows.deep_view()) >= 0
                    && max_row_len(rows.deep_view()) > 0 && exists|a: int, b: int|
                    #![auto]
                    0 <= a < b < max_row_len(rows.deep_view()) && excel_header_name(
                        rows.deep_view(),
                        header_idx_spec(rows.deep_view()),
                        a,
                    ) == excel_header_name(
                        rows.deep_view(),
                        header_idx_spec(rows.deep_view()),
                        b,
                    ),
                _ => false,
            },
        },
{
    let ghost rv = rows.deep_view();
    let nrows = rows.len();
    // Find the header row.
    let mut hi: usize = 0;
    let mut found = false;
    while hi < nrows && !found
        invariant
            0 <= hi <= nrows,
            nrows == rows@.len(),
            rv == rows.deep_view(),
            !found ==> forall|k: int| 0 <= k < hi ==> row_all_empty(#[trigger] rv[k]),
            found ==> 0 <= hi < nrows && !row_all_empty(rv[hi as int]) && forall|k: int|
                0 <= k < hi ==> row_all_empty(#[trigger] rv[k]),
        decreases nrows - hi, (if found { 0int } else { 1int }),
    {
        proof {
            lemma_rows_elem(rows, hi as int);
        }
        if row_has_value(&rows[hi]) {
            found = true;
        } else {
            hi = hi + 1;
        }
    }
    if !found {
        proof {
            lemma_header_idx_none(rv);
        }
        return Err(AppError::SpreadsheetParse("no row holds a value".to_owned()));
    }
    proof {
        lemma_header_idx_first(rv, hi as int);
    }
    // The width is the widest row's length.
    let mut w: usize = 0;
    let mut i: usize = nrows;
    while i > 0
        invariant
            0 <= i <= nrows,
            nrows == rows@.len(),
            rv == rows.deep_view(),
            w == max_row_len(rv.skip(i as int)),
        decreases i,
    {
        i = i - 1;
        proof {
            lemma_rows_elem(rows, i as int);
            assert(rv.skip(i as int)[0] == rv[i as int]);
            assert(rv.skip(i as int).skip(1) =~= rv.skip(i + 1));
        }
        let li = rows[i].len();
        if li >= w {
            w = li;
        }
    }
    proof {
        assert(rv.skip(0) == rv);
    }
    if w == 0 {
        return Err(AppError::SpreadsheetParse("the rows are empty".to_owned()));
    }
    // Column names from the header row.
    let mut names: Vec<Vec<char>> = Vec::new();
    let mut j: usize = 0;
    while j < w
        invariant
            0 <= j <= w,
            w == max_row_len(rv),
            0 <= hi < nrows,
            nrows == rows@.len(),
            rv == rows.deep_view(),
            hi == header_idx_spec(rv),
            names.deep_view().len() == j,
            forall|a: int|
                0 <= a < j ==> #[trigger] names.deep_view()[a] == excel_header_name(
                    rv,
                    hi as int,
                    a,
                ),
        decreases w - j,
    {
        proof {
            lemma_rows_elem(rows, hi as int);
        }
        let hrow = &rows[hi];
        let name: Vec<char> = if j < hrow.len() {
            proof {
                lemma_cell_elem(hrow, j as int);
            }
            match &hrow[j] {
                Some(s) => {
                    let sc = str_chars(s.as_str());
                    let tr = trim_chars(&sc);
                    if tr.len() == 0 {
                        gen_name(j + 1)
                    } else {
                        tr
                    }
                },
                None => gen_name(j + 1),
            }
        } else {
            gen_name(j + 1)
        };
        proof {
            assert(name@ == excel_header_name(rv, hi as int, j as int));
        }
        crate::split::push_piece(&mut names, name);
        j = j + 1;
    }
    // Reject duplicated names.
    let mut a: usize = 0;
    while a < w
        invariant
            0 <= a <= w,
            w == names@.len(),
            w == max_row_len(rv),
            hi == header_idx_spec(rv),
            0 <= hi < nrows,
            nrows == rows@.len(),
            rv == rows.deep_view(),
            forall|p: int|
                0 <= p < w ==> #[trigger] names.deep_view()[p] == excel_header_name(
                    rv,
                    hi as int,
                    p,
                ),
            forall|p: int, q: int|
                0 <= p < q < a ==> names.deep_view()[p] != names.deep_view()[q],
        decreases w - a,
    {
        let mut b: usize = 0;
        while b < a
            invariant
                0 <= b <= a < w,
                w == names@.len(),
                forall|p: int| 0 <= p < b ==> names.deep_view()[p] != names.deep_view()[a as int],
            decreases a - b,
        {
            proof {
                crate::split::lemma_deep_view_elem(&names, a as int);
                crate::split::lemma_deep_view_elem(&names, b as int);
            }
            if chars_eq(&names[b], &names[a]) {
                proof {
                    assert(names.deep_view()[b as int] == names.deep_view()[a as int]);
                }
                let nm = chars_string(&names[a]);
                return Err(AppError::DuplicateColumn(nm));
            }
            b = b + 1;
        }
        assert forall|p: int, q: int|
            0 <= p < q < a + 1 implies names.deep_view()[p] != names.deep_view()[q] by {
            if q == a {
                assert(names.deep_view()[p] != names.deep_view()[a as int]);
            }
        }
        a = a + 1;
    }
    // Build the string columns.
    let mut cols: Vec<Column> = Vec::new();
    let mut j: usize = 0;
    let ghost h = rv.len() - hi - 1;
    while j < w
        invariant
            0 <= j <= w,
            w == names@.len(),
            w == max_row_len(rv),
            hi == header_idx_spec(rv),
            0 <= hi < nrows,
            nrows == rows@.len(),
            rv == rows.deep_view(),
            h == rv.len() - hi - 1,
            forall|p: int|
                0 <= p < w ==> #[trigger] names.deep_view()[p] == excel_header_name(
                    rv,
                    hi as int,
                    p,
                ),
            forall|p: int, q: int|
                0 <= p < q < w ==> names.deep_view()[p] != names.deep_view()[q],
            cols@.len() == j,
            forall|p: int|
                0 <= p < j ==> (#[trigger] cols@[p]).name@ == excel_header_name(rv, hi as int, p),
            forall|p: int| 0 <= p < j ==> (#[trigger] cols@[p]).data is Str,
            forall|p: int| 0 <= p < j ==> (#[trigger] cols@[p]).data.spec_len() == h,
            forall|p: int, rr: int|
                0 <= p < j && 0 <= rr < h ==> (#[trigger] cols@[p].data.cell(rr)) == (
                match excel_cell(rv, hi as int, p, rr) {
                    Some(s) => crate::table::CellV::S(s),
                    None => crate::table::CellV::Null,
                }),
        decreases w - j,
    {
        let mut cells: Vec<Option<String>> = Vec::new();
        let mut r: usize = hi + 1;
        while r < nrows
            invariant
                hi + 1 <= r <= nrows,
                0 <= hi < nrows,
                0 <= j < w,
                nrows == rows@.len(),
                rv == rows.deep_view(),
                cells@.len() == r - hi - 1,
                forall|rr: int|
                    0 <= rr < r - hi - 1 ==> (#[trigger] cells.deep_view()[rr]) == excel_cell(
                        rv,
                        hi as int,
                        j as int,
                        rr,
                    ),
            decreases nrows - r,
        {
            proof {
                lemma_rows_elem(rows, r as int);
            }
            let row = &rows[r];
            let val: Option<String> = if j < row.len() {
                proof {
                    lemma_cell_elem(row, j as int);
                }
                match &row[j] {
                    Some(s) => Some(s.clone()),
                    None => None,
                }
            } else {
                None
            };
            proof {
                assert(opt_view(val) == excel_cell(rv, hi as int, j as int, (r - hi - 1) as int));
            }
            push_cell(&mut cells, val);
            r = r + 1;
        }
        proof {
            crate::split::lemma_deep_view_elem(&names, j as int);
        }
        let name = chars_string(&names[j]);
        let ghost cells_dv = cells.deep_view();
        let col = Column { name, data: ColumnData::Str(cells) };
        proof {
            assert(col.data.spec_len() == h);
            assert forall|rr: int| 0 <= rr < h implies (#[trigger] col.data.cell(rr)) == (
            match excel_cell(rv, hi as int, j as int, rr) {
                Some(s) => crate::table::CellV::S(s),
                None => crate::table::CellV::Null,
            }) by {
                assert(cells_dv[rr] == excel_cell(rv, hi as int, j as int, rr));
            }
        }
        cols.push(col);
        j = j + 1;
    }
    let t = Table { columns: cols };
    proof {
        assert(w >= 1);
        assert(t.spec_height() == h);
        assert forall|p: int|
            0 <= p < t.columns@.len() implies (#[trigger] t.columns@[p].data).spec_len()
            == t.spec_height() by {}
        assert forall|p: int, q: int|
            0 <= p < q < t.columns@.len() implies t.columns@[p].name@ != t.columns@[q].name@ by {
            assert(names.deep_view()[p] == excel_header_name(rv, hi as int, p));
            assert(names.deep_view()[q] == excel_header_name(rv, hi as int, q));
            assert(names.deep_view()[p] != names.deep_view()[q]);
        }
        assert(t.wf());
    }
    Ok(t)
}

/// The generated `col_<n>` name.
fn gen_name(n: usize) -> (r: Vec<char>)
    ensures
        r@ == gen_col_name(n as int),
{
    let mut v: Vec<char> = vec!['c', 'o', 'l', '_'];
    let d = u64_to_chars(n as u64);
    let mut i: usize = 0;
    proof {
        assert(v@ =~= seq!['c', 'o', 'l', '_'] + d@.subrange(0, 0));
    }
    while i < d.len()
        invariant
            0 <= i <= d@.len(),
            v@ == seq!['c', 'o', 'l', '_'] + d@.subrange(0, i as int),
        decreases d@.len() - i,
    {
        v.push(d[i]);
        i = i + 1;
        proof {
            assert(v@ =~= seq!['c', 'o', 'l', '_'] + d@.subrange(0, i as int));
        }
    }
    proof {
        assert(d@.subrange(0, d@.len() as int) == d@);
    }
    v
}

} // verus!
