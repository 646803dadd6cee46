//! Parsing CSV text into a table: the first line gives the column names, every
//! later line one row; fields are split on commas and trimmed; an empty or
//! missing field is a missing cell; short rows are padded with missing cells.
use vstd::prelude::*;

use crate::error::AppError;
use crate::split::{spec_fields, spec_lines, fields_chars, lines_chars, lemma_deep_view_elem};
use crate::table::{CellV, Column, ColumnData, Table, opt_view, push_cell};
use crate::text::{chars_string, str_chars};

verus! {

/// The trimmed header fields of the CSV text.
pub open spec fn csv_header(text: Seq<char>) -> Seq<Seq<char>> {
    spec_fields(spec_lines(text)[0])
}

/// The cell of column `j` in data row `r`: the trimmed field, or missing when
/// the field is absent or empty.
pub open spec fn csv_cell(text: Seq<char>, j: int, r: int) -> Option<Seq<char>> {
    let fs = spec_fields(spec_lines(text)[r + 1]);
    if j < fs.len() && fs[j].len() > 0 {
        Some(fs[j])
    } else {
        None
    }
}

/// Two header fields coincide.
pub open spec fn has_dup(h: Seq<Seq<char>>) -> bool {
    exists|i: int, j: int| 0 <= i < j < h.len() && h[i] == h[j]
}

/// Parse CSV text into a table of string columns.
///
/// Fails exactly when the text has no lines, or when two header fields
/// coincide. On success the table has one string column per header field, in
/// order, with one row per data line, each cell the trimmed field or missing.
#[verifier::loop_isolation(false)]
pub fn table_from_csv_text(text: &str) -> (r: Result<Table, AppError>)
    ensures
        match r {
            Ok(t) => {
                &&& spec_lines(text@).len() > 0
                &&& !has_dup(csv_header(text@))
                &&& t.wf()
                &&& t.columns@.len() == csv_header(text@).len()
                &&& t.spec_height() == spec_lines(text@).len() - 1
                &&& forall|j: int|
                    0 <= j < t.columns@.len() ==> (#[trigger] t.columns@[j]).name@ == csv_header(
                        text@,
                    )[j]
                &&& forall|j: int| 0 <= j < t.columns@.len() ==> t.columns@[j].data is Str
                &&& forall|j: int, rr: int|
                    0 <= j < t.columns@.len() && 0 <= rr < t.spec_height()
                        ==> (#[trigger] t.columns@[j].data.cell(rr)) == (match csv_cell(
                        text@,
                        j,
                        rr,
                    ) {
                        Some(s) => CellV::S(s),
                        None => CellV::Null,
                    })
            },
            Err(e) => match e {
                AppError::EmptyData(_) => spec_lines(text@).len() == 0,
                AppError::DuplicateColumn(_) => spec_lines(text@).len() > 0 && has_dup(
                    csv_header(text@),
                ),
                _ => false,
            },
        },
{
    let chars = str_chars(text);
    let lines = lines_chars(&chars);
    if lines.len() == 0 {
        return Err(AppError::EmptyData("CSV file is empty".to_owned()));
    }
    proof {
        lemma_deep_view_elem(&lines, 0);
        assert(lines.deep_view().len() == lines@.len());
        assert(spec_lines(text@).len() > 0);
    }
    let header = fields_chars(&lines[0]);
    let ghost hview = header.deep_view();
    proof {
        assert(hview == csv_header(text@));
    }
    let w = header.len();
    // Reject a duplicated header name.
    let mut i: usize = 0;
    while i < w
        invariant
            0 <= i <= w,
            w == header@.len(),
            hview == header.deep_view(),
            forall|a: int, b: int| 0 <= a < b < i ==> hview[a] != hview[b],
        decreases w - i,
    {
        let mut j: usize = 0;
        while j < i
            invariant
                0 <= j <= i < w,
                w == header@.len(),
                hview == header.deep_view(),
                forall|b: int| 0 <= b < j ==> hview[b] != hview[i as int],
            decreases i - j,
        {
            proof {
                lemma_deep_view_elem(&header, i as int);
                lemma_deep_view_elem(&header, j as int);
            }
            if crate::text::chars_eq(&header[j], &header[i]) {
                proof {
                    assert(0 <= j < i < hview.len() && hview[j as int] == hview[i as int]);
                    assert(has_dup(hview));
                }
                let name = chars_string(&header[i]);
                return Err(AppError::DuplicateColumn(name));
            }
            j = j + 1;
        }
        assert forall|a: int, b: int| 0 <= a < b < i + 1 implies hview[a] != hview[b] by {
            if b < i {
            } else {
                assert(hview[a] != hview[i as int]);
            }
        }
        i = i + 1;
    }
    // Build one string column per header field.
    let nlines = lines.len();
    let ghost lview = lines.deep_view();
    let mut cols: Vec<Column> = Vec::new();
    let mut j: usize = 0;
    while j < w
        invariant
            0 <= j <= w,
            w == header@.len(),
            nlines == lines@.len(),
            nlines >= 1,
            hview == header.deep_view(),
            lview == lines.deep_view(),
            lview == spec_lines(text@),
            hview == csv_header(text@),
            cols@.len() == j,
            forall|a: int| 0 <= a < j ==> (#[trigger] cols@[a]).name@ == hview[a],
            forall|a: int| 0 <= a < j ==> (#[trigger] cols@[a]).data is Str,
            forall|a: int|
                0 <= a < j ==> (#[trigger] cols@[a]).data.spec_len() == nlines - 1,
            forall|a: int, rr: int|
                0 <= a < j && 0 <= rr < nlines - 1 ==> (#[trigger] cols@[a].data.cell(rr))
                    == (match csv_cell(text@, a, rr) {
                    Some(s) => CellV::S(s),
                    None => CellV::Null,
                }),
        decreases w - j,
    {
        let mut cells: Vec<Option<String>> = Vec::new();
        let mut r: usize = 1;
        while r < nlines
            invariant
                1 <= r <= nlines,
                0 <= j < w,
                nlines == lines@.len(),
                lview == lines.deep_view(),
                lview == spec_lines(text@),
                cells@.len() == r - 1,
                forall|rr: int|
                    0 <= rr < r - 1 ==> (#[trigger] cells.deep_view()[rr]) == csv_cell(
                        text@,
                        j as int,
                        rr,
                    ),
            decreases nlines - r,
        {
            proof {
                lemma_deep_view_elem(&lines, r as int);
            }
            let fs = fields_chars(&lines[r]);
            let val: Option<String> = if j < fs.len() && fs[j].len() > 0 {
                proof {
                    lemma_deep_view_elem(&fs, j as int);
                }
                Some(chars_string(&fs[j]))
            } else {
                proof {
                    if j < fs@.len() {
                        lemma_deep_view_elem(&fs, j as int);
                    }
                }
                None
            };
            proof {
                assert(opt_view(val) == csv_cell(text@, j as int, r - 1));
            }
            push_cell(&mut cells, val);
            r = r + 1;
        }
        let name = chars_string(&header[j]);
        proof {
            lemma_deep_view_elem(&header, j as int);
        }
        let ghost cells_dv = cells.deep_view();
        let col = Column { name, data: ColumnData::Str(cells) };
        proof {
            assert(col.data.spec_len() == nlines - 1);
            assert forall|rr: int| 0 <= rr < nlines - 1 implies (#[trigger] col.data.cell(rr))
                == (match csv_cell(text@, j as int, rr) {
                Some(s) => CellV::S(s),
                None => CellV::Null,
            }) by {
                assert(cells_dv[rr] == csv_cell(text@, j as int, rr));
            }
        }
        cols.push(col);
        j = j + 1;
    }
    let t = Table { columns: cols };
    proof {
        assert(w >= 1);
        assert(t.spec_height() == nlines - 1);
        assert(t.wf());
    }
    Ok(t)
}

} // verus!
