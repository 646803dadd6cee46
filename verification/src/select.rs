//! Axis selection: which column is the X axis, and which columns are plotted
//! against it.
use vstd::prelude::*;

use crate::cli::Cli;
use crate::coerce::{clone_column, has_marker_cell};
use crate::error::AppError;
use crate::table::{ColView, Column, ColumnData, Table, cols_view};

verus! {

/// Column `j` is the first one named `name`.
pub open spec fn first_named(tv: Seq<(Seq<char>, ColView)>, name: Seq<char>, j: int) -> bool {
    0 <= j < tv.len() && tv[j].0 == name && forall|k: int| 0 <= k < j ==> (#[trigger] tv[k]).0 != name
}

/// The index of the first column named `name`, or -1 when none is.
pub open spec fn named_idx(tv: Seq<(Seq<char>, ColView)>, name: Seq<char>) -> int
    decreases tv.len(),
{
    if tv.len() == 0 {
        -1
    } else if tv[0].0 == name {
        0
    } else if named_idx(tv.skip(1), name) < 0 {
        -1
    } else {
        1 + named_idx(tv.skip(1), name)
    }
}

/// The first column bearing a name has the index `named_idx` gives.
pub proof fn lemma_named_idx_first(tv: Seq<(Seq<char>, ColView)>, name: Seq<char>, i: int)
    requires
        0 <= i < tv.len(),
        tv[i].0 == name,
        forall|k: int| 0 <= k < i ==> (#[trigger] tv[k]).0 != name,
    ensures
        named_idx(tv, name) == i,
    decreases i,
{
    if i > 0 {
        lemma_named_idx_first(tv.skip(1), name, i - 1);
    }
}

/// What `named_idx` finds: the first column of that name, or nothing.
pub proof fn lemma_named_idx_props(tv: Seq<(Seq<char>, ColView)>, name: Seq<char>)
    ensures
        named_idx(tv, name) >= 0 ==> 0 <= named_idx(tv, name) < tv.len() && tv[named_idx(
            tv,
            name,
        )].0 == name,
        named_idx(tv, name) < 0 ==> forall|i: int|
            0 <= i < tv.len() ==> (#[trigger] tv[i]).0 != name,
    decreases tv.len(),
{
    if tv.len() > 0 {
        lemma_named_idx_props(tv.skip(1), name);
        if tv[0].0 != name {
            assert forall|i: int|
                0 <= i < tv.len() && named_idx(tv, name) < 0 implies (#[trigger] tv[i]).0
                != name by {
                if i > 0 {
                    assert(tv.skip(1)[i - 1] == tv[i]);
                }
            }
        }
    }
}

/// A date or datetime column with at least one present cell.
pub open spec fn datetime_nonnull(cv: ColView) -> bool {
    match cv {
        ColView::Date(c) => exists|i: int| 0 <= i < c.len() && (#[trigger] c[i]) is Some,
        ColView::Datetime(c) => exists|i: int| 0 <= i < c.len() && (#[trigger] c[i]) is Some,
        _ => false,
    }
}

/// Column `j` is the first usable date or datetime column.
pub open spec fn first_datetime(tv: Seq<(Seq<char>, ColView)>, j: int) -> bool {
    0 <= j < tv.len() && datetime_nonnull(tv[j].1) && forall|k: int|
        0 <= k < j ==> !datetime_nonnull((#[trigger] tv[k]).1)
}

/// The index of the first usable date or datetime column, or -1.
pub open spec fn dt_idx(tv: Seq<(Seq<char>, ColView)>) -> int
    decreases tv.len(),
{
    if tv.len() == 0 {
        -1
    } else if datetime_nonnull(tv[0].1) {
        0
    } else if dt_idx(tv.skip(1)) < 0 {
        -1
    } else {
        1 + dt_idx(tv.skip(1))
    }
}

/// The first usable date or datetime column has the index `dt_idx` gives.
pub proof fn lemma_dt_idx_first(tv: Seq<(Seq<char>, ColView)>, i: int)
    requires
        first_datetime(tv, i),
    ensures
        dt_idx(tv) == i,
    decreases i,
{
    if i > 0 {
        lemma_dt_idx_first(tv.skip(1), i - 1);
    }
}

/// Without a usable date or datetime column, `dt_idx` finds nothing.
pub proof fn lemma_dt_idx_none(tv: Seq<(Seq<char>, ColView)>)
    requires
        forall|k: int| 0 <= k < tv.len() ==> !datetime_nonnull((#[trigger] tv[k]).1),
    ensures
        dt_idx(tv) < 0,
    decreases tv.len(),
{
    if tv.len() > 0 {
        assert forall|k: int|
            0 <= k < tv.skip(1).len() implies !datetime_nonnull(
            (#[trigger] tv.skip(1)[k]).1,
        ) by {
            assert(tv.skip(1)[k] == tv[k + 1]);
        }
        lemma_dt_idx_none(tv.skip(1));
    }
}

/// The synthesized fallback X column: the row numbers.
pub open spec fn row_index_view(h: nat) -> ColView {
    ColView::Int(Seq::new(h, |i: int| Some(i as i64)))
}

/// Which named column view the X axis selection settles on, by priority —
/// or nothing, when a requested name is missing or the first column of an
/// empty table is requested.
pub open spec fn selected_x(t: Table, cli: Cli) -> Option<(Seq<char>, ColView)> {
    let tv = t.tview();
    match cli.index {
        Some(ix) => if named_idx(tv, ix@) >= 0 {
            Some((ix@, tv[named_idx(tv, ix@)].1))
        } else {
            None
        },
        None => if cli.use_first_column {
            if tv.len() > 0 {
                Some((tv[0].0, tv[0].1))
            } else {
                None
            }
        } else if named_idx(tv, "sample_index"@) >= 0 {
            Some(("sample_index"@, tv[named_idx(tv, "sample_index"@)].1))
        } else if dt_idx(tv) >= 0 {
            Some((tv[dt_idx(tv)].0, tv[dt_idx(tv)].1))
        } else {
            Some(("row_index"@, row_index_view(t.spec_height())))
        },
    }
}

/// Every requested column name resolves.
pub open spec fn all_named_found(tv: Seq<(Seq<char>, ColView)>, list: Seq<String>) -> bool {
    forall|k: int| 0 <= k < list.len() ==> named_idx(tv, (#[trigger] list[k])@) >= 0
}

/// The requested columns, each by its first bearer, in request order.
pub open spec fn resolved_columns(tv: Seq<(Seq<char>, ColView)>, list: Seq<String>) -> Seq<
    (Seq<char>, ColView),
> {
    Seq::new(list.len(), |k: int| tv[named_idx(tv, list[k]@)])
}

/// Which column views the Y selection settles on — or nothing, when a
/// requested name is missing.
pub open spec fn selected_ys(t: Table, cli: Cli, x_name: Seq<char>) -> Option<
    Seq<(Seq<char>, ColView)>,
> {
    match cli.columns {
        Some(list) => if all_named_found(t.tview(), list@) {
            Some(resolved_columns(t.tview(), list@))
        } else {
            None
        },
        None => Some(y_filtered(t.tview(), x_name, cli.special_marker@)),
    }
}

/// Whether a column is plotted by default: not the X column, and either
/// numeric or a text column holding the marker somewhere.
pub open spec fn y_included(nc: (Seq<char>, ColView), x_name: Seq<char>, marker: Seq<char>) -> bool {
    nc.0 != x_name && (nc.1.is_numeric() || (nc.1 matches ColView::Str(c) && has_marker_cell(
        c,
        marker,
    )))
}

/// The default Y selection, in table order.
pub open spec fn y_filtered(
    tv: Seq<(Seq<char>, ColView)>,
    x_name: Seq<char>,
    marker: Seq<char>,
) -> Seq<(Seq<char>, ColView)> {
    tv.filter(|nc: (Seq<char>, ColView)| y_included(nc, x_name, marker))
}

proof fn lemma_filter_singleton(x: (Seq<char>, ColView), pred: spec_fn((Seq<char>, ColView)) -> bool)
    ensures
        seq![x].filter(pred) == if pred(x) {
            seq![x]
        } else {
            Seq::<(Seq<char>, ColView)>::empty()
        },
{
    reveal(Seq::filter);
    let s = seq![x];
    assert(s.drop_last() =~= Seq::<(Seq<char>, ColView)>::empty());
    assert(Seq::<(Seq<char>, ColView)>::empty().filter(pred) =~= Seq::<(
        Seq<char>,
        ColView,
    )>::empty());
    if pred(x) {
        assert(s.filter(pred) =~= s.drop_last().filter(pred).push(x));
        assert(s.filter(pred) =~= seq![x]);
    }
}

/// Does a text column hold the marker anywhere (after trimming)?
pub fn check_string_series_for_marker(data: &ColumnData, marker: &String) -> (r: bool)
    ensures
        r == (data.dview() matches ColView::Str(c) && has_marker_cell(c, marker@)),
{
    match data {
        ColumnData::Str(cells) => {
            let (has_marker, _, _) = crate::coerce::scan_str_cells(cells, marker);
            has_marker
        },
        _ => false,
    }
}

/// Does a date column have any present cell?
fn i32_cells_have_some(cells: &Vec<Option<i32>>) -> (r: bool)
    ensures
        r == exists|i: int| 0 <= i < cells@.len() && (#[trigger] cells@[i]) is Some,
{
    let n = cells.len();
    let mut i: usize = 0;
    while i < n
        invariant
            0 <= i <= n,
            n == cells@.len(),
            forall|j: int| 0 <= j < i ==> !((#[trigger] cells@[j]) is Some),
        decreases n - i,
    {
        if cells[i].is_some() {
            return true;
        }
        i = i + 1;
    }
    false
}

/// Does an integer-valued column have any present cell?
fn i64_cells_have_some(cells: &Vec<Option<i64>>) -> (r: bool)
    ensures
        r == exists|i: int| 0 <= i < cells@.len() && (#[trigger] cells@[i]) is Some,
{
    let n = cells.len();
    let mut i: usize = 0;
    while i < n
        invariant
            0 <= i <= n,
            n == cells@.len(),
            forall|j: int| 0 <= j < i ==> !((#[trigger] cells@[j]) is Some),
        decreases n - i,
    {
        if cells[i].is_some() {
            return true;
        }
        i = i + 1;
    }
    false
}

fn is_usable_datetime(data: &ColumnData) -> (r: bool)
    ensures
        r == datetime_nonnull(data.dview()),
{
    match data {
        ColumnData::Date(cells) => i32_cells_have_some(cells),
        ColumnData::Datetime(cells) => i64_cells_have_some(cells),
        _ => false,
    }
}

/// Choose the X axis column by priority: the `index` option; the first
/// column under the `use_first_column` flag; a column named `sample_index`;
/// the first date or datetime column that is not entirely missing; else a
/// synthesized `row_index` column of the row numbers.
#[verifier::loop_isolation(false)]
pub fn select_x_series(t: &Table, cli: &Cli) -> (r: Result<(Column, String), AppError>)
    requires
        t.spec_height() <= i64::MAX,
    ensures
        match r {
            Ok(p) => p.0.name@ == p.1@ && selected_x(*t, *cli) == Some((p.1@, p.0.data.dview())),
            Err(e) => selected_x(*t, *cli) is None && match e {
                AppError::ColumnNotFound(n) => cli.index matches Some(ix) && n@ == ix@
                    && !t.has_column(ix@),
                AppError::EmptyData(_) => cli.index is None && cli.use_first_column
                    && t.columns@.len() == 0,
                _ => false,
            },
        },
{
    // Priority 1: the explicit index option.
    if let Some(ix) = &cli.index {
        match t.find_column(ix) {
            Some(j) => {
                let col = clone_column(&t.columns[j]);
                proof {
                    assert(first_named(t.tview(), ix@, j as int));
                    lemma_named_idx_first(t.tview(), ix@, j as int);
                }
                return Ok((col, ix.clone()));
            },
            None => {
                proof {
                    lemma_named_idx_props(t.tview(), ix@);
                    if named_idx(t.tview(), ix@) >= 0 {
                        assert(t.columns@[named_idx(t.tview(), ix@)].name@ == ix@);
                    }
                }
                return Err(AppError::ColumnNotFound(ix.clone()));
            },
        }
    }
    // Priority 2: the first column, on request.
    if cli.use_first_column {
        if t.columns.len() == 0 {
            return Err(AppError::EmptyData("table has no columns".to_owned()));
        }
        let col = clone_column(&t.columns[0]);
        let name = col.name.clone();
        return Ok((col, name));
    }
    // Priority 3: an audio-style sample counter.
    let sample_name = "sample_index".to_owned();
    match t.find_column(&sample_name) {
        Some(j) => {
            let col = clone_column(&t.columns[j]);
            proof {
                assert(first_named(t.tview(), "sample_index"@, j as int));
                lemma_named_idx_first(t.tview(), "sample_index"@, j as int);
            }
            return Ok((col, sample_name));
        },
        None => {
            proof {
                lemma_named_idx_props(t.tview(), "sample_index"@);
                if named_idx(t.tview(), "sample_index"@) >= 0 {
                    assert(t.columns@[named_idx(t.tview(), "sample_index"@)].name@
                        == "sample_index"@);
                }
            }
        },
    }
    // Priority 4: the first usable date or datetime column.
    let w = t.columns.len();
    let mut j: usize = 0;
    while j < w
        invariant
            0 <= j <= w,
            forall|k: int| 0 <= k < j ==> !datetime_nonnull(#[trigger] t.tview()[k].1),
        decreases w - j,
    {
        if is_usable_datetime(&t.columns[j].data) {
            let col = clone_column(&t.columns[j]);
            let name = col.name.clone();
            proof {
                assert(first_datetime(t.tview(), j as int));
                lemma_dt_idx_first(t.tview(), j as int);
            }
            return Ok((col, name));
        }
        j = j + 1;
    }
    // Priority 5: fall back to the row numbers.
    let h = t.height();
    let mut cells: Vec<Option<i64>> = Vec::new();
    let mut i: usize = 0;
    while i < h
        invariant
            0 <= i <= h,
            h == t.spec_height(),
            h <= i64::MAX,
            cells@ =~= Seq::new(i as nat, |k: int| Some(k as i64)),
        decreases h - i,
    {
        cells.push(Some(i as i64));
        i = i + 1;
        proof {
            assert(cells@ =~= Seq::new(i as nat, |k: int| Some(k as i64)));
        }
    }
    proof {
        lemma_dt_idx_none(t.tview());
    }
    let name = "row_index".to_owned();
    let col = Column { name: name.clone(), data: ColumnData::Int(cells) };
    proof {
        assert(col.data.dview() == row_index_view(t.spec_height()));
    }
    Ok((col, name))
}

/// Choose the Y axis columns: the ones the `columns` option names, in its
/// order; or by default every column, other than the X column, that is
/// numeric or is a text column holding the marker. An empty choice is the
/// `NoNumericColumns` failure.
#[verifier::loop_isolation(false)]
pub fn select_y_series(t: &Table, cli: &Cli, x_name: &String) -> (r: Result<Vec<Column>, AppError>)
    ensures
        match r {
            Ok(cols) => {
                &&& cols@.len() > 0
                &&& match cli.columns {
                    Some(list) => {
                        &&& all_named_found(t.tview(), list@)
                        &&& cols_view(cols@) == resolved_columns(t.tview(), list@)
                    },
                    None => cols_view(cols@) == y_filtered(
                        t.tview(),
                        x_name@,
                        cli.special_marker@,
                    ),
                }
            },
            Err(e) => match e {
                AppError::ColumnNotFound(n) => cli.columns matches Some(list)
                    && !all_named_found(t.tview(), list@) && exists|k: int|
                    #![auto]
                    0 <= k < list@.len() && n@ == list@[k]@ && !t.has_column(list@[k]@) && (
                    forall|m: int| 0 <= m < k ==> t.has_column((#[trigger] list@[m])@)),
                AppError::NoNumericColumns => match cli.columns {
                    Some(list) => list@.len() == 0,
                    None => y_filtered(t.tview(), x_name@, cli.special_marker@).len() == 0,
                },
                _ => false,
            },
        },
{
    let mut out: Vec<Column> = Vec::new();
    if let Some(list) = &cli.columns {
        let n = list.len();
        let mut k: usize = 0;
        while k < n
            invariant
                0 <= k <= n,
                n == list@.len(),
                out@.len() == k,
                forall|m: int|
                    0 <= m < k ==> 0 <= named_idx(t.tview(), (#[trigger] list@[m])@)
                        < t.tview().len(),
                forall|m: int|
                    0 <= m < k ==> cols_view(out@)[m] == t.tview()[named_idx(
                        t.tview(),
                        (#[trigger] list@[m])@,
                    )],
            decreases n - k,
        {
            match t.find_column(&list[k]) {
                Some(j) => {
                    let col = clone_column(&t.columns[j]);
                    proof {
                        lemma_named_idx_first(t.tview(), list@[k as int]@, j as int);
                    }
                    let ghost out_before = out@;
                    out.push(col);
                    proof {
                        assert(out@ == out_before.push(col));
                        assert(cols_view(out@)[k as int] == t.tview()[j as int]);
                        assert forall|m: int| 0 <= m < k implies cols_view(out@)[m] == t.tview()[named_idx(
                            t.tview(),
                            list@[m]@,
                        )] by {
                            assert(out@[m] == out_before[m]);
                            assert(cols_view(out@)[m] == cols_view(out_before)[m]);
                        }
                    }
                },
                None => {
                    proof {
                        lemma_named_idx_props(t.tview(), list@[k as int]@);
                        if named_idx(t.tview(), list@[k as int]@) >= 0 {
                            assert(t.columns@[named_idx(t.tview(), list@[k as int]@)].name@
                                == list@[k as int]@);
                        }
                        assert(named_idx(t.tview(), list@[k as int]@) < 0);
                        assert(!all_named_found(t.tview(), list@));
                        // Every earlier requested name resolved, so this is
                        // the first missing one.
                        assert forall|m: int|
                            0 <= m < k implies t.has_column((#[trigger] list@[m])@) by {
                            lemma_named_idx_props(t.tview(), list@[m]@);
                            let idx = named_idx(t.tview(), list@[m]@);
                            assert(t.columns@[idx].name@ == list@[m]@);
                        }
                    }
                    return Err(AppError::ColumnNotFound(list[k].clone()));
                },
            }
            k = k + 1;
        }
        if out.len() == 0 {
            return Err(AppError::NoNumericColumns);
        }
        return Ok(out);
    }
    // Default: every numeric column, and every text column with the marker,
    // except the X column itself.
    let ghost pred = |nc: (Seq<char>, ColView)| y_included(nc, x_name@, cli.special_marker@);
    let w = t.columns.len();
    let mut j: usize = 0;
    proof {
        reveal(Seq::filter);
        assert(t.tview().subrange(0, 0) =~= Seq::<(Seq<char>, ColView)>::empty());
        assert(Seq::<(Seq<char>, ColView)>::empty().filter(pred) =~= Seq::<(
            Seq<char>,
            ColView,
        )>::empty());
        assert(cols_view(out@) =~= Seq::<(Seq<char>, ColView)>::empty());
    }
    while j < w
        invariant
            0 <= j <= w,
            w == t.columns@.len(),
            cols_view(out@) =~= t.tview().subrange(0, j as int).filter(pred),
        decreases w - j,
    {
        let col = &t.columns[j];
        let ghost nc = (col.name@, col.data.dview());
        proof {
            assert(t.tview()[j as int] == nc);
            assert(t.tview().subrange(0, j + 1) =~= t.tview().subrange(0, j as int) + seq![nc]);
            Seq::filter_distributes_over_add(
                t.tview().subrange(0, j as int),
                seq![nc],
                pred,
            );
            lemma_filter_singleton(nc, pred);
        }
        let keep: bool = if col.name == *x_name {
            false
        } else {
            let is_num = col.data.is_numeric();
            if is_num {
                true
            } else {
                check_string_series_for_marker(&col.data, &cli.special_marker)
            }
        };
        proof {
            assert(keep == pred(nc));
        }
        if keep {
            out.push(clone_column(col));
            proof {
                assert(cols_view(out@) =~= t.tview().subrange(0, j + 1).filter(pred));
            }
        }
        j = j + 1;
    }
    proof {
        assert(t.tview().subrange(0, w as int) == t.tview());
    }
    if out.len() == 0 {
        return Err(AppError::NoNumericColumns);
    }
    Ok(out)
}

/// Law: every column the default Y selection keeps is eligible — not the X
/// column, and numeric or a text column with the marker.
pub proof fn lemma_y_selection_sound(
    tv: Seq<(Seq<char>, ColView)>,
    x_name: Seq<char>,
    marker: Seq<char>,
    i: int,
)
    requires
        0 <= i < y_filtered(tv, x_name, marker).len(),
    ensures
        y_included(y_filtered(tv, x_name, marker)[i], x_name, marker),
{
    tv.lemma_filter_pred(|nc: (Seq<char>, ColView)| y_included(nc, x_name, marker), i);
}

/// Law: every eligible column is kept by the default Y selection.
pub proof fn lemma_y_selection_complete(
    tv: Seq<(Seq<char>, ColView)>,
    x_name: Seq<char>,
    marker: Seq<char>,
    j: int,
)
    requires
        0 <= j < tv.len(),
        y_included(tv[j], x_name, marker),
    ensures
        y_filtered(tv, x_name, marker).contains(tv[j]),
{
    tv.lemma_filter_contains(|nc: (Seq<char>, ColView)| y_included(nc, x_name, marker), j);
}

/// Law: an explicitly requested X column wins over every other priority, and
/// a requested name that no column bears is a failure, never a fallback.
pub proof fn lemma_index_flag_wins(t: Table, cli: Cli, ix: String)
    requires
        cli.index == Some(ix),
    ensures
        t.has_column(ix@) ==> (selected_x(t, cli) matches Some(xc) && xc.0 == ix@),
        !t.has_column(ix@) ==> selected_x(t, cli) is None,
{
    lemma_named_idx_props(t.tview(), ix@);
    if t.has_column(ix@) {
        let w = choose|i: int| 0 <= i < t.columns@.len() && t.columns@[i].name@ == ix@;
        assert(t.tview()[w].0 == ix@);
        if named_idx(t.tview(), ix@) < 0 {
            assert(t.tview()[w].0 != ix@);
        }
    }
}

} // verus!
