//! Emitting plot-ready data: every row of a paired X/Y column either becomes
//! an `[x, y]` point, a vertical marker line at its X position, or is
//! skipped. Dates and instants become epoch milliseconds; numeric cells keep
//! their literal text. The axis display kind and the point symbol size are
//! chosen here too; assembling the JSON text and the page happens outside the
//! library.
use vstd::prelude::*;

use crate::table::{CellV, ColumnData};

verus! {

/// A JSON-ready scalar. A `Num` carries the literal text of a number.
#[derive(Debug, PartialEq, Clone)]
pub enum JsonScalar {
    Null,
    Bool(bool),
    Int(i64),
    Num(String),
    Str(String),
}

/// A JSON-ready scalar as a mathematical value.
pub enum JsonV {
    Null,
    Bool(bool),
    Int(int),
    Num(Seq<char>),
    Str(Seq<char>),
}

impl JsonScalar {
    pub open spec fn jview(&self) -> JsonV {
        match self {
            JsonScalar::Null => JsonV::Null,
            JsonScalar::Bool(b) => JsonV::Bool(*b),
            JsonScalar::Int(v) => JsonV::Int(*v as int),
            JsonScalar::Num(s) => JsonV::Num(s@),
            JsonScalar::Str(s) => JsonV::Str(s@),
        }
    }
}

/// A cell as embedded in the page: days and instants become epoch
/// milliseconds, numeric literals stay text, text stays text.
pub open spec fn json_of_cell(c: CellV) -> JsonV {
    match c {
        CellV::Null => JsonV::Null,
        CellV::S(s) => JsonV::Str(s),
        CellV::N(l) => JsonV::Num(l),
        CellV::I(v) => JsonV::Int(v),
        CellV::B(b) => JsonV::Bool(b),
        CellV::D(d) => JsonV::Int(d * 86400000),
        CellV::T(m) => JsonV::Int(m),
    }
}

/// The paired cells of the X and Y columns, row by row.
pub open spec fn rows_of(x: ColumnData, y: ColumnData) -> Seq<(CellV, CellV)> {
    Seq::new(x.spec_len(), |i: int| (x.cell(i), y.cell(i)))
}

/// A row that draws a vertical marker line: X present, Y exactly the marker.
pub open spec fn is_mark_row(rc: (CellV, CellV), marker: Seq<char>) -> bool {
    !(rc.0 is Null) && (rc.1 matches CellV::S(s) && s == marker)
}

/// A row that becomes a point: X and Y present, Y not the marker.
pub open spec fn is_point_row(rc: (CellV, CellV), marker: Seq<char>) -> bool {
    !(rc.0 is Null) && !is_mark_row(rc, marker) && !(rc.1 is Null)
}

/// The emitted `[x, y]` pairs, in row order.
pub open spec fn points_spec(x: ColumnData, y: ColumnData, marker: Seq<char>) -> Seq<
    (JsonV, JsonV),
> {
    rows_of(x, y).filter(|rc: (CellV, CellV)| is_point_row(rc, marker)).map_values(
        |rc: (CellV, CellV)| (json_of_cell(rc.0), json_of_cell(rc.1)),
    )
}

/// The emitted vertical marker positions, in row order.
pub open spec fn marks_spec(x: ColumnData, y: ColumnData, marker: Seq<char>) -> Seq<JsonV> {
    rows_of(x, y).filter(|rc: (CellV, CellV)| is_mark_row(rc, marker)).map_values(
        |rc: (CellV, CellV)| json_of_cell(rc.0),
    )
}

/// The view of an emitted point list.
pub open spec fn pts_view(v: Seq<(JsonScalar, JsonScalar)>) -> Seq<(JsonV, JsonV)> {
    Seq::new(v.len(), |i: int| (v[i].0.jview(), v[i].1.jview()))
}

/// The view of an emitted marker list.
pub open spec fn marks_view(v: Seq<JsonScalar>) -> Seq<JsonV> {
    Seq::new(v.len(), |i: int| v[i].jview())
}

proof fn lemma_filter_singleton_row(
    x: (CellV, CellV),
    pred: spec_fn((CellV, CellV)) -> bool,
)
    ensures
        seq![x].filter(pred) == if pred(x) {
            seq![x]
        } else {
            Seq::<(CellV, CellV)>::empty()
        },
{
    reveal(Seq::filter);
    let s = seq![x];
    assert(s.drop_last() =~= Seq::<(CellV, CellV)>::empty());
    assert(Seq::<(CellV, CellV)>::empty().filter(pred) =~= Seq::<(CellV, CellV)>::empty());
    if pred(x) {
        assert(s.filter(pred) =~= s.drop_last().filter(pred).push(x));
        assert(s.filter(pred) =~= seq![x]);
    }
}

/// Is the cell at row `i` missing?
fn cell_is_null(d: &ColumnData, i: usize) -> (r: bool)
    requires
        i < d.spec_len(),
    ensures
        r == (d.cell(i as int) is Null),
{
    match d {
        ColumnData::Str(v) => {
            proof {
                assert(v.deep_view()[i as int] == match v@[i as int] {
                    Some(s) => Some(s@),
                    None => None::<Seq<char>>,
                });
            }
            v[i].is_none()
        },
        ColumnData::Float(v) => {
            proof {
                assert(v.deep_view()[i as int] == match v@[i as int] {
                    Some(s) => Some(s@),
                    None => None::<Seq<char>>,
                });
            }
            v[i].is_none()
        },
        ColumnData::Int(v) => v[i].is_none(),
        ColumnData::Bool(v) => v[i].is_none(),
        ColumnData::Date(v) => v[i].is_none(),
        ColumnData::Datetime(v) => v[i].is_none(),
    }
}

/// The cell at row `i`, ready for the page.
pub fn cell_to_json(d: &ColumnData, i: usize) -> (r: JsonScalar)
    requires
        i < d.spec_len(),
    ensures
        r.jview() == json_of_cell(d.cell(i as int)),
{
    match d {
        ColumnData::Str(v) => {
            proof {
                assert(v.deep_view()[i as int] == match v@[i as int] {
                    Some(s) => Some(s@),
                    None => None::<Seq<char>>,
                });
            }
            match &v[i] {
                Some(s) => JsonScalar::Str(s.clone()),
                None => JsonScalar::Null,
            }
        },
        ColumnData::Float(v) => {
            proof {
                assert(v.deep_view()[i as int] == match v@[i as int] {
                    Some(s) => Some(s@),
                    None => None::<Seq<char>>,
                });
            }
            match &v[i] {
                Some(s) => JsonScalar::Num(s.clone()),
                None => JsonScalar::Null,
            }
        },
        ColumnData::Int(v) => match v[i] {
            Some(x) => JsonScalar::Int(x),
            None => JsonScalar::Null,
        },
        ColumnData::Bool(v) => match v[i] {
            Some(b) => JsonScalar::Bool(b),
            None => JsonScalar::Null,
        },
        ColumnData::Date(v) => match v[i] {
            Some(days) => JsonScalar::Int((days as i64) * 86400000),
            None => JsonScalar::Null,
        },
        ColumnData::Datetime(v) => match v[i] {
            Some(ms) => JsonScalar::Int(ms),
            None => JsonScalar::Null,
        },
    }
}

/// Is this row a marker row: X present and Y exactly the marker string?
fn row_is_mark(x: &ColumnData, y: &ColumnData, i: usize, marker: &String) -> (r: bool)
    requires
        i < x.spec_len(),
        i < y.spec_len(),
    ensures
        r == is_mark_row((x.cell(i as int), y.cell(i as int)), marker@),
{
    if cell_is_null(x, i) {
        return false;
    }
    match y {
        ColumnData::Str(v) => {
            proof {
                assert(v.deep_view()[i as int] == match v@[i as int] {
                    Some(s) => Some(s@),
                    None => None::<Seq<char>>,
                });
            }
            match &v[i] {
                Some(s) => *s == *marker,
                None => false,
            }
        },
        _ => false,
    }
}

/// Walk the paired rows and emit the `[x, y]` points and the vertical marker
/// positions: a missing X skips the row; a Y equal to the marker yields a
/// marker line at X and no point; a missing Y skips the row; anything else
/// yields a point.
#[verifier::loop_isolation(false)]
pub fn build_series_points(x: &ColumnData, y: &ColumnData, marker: &String) -> (r: (
    Vec<(JsonScalar, JsonScalar)>,
    Vec<JsonScalar>,
))
    requires
        x.spec_len() == y.spec_len(),
    ensures
        pts_view(r.0@) == points_spec(*x, *y, marker@),
        marks_view(r.1@) == marks_spec(*x, *y, marker@),
{
    let ghost rows = rows_of(*x, *y);
    let ghost ppred = |rc: (CellV, CellV)| is_point_row(rc, marker@);
    let ghost mpred = |rc: (CellV, CellV)| is_mark_row(rc, marker@);
    let n = x.len();
    let mut points: Vec<(JsonScalar, JsonScalar)> = Vec::new();
    let mut marks: Vec<JsonScalar> = Vec::new();
    let mut i: usize = 0;
    proof {
        reveal(Seq::filter);
        assert(rows.subrange(0, 0) =~= Seq::<(CellV, CellV)>::empty());
        assert(Seq::<(CellV, CellV)>::empty().filter(ppred) =~= Seq::<(CellV, CellV)>::empty());
        assert(Seq::<(CellV, CellV)>::empty().filter(mpred) =~= Seq::<(CellV, CellV)>::empty());
        assert(pts_view(points@) =~= Seq::<(JsonV, JsonV)>::empty());
        assert(marks_view(marks@) =~= Seq::<JsonV>::empty());
    }
    while i < n
        invariant
            0 <= i <= n,
            n == x.spec_len(),
            pts_view(points@) =~= rows.subrange(0, i as int).filter(ppred).map_values(
                |rc: (CellV, CellV)| (json_of_cell(rc.0), json_of_cell(rc.1)),
            ),
            marks_view(marks@) =~= rows.subrange(0, i as int).filter(mpred).map_values(
                |rc: (CellV, CellV)| json_of_cell(rc.0),
            ),
        decreases n - i,
    {
        let ghost rc = rows[i as int];
        proof {
            assert(rc == (x.cell(i as int), y.cell(i as int)));
            assert(rows.subrange(0, i + 1) =~= rows.subrange(0, i as int) + seq![rc]);
            Seq::filter_distributes_over_add(rows.subrange(0, i as int), seq![rc], ppred);
            Seq::filter_distributes_over_add(rows.subrange(0, i as int), seq![rc], mpred);
            lemma_filter_singleton_row(rc, ppred);
            lemma_filter_singleton_row(rc, mpred);
        }
        if !cell_is_null(x, i) {
            if row_is_mark(x, y, i, marker) {
                let xj = cell_to_json(x, i);
                let ghost marks_before = marks@;
                marks.push(xj);
                proof {
                    assert forall|k: int| 0 <= k < marks_before.len() implies marks@[k]
                        == marks_before[k] by {}
                    assert(marks_view(marks@) =~= marks_view(marks_before).push(
                        json_of_cell(rc.0),
                    ));
                }
            } else if !cell_is_null(y, i) {
                let xj = cell_to_json(x, i);
                let yj = cell_to_json(y, i);
                let ghost points_before = points@;
                points.push((xj, yj));
                proof {
                    assert forall|k: int| 0 <= k < points_before.len() implies points@[k]
                        == points_before[k] by {}
                    assert(pts_view(points@) =~= pts_view(points_before).push(
                        (json_of_cell(rc.0), json_of_cell(rc.1)),
                    ));
                }
            }
        }
        i = i + 1;
        proof {
            assert(pts_view(points@) =~= rows.subrange(0, i as int).filter(ppred).map_values(
                |rc: (CellV, CellV)| (json_of_cell(rc.0), json_of_cell(rc.1)),
            ));
            assert(marks_view(marks@) =~= rows.subrange(0, i as int).filter(mpred).map_values(
                |rc: (CellV, CellV)| json_of_cell(rc.0),
            ));
        }
    }
    proof {
        assert(rows.subrange(0, n as int) == rows);
    }
    (points, marks)
}

/// Law: a row whose Y value is exactly the marker puts a vertical marker
/// line at its X position and contributes no data point.
pub proof fn lemma_marker_row(x: ColumnData, y: ColumnData, marker: Seq<char>, i: int)
    requires
        x.spec_len() == y.spec_len(),
        0 <= i < x.spec_len(),
        !(x.cell(i) is Null),
        y.cell(i) matches CellV::S(s) && s == marker,
    ensures
        marks_spec(x, y, marker).contains(json_of_cell(x.cell(i))),
        !is_point_row(rows_of(x, y)[i], marker),
{
    let rows = rows_of(x, y);
    let mpred = |rc: (CellV, CellV)| is_mark_row(rc, marker);
    assert(mpred(rows[i]));
    rows.lemma_filter_contains(mpred, i);
    let filtered = rows.filter(mpred);
    let k = choose|k: int| 0 <= k < filtered.len() && filtered[k] == rows[i];
    assert(marks_spec(x, y, marker)[k] == json_of_cell(x.cell(i)));
}

/// The symbol size the point count earns: fewer points draw larger dots.
pub open spec fn symbol_size_spec(n: int) -> int {
    if n <= 1000 {
        8
    } else if n <= 10000 {
        5
    } else if n <= 100000 {
        3
    } else {
        2
    }
}

/// Pick the symbol size from the emitted point count.
pub fn symbol_size(n_points: usize) -> (r: u8)
    ensures
        r == symbol_size_spec(n_points as int),
{
    if n_points <= 1000 {
        8
    } else if n_points <= 10000 {
        5
    } else if n_points <= 100000 {
        3
    } else {
        2
    }
}

/// How the chart displays the X axis.
#[derive(PartialEq, Eq, Structural, Debug, Clone, Copy)]
pub enum AxisKind {
    /// Dates and instants draw on a time axis.
    Time,
    /// Text draws on a category axis.
    Category,
    /// Numbers draw on a value axis.
    Value,
}

/// The axis kind a column's data earns.
pub open spec fn axis_kind_spec(d: ColumnData) -> AxisKind {
    if d is Date || d is Datetime {
        AxisKind::Time
    } else if d is Str {
        AxisKind::Category
    } else {
        AxisKind::Value
    }
}

/// Choose the X axis display kind from the X column's data kind.
pub fn x_axis_type(d: &ColumnData) -> (r: AxisKind)
    ensures
        r == axis_kind_spec(*d),
{
    match d {
        ColumnData::Date(_) => AxisKind::Time,
        ColumnData::Datetime(_) => AxisKind::Time,
        ColumnData::Str(_) => AxisKind::Category,
        _ => AxisKind::Value,
    }
}

} // verus!
