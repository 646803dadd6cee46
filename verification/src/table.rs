//! The in-memory table: an ordered collection of named, equally long, typed
//! columns whose cells may be missing. Numeric cells of coerced columns are
//! carried as the literal text that parses to their value, so the table holds
//! only plain data.
use vstd::prelude::*;

verus! {

/// The typed cells of one column.
#[derive(Debug, PartialEq)]
pub enum ColumnData {
    /// Plain text cells.
    Str(Vec<Option<String>>),
    /// Numeric cells, each held as a literal that `f64::from_str` accepts.
    Float(Vec<Option<String>>),
    /// Integer cells.
    Int(Vec<Option<i64>>),
    /// Boolean cells.
    Bool(Vec<Option<bool>>),
    /// Dates as days since the Unix epoch.
    Date(Vec<Option<i32>>),
    /// Instants as milliseconds since the Unix epoch.
    Datetime(Vec<Option<i64>>),
}

#[derive(Debug)]
pub struct Column {
    pub name: String,
    pub data: ColumnData,
}

#[derive(Debug)]
pub struct Table {
    pub columns: Vec<Column>,
}

/// A cell as a mathematical value.
pub enum CellV {
    Null,
    S(Seq<char>),
    N(Seq<char>),
    I(int),
    B(bool),
    D(int),
    T(int),
}

impl ColumnData {
    pub open spec fn spec_len(&self) -> nat {
        match self {
            ColumnData::Str(v) => v@.len(),
            ColumnData::Float(v) => v@.len(),
            ColumnData::Int(v) => v@.len(),
            ColumnData::Bool(v) => v@.len(),
            ColumnData::Date(v) => v@.len(),
            ColumnData::Datetime(v) => v@.len(),
        }
    }

    /// The cell at row `i`.
    pub open spec fn cell(&self, i: int) -> CellV {
        match self {
            ColumnData::Str(v) => match v.deep_view()[i] {
                Some(s) => CellV::S(s),
                None => CellV::Null,
            },
            ColumnData::Float(v) => match v.deep_view()[i] {
                Some(s) => CellV::N(s),
                None => CellV::Null,
            },
            ColumnData::Int(v) => match v@[i] {
                Some(x) => CellV::I(x as int),
                None => CellV::Null,
            },
            ColumnData::Bool(v) => match v@[i] {
                Some(b) => CellV::B(b),
                None => CellV::Null,
            },
            ColumnData::Date(v) => match v@[i] {
                Some(x) => CellV::D(x as int),
                None => CellV::Null,
            },
            ColumnData::Datetime(v) => match v@[i] {
                Some(x) => CellV::T(x as int),
                None => CellV::Null,
            },
        }
    }

    /// The kinds the axis selector counts as numeric.
    pub open spec fn is_numeric_kind(&self) -> bool {
        self is Float || self is Int
    }

    pub open spec fn is_datetime_kind(&self) -> bool {
        self is Date || self is Datetime
    }

    pub fn len(&self) -> (r: usize)
        ensures
            r == self.spec_len(),
    {
        match self {
            ColumnData::Str(v) => v.len(),
            ColumnData::Float(v) => v.len(),
            ColumnData::Int(v) => v.len(),
            ColumnData::Bool(v) => v.len(),
            ColumnData::Date(v) => v.len(),
            ColumnData::Datetime(v) => v.len(),
        }
    }

    pub fn is_numeric(&self) -> (r: bool)
        ensures
            r == self.is_numeric_kind(),
    {
        match self {
            ColumnData::Float(_) => true,
            ColumnData::Int(_) => true,
            _ => false,
        }
    }

    pub fn is_datetime(&self) -> (r: bool)
        ensures
            r == self.is_datetime_kind(),
    {
        match self {
            ColumnData::Date(_) => true,
            ColumnData::Datetime(_) => true,
            _ => false,
        }
    }
}

/// A column's data as a mathematical value.
pub enum ColView {
    Str(Seq<Option<Seq<char>>>),
    Float(Seq<Option<Seq<char>>>),
    Int(Seq<Option<i64>>),
    Bool(Seq<Option<bool>>),
    Date(Seq<Option<i32>>),
    Datetime(Seq<Option<i64>>),
}

impl ColView {
    pub open spec fn len(&self) -> nat {
        match self {
            ColView::Str(c) => c.len(),
            ColView::Float(c) => c.len(),
            ColView::Int(c) => c.len(),
            ColView::Bool(c) => c.len(),
            ColView::Date(c) => c.len(),
            ColView::Datetime(c) => c.len(),
        }
    }

    pub open spec fn is_numeric(&self) -> bool {
        self is Float || self is Int
    }
}

impl ColumnData {
    /// The whole column as a mathematical value.
    pub open spec fn dview(&self) -> ColView {
        match self {
            ColumnData::Str(v) => ColView::Str(v.deep_view()),
            ColumnData::Float(v) => ColView::Float(v.deep_view()),
            ColumnData::Int(v) => ColView::Int(v@),
            ColumnData::Bool(v) => ColView::Bool(v@),
            ColumnData::Date(v) => ColView::Date(v@),
            ColumnData::Datetime(v) => ColView::Datetime(v@),
        }
    }
}

/// A sequence of columns as named column views.
pub open spec fn cols_view(cs: Seq<Column>) -> Seq<(Seq<char>, ColView)> {
    Seq::new(cs.len(), |j: int| (cs[j].name@, cs[j].data.dview()))
}

impl Table {
    /// The whole table as a sequence of named column views.
    pub open spec fn tview(&self) -> Seq<(Seq<char>, ColView)> {
        cols_view(self.columns@)
    }
}

/// The deep view of an optional string.
pub open spec fn opt_view(v: Option<String>) -> Option<Seq<char>> {
    match v {
        Some(s) => Some(s@),
        None => None,
    }
}

/// Push one optional cell, tracked through the deep view.
pub fn push_cell(res: &mut Vec<Option<String>>, v: Option<String>)
    ensures
        final(res).deep_view() == old(res).deep_view().push(opt_view(v)),
        final(res)@.len() == old(res)@.len() + 1,
{
    let ghost p = opt_view(v);
    let ghost before = res.deep_view();
    res.push(v);
    proof {
        assert(res@.last().deep_view() == p);
        assert forall|k: int| 0 <= k < before.len() implies res.deep_view()[k] == before[k] by {
            assert(res@[k] == old(res)@[k]);
        }
        assert(res.deep_view() =~= before.push(p));
    }
}

impl Table {
    /// The shared row count of the columns.
    pub open spec fn spec_height(&self) -> nat {
        if self.columns@.len() == 0 {
            0
        } else {
            self.columns@[0].data.spec_len()
        }
    }

    /// Every column has the shared row count and no two columns share a name.
    pub open spec fn wf(&self) -> bool {
        &&& forall|i: int|
            0 <= i < self.columns@.len() ==> (#[trigger] self.columns@[i].data).spec_len()
                == self.spec_height()
        &&& forall|i: int, j: int|
            0 <= i < j < self.columns@.len() ==> self.columns@[i].name@ != self.columns@[j].name@
    }

    /// Some column bears this name.
    pub open spec fn has_column(&self, name: Seq<char>) -> bool {
        exists|i: int| 0 <= i < self.columns@.len() && self.columns@[i].name@ == name
    }

    pub fn height(&self) -> (r: usize)
        ensures
            r == self.spec_height(),
    {
        if self.columns.len() == 0 {
            0
        } else {
            self.columns[0].data.len()
        }
    }

    pub fn width(&self) -> (r: usize)
        ensures
            r == self.columns@.len(),
    {
        self.columns.len()
    }

    /// The index of the column with this name, if any bears it.
    pub fn find_column(&self, name: &String) -> (r: Option<usize>)
        ensures
            match r {
                Some(i) => 0 <= i < self.columns@.len() && self.columns@[i as int].name@ == name@
                    && forall|k: int|
                    0 <= k < i ==> (#[trigger] self.columns@[k]).name@ != name@,
                None => !self.has_column(name@),
            },
    {
        let n = self.columns.len();
        let mut i: usize = 0;
        while i < n
            invariant
                0 <= i <= n,
                n == self.columns@.len(),
                forall|j: int| 0 <= j < i ==> self.columns@[j].name@ != name@,
            decreases n - i,
        {
            if self.columns[i].name == *name {
                return Some(i);
            }
            i = i + 1;
        }
        None
    }
}

} // verus!
