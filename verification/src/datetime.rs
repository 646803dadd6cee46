//! Datetime coercion: a string column is cast to milliseconds since the Unix
//! epoch when at least nine tenths of its present values parse — first by a
//! generic RFC 3339 cast, then by a heuristic search over generated
//! date/time format patterns. Parsing single values is chrono's; the
//! candidate patterns, the whitespace normalization and the acceptance
//! threshold are this library's own logic.
use vstd::prelude::*;

use crate::table::{ColView, Column, ColumnData, Table, cols_view};
use crate::text::{chars_string, char_is_ws, is_ws, str_chars, trim_chars, trim_spec};
use crate::coerce::{clone_column, lemma_len_dview};

verus! {

/// What chrono's RFC 3339 parser turns a string into, as epoch milliseconds.
pub uninterp spec fn rfc3339_ms(s: Seq<char>) -> Option<i64>;

/// What chrono's `NaiveDateTime::parse_from_str` turns a string into under a
/// format, as epoch milliseconds.
pub uninterp spec fn datetime_fmt_ms(s: Seq<char>, fmt: Seq<char>) -> Option<i64>;

/// What chrono's `NaiveDate::parse_from_str` turns a string into under a
/// format, as the epoch milliseconds of that day's midnight.
pub uninterp spec fn date_fmt_ms(s: Seq<char>, fmt: Seq<char>) -> Option<i64>;

/// Relies on chrono's DateTime::parse_from_rfc3339 and timestamp_millis: the
/// result depends on the string alone.
#[verifier::external_body]
fn parse_rfc3339_exec(s: &str) -> (r: Option<i64>)
    ensures
        r == rfc3339_ms(s@),
{
    match chrono::DateTime::parse_from_rfc3339(s) {
        Ok(dt) => Some(dt.timestamp_millis()),
        Err(_) => None,
    }
}

/// Relies on chrono's NaiveDateTime::parse_from_str and timestamp_millis:
/// the result depends on the string and the format alone.
#[verifier::external_body]
fn parse_datetime_fmt_exec(s: &str, fmt: &str) -> (r: Option<i64>)
    ensures
        r == datetime_fmt_ms(s@, fmt@),
{
    match chrono::NaiveDateTime::parse_from_str(s, fmt) {
        Ok(dt) => Some(dt.and_utc().timestamp_millis()),
        Err(_) => None,
    }
}

/// Relies on chrono's NaiveDate::parse_from_str, and_hms_opt and
/// timestamp_millis: the result depends on the string and the format alone.
#[verifier::external_body]
fn parse_date_fmt_exec(s: &str, fmt: &str) -> (r: Option<i64>)
    ensures
        r == date_fmt_ms(s@, fmt@),
{
    match chrono::NaiveDate::parse_from_str(s, fmt) {
        Ok(d) => match d.and_hms_opt(0, 0, 0) {
            Some(dt) => Some(dt.and_utc().timestamp_millis()),
            None => None,
        },
        Err(_) => None,
    }
}

/// How many cells of a column are present.
pub open spec fn count_some<T>(s: Seq<Option<T>>) -> int
    decreases s.len(),
{
    if s.len() == 0 {
        0
    } else {
        (if s[0] is Some {
            1int
        } else {
            0int
        }) + count_some(s.skip(1))
    }
}

pub proof fn lemma_count_some_bounds<T>(s: Seq<Option<T>>)
    ensures
        0 <= count_some(s) <= s.len(),
    decreases s.len(),
{
    if s.len() > 0 {
        lemma_count_some_bounds(s.skip(1));
    }
}

pub proof fn lemma_count_some_push<T>(s: Seq<Option<T>>, x: Option<T>)
    ensures
        count_some(s.push(x)) == count_some(s) + if x is Some {
            1int
        } else {
            0int
        },
    decreases s.len(),
{
    let p = s.push(x);
    assert(p.len() == s.len() + 1);
    if s.len() == 0 {
        assert(p[0] == x);
        assert(p.skip(1) =~= Seq::<Option<T>>::empty());
        assert(count_some(p.skip(1)) == 0);
        assert(count_some(p) == (if p[0] is Some {
            1int
        } else {
            0int
        }) + count_some(p.skip(1)));
        assert(count_some(s) == 0);
    } else {
        assert(p[0] == s[0]);
        assert(p.skip(1) =~= s.skip(1).push(x));
        lemma_count_some_push(s.skip(1), x);
        assert(count_some(p) == (if p[0] is Some {
            1int
        } else {
            0int
        }) + count_some(p.skip(1)));
        assert(count_some(s) == (if s[0] is Some {
            1int
        } else {
            0int
        }) + count_some(s.skip(1)));
    }
}

/// Collapse whitespace runs to single spaces; `prev_ws` says whether a run is
/// already open.
pub open spec fn collapse_from(s: Seq<char>, prev_ws: bool) -> Seq<char>
    decreases s.len(),
{
    if s.len() == 0 {
        seq![]
    } else if is_ws(s[0]) {
        if prev_ws {
            collapse_from(s.skip(1), true)
        } else {
            seq![' '] + collapse_from(s.skip(1), true)
        }
    } else {
        seq![s[0]] + collapse_from(s.skip(1), false)
    }
}

/// Trim, then collapse each interior whitespace run to one space.
pub open spec fn normalize_spec(s: Seq<char>) -> Seq<char> {
    collapse_from(trim_spec(s), false)
}

/// Normalize whitespace in a value before format matching.
pub fn normalize_chars(v: &Vec<char>) -> (r: Vec<char>)
    ensures
        r@ == normalize_spec(v@),
{
    let t = trim_chars(v);
    let n = t.len();
    let mut out: Vec<char> = Vec::new();
    let mut prev_ws = false;
    let mut i: usize = 0;
    proof {
        assert(t@.skip(0) == t@);
    }
    while i < n
        invariant
            0 <= i <= n,
            n == t@.len(),
            collapse_from(t@, false) == out@ + collapse_from(t@.skip(i as int), prev_ws),
        decreases n - i,
    {
        proof {
            assert(t@.skip(i as int)[0] == t@[i as int]);
            assert(t@.skip(i as int).skip(1) =~= t@.skip(i + 1));
        }
        if char_is_ws(t[i]) {
            if !prev_ws {
                out.push(' ');
            }
            prev_ws = true;
        } else {
            out.push(t[i]);
            prev_ws = false;
        }
        i = i + 1;
    }
    proof {
        assert(collapse_from(t@.skip(n as int), prev_ws) =~= Seq::<char>::empty());
        assert(out@ =~= collapse_from(t@, false));
    }
    out
}

/// Does a format mention an hour field (`%H`)?
pub open spec fn has_time_marker(f: Seq<char>) -> bool {
    exists|i: int| 0 <= i < f.len() - 1 && (#[trigger] f[i]) == '%' && f[i + 1] == 'H'
}

fn contains_time(f: &Vec<char>) -> (r: bool)
    ensures
        r == has_time_marker(f@),
{
    let n = f.len();
    if n < 2 {
        return false;
    }
    let mut i: usize = 0;
    while i < n - 1
        invariant
            0 <= i <= n - 1,
            n == f@.len(),
            n >= 2,
            forall|j: int| 0 <= j < i ==> !((#[trigger] f@[j]) == '%' && f@[j + 1] == 'H'),
        decreases n - i,
    {
        if f[i] == '%' && f[i + 1] == 'H' {
            return true;
        }
        i = i + 1;
    }
    false
}

/// Parsing one value with one format: a format with a time of day parses a
/// datetime, one without parses a date at midnight.
pub open spec fn parse_with_fmt(s: Seq<char>, f: Seq<char>) -> Option<i64> {
    if has_time_marker(f) {
        datetime_fmt_ms(s, f)
    } else {
        date_fmt_ms(s, f)
    }
}

/// The first format in the list under which the value parses.
pub open spec fn try_parse_many_spec(s: Seq<char>, fmts: Seq<Seq<char>>) -> Option<i64>
    decreases fmts.len(),
{
    if fmts.len() == 0 {
        None
    } else if parse_with_fmt(s, fmts[0]) is Some {
        parse_with_fmt(s, fmts[0])
    } else {
        try_parse_many_spec(s, fmts.skip(1))
    }
}

/// Try every format in order; the first hit wins.
pub fn try_parse_many(s: &String, fmts: &Vec<String>) -> (r: Option<i64>)
    ensures
        r == try_parse_many_spec(s@, fmts.deep_view()),
{
    let ghost dv = fmts.deep_view();
    let n = fmts.len();
    let mut i: usize = 0;
    proof {
        assert(dv.skip(0) == dv);
    }
    while i < n
        invariant
            0 <= i <= n,
            n == fmts@.len(),
            dv == fmts.deep_view(),
            try_parse_many_spec(s@, dv) == try_parse_many_spec(s@, dv.skip(i as int)),
        decreases n - i,
    {
        proof {
            assert(dv[i as int] == fmts@[i as int]@);
            assert(dv.skip(i as int)[0] == dv[i as int]);
            assert(dv.skip(i as int).skip(1) =~= dv.skip(i + 1));
        }
        let f = &fmts[i];
        let fc = str_chars(f.as_str());
        let r: Option<i64> = if contains_time(&fc) {
            parse_datetime_fmt_exec(s.as_str(), f.as_str())
        } else {
            parse_date_fmt_exec(s.as_str(), f.as_str())
        };
        proof {
            assert(r == parse_with_fmt(s@, dv[i as int]));
        }
        if r.is_some() {
            return r;
        }
        i = i + 1;
    }
    proof {
        assert(dv.skip(n as int) =~= Seq::<Seq<char>>::empty());
    }
    None
}

// --- The candidate format list ---
pub open spec fn fmt_ymd(sep: char) -> Seq<char> {
    seq!['%', 'Y', sep, '%', 'm', sep, '%', 'd']
}

pub open spec fn fmt_dmy(sep: char) -> Seq<char> {
    seq!['%', 'd', sep, '%', 'm', sep, '%', 'Y']
}

pub open spec fn t_h() -> Seq<char> {
    seq!['%', 'H']
}

pub open spec fn t_hm() -> Seq<char> {
    seq!['%', 'H', ':', '%', 'M']
}

pub open spec fn t_hms() -> Seq<char> {
    seq!['%', 'H', ':', '%', 'M', ':', '%', 'S']
}

/// A date pattern joined to a time-of-day pattern.
pub open spec fn with_time(d: Seq<char>, j: char, t: Seq<char>) -> Seq<char> {
    d + seq![j] + t
}

/// The fourteen patterns generated for one date separator: the two date
/// orders alone, then each crossed with `T` or space and three time shapes.
pub open spec fn formats_for_sep(sep: char) -> Seq<Seq<char>> {
    seq![
        fmt_ymd(sep),
        fmt_dmy(sep),
        with_time(fmt_ymd(sep), 'T', t_h()),
        with_time(fmt_dmy(sep), 'T', t_h()),
        with_time(fmt_ymd(sep), 'T', t_hm()),
        with_time(fmt_dmy(sep), 'T', t_hm()),
        with_time(fmt_ymd(sep), 'T', t_hms()),
        with_time(fmt_dmy(sep), 'T', t_hms()),
        with_time(fmt_ymd(sep), ' ', t_h()),
        with_time(fmt_dmy(sep), ' ', t_h()),
        with_time(fmt_ymd(sep), ' ', t_hm()),
        with_time(fmt_dmy(sep), ' ', t_hm()),
        with_time(fmt_ymd(sep), ' ', t_hms()),
        with_time(fmt_dmy(sep), ' ', t_hms()),
    ]
}

/// Every candidate pattern, over the four date separators.
pub open spec fn candidate_formats() -> Seq<Seq<char>> {
    formats_for_sep('-') + formats_for_sep('/') + formats_for_sep('.') + formats_for_sep(' ')
}

/// Push one format string, tracked through the deep view.
fn push_string(res: &mut Vec<String>, s: String)
    ensures
        final(res).deep_view() == old(res).deep_view().push(s@),
{
    let ghost p = s@;
    let ghost before = res.deep_view();
    res.push(s);
    proof {
        assert(res@.last().deep_view() == p);
        assert forall|k: int| 0 <= k < before.len() implies res.deep_view()[k] == before[k] by {
            assert(res@[k] == old(res)@[k]);
        }
        assert(res.deep_view() =~= before.push(p));
    }
}

/// `d`, the joiner, then `t`.
fn cat_fmt(d: &Vec<char>, j: char, t: &Vec<char>) -> (r: Vec<char>)
    ensures
        r@ == with_time(d@, j, t@),
{
    let mut r: Vec<char> = Vec::new();
    let mut i: usize = 0;
    while i < d.len()
        invariant
            0 <= i <= d@.len(),
            r@ == d@.subrange(0, i as int),
        decreases d@.len() - i,
    {
        r.push(d[i]);
        i = i + 1;
        proof {
            assert(r@ =~= d@.subrange(0, i as int));
        }
    }
    proof {
        assert(d@.subrange(0, d@.len() as int) == d@);
    }
    r.push(j);
    let mut k: usize = 0;
    while k < t.len()
        invariant
            0 <= k <= t@.len(),
            r@ == d@ + seq![j] + t@.subrange(0, k as int),
        decreases t@.len() - k,
    {
        r.push(t[k]);
        k = k + 1;
        proof {
            assert(r@ =~= d@ + seq![j] + t@.subrange(0, k as int));
        }
    }
    proof {
        assert(t@.subrange(0, t@.len() as int) == t@);
    }
    r
}

fn formats_for_sep_exec(sep: char) -> (r: Vec<String>)
    ensures
        r.deep_view() == formats_for_sep(sep),
{
    let ymd: Vec<char> = vec!['%', 'Y', sep, '%', 'm', sep, '%', 'd'];
    let dmy: Vec<char> = vec!['%', 'd', sep, '%', 'm', sep, '%', 'Y'];
    let th: Vec<char> = vec!['%', 'H'];
    let thm: Vec<char> = vec!['%', 'H', ':', '%', 'M'];
    let thms: Vec<char> = vec!['%', 'H', ':', '%', 'M', ':', '%', 'S'];
    proof {
        assert(ymd@ =~= fmt_ymd(sep));
        assert(dmy@ =~= fmt_dmy(sep));
        assert(th@ =~= t_h());
        assert(thm@ =~= t_hm());
        assert(thms@ =~= t_hms());
    }
    let mut r: Vec<String> = Vec::new();
    push_string(&mut r, chars_string(&ymd));
    push_string(&mut r, chars_string(&dmy));
    push_string(&mut r, chars_string(&cat_fmt(&ymd, 'T', &th)));
    push_string(&mut r, chars_string(&cat_fmt(&dmy, 'T', &th)));
    push_string(&mut r, chars_string(&cat_fmt(&ymd, 'T', &thm)));
    push_string(&mut r, chars_string(&cat_fmt(&dmy, 'T', &thm)));
    push_string(&mut r, chars_string(&cat_fmt(&ymd, 'T', &thms)));
    push_string(&mut r, chars_string(&cat_fmt(&dmy, 'T', &thms)));
    push_string(&mut r, chars_string(&cat_fmt(&ymd, ' ', &th)));
    push_string(&mut r, chars_string(&cat_fmt(&dmy, ' ', &th)));
    push_string(&mut r, chars_string(&cat_fmt(&ymd, ' ', &thm)));
    push_string(&mut r, chars_string(&cat_fmt(&dmy, ' ', &thm)));
    push_string(&mut r, chars_string(&cat_fmt(&ymd, ' ', &thms)));
    push_string(&mut r, chars_string(&cat_fmt(&dmy, ' ', &thms)));
    proof {
        assert(r.deep_view() =~= formats_for_sep(sep));
    }
    r
}

/// Build the whole candidate pattern list.
pub fn generate_formats() -> (r: Vec<String>)
    ensures
        r.deep_view() == candidate_formats(),
{
    let mut r = formats_for_sep_exec('-');
    let ghost d1 = r.deep_view();
    let mut b = formats_for_sep_exec('/');
    let ghost d2 = b.deep_view();
    append_strings(&mut r, b);
    let c = formats_for_sep_exec('.');
    let ghost d3 = c.deep_view();
    append_strings(&mut r, c);
    let d = formats_for_sep_exec(' ');
    let ghost d4 = d.deep_view();
    append_strings(&mut r, d);
    proof {
        assert(r.deep_view() =~= candidate_formats());
    }
    r
}

/// Append format strings, tracked through the deep view.
fn append_strings(res: &mut Vec<String>, more: Vec<String>)
    ensures
        final(res).deep_view() == old(res).deep_view() + more.deep_view(),
{
    let ghost madd = more.deep_view();
    let n = more.len();
    let mut more = more;
    let mut i: usize = 0;
    while i < n
        invariant
            0 <= i <= n,
            n == more@.len(),
            more.deep_view() == madd,
            res.deep_view() =~= old(res).deep_view() + madd.subrange(0, i as int),
        decreases n - i,
    {
        proof {
            assert(more@[i as int].deep_view() == madd[i as int]);
        }
        let s = more[i].clone();
        push_string(res, s);
        i = i + 1;
        proof {
            assert(res.deep_view() =~= old(res).deep_view() + madd.subrange(0, i as int));
        }
    }
    proof {
        assert(madd.subrange(0, n as int) == madd);
    }
}

// --- Column passes ---
/// The generic pass: each present value through the RFC 3339 parser.
pub open spec fn rfc_parsed_cells(c: Seq<Option<Seq<char>>>) -> Seq<Option<i64>> {
    Seq::new(
        c.len(),
        |i: int|
            match c[i] {
                Some(s) => rfc3339_ms(s),
                None => None,
            },
    )
}

/// The heuristic pass: each present value normalized, then through the
/// candidate patterns.
pub open spec fn heuristic_parsed_cells(c: Seq<Option<Seq<char>>>) -> Seq<Option<i64>> {
    Seq::new(
        c.len(),
        |i: int|
            match c[i] {
                Some(s) => try_parse_many_spec(normalize_spec(s), candidate_formats()),
                None => None,
            },
    )
}

/// A column is accepted when it has present values and at least nine tenths
/// of them parsed.
pub open spec fn accepts(parsed: Seq<Option<i64>>, c: Seq<Option<Seq<char>>>) -> bool {
    count_some(c) > 0 && 10 * count_some(parsed) >= 9 * count_some(c)
}

/// What datetime coercion does to one named column.
pub open spec fn datetime_coerce_view(nc: (Seq<char>, ColView)) -> (Seq<char>, ColView) {
    match nc.1 {
        ColView::Str(c) => {
            if accepts(rfc_parsed_cells(c), c) {
                (nc.0, ColView::Datetime(rfc_parsed_cells(c)))
            } else if accepts(heuristic_parsed_cells(c), c) {
                (nc.0, ColView::Datetime(heuristic_parsed_cells(c)))
            } else {
                nc
            }
        },
        _ => nc,
    }
}

/// Run the RFC 3339 pass over a column; also count parsed and present cells.
fn rfc_pass(cells: &Vec<Option<String>>) -> (r: (Vec<Option<i64>>, usize, usize))
    ensures
        r.0@ == rfc_parsed_cells(cells.deep_view()),
        r.1 == count_some(rfc_parsed_cells(cells.deep_view())),
        r.2 == count_some(cells.deep_view()),
{
    let ghost dv = cells.deep_view();
    let n = cells.len();
    let mut out: Vec<Option<i64>> = Vec::new();
    let mut parsed: usize = 0;
    let mut present: usize = 0;
    let mut i: usize = 0;
    while i < n
        invariant
            0 <= i <= n,
            n == cells@.len(),
            dv == cells.deep_view(),
            out@ =~= rfc_parsed_cells(dv).subrange(0, i as int),
            parsed == count_some(out@),
            present == count_some(dv.subrange(0, i as int)),
            parsed <= i,
            present <= i,
        decreases n - i,
    {
        proof {
            assert(dv[i as int] == match cells@[i as int] {
                Some(s) => Some(s@),
                None => None::<Seq<char>>,
            });
        }
        let val: Option<i64> = match &cells[i] {
            Some(s) => parse_rfc3339_exec(s.as_str()),
            None => None,
        };
        proof {
            lemma_count_some_push(out@, val);
            lemma_count_some_push(dv.subrange(0, i as int), dv[i as int]);
            assert(dv.subrange(0, i as int).push(dv[i as int]) =~= dv.subrange(0, i + 1));
        }
        if val.is_some() {
            parsed = parsed + 1;
        }
        match &cells[i] {
            Some(_) => {
                present = present + 1;
            },
            None => {},
        }
        out.push(val);
        i = i + 1;
        proof {
            assert(out@ =~= rfc_parsed_cells(dv).subrange(0, i as int));
        }
    }
    proof {
        assert(rfc_parsed_cells(dv).subrange(0, n as int) == rfc_parsed_cells(dv));
        assert(dv.subrange(0, n as int) == dv);
    }
    (out, parsed, present)
}

/// Run the heuristic pass over a column; also count parsed cells.
fn heuristic_pass(cells: &Vec<Option<String>>, fmts: &Vec<String>) -> (r: (Vec<Option<i64>>, usize))
    requires
        fmts.deep_view() == candidate_formats(),
    ensures
        r.0@ == heuristic_parsed_cells(cells.deep_view()),
        r.1 == count_some(heuristic_parsed_cells(cells.deep_view())),
{
    let ghost dv = cells.deep_view();
    let n = cells.len();
    let mut out: Vec<Option<i64>> = Vec::new();
    let mut parsed: usize = 0;
    let mut i: usize = 0;
    while i < n
        invariant
            0 <= i <= n,
            n == cells@.len(),
            dv == cells.deep_view(),
            fmts.deep_view() == candidate_formats(),
            out@ =~= heuristic_parsed_cells(dv).subrange(0, i as int),
            parsed == count_some(out@),
            parsed <= i,
        decreases n - i,
    {
        proof {
            assert(dv[i as int] == match cells@[i as int] {
                Some(s) => Some(s@),
                None => None::<Seq<char>>,
            });
        }
        let val: Option<i64> = match &cells[i] {
            Some(s) => {
                let sc = str_chars(s.as_str());
                let norm = normalize_chars(&sc);
                let ns = chars_string(&norm);
                try_parse_many(&ns, fmts)
            },
            None => None,
        };
        proof {
            lemma_count_some_push(out@, val);
        }
        if val.is_some() {
            parsed = parsed + 1;
        }
        out.push(val);
        i = i + 1;
        proof {
            assert(out@ =~= heuristic_parsed_cells(dv).subrange(0, i as int));
        }
    }
    proof {
        assert(heuristic_parsed_cells(dv).subrange(0, n as int) == heuristic_parsed_cells(dv));
    }
    (out, parsed)
}

/// Cast every string column at least nine tenths of whose present values
/// parse as a datetime — generically first, by the heuristic patterns
/// second — to epoch milliseconds; leave the others as they stand.
#[verifier::loop_isolation(false)]
pub fn coerce_datetime(t: &mut Table)
    ensures
        final(t).tview() == old(t).tview().map_values(
            |nc: (Seq<char>, ColView)| datetime_coerce_view(nc),
        ),
        final(t).columns@.len() == old(t).columns@.len(),
        old(t).wf() ==> final(t).wf(),
{
    let ghost target = old(t).tview().map_values(
        |nc: (Seq<char>, ColView)| datetime_coerce_view(nc),
    );
    let fmts = generate_formats();
    let w = t.columns.len();
    let mut new_cols: Vec<Column> = Vec::new();
    let mut j: usize = 0;
    while j < w
        invariant
            0 <= j <= w,
            new_cols@.len() == j,
            fmts.deep_view() == candidate_formats(),
            cols_view(new_cols@) =~= target.subrange(0, j as int),
        decreases w - j,
    {
        let col = &t.columns[j];
        let new_col: Column = match &col.data {
            ColumnData::Str(cells) => {
                let (parsed1, cnt1, present) = rfc_pass(cells);
                proof {
                    lemma_count_some_bounds(cells.deep_view());
                    lemma_count_some_bounds(rfc_parsed_cells(cells.deep_view()));
                }
                if present > 0 && (cnt1 as u128) * 10 >= (present as u128) * 9 {
                    Column { name: col.name.clone(), data: ColumnData::Datetime(parsed1) }
                } else {
                    let (parsed2, cnt2) = heuristic_pass(cells, &fmts);
                    proof {
                        lemma_count_some_bounds(heuristic_parsed_cells(cells.deep_view()));
                    }
                    if present > 0 && (cnt2 as u128) * 10 >= (present as u128) * 9 {
                        Column { name: col.name.clone(), data: ColumnData::Datetime(parsed2) }
                    } else {
                        clone_column(col)
                    }
                }
            },
            _ => clone_column(col),
        };
        proof {
            assert((new_col.name@, new_col.data.dview()) == datetime_coerce_view(
                (col.name@, col.data.dview()),
            ));
            assert(old(t).tview()[j as int] == (col.name@, col.data.dview()));
        }
        new_cols.push(new_col);
        j = j + 1;
        proof {
            assert(cols_view(new_cols@) =~= target.subrange(0, j as int));
        }
    }
    proof {
        assert(target.subrange(0, w as int) == target);
    }
    t.columns = new_cols;
    proof {
        assert(t.tview() =~= target);
        if old(t).wf() {
            assert forall|a: int| 0 <= a < t.columns@.len() implies (#[trigger] t.columns@[a].data).spec_len()
                == t.spec_height() by {
                lemma_len_dview(&t.columns@[a].data);
                lemma_len_dview(&old(t).columns@[a].data);
                if t.columns@.len() > 0 {
                    lemma_len_dview(&t.columns@[0].data);
                    lemma_len_dview(&old(t).columns@[0].data);
                    assert(t.tview()[a].1.len() == old(t).tview()[a].1.len());
                    assert(t.tview()[0].1.len() == old(t).tview()[0].1.len());
                }
            }
            assert forall|a: int, b: int|
                0 <= a < b < t.columns@.len() implies t.columns@[a].name@
                != t.columns@[b].name@ by {
                assert(t.tview()[a].0 == old(t).tview()[a].0);
                assert(t.tview()[b].0 == old(t).tview()[b].0);
            }
        }
    }
}

/// Law: a string column is cast to a datetime column exactly when at least
/// nine tenths of its present values parse — first judged by the generic
/// cast, then by the heuristic patterns — and is left a string column when
/// neither pass reaches the threshold.
pub proof fn lemma_datetime_threshold(name: Seq<char>, c: Seq<Option<Seq<char>>>)
    ensures
        accepts(rfc_parsed_cells(c), c) ==> datetime_coerce_view((name, ColView::Str(c))) == (
            name,
            ColView::Datetime(rfc_parsed_cells(c)),
        ),
        !accepts(rfc_parsed_cells(c), c) && accepts(heuristic_parsed_cells(c), c)
            ==> datetime_coerce_view((name, ColView::Str(c))) == (
            name,
            ColView::Datetime(heuristic_parsed_cells(c)),
        ),
        !accepts(rfc_parsed_cells(c), c) && !accepts(heuristic_parsed_cells(c), c)
            ==> datetime_coerce_view((name, ColView::Str(c))) == (name, ColView::Str(c)),
{
}

/// The whole coercion pipeline a loaded table goes through: numeric
/// coercion first — so purely numeric text is never taken for dates — then
/// the datetime cast.
pub fn coerce_table(t: &mut Table, marker: &String)
    ensures
        final(t).tview() == old(t).tview().map_values(
            |nc: (Seq<char>, ColView)| crate::coerce::numeric_coerce_view(nc, marker@),
        ).map_values(|nc: (Seq<char>, ColView)| datetime_coerce_view(nc)),
        old(t).wf() ==> final(t).wf(),
{
    crate::coerce::coerce_numeric(t, marker);
    coerce_datetime(t);
}

} // verus!
