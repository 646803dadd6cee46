//! Reducing a large series while keeping its shape: the numeric row pairs are
//! split into `threshold - 2` interior buckets between the fixed first and
//! last points, and one representative survives per bucket. Which point of a
//! bucket forms the largest triangle is a floating-point judgement and is
//! made by the caller; the bucket geometry, the selection bookkeeping and the
//! structural guarantees — length, endpoints, order — are proved here.
use vstd::prelude::*;

use vstd::arithmetic::div_mod::{
    lemma_div_is_ordered, lemma_div_multiples_vanish, lemma_div_pos_is_pos,
    lemma_hoist_over_denominator,
};
use vstd::arithmetic::mul::lemma_mul_inequality;

use crate::numlit::is_float_literal;
use crate::table::{CellV, ColView, ColumnData, push_cell};
use crate::text::{int_str, trim_spec, trim_chars, str_chars, chars_string, i64_to_string};

verus! {

/// A value a chart can treat as a number: an exact integer, or the literal
/// text of a float.
#[derive(Debug, PartialEq, Clone)]
pub enum NumVal {
    Int(i64),
    Lit(String),
}

/// A numeric value as a mathematical object.
pub enum NumV {
    Int(int),
    Lit(Seq<char>),
}

impl NumVal {
    pub open spec fn nview(&self) -> NumV {
        match self {
            NumVal::Int(v) => NumV::Int(*v as int),
            NumVal::Lit(s) => NumV::Lit(s@),
        }
    }
}

/// A sequence of numeric pairs as mathematical values.
pub open spec fn pairs_view(v: Seq<(NumVal, NumVal)>) -> Seq<(NumV, NumV)> {
    Seq::new(v.len(), |i: int| (v[i].0.nview(), v[i].1.nview()))
}

/// A trimmed value with every comma removed, as the numeric reader sees it.
pub open spec fn strip_commas(s: Seq<char>) -> Seq<char>
    decreases s.len(),
{
    if s.len() == 0 {
        seq![]
    } else if s[0] == ',' {
        strip_commas(s.skip(1))
    } else {
        seq![s[0]] + strip_commas(s.skip(1))
    }
}

/// How a cell reads as a number: text parses after trimming and comma
/// removal; numeric cells keep their literal; integers, days and instants
/// are exact; booleans and missing cells do not read.
pub open spec fn num_of_cell(c: CellV) -> Option<NumV> {
    match c {
        CellV::Null => None,
        CellV::S(s) => if is_float_literal(strip_commas(trim_spec(s))) {
            Some(NumV::Lit(strip_commas(trim_spec(s))))
        } else {
            None
        },
        CellV::N(l) => Some(NumV::Lit(l)),
        CellV::I(v) => Some(NumV::Int(v)),
        CellV::B(_) => None,
        CellV::D(d) => Some(NumV::Int(d * 86400000)),
        CellV::T(m) => Some(NumV::Int(m)),
    }
}

/// The rows of which both cells read as numbers, in order.
pub open spec fn numeric_pairs_spec(x: ColumnData, y: ColumnData) -> Seq<(NumV, NumV)> {
    crate::render::rows_of(x, y).filter(
        |rc: (CellV, CellV)| num_of_cell(rc.0) is Some && num_of_cell(rc.1) is Some,
    ).map_values(
        |rc: (CellV, CellV)| (num_of_cell(rc.0)->Some_0, num_of_cell(rc.1)->Some_0),
    )
}

/// Remove every comma.
fn strip_commas_exec(v: &Vec<char>) -> (r: Vec<char>)
    ensures
        r@ == strip_commas(v@),
{
    let n = v.len();
    let mut out: Vec<char> = Vec::new();
    let mut i: usize = 0;
    proof {
        assert(v@.skip(0) == v@);
    }
    while i < n
        invariant
            0 <= i <= n,
            n == v@.len(),
            strip_commas(v@) == out@ + strip_commas(v@.skip(i as int)),
        decreases n - i,
    {
        proof {
            assert(v@.skip(i as int)[0] == v@[i as int]);
            assert(v@.skip(i as int).skip(1) =~= v@.skip(i + 1));
        }
        if v[i] != ',' {
            out.push(v[i]);
        }
        i = i + 1;
    }
    proof {
        assert(strip_commas(v@.skip(n as int)) =~= Seq::<char>::empty());
        assert(out@ =~= strip_commas(v@));
    }
    out
}

/// Read the cell at row `i` as a number, if it reads as one.
pub fn cell_to_num(d: &ColumnData, i: usize) -> (r: Option<NumVal>)
    requires
        i < d.spec_len(),
    ensures
        match r {
            Some(nv) => num_of_cell(d.cell(i as int)) == Some(nv.nview()),
            None => num_of_cell(d.cell(i as int)) is None,
        },
{
    match d {
        ColumnData::Str(v) => {
            proof {
                assert(v.deep_view()[i as int] == match v@[i as int] {
                    Some(s) => Some(s@),
                    None => None::<Seq<char>>,
                });
            }
            match &v[i] {
                Some(s) => {
                    let sc = str_chars(s.as_str());
                    let tr = trim_chars(&sc);
                    let cleaned = strip_commas_exec(&tr);
                    if crate::numlit::check_float_chars(&cleaned) {
                        Some(NumVal::Lit(chars_string(&cleaned)))
                    } else {
                        None
                    }
                },
                None => None,
            }
        },
        ColumnData::Float(v) => {
            proof {
                assert(v.deep_view()[i as int] == match v@[i as int] {
                    Some(s) => Some(s@),
                    None => None::<Seq<char>>,
                });
            }
            match &v[i] {
                Some(s) => Some(NumVal::Lit(s.clone())),
                None => None,
            }
        },
        ColumnData::Int(v) => match v[i] {
            Some(x) => Some(NumVal::Int(x)),
            None => None,
        },
        ColumnData::Bool(_) => None,
        ColumnData::Date(v) => match v[i] {
            Some(days) => Some(NumVal::Int((days as i64) * 86400000)),
            None => None,
        },
        ColumnData::Datetime(v) => match v[i] {
            Some(ms) => Some(NumVal::Int(ms)),
            None => None,
        },
    }
}

proof fn lemma_filter_singleton_num(
    x: (CellV, CellV),
    pred: spec_fn((CellV, CellV)) -> bool,
)
    ensures
        seq![x].filter(pred) == if pred(x) {
            seq![x]
        } else {
            Seq::<(CellV, CellV)>::empty()
        },
{
    reveal(Seq::filter);
    let s = seq![x];
    assert(s.drop_last() =~= Seq::<(CellV, CellV)>::empty());
    assert(Seq::<(CellV, CellV)>::empty().filter(pred) =~= Seq::<(CellV, CellV)>::empty());
    if pred(x) {
        assert(s.filter(pred) =~= s.drop_last().filter(pred).push(x));
        assert(s.filter(pred) =~= seq![x]);
    }
}

/// Keep the rows of which both cells read as numbers.
#[verifier::loop_isolation(false)]
pub fn numeric_pairs(x: &ColumnData, y: &ColumnData) -> (r: Vec<(NumVal, NumVal)>)
    requires
        x.spec_len() == y.spec_len(),
    ensures
        pairs_view(r@) == numeric_pairs_spec(*x, *y),
{
    let ghost rows = crate::render::rows_of(*x, *y);
    let ghost pred = |rc: (CellV, CellV)| num_of_cell(rc.0) is Some && num_of_cell(rc.1) is Some;
    let n = x.len();
    let mut out: Vec<(NumVal, NumVal)> = Vec::new();
    let mut i: usize = 0;
    proof {
        reveal(Seq::filter);
        assert(rows.subrange(0, 0) =~= Seq::<(CellV, CellV)>::empty());
        assert(Seq::<(CellV, CellV)>::empty().filter(pred) =~= Seq::<(CellV, CellV)>::empty());
        assert(pairs_view(out@) =~= Seq::<(NumV, NumV)>::empty());
    }
    while i < n
        invariant
            0 <= i <= n,
            n == x.spec_len(),
            pairs_view(out@) =~= rows.subrange(0, i as int).filter(pred).map_values(
                |rc: (CellV, CellV)| (num_of_cell(rc.0)->Some_0, num_of_cell(rc.1)->Some_0),
            ),
        decreases n - i,
    {
        let ghost rc = rows[i as int];
        proof {
            assert(rc == (x.cell(i as int), y.cell(i as int)));
            assert(rows.subrange(0, i + 1) =~= rows.subrange(0, i as int) + seq![rc]);
            Seq::filter_distributes_over_add(rows.subrange(0, i as int), seq![rc], pred);
            lemma_filter_singleton_num(rc, pred);
        }
        let xv = cell_to_num(x, i);
        let yv = cell_to_num(y, i);
        match (xv, yv) {
            (Some(a), Some(b)) => {
                let ghost out_before = out@;
                out.push((a, b));
                proof {
                    assert forall|k: int| 0 <= k < out_before.len() implies out@[k]
                        == out_before[k] by {}
                    assert(pairs_view(out@) =~= pairs_view(out_before).push(
                        (num_of_cell(rc.0)->Some_0, num_of_cell(rc.1)->Some_0),
                    ));
                }
            },
            _ => {},
        }
        i = i + 1;
        proof {
            assert(pairs_view(out@) =~= rows.subrange(0, i as int).filter(pred).map_values(
                |rc: (CellV, CellV)| (num_of_cell(rc.0)->Some_0, num_of_cell(rc.1)->Some_0),
            ));
        }
    }
    proof {
        assert(rows.subrange(0, n as int) == rows);
    }
    out
}

// --- Bucket geometry ---
/// The first row of interior bucket `i`, among `n` rows split into `k`
/// buckets between the endpoints.
pub open spec fn bucket_lo(n: int, k: int, i: int) -> int {
    1 + i * (n - 2) / k
}

/// One past the last row of interior bucket `i`.
pub open spec fn bucket_hi(n: int, k: int, i: int) -> int {
    1 + (i + 1) * (n - 2) / k
}

proof fn lemma_bucket_step(i: int, m: int, k: int)
    requires
        0 <= i,
        1 <= k,
        k <= m,
    ensures
        i * m / k + 1 <= (i + 1) * m / k,
{
    lemma_hoist_over_denominator(i * m, 1, k as nat);
    assert((i + 1) * m == i * m + m) by (nonlinear_arith);
    lemma_div_is_ordered(i * m + k, (i + 1) * m, k);
}

proof fn lemma_bucket_bounds(i: int, m: int, k: int)
    requires
        0 <= i <= k,
        1 <= k <= m,
    ensures
        0 <= i * m / k <= m,
{
    lemma_mul_inequality(i, k, m);
    assert(k * m == m * k) by (nonlinear_arith);
    lemma_div_is_ordered(i * m, k * m, k);
    lemma_div_multiples_vanish(m, k);
    vstd::arithmetic::mul::lemma_mul_nonnegative(i, m);
    lemma_div_pos_is_pos(i * m, k);
}

/// Compute the interior bucket ranges: `threshold - 2` half-open index
/// ranges that partition rows `1 .. n-1` in order, each nonempty.
#[verifier::loop_isolation(false)]
pub fn lttb_buckets(n: usize, threshold: usize) -> (r: Vec<(usize, usize)>)
    requires
        3 <= threshold < n,
    ensures
        r@.len() == threshold - 2,
        forall|i: int|
            0 <= i < r@.len() ==> (#[trigger] r@[i]).0 == bucket_lo(
                n as int,
                threshold - 2,
                i,
            ) && r@[i].1 == bucket_hi(n as int, threshold - 2, i),
        forall|i: int| 0 <= i < r@.len() ==> 1 <= (#[trigger] r@[i]).0 < r@[i].1 <= n - 1,
        forall|i: int| 0 < i < r@.len() ==> (#[trigger] r@[i]).0 == r@[i - 1].1,
        r@[0].0 == 1,
        r@[r@.len() - 1].1 == n - 1,
{
    let m: u128 = (n as u128) - 2;
    let k: u128 = (threshold as u128) - 2;
    let kk = threshold - 2;
    let mut r: Vec<(usize, usize)> = Vec::new();
    let mut i: usize = 0;
    while i < kk
        invariant
            0 <= i <= kk,
            kk == threshold - 2,
            m == n - 2,
            k == threshold - 2,
            3 <= threshold < n,
            r@.len() == i,
            forall|j: int|
                0 <= j < i ==> (#[trigger] r@[j]).0 == bucket_lo(n as int, kk as int, j)
                    && r@[j].1 == bucket_hi(n as int, kk as int, j),
            forall|j: int| 0 <= j < i ==> 1 <= (#[trigger] r@[j]).0 < r@[j].1 <= n - 1,
        decreases kk - i,
    {
        proof {
            vstd::arithmetic::mul::lemma_mul_upper_bound(
                i as int,
                0xffff_ffff_ffff_ffffu64 as int,
                m as int,
                0xffff_ffff_ffff_ffffu64 as int,
            );
            vstd::arithmetic::mul::lemma_mul_upper_bound(
                i + 1,
                0x1_0000_0000_0000_0000i128 as int,
                m as int,
                0xffff_ffff_ffff_ffffu64 as int,
            );
            lemma_bucket_bounds(i as int, m as int, k as int);
            lemma_bucket_bounds(i + 1, m as int, k as int);
            lemma_bucket_step(i as int, m as int, k as int);
        }
        let lo128: u128 = 1 + (i as u128) * m / k;
        let hi128: u128 = 1 + ((i as u128) + 1) * m / k;
        let lo = lo128 as usize;
        let hi = hi128 as usize;
        r.push((lo, hi));
        i = i + 1;
    }
    proof {
        lemma_div_multiples_vanish(m as int, k as int);
        assert(kk * (n - 2) == (n - 2) * kk) by (nonlinear_arith);
        assert(bucket_hi(n as int, kk as int, kk - 1) == n - 1);
        assert(r@[0].0 == bucket_lo(n as int, kk as int, 0));
        assert(0 * (n - 2) == 0) by (nonlinear_arith);
        assert(bucket_lo(n as int, kk as int, 0) == 1) by {
            vstd::arithmetic::div_mod::lemma_div_of0(kk as int);
        }
    }
    r
}

/// A strictly increasing index sequence.
pub open spec fn strictly_increasing(s: Seq<int>) -> bool {
    forall|a: int, b: int| 0 <= a < b < s.len() ==> s[a] < s[b]
}

/// The surviving row indices: the first row, one chosen row per bucket, the
/// last row.
pub open spec fn chosen_indices(n: int, choices: Seq<usize>) -> Seq<int> {
    seq![0int] + choices.map_values(|c: usize| c as int) + seq![n - 1]
}

/// Every choice lies in its bucket.
pub open spec fn valid_choices(n: int, threshold: int, choices: Seq<usize>) -> bool {
    &&& choices.len() == threshold - 2
    &&& forall|i: int|
        0 <= i < choices.len() ==> bucket_lo(n, threshold - 2, i) <= (#[trigger] choices[i])
            < bucket_hi(n, threshold - 2, i)
}

/// With one choice per bucket, the surviving indices strictly increase.
pub proof fn lemma_chosen_increasing(n: int, threshold: int, choices: Seq<usize>)
    requires
        3 <= threshold < n,
        valid_choices(n, threshold, choices),
    ensures
        strictly_increasing(chosen_indices(n, choices)),
        forall|a: int|
            0 <= a < chosen_indices(n, choices).len() ==> 0 <= #[trigger] chosen_indices(
                n,
                choices,
            )[a] < n,
{
    let k = threshold - 2;
    let m = n - 2;
    let idx = chosen_indices(n, choices);
    assert forall|i: int| 0 <= i < choices.len() implies 1 <= #[trigger] choices[i] < n - 1 by {
        lemma_bucket_bounds(i, m, k);
        lemma_bucket_bounds(i + 1, m, k);
    }
    assert forall|a: int, b: int| 0 <= a < b < idx.len() implies idx[a] < idx[b] by {
        if a == 0 {
            if b < idx.len() - 1 {
                assert(idx[b] == choices[b - 1]);
            }
        } else if b == idx.len() - 1 {
            assert(idx[a] == choices[a - 1]);
        } else {
            assert(idx[a] == choices[a - 1]);
            assert(idx[b] == choices[b - 1]);
            assert forall|p: int, q: int|
                0 <= p < q < choices.len() implies choices[p] < choices[q] by {
                let mut c = p;
                assert forall|c: int| p <= c < q implies bucket_hi(n, k, c) <= bucket_lo(
                    n,
                    k,
                    q,
                ) by {
                    lemma_bucket_chain(c, q, m, k);
                }
                lemma_bucket_chain(p, q, m, k);
            }
        }
    }
}

/// Bucket ends never run backwards: the end of bucket `p` is at or before
/// the start of any later bucket `q`.
proof fn lemma_bucket_chain(p: int, q: int, m: int, k: int)
    requires
        0 <= p < q,
        1 <= k <= m,
    ensures
        1 + (p + 1) * m / k <= 1 + q * m / k,
{
    lemma_mul_inequality(p + 1, q, m);
    lemma_div_is_ordered((p + 1) * m, q * m, k);
}

/// Keep the first point, the chosen point of every bucket, and the last
/// point. The result has exactly `threshold` points, keeps the endpoints,
/// and lists the survivors in input order.
#[verifier::loop_isolation(false)]
pub fn select_survivors(
    points: &Vec<(NumVal, NumVal)>,
    threshold: usize,
    choices: &Vec<usize>,
) -> (r: Vec<(NumVal, NumVal)>)
    requires
        3 <= threshold < points@.len(),
        valid_choices(points@.len() as int, threshold as int, choices@),
    ensures
        r@.len() == threshold,
        pairs_view(r@) == chosen_indices(points@.len() as int, choices@).map_values(
            |j: int| pairs_view(points@)[j],
        ),
{
    let ghost n = points@.len() as int;
    let ghost idx = chosen_indices(n, choices@);
    proof {
        lemma_chosen_increasing(n, threshold as int, choices@);
    }
    let mut r: Vec<(NumVal, NumVal)> = Vec::new();
    r.push(clone_pair(&points[0]));
    proof {
        assert(idx[0] == 0);
        assert(pairs_view(r@) =~= idx.subrange(0, 1).map_values(
            |j: int| pairs_view(points@)[j],
        ));
    }
    let kk = threshold - 2;
    let mut i: usize = 0;
    while i < kk
        invariant
            0 <= i <= kk,
            kk == threshold - 2,
            n == points@.len(),
            3 <= threshold < points@.len(),
            idx == chosen_indices(n, choices@),
            valid_choices(n, threshold as int, choices@),
            r@.len() == i + 1,
            pairs_view(r@) =~= idx.subrange(0, i + 1).map_values(
                |j: int| pairs_view(points@)[j],
            ),
        decreases kk - i,
    {
        let c = choices[i];
        proof {
            assert(bucket_lo(n, kk as int, i as int) <= c < bucket_hi(n, kk as int, i as int));
            lemma_bucket_bounds(i as int, n - 2, kk as int);
            lemma_bucket_bounds(i + 1, n - 2, kk as int);
            assert(idx[i + 1] == c as int);
        }
        let ghost r_before = r@;
        r.push(clone_pair(&points[c]));
        proof {
            assert forall|k: int| 0 <= k < r_before.len() implies r@[k] == r_before[k] by {}
            assert(pairs_view(r@) =~= pairs_view(r_before).push(pairs_view(points@)[c as int]));
            assert(pairs_view(r@) =~= idx.subrange(0, i + 2).map_values(
                |j: int| pairs_view(points@)[j],
            ));
        }
        i = i + 1;
    }
    let last = points.len() - 1;
    let ghost r_before = r@;
    r.push(clone_pair(&points[last]));
    proof {
        assert(idx[idx.len() - 1] == n - 1);
        assert forall|k: int| 0 <= k < r_before.len() implies r@[k] == r_before[k] by {}
        assert(pairs_view(r@) =~= pairs_view(r_before).push(pairs_view(points@)[n - 1]));
        assert(idx.subrange(0, idx.len() as int) == idx);
        assert(pairs_view(r@) =~= idx.map_values(|j: int| pairs_view(points@)[j]));
    }
    r
}

/// Copy one numeric pair.
fn clone_pair(p: &(NumVal, NumVal)) -> (r: (NumVal, NumVal))
    ensures
        r.0.nview() == p.0.nview(),
        r.1.nview() == p.1.nview(),
{
    let a = match &p.0 {
        NumVal::Int(v) => NumVal::Int(*v),
        NumVal::Lit(s) => NumVal::Lit(s.clone()),
    };
    let b = match &p.1 {
        NumVal::Int(v) => NumVal::Int(*v),
        NumVal::Lit(s) => NumVal::Lit(s.clone()),
    };
    (a, b)
}

/// Validate the caller's per-bucket choices and keep the survivors; `None`
/// exactly when the choices do not fit the bucket geometry.
pub fn downsample_with_choices(
    points: &Vec<(NumVal, NumVal)>,
    threshold: usize,
    choices: &Vec<usize>,
) -> (r: Option<Vec<(NumVal, NumVal)>>)
    requires
        3 <= threshold < points@.len(),
    ensures
        match r {
            Some(out) => {
                &&& valid_choices(points@.len() as int, threshold as int, choices@)
                &&& out@.len() == threshold
                &&& pairs_view(out@) == chosen_indices(points@.len() as int, choices@).map_values(
                    |j: int| pairs_view(points@)[j],
                )
            },
            None => !valid_choices(points@.len() as int, threshold as int, choices@),
        },
{
    let buckets = lttb_buckets(points.len(), threshold);
    if choices.len() != buckets.len() {
        return None;
    }
    let nb = buckets.len();
    let mut i: usize = 0;
    while i < nb
        invariant
            0 <= i <= nb,
            nb == buckets@.len(),
            nb == choices@.len(),
            nb == threshold - 2,
            3 <= threshold < points@.len(),
            forall|j: int|
                0 <= j < nb ==> (#[trigger] buckets@[j]).0 == bucket_lo(
                    points@.len() as int,
                    threshold - 2,
                    j,
                ) && buckets@[j].1 == bucket_hi(points@.len() as int, threshold - 2, j),
            forall|j: int|
                0 <= j < i ==> bucket_lo(points@.len() as int, threshold - 2, j)
                    <= (#[trigger] choices@[j]) < bucket_hi(
                    points@.len() as int,
                    threshold - 2,
                    j,
                ),
        decreases nb - i,
    {
        if choices[i] < buckets[i].0 || choices[i] >= buckets[i].1 {
            return None;
        }
        i = i + 1;
    }
    Some(select_survivors(points, threshold, choices))
}

/// What reducing leaves of the numeric pairs: the chosen survivors when the
/// threshold bites and the choices fit, everything otherwise.
pub open spec fn reduced_pairs_spec(
    pairs: Seq<(NumV, NumV)>,
    threshold: int,
    choices: Seq<usize>,
) -> Seq<(NumV, NumV)> {
    if 3 <= threshold < pairs.len() {
        chosen_indices(pairs.len() as int, choices).map_values(|j: int| pairs[j])
    } else {
        pairs
    }
}

/// The two numeric columns reducing one X/Y series leaves: the surviving
/// pairs, rendered as literal text, every cell present.
pub open spec fn reduced_col_views(
    x: ColumnData,
    y: ColumnData,
    threshold: int,
    choices: Seq<usize>,
) -> (ColView, ColView) {
    let pairs = numeric_pairs_spec(x, y);
    let reduced = reduced_pairs_spec(pairs, threshold, choices);
    (
        ColView::Float(Seq::new(reduced.len(), |i: int| Some(lit_of_num(reduced[i].0)))),
        ColView::Float(Seq::new(reduced.len(), |i: int| Some(lit_of_num(reduced[i].1)))),
    )
}

/// Reduce one X/Y series: keep the rows of which both cells read as numbers,
/// and if more remain than the threshold allows, keep the endpoints and one
/// chosen point per bucket. The result is a pair of numeric columns; `None`
/// exactly when reduction was due but the caller's choices do not fit the
/// bucket geometry.
pub fn downsample_series(
    x: &ColumnData,
    y: &ColumnData,
    threshold: usize,
    choices: &Vec<usize>,
) -> (r: Option<(ColumnData, ColumnData)>)
    requires
        x.spec_len() == y.spec_len(),
    ensures
        ({
            let pairs = numeric_pairs_spec(*x, *y);
            match r {
                Some(cols) => {
                    &&& (3 <= threshold < pairs.len() ==> valid_choices(
                        pairs.len() as int,
                        threshold as int,
                        choices@,
                    ))
                    &&& cols.0.dview() == reduced_col_views(*x, *y, threshold as int, choices@).0
                    &&& cols.1.dview() == reduced_col_views(*x, *y, threshold as int, choices@).1
                },
                None => 3 <= threshold < pairs.len() && !valid_choices(
                    pairs.len() as int,
                    threshold as int,
                    choices@,
                ),
            }
        }),
{
    let pairs = numeric_pairs(x, y);
    let ghost pv = numeric_pairs_spec(*x, *y);
    if threshold >= 3 && pairs.len() > threshold {
        match downsample_with_choices(&pairs, threshold, choices) {
            Some(reduced) => {
                proof {
                    assert(pairs_view(reduced@) == reduced_pairs_spec(
                        pv,
                        threshold as int,
                        choices@,
                    ));
                }
                Some(pairs_to_columns(&reduced))
            },
            None => None,
        }
    } else {
        proof {
            assert(pairs_view(pairs@) == reduced_pairs_spec(pv, threshold as int, choices@));
        }
        Some(pairs_to_columns(&pairs))
    }
}

/// The literal text a numeric value renders as.
pub open spec fn lit_of_num(nv: NumV) -> Seq<char> {
    match nv {
        NumV::Int(v) => int_str(v),
        NumV::Lit(l) => l,
    }
}

/// Turn reduced pairs back into two numeric columns, every cell present.
#[verifier::loop_isolation(false)]
pub fn pairs_to_columns(pairs: &Vec<(NumVal, NumVal)>) -> (r: (ColumnData, ColumnData))
    ensures
        r.0 matches ColumnData::Float(xs) && xs.deep_view() == Seq::new(
            pairs@.len(),
            |i: int| Some(lit_of_num(pairs_view(pairs@)[i].0)),
        ),
        r.1 matches ColumnData::Float(ys) && ys.deep_view() == Seq::new(
            pairs@.len(),
            |i: int| Some(lit_of_num(pairs_view(pairs@)[i].1)),
        ),
{
    let n = pairs.len();
    let mut xs: Vec<Option<String>> = Vec::new();
    let mut ys: Vec<Option<String>> = Vec::new();
    let mut i: usize = 0;
    while i < n
        invariant
            0 <= i <= n,
            n == pairs@.len(),
            xs.deep_view() =~= Seq::new(
                i as nat,
                |k: int| Some(lit_of_num(pairs_view(pairs@)[k].0)),
            ),
            ys.deep_view() =~= Seq::new(
                i as nat,
                |k: int| Some(lit_of_num(pairs_view(pairs@)[k].1)),
            ),
        decreases n - i,
    {
        let xv = num_to_lit(&pairs[i].0);
        let yv = num_to_lit(&pairs[i].1);
        push_cell(&mut xs, Some(xv));
        push_cell(&mut ys, Some(yv));
        i = i + 1;
        proof {
            assert(xs.deep_view() =~= Seq::new(
                i as nat,
                |k: int| Some(lit_of_num(pairs_view(pairs@)[k].0)),
            ));
            assert(ys.deep_view() =~= Seq::new(
                i as nat,
                |k: int| Some(lit_of_num(pairs_view(pairs@)[k].1)),
            ));
        }
    }
    (ColumnData::Float(xs), ColumnData::Float(ys))
}

/// The text of one numeric value.
fn num_to_lit(nv: &NumVal) -> (r: String)
    ensures
        r@ == lit_of_num(nv.nview()),
{
    match nv {
        NumVal::Int(v) => i64_to_string(*v),
        NumVal::Lit(s) => s.clone(),
    }
}

/// Law: a reduced series has exactly the target length — at most the
/// threshold — and keeps the exact first and last input points.
pub proof fn lemma_downsample_endpoints(
    points: Seq<(NumV, NumV)>,
    n: int,
    choices: Seq<usize>,
    threshold: int,
    out: Seq<(NumV, NumV)>,
)
    requires
        3 <= threshold < n,
        n == points.len(),
        valid_choices(n, threshold, choices),
        out == chosen_indices(n, choices).map_values(|j: int| points[j]),
    ensures
        out.len() == threshold,
        out[0] == points[0],
        out[out.len() - 1] == points[n - 1],
{
    let idx = chosen_indices(n, choices);
    assert(idx[0] == 0);
    assert(idx[idx.len() - 1] == n - 1);
}

/// Reducing never reorders: survivors of an integer-valued X series that
/// never decreases still never decrease.
pub proof fn lemma_downsample_keeps_order(
    points: Seq<(NumV, NumV)>,
    n: int,
    choices: Seq<usize>,
    threshold: int,
    out: Seq<(NumV, NumV)>,
)
    requires
        3 <= threshold < n,
        n == points.len(),
        valid_choices(n, threshold, choices),
        out == chosen_indices(n, choices).map_values(|j: int| points[j]),
        forall|i: int| 0 <= i < n ==> (#[trigger] points[i]).0 is Int,
        forall|a: int, b: int|
            0 <= a < b < n ==> (#[trigger] points[a]).0->Int_0 <= (#[trigger] points[b]).0->Int_0,
    ensures
        forall|a: int, b: int|
            0 <= a < b < out.len() ==> (#[trigger] out[a]).0->Int_0 <= (
            #[trigger] out[b]).0->Int_0,
{
    let idx = chosen_indices(n, choices);
    lemma_chosen_increasing(n, threshold, choices);
    assert forall|a: int, b: int|
        0 <= a < b < out.len() implies (#[trigger] out[a]).0->Int_0 <= (
    #[trigger] out[b]).0->Int_0 by {
        assert(out[a] == points[idx[a]]);
        assert(out[b] == points[idx[b]]);
        assert(idx[a] < idx[b]);
    }
}

} // verus!
