//! Splitting character sequences: on a separator character, and into lines
//! the way `str::lines` does (split on `'\n'`, drop a final empty piece,
//! strip one trailing `'\r'` from each line).
use vstd::prelude::*;

verus! {

/// The first index where `c` occurs in `s`, or `s.len()` if it does not.
pub open spec fn find_char(s: Seq<char>, c: char) -> int
    decreases s.len(),
{
    if s.len() > 0 && s[0] == c {
        0
    } else if s.len() == 0 {
        0
    } else {
        1 + find_char(s.skip(1), c)
    }
}

/// The pieces of `s` between occurrences of `c`: one piece more than there
/// are separators, in order, each free of `c`.
pub open spec fn split_on(s: Seq<char>, c: char) -> Seq<Seq<char>>
    decreases s.len(),
{
    let k = find_char(s, c);
    if 0 <= k < s.len() {
        seq![s.subrange(0, k)] + split_on(s.skip(k + 1), c)
    } else {
        seq![s]
    }
}

pub proof fn lemma_find_char_at(s: Seq<char>, c: char, k: int)
    requires
        0 <= k <= s.len(),
        forall|i: int| 0 <= i < k ==> s[i] != c,
        k == s.len() || s[k] == c,
    ensures
        find_char(s, c) == k,
    decreases k,
{
    if k > 0 {
        lemma_find_char_at(s.skip(1), c, k - 1);
    }
}

/// Splitting a sequence whose first separator stands at `k`.
pub proof fn lemma_split_on_step(s: Seq<char>, c: char, k: int)
    requires
        0 <= k < s.len(),
        s[k] == c,
        forall|i: int| 0 <= i < k ==> s[i] != c,
    ensures
        split_on(s, c) == seq![s.subrange(0, k)] + split_on(s.skip(k + 1), c),
{
    lemma_find_char_at(s, c, k);
}

/// Splitting a sequence free of the separator.
pub proof fn lemma_split_on_whole(s: Seq<char>, c: char)
    requires
        forall|i: int| 0 <= i < s.len() ==> s[i] != c,
    ensures
        split_on(s, c) == seq![s],
{
    lemma_find_char_at(s, c, s.len() as int);
}

/// An element of the deep view is the element's own view.
pub proof fn lemma_deep_view_elem(v: &Vec<Vec<char>>, i: int)
    requires
        0 <= i < v@.len(),
    ensures
        v.deep_view()[i] == v@[i]@,
{
    assert(v.deep_view()[i] == v@[i].deep_view());
    assert(v@[i].deep_view() =~= v@[i]@);
}

/// Push one piece, tracked through the deep view.
pub fn push_piece(res: &mut Vec<Vec<char>>, piece: Vec<char>)
    ensures
        final(res).deep_view() == old(res).deep_view().push(piece@),
        final(res)@.len() == old(res)@.len() + 1,
{
    let ghost p = piece@;
    let ghost before = res.deep_view();
    res.push(piece);
    proof {
        assert(res@.last().deep_view() =~= p);
        assert forall|k: int| 0 <= k < before.len() implies res.deep_view()[k] == before[k] by {
            assert(res@[k] == old(res)@[k]);
        }
        assert(res.deep_view() =~= before.push(p));
    }
}

/// Copy of `v[from..to]`.
pub fn subvec(v: &Vec<char>, from: usize, to: usize) -> (r: Vec<char>)
    requires
        from <= to <= v@.len(),
    ensures
        r@ == v@.subrange(from as int, to as int),
{
    let mut r: Vec<char> = Vec::new();
    let mut i: usize = from;
    while i < to
        invariant
            from <= i <= to <= v@.len(),
            r@ == v@.subrange(from as int, i as int),
        decreases to - i,
    {
        r.push(v[i]);
        i = i + 1;
        proof {
            assert(r@ =~= v@.subrange(from as int, i as int));
        }
    }
    r
}

/// Split `v` on the separator `c`.
pub fn split_chars(v: &Vec<char>, c: char) -> (r: Vec<Vec<char>>)
    ensures
        r.deep_view() == split_on(v@, c),
        r@.len() >= 1,
{
    let n = v.len();
    let mut res: Vec<Vec<char>> = Vec::new();
    let mut start: usize = 0;
    let mut i: usize = 0;
    proof {
        assert(v@.skip(0) == v@);
        assert(res.deep_view() =~= Seq::<Seq<char>>::empty());
        assert(split_on(v@, c) =~= res.deep_view() + split_on(v@.skip(0), c));
    }
    while i < n
        invariant
            0 <= start <= i <= n,
            n == v@.len(),
            split_on(v@, c) == res.deep_view() + split_on(v@.skip(start as int), c),
            forall|j: int| start <= j < i ==> v@[j] != c,
        decreases n - i,
    {
        if v[i] == c {
            let piece = subvec(v, start, i);
            proof {
                let tail = v@.skip(start as int);
                assert forall|j: int| 0 <= j < i - start implies tail[j] != c by {
                    assert(tail[j] == v@[start + j]);
                }
                assert(tail[i - start] == v@[i as int]);
                lemma_split_on_step(tail, c, i - start);
                assert(tail.subrange(0, i - start) == v@.subrange(start as int, i as int));
                assert(tail.skip(i - start + 1) =~= v@.skip(i + 1));
            }
            push_piece(&mut res, piece);
            proof {
                assert(split_on(v@, c) =~= res.deep_view() + split_on(v@.skip(i + 1), c));
            }
            start = i + 1;
        }
        i = i + 1;
    }
    let piece = subvec(v, start, n);
    proof {
        let tail = v@.skip(start as int);
        assert forall|j: int| 0 <= j < tail.len() implies tail[j] != c by {
            assert(tail[j] == v@[start + j]);
        }
        lemma_split_on_whole(tail, c);
        assert(tail == v@.subrange(start as int, n as int));
    }
    push_piece(&mut res, piece);
    proof {
        assert(res.deep_view() =~= split_on(v@, c));
    }
    res
}

/// A line with one trailing carriage return removed.
pub open spec fn strip_cr(l: Seq<char>) -> Seq<char> {
    if l.len() > 0 && l[l.len() - 1] == '\r' {
        l.take(l.len() - 1)
    } else {
        l
    }
}

/// What `str::lines` yields.
pub open spec fn spec_lines(s: Seq<char>) -> Seq<Seq<char>> {
    if s.len() == 0 {
        seq![]
    } else {
        let parts = split_on(s, '\n');
        let kept = if parts.last().len() == 0 {
            parts.drop_last()
        } else {
            parts
        };
        kept.map_values(|l: Seq<char>| strip_cr(l))
    }
}

fn strip_cr_exec(l: Vec<char>) -> (r: Vec<char>)
    ensures
        r@ == strip_cr(l@),
{
    let mut l = l;
    let ghost before = l@;
    let n = l.len();
    if n > 0 && l[n - 1] == '\r' {
        l.truncate(n - 1);
        proof {
            assert(l@ =~= strip_cr(before));
        }
    }
    l
}

/// Split `v` into lines as `str::lines` does.
pub fn lines_chars(v: &Vec<char>) -> (r: Vec<Vec<char>>)
    ensures
        r.deep_view() == spec_lines(v@),
{
    if v.len() == 0 {
        let r: Vec<Vec<char>> = Vec::new();
        assert(r.deep_view() =~= spec_lines(v@));
        return r;
    }
    let mut parts = split_chars(v, '\n');
    let ghost orig = parts.deep_view();
    proof {
        lemma_deep_view_elem(&parts, parts@.len() - 1);
    }
    if parts[parts.len() - 1].len() == 0 {
        let ghost before_v = parts@;
        let _ = parts.pop();
        proof {
            assert forall|k: int| 0 <= k < parts@.len() implies parts.deep_view()[k]
                == orig[k] by {
                assert(parts@[k] == before_v[k]);
                assert(orig[k] == before_v[k].deep_view());
            }
            assert(parts.deep_view() =~= orig.drop_last());
        }
    }
    let ghost kept = parts.deep_view();
    proof {
        if orig.last().len() == 0 {
            assert(kept == orig.drop_last());
        } else {
            assert(kept == orig);
        }
    }
    let mut out: Vec<Vec<char>> = Vec::new();
    let mut i: usize = 0;
    let n = parts.len();
    while i < n
        invariant
            0 <= i <= n,
            n == parts@.len(),
            parts.deep_view() == kept,
            kept.len() == n,
            out.deep_view() =~= kept.subrange(0, i as int).map_values(
                |l: Seq<char>| strip_cr(l),
            ),
        decreases n - i,
    {
        let piece = subvec(&parts[i], 0, parts[i].len());
        proof {
            lemma_deep_view_elem(&parts, i as int);
            assert(piece@ =~= kept[i as int]);
        }
        let stripped = strip_cr_exec(piece);
        push_piece(&mut out, stripped);
        i = i + 1;
        proof {
            assert(out.deep_view() =~= kept.subrange(0, i as int).map_values(
                |l: Seq<char>| strip_cr(l),
            ));
        }
    }
    proof {
        assert(kept.subrange(0, n as int) == kept);
        assert(out.deep_view() =~= spec_lines(v@));
    }
    out
}

/// The comma-separated fields of a line, each trimmed.
pub open spec fn spec_fields(l: Seq<char>) -> Seq<Seq<char>> {
    split_on(l, ',').map_values(|f: Seq<char>| crate::text::trim_spec(f))
}

/// Split a line on commas and trim each field.
pub fn fields_chars(l: &Vec<char>) -> (r: Vec<Vec<char>>)
    ensures
        r.deep_view() == spec_fields(l@),
        r@.len() >= 1,
{
    let parts = split_chars(l, ',');
    let ghost raw = parts.deep_view();
    let mut out: Vec<Vec<char>> = Vec::new();
    let mut i: usize = 0;
    let n = parts.len();
    while i < n
        invariant
            0 <= i <= n,
            n == parts@.len(),
            parts.deep_view() == raw,
            out.deep_view() =~= raw.subrange(0, i as int).map_values(
                |f: Seq<char>| crate::text::trim_spec(f),
            ),
        decreases n - i,
    {
        proof {
            lemma_deep_view_elem(&parts, i as int);
        }
        let t = crate::text::trim_chars(&parts[i]);
        push_piece(&mut out, t);
        i = i + 1;
        proof {
            assert(out.deep_view() =~= raw.subrange(0, i as int).map_values(
                |f: Seq<char>| crate::text::trim_spec(f),
            ));
        }
    }
    proof {
        assert(raw.subrange(0, n as int) == raw);
        assert(out.deep_view() =~= spec_fields(l@));
    }
    out
}

} // verus!
