//! Building a table from decoded audio: one numeric column per channel,
//! named `channel_<i>`, plus a leading `sample_index` counter column. The
//! decoder hands each sample over as numeric literal text; the first
//! channel's length rules, and shorter channels are padded with zeros.
use vstd::prelude::*;

use crate::select::row_index_view;
use crate::table::{ColView, Column, ColumnData, Table, push_cell};
use crate::text::{
    chars_string, dec_str, lemma_dec_str_injective, lemma_dec_str_len, u64_to_chars,
};

verus! {

/// The name of channel `i`.
pub open spec fn channel_name(i: int) -> Seq<char> {
    seq!['c', 'h', 'a', 'n', 'n', 'e', 'l', '_'] + dec_str(i)
}

/// A channel cut or padded to `n` samples, a missing sample reading zero.
pub open spec fn padded_channel(ch: Seq<Seq<char>>, n: nat) -> Seq<Option<Seq<char>>> {
    Seq::new(
        n,
        |k: int|
            if k < ch.len() {
                Some(ch[k])
            } else {
                Some(seq!['0'])
            },
    )
}

/// Distinct channel numbers always get distinct names.
pub proof fn lemma_channel_name_injective(i: int, j: int)
    requires
        0 <= i,
        0 <= j,
        i != j,
    ensures
        channel_name(i) != channel_name(j),
{
    lemma_dec_str_injective(i, j);
    lemma_dec_str_len(i);
    lemma_dec_str_len(j);
    if channel_name(i) == channel_name(j) {
        assert(channel_name(i).skip(8) =~= dec_str(i));
        assert(channel_name(j).skip(8) =~= dec_str(j));
        assert(false);
    }
}

/// No channel is named like the sample counter.
pub proof fn lemma_channel_name_not_sample_index(i: int)
    ensures
        channel_name(i) != "sample_index"@,
{
    reveal_strlit("sample_index");
    assert(channel_name(i)[0] == 'c');
    assert("sample_index"@[0] == 's');
}

fn channel_name_exec(i: usize) -> (r: String)
    ensures
        r@ == channel_name(i as int),
{
    let mut v: Vec<char> = vec!['c', 'h', 'a', 'n', 'n', 'e', 'l', '_'];
    let d = u64_to_chars(i as u64);
    let mut k: usize = 0;
    proof {
        assert(v@ =~= seq!['c', 'h', 'a', 'n', 'n', 'e', 'l', '_'] + d@.subrange(0, 0));
    }
    while k < d.len()
        invariant
            0 <= k <= d@.len(),
            v@ == seq!['c', 'h', 'a', 'n', 'n', 'e', 'l', '_'] + d@.subrange(0, k as int),
        decreases d@.len() - k,
    {
        v.push(d[k]);
        k = k + 1;
        proof {
            assert(v@ =~= seq!['c', 'h', 'a', 'n', 'n', 'e', 'l', '_'] + d@.subrange(0, k as int));
        }
    }
    proof {
        assert(d@.subrange(0, d@.len() as int) == d@);
    }
    chars_string(&v)
}

/// Build the audio table: `sample_index` counts the rows of the first
/// channel, and every channel becomes a numeric column under its
/// `channel_<i>` name, padded with zeros to that length. No samples at all
/// yield an empty table, not a failure. The only failure is a first channel
/// longer than the sample counter can count.
#[verifier::loop_isolation(false)]
pub fn table_from_channels(channels: &Vec<Vec<String>>) -> (r: Result<
    Table,
    crate::error::AppError,
>)
    ensures
        match r {
            Ok(t) => {
                let cv = channels.deep_view();
                if cv.len() == 0 || cv[0].len() == 0 {
                    t.columns@.len() == 0
                } else {
                    let n = cv[0].len();
                    &&& t.wf()
                    &&& t.columns@.len() == cv.len() + 1
                    &&& t.spec_height() == n
                    &&& t.tview()[0] == ("sample_index"@, row_index_view(n))
                    &&& forall|c: int|
                        1 <= c < cv.len() + 1 ==> #[trigger] t.tview()[c] == (
                        channel_name(c - 1),
                        ColView::Float(padded_channel(cv[c - 1], n)),
                        )
                }
            },
            Err(e) => {
                &&& e is AudioDecode
                &&& channels.deep_view().len() > 0
                &&& channels.deep_view()[0].len() > i64::MAX
            },
        },
{
    let ghost cv = channels.deep_view();
    let nch = channels.len();
    if nch == 0 {
        let t = Table { columns: Vec::new() };
        return Ok(t);
    }
    let n = channels[0].len();
    proof {
        assert(cv[0] == channels@[0].deep_view());
    }
    if n == 0 {
        let t = Table { columns: Vec::new() };
        return Ok(t);
    }
    if (n as u128) > (i64::MAX as u128) {
        // Far beyond any decodable track; keeps the sample counter in range.
        return Err(crate::error::AppError::AudioDecode("the track is too long".to_owned()));
    }
    let mut cols: Vec<Column> = Vec::new();
    // The sample counter column.
    let mut idx_cells: Vec<Option<i64>> = Vec::new();
    let mut i: usize = 0;
    while i < n
        invariant
            0 <= i <= n,
            n <= i64::MAX,
            idx_cells@ =~= Seq::new(i as nat, |k: int| Some(k as i64)),
        decreases n - i,
    {
        idx_cells.push(Some(i as i64));
        i = i + 1;
        proof {
            assert(idx_cells@ =~= Seq::new(i as nat, |k: int| Some(k as i64)));
        }
    }
    cols.push(Column { name: "sample_index".to_owned(), data: ColumnData::Int(idx_cells) });
    proof {
        assert(cols@[0].data.dview() == row_index_view(n as nat));
    }
    // One numeric column per channel.
    let mut c: usize = 0;
    while c < nch
        invariant
            0 <= c <= nch,
            nch == channels@.len(),
            cv == channels.deep_view(),
            n == cv[0].len(),
            0 < n <= i64::MAX,
            cols@.len() == c + 1,
            cols@[0].name@ == "sample_index"@,
            cols@[0].data.dview() == row_index_view(n as nat),
            cols@[0].data.spec_len() == n,
            forall|p: int|
                1 <= p < c + 1 ==> (#[trigger] cols@[p]).name@ == channel_name(p - 1),
            forall|p: int|
                1 <= p < c + 1 ==> (#[trigger] cols@[p]).data.dview() == ColView::Float(
                    padded_channel(cv[p - 1], n as nat),
                ),
            forall|p: int| 1 <= p < c + 1 ==> (#[trigger] cols@[p]).data.spec_len() == n,
        decreases nch - c,
    {
        proof {
            assert(cv[c as int] == channels@[c as int].deep_view());
        }
        let ch = &channels[c];
        let chn = ch.len();
        let mut cells: Vec<Option<String>> = Vec::new();
        let mut k: usize = 0;
        while k < n
            invariant
                0 <= k <= n,
                chn == ch@.len(),
                cells.deep_view() =~= padded_channel(ch.deep_view(), k as nat),
            decreases n - k,
        {
            let val: Option<String> = if k < chn {
                proof {
                    assert(ch.deep_view()[k as int] == ch@[k as int]@);
                }
                Some(ch[k].clone())
            } else {
                Some(zero_lit())
            };
            push_cell(&mut cells, val);
            k = k + 1;
            proof {
                assert(cells.deep_view() =~= padded_channel(ch.deep_view(), k as nat));
            }
        }
        let name = channel_name_exec(c);
        let ghost cells_dv = cells.deep_view();
        let col = Column { name, data: ColumnData::Float(cells) };
        proof {
            assert(col.data.dview() == ColView::Float(padded_channel(cv[c as int], n as nat)));
            assert(col.data.spec_len() == n);
        }
        cols.push(col);
        c = c + 1;
    }
    let t = Table { columns: cols };
    proof {
        assert(t.spec_height() == n);
        assert forall|p: int|
            0 <= p < t.columns@.len() implies (#[trigger] t.columns@[p].data).spec_len()
            == t.spec_height() by {}
        assert forall|p: int, q: int|
            0 <= p < q < t.columns@.len() implies t.columns@[p].name@ != t.columns@[q].name@ by {
            if p == 0 {
                lemma_channel_name_not_sample_index(q - 1);
            } else {
                lemma_channel_name_injective(p - 1, q - 1);
            }
        }
        assert(t.wf());
        assert forall|p: int|
            1 <= p < cv.len() + 1 implies #[trigger] t.tview()[p] == (
            channel_name(p - 1),
            ColView::Float(padded_channel(cv[p - 1], n as nat)),
            ) by {}
        assert(t.tview()[0] == ("sample_index"@, row_index_view(n as nat)));
    }
    Ok(t)
}

/// The zero a padded sample reads as.
fn zero_lit() -> (r: String)
    ensures
        r@ == seq!['0'],
{
    let v: Vec<char> = vec!['0'];
    proof {
        assert(v@ =~= seq!['0']);
    }
    chars_string(&v)
}

} // verus!
