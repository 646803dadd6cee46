//! Character-level text utilities: whitespace trimming, splitting, decimal
//! formatting. All logic works on `Vec<char>`, bridged to `String` by two
//! trusted conversions.
use vstd::prelude::*;

verus! {

/// The characters with the Unicode `White_Space` property, which is what
/// `str::trim` and `char::is_whitespace` strip.
pub open spec fn is_ws(c: char) -> bool {
    c == ' ' || c == '\u{9}' || c == '\u{A}' || c == '\u{B}' || c == '\u{C}' || c == '\u{D}'
        || c == '\u{85}' || c == '\u{A0}' || c == '\u{1680}' || (0x2000 <= c as u32 <= 0x200A)
        || c == '\u{2028}' || c == '\u{2029}' || c == '\u{202F}' || c == '\u{205F}'
        || c == '\u{3000}'
}

/// Relies on str::chars: iterating a `&str` yields exactly the characters of
/// its view, in order.
#[verifier::external_body]
pub fn str_chars(s: &str) -> (r: Vec<char>)
    ensures
        r@ == s@,
{
    s.chars().collect()
}

/// Relies on String: collecting characters builds the string whose view is
/// exactly that character sequence.
#[verifier::external_body]
pub fn chars_string(v: &Vec<char>) -> (r: String)
    ensures
        r@ == v@,
{
    v.iter().collect()
}

pub fn char_is_ws(c: char) -> (r: bool)
    ensures
        r == is_ws(c),
{
    c == ' ' || c == '\u{9}' || c == '\u{A}' || c == '\u{B}' || c == '\u{C}' || c == '\u{D}'
        || c == '\u{85}' || c == '\u{A0}' || c == '\u{1680}'
        || (0x2000 <= c as u32 && c as u32 <= 0x200A) || c == '\u{2028}' || c == '\u{2029}'
        || c == '\u{202F}' || c == '\u{205F}' || c == '\u{3000}'
}

pub open spec fn trim_start_spec(s: Seq<char>) -> Seq<char>
    decreases s.len(),
{
    if s.len() > 0 && is_ws(s[0]) {
        trim_start_spec(s.skip(1))
    } else {
        s
    }
}

pub open spec fn trim_end_spec(s: Seq<char>) -> Seq<char>
    decreases s.len(),
{
    if s.len() > 0 && is_ws(s[s.len() - 1]) {
        trim_end_spec(s.take(s.len() - 1))
    } else {
        s
    }
}

/// What `str::trim` returns: the sequence with leading and trailing
/// whitespace removed.
pub open spec fn trim_spec(s: Seq<char>) -> Seq<char> {
    trim_end_spec(trim_start_spec(s))
}

proof fn lemma_trim_start_at(s: Seq<char>, k: int)
    requires
        0 <= k <= s.len(),
        forall|i: int| 0 <= i < k ==> is_ws(s[i]),
        k == s.len() || !is_ws(s[k]),
    ensures
        trim_start_spec(s) == s.skip(k),
    decreases k,
{
    if k == 0 {
        assert(s.skip(0) == s);
    } else {
        lemma_trim_start_at(s.skip(1), k - 1);
        assert(s.skip(1).skip(k - 1) == s.skip(k));
    }
}

proof fn lemma_trim_end_at(s: Seq<char>, k: int)
    requires
        0 <= k <= s.len(),
        forall|i: int| k <= i < s.len() ==> is_ws(s[i]),
        k == 0 || !is_ws(s[k - 1]),
    ensures
        trim_end_spec(s) == s.take(k),
    decreases s.len() - k,
{
    if k == s.len() {
        assert(s.take(k) == s);
    } else {
        lemma_trim_end_at(s.take(s.len() - 1), k);
    }
}

/// Remove leading and trailing whitespace, exactly as `str::trim` does.
pub fn trim_chars(v: &Vec<char>) -> (r: Vec<char>)
    ensures
        r@ == trim_spec(v@),
{
    let n = v.len();
    let mut lo: usize = 0;
    while lo < n && char_is_ws(v[lo])
        invariant
            0 <= lo <= n,
            n == v@.len(),
            forall|i: int| 0 <= i < lo ==> is_ws(v@[i]),
        decreases n - lo,
    {
        lo = lo + 1;
    }
    proof {
        lemma_trim_start_at(v@, lo as int);
    }
    let mut hi: usize = n;
    while hi > lo && char_is_ws(v[hi - 1])
        invariant
            lo <= hi <= n,
            n == v@.len(),
            forall|i: int| hi <= i < n ==> is_ws(v@[i]),
        decreases hi,
    {
        hi = hi - 1;
    }
    proof {
        lemma_trim_end_at(v@.skip(lo as int), hi - lo);
        assert(v@.skip(lo as int).take(hi - lo) == v@.subrange(lo as int, hi as int));
    }
    let mut r: Vec<char> = Vec::new();
    let mut i: usize = lo;
    while i < hi
        invariant
            lo <= i <= hi <= n,
            n == v@.len(),
            r@ == v@.subrange(lo as int, i as int),
        decreases hi - i,
    {
        r.push(v[i]);
        i = i + 1;
        proof {
            assert(r@ == v@.subrange(lo as int, i as int));
        }
    }
    assert(r@ == v@.subrange(lo as int, hi as int));
    r
}

/// Remove leading and trailing whitespace from a string.
pub fn trim_string(s: &str) -> (r: String)
    ensures
        r@ == trim_spec(s@),
{
    let v = str_chars(s);
    let t = trim_chars(&v);
    chars_string(&t)
}

/// Are two character vectors equal?
pub fn chars_eq(a: &Vec<char>, b: &Vec<char>) -> (r: bool)
    ensures
        r == (a@ == b@),
{
    if a.len() != b.len() {
        return false;
    }
    let n = a.len();
    let mut i: usize = 0;
    while i < n
        invariant
            0 <= i <= n,
            n == a@.len() == b@.len(),
            forall|j: int| 0 <= j < i ==> a@[j] == b@[j],
        decreases n - i,
    {
        if a[i] != b[i] {
            return false;
        }
        i = i + 1;
    }
    proof {
        assert(a@ =~= b@);
    }
    true
}

/// Concatenate two strings.
pub fn concat2(a: &str, b: &str) -> (r: String)
    ensures
        r@ == a@ + b@,
{
    let mut v = str_chars(a);
    let w = str_chars(b);
    let mut i: usize = 0;
    while i < w.len()
        invariant
            0 <= i <= w@.len(),
            v@ == a@ + w@.subrange(0, i as int),
        decreases w@.len() - i,
    {
        v.push(w[i]);
        i = i + 1;
        proof {
            assert(v@ =~= a@ + w@.subrange(0, i as int));
        }
    }
    proof {
        assert(w@.subrange(0, w@.len() as int) == w@);
    }
    chars_string(&v)
}

pub open spec fn digit_char(d: int) -> char {
    if d == 0 {
        '0'
    } else if d == 1 {
        '1'
    } else if d == 2 {
        '2'
    } else if d == 3 {
        '3'
    } else if d == 4 {
        '4'
    } else if d == 5 {
        '5'
    } else if d == 6 {
        '6'
    } else if d == 7 {
        '7'
    } else if d == 8 {
        '8'
    } else {
        '9'
    }
}

/// The decimal digits of a nonnegative integer, most significant first.
pub open spec fn dec_str(n: int) -> Seq<char>
    decreases n,
{
    if n < 10 {
        seq![digit_char(n)]
    } else {
        dec_str(n / 10).push(digit_char(n % 10))
    }
}

/// A decimal rendering is never empty.
pub proof fn lemma_dec_str_len(n: int)
    requires
        n >= 0,
    ensures
        dec_str(n).len() >= 1,
    decreases n,
{
    if n >= 10 {
        lemma_dec_str_len(n / 10);
    }
}

/// Distinct nonnegative integers render as distinct decimal text.
pub proof fn lemma_dec_str_injective(a: int, b: int)
    requires
        0 <= a,
        0 <= b,
        a != b,
    ensures
        dec_str(a) != dec_str(b),
    decreases a + b,
{
    if a < 10 && b < 10 {
        assert(dec_str(a) == seq![digit_char(a)]);
        assert(dec_str(b) == seq![digit_char(b)]);
        assert(digit_char(a) != digit_char(b));
        assert(dec_str(a)[0] != dec_str(b)[0]);
    } else if a < 10 {
        lemma_dec_str_len(b / 10);
        assert(dec_str(b) == dec_str(b / 10).push(digit_char(b % 10)));
        assert(dec_str(b).len() >= 2);
        assert(dec_str(a).len() == 1);
    } else if b < 10 {
        lemma_dec_str_len(a / 10);
        assert(dec_str(a) == dec_str(a / 10).push(digit_char(a % 10)));
        assert(dec_str(a).len() >= 2);
        assert(dec_str(b).len() == 1);
    } else {
        assert(dec_str(a) == dec_str(a / 10).push(digit_char(a % 10)));
        assert(dec_str(b) == dec_str(b / 10).push(digit_char(b % 10)));
        if a % 10 != b % 10 {
            assert(digit_char(a % 10) != digit_char(b % 10));
            assert(dec_str(a).last() != dec_str(b).last());
        } else {
            assert(a / 10 != b / 10) by {
                vstd::arithmetic::div_mod::lemma_fundamental_div_mod(a, 10);
                vstd::arithmetic::div_mod::lemma_fundamental_div_mod(b, 10);
            }
            assert(a / 10 + b / 10 < a + b) by {
                vstd::arithmetic::div_mod::lemma_div_decreases(a, 10);
                vstd::arithmetic::div_mod::lemma_div_decreases(b, 10);
            }
            lemma_dec_str_injective(a / 10, b / 10);
            if dec_str(a) == dec_str(b) {
                assert(dec_str(a / 10).push(digit_char(a % 10)).drop_last() =~= dec_str(a / 10));
                assert(dec_str(b / 10).push(digit_char(b % 10)).drop_last() =~= dec_str(b / 10));
                assert(dec_str(a / 10) == dec_str(b / 10));
                assert(false);
            }
        }
    }
}

/// The decimal rendering of an integer, with a leading minus sign when it is
/// negative.
pub open spec fn int_str(v: int) -> Seq<char> {
    if v < 0 {
        seq!['-'] + dec_str(-v)
    } else {
        dec_str(v)
    }
}

fn digit_to_char(d: u64) -> (r: char)
    requires
        d < 10,
    ensures
        r == digit_char(d as int),
{
    if d == 0 {
        '0'
    } else if d == 1 {
        '1'
    } else if d == 2 {
        '2'
    } else if d == 3 {
        '3'
    } else if d == 4 {
        '4'
    } else if d == 5 {
        '5'
    } else if d == 6 {
        '6'
    } else if d == 7 {
        '7'
    } else if d == 8 {
        '8'
    } else {
        '9'
    }
}

/// Render a `u64` in decimal.
pub fn u64_to_chars(n: u64) -> (r: Vec<char>)
    ensures
        r@ == dec_str(n as int),
{
    let mut acc: Vec<char> = Vec::new();
    let mut cur: u64 = n;
    let d0 = digit_to_char(cur % 10);
    acc.push(d0);
    cur = cur / 10;
    proof {
        if n < 10 {
            assert(dec_str(n as int) == seq![digit_char(n as int)]);
            assert(acc@ =~= seq![digit_char(n as int)]);
        } else {
            assert(dec_str(n as int) == dec_str(n as int / 10).push(digit_char(n as int % 10)));
            assert(dec_str(n as int) =~= dec_str(cur as int) + acc@);
        }
    }
    while cur > 0
        invariant
            cur > 0 ==> dec_str(n as int) == dec_str(cur as int) + acc@,
            cur == 0 ==> dec_str(n as int) == acc@,
        decreases cur,
    {
        let d = digit_to_char(cur % 10);
        let next = cur / 10;
        proof {
            if next > 0 {
                assert(cur >= 10);
                assert(dec_str(cur as int) == dec_str(cur as int / 10).push(
                    digit_char(cur as int % 10),
                ));
                assert(dec_str(cur as int) + acc@ =~= dec_str(next as int) + (seq![
                    digit_char(cur as int % 10),
                ] + acc@));
            } else {
                assert(cur < 10);
                assert(dec_str(cur as int) == seq![digit_char(cur as int)]);
                assert(dec_str(cur as int) + acc@ =~= seq![digit_char(cur as int % 10)] + acc@);
            }
        }
        acc.insert(0, d);
        cur = next;
    }
    acc
}

/// Render a `u64` in decimal as a string.
pub fn u64_to_string(n: u64) -> (r: String)
    ensures
        r@ == dec_str(n as int),
{
    let v = u64_to_chars(n);
    chars_string(&v)
}

/// Render an `i64` in decimal as a string, with a minus sign when negative.
pub fn i64_to_string(v: i64) -> (r: String)
    ensures
        r@ == int_str(v as int),
{
    if v >= 0 {
        let c = u64_to_chars(v as u64);
        chars_string(&c)
    } else {
        let mag: u64 = if v == i64::MIN {
            9223372036854775808u64
        } else {
            (-v) as u64
        };
        let c = u64_to_chars(mag);
        let mut out: Vec<char> = Vec::new();
        out.push('-');
        let mut i: usize = 0;
        while i < c.len()
            invariant
                0 <= i <= c@.len(),
                out@ == seq!['-'] + c@.subrange(0, i as int),
            decreases c@.len() - i,
        {
            out.push(c[i]);
            i = i + 1;
        }
        assert(c@.subrange(0, c@.len() as int) == c@);
        chars_string(&out)
    }
}

} // verus!
