//! Recognizer for the strings accepted by Rust's floating-point parser.
//!
//! `f64::from_str` succeeds exactly on the grammar its documentation gives:
//! an optional sign, then either one of the words `inf`, `infinity`, `nan`
//! (compared case-insensitively) or a decimal number `Digit+ | Digit+ '.'
//! Digit* | Digit* '.' Digit+` with an optional exponent `('e'|'E') Sign?
//! Digit+`. The spec below states that grammar; the executable recognizer is
//! proved equivalent to it.
use vstd::prelude::*;

verus! {

pub open spec fn is_digit(c: char) -> bool {
    48 <= c as u32 <= 57
}

pub open spec fn all_digits(s: Seq<char>) -> bool {
    forall|i: int| 0 <= i < s.len() ==> is_digit(s[i])
}

/// How many leading characters of `s` are decimal digits.
pub open spec fn leading_digits(s: Seq<char>) -> int
    decreases s.len(),
{
    if s.len() > 0 && is_digit(s[0]) {
        1 + leading_digits(s.skip(1))
    } else {
        0
    }
}

pub open spec fn strip_sign(s: Seq<char>) -> Seq<char> {
    if s.len() > 0 && (s[0] == '+' || s[0] == '-') {
        s.skip(1)
    } else {
        s
    }
}

/// `c` equals the lower-case ASCII letter `l`, ignoring ASCII case.
pub open spec fn eq_lower(c: char, l: char) -> bool {
    c == l || (97 <= l as u32 <= 122 && c as u32 + 32 == l as u32)
}

/// `s` equals the lower-case ASCII word `w`, ignoring ASCII case.
pub open spec fn ci_eq(s: Seq<char>, w: Seq<char>) -> bool {
    s.len() == w.len() && forall|i: int| 0 <= i < s.len() ==> eq_lower(s[i], w[i])
}

/// An exponent after its `e`: an optional sign then at least one digit.
pub open spec fn is_exp_tail(s: Seq<char>) -> bool {
    strip_sign(s).len() > 0 && all_digits(strip_sign(s))
}

/// A decimal number: digits, an optional point with more digits, at least
/// one digit in all, and an optional exponent.
pub open spec fn is_number(t: Seq<char>) -> bool {
    let d1 = leading_digits(t);
    let rest = t.skip(d1);
    if rest.len() == 0 {
        d1 > 0
    } else if rest[0] == '.' {
        let d2 = leading_digits(rest.skip(1));
        let rest2 = rest.skip(1).skip(d2);
        (d1 > 0 || d2 > 0) && (rest2.len() == 0 || ((rest2[0] == 'e' || rest2[0] == 'E')
            && is_exp_tail(rest2.skip(1))))
    } else if rest[0] == 'e' || rest[0] == 'E' {
        d1 > 0 && is_exp_tail(rest.skip(1))
    } else {
        false
    }
}

/// The strings on which `f64::from_str` returns `Ok`.
pub open spec fn is_float_literal(s: Seq<char>) -> bool {
    ci_eq(strip_sign(s), seq!['i', 'n', 'f']) || ci_eq(
        strip_sign(s),
        seq!['i', 'n', 'f', 'i', 'n', 'i', 't', 'y'],
    ) || ci_eq(strip_sign(s), seq!['n', 'a', 'n']) || is_number(strip_sign(s))
}

fn char_is_digit(c: char) -> (r: bool)
    ensures
        r == is_digit(c),
{
    let u = c as u32;
    48 <= u && u <= 57
}

fn char_eq_lower(c: char, l: char) -> (r: bool)
    requires
        97 <= l as u32 <= 122,
    ensures
        r == eq_lower(c, l),
{
    c == l || c as u32 + 32 == l as u32
}

proof fn lemma_leading_digits_at(s: Seq<char>, k: int)
    requires
        0 <= k <= s.len(),
        forall|i: int| 0 <= i < k ==> is_digit(s[i]),
        k == s.len() || !is_digit(s[k]),
    ensures
        leading_digits(s) == k,
    decreases k,
{
    if k == 0 {
    } else {
        lemma_leading_digits_at(s.skip(1), k - 1);
    }
}

/// Count the digits of `v` from position `from` on.
fn count_digits(v: &Vec<char>, from: usize) -> (k: usize)
    requires
        from <= v@.len(),
    ensures
        from + k <= v@.len(),
        k == leading_digits(v@.skip(from as int)),
{
    let n = v.len();
    let mut i: usize = from;
    while i < n && char_is_digit(v[i])
        invariant
            from <= i <= n,
            n == v@.len(),
            forall|j: int| from <= j < i ==> is_digit(v@[j]),
        decreases n - i,
    {
        i = i + 1;
    }
    proof {
        let s = v@.skip(from as int);
        assert forall|j: int| 0 <= j < i - from implies is_digit(s[j]) by {
            assert(s[j] == v@[from + j]);
        }
        if i < n {
            assert(s[i - from] == v@[i as int]);
        }
        lemma_leading_digits_at(s, i - from);
    }
    i - from
}

/// Does `v` from position `from` on equal the lower-case ASCII word `w`,
/// ignoring ASCII case?
fn ci_eq_at(v: &Vec<char>, from: usize, w: &Vec<char>) -> (r: bool)
    requires
        from <= v@.len(),
        forall|i: int| 0 <= i < w@.len() ==> 97 <= #[trigger] w@[i] as u32 <= 122,
    ensures
        r == ci_eq(v@.skip(from as int), w@),
{
    let n = v.len();
    if n - from != w.len() {
        return false;
    }
    let mut i: usize = 0;
    while i < w.len()
        invariant
            0 <= i <= w@.len(),
            n == v@.len(),
            from + w@.len() == n,
            forall|j: int| 0 <= j < w@.len() ==> 97 <= #[trigger] w@[j] as u32 <= 122,
            forall|j: int| 0 <= j < i ==> eq_lower(v@.skip(from as int)[j], w@[j]),
        decreases w@.len() - i,
    {
        if !char_eq_lower(v[from + i], w[i]) {
            assert(v@.skip(from as int)[i as int] == v@[from + i]);
            return false;
        }
        assert(v@.skip(from as int)[i as int] == v@[from + i]);
        i = i + 1;
    }
    true
}

/// Is there an exponent tail (optional sign, then only digits, at least one)
/// at position `from`?
fn exp_tail_at(v: &Vec<char>, from: usize) -> (r: bool)
    requires
        from <= v@.len(),
    ensures
        r == is_exp_tail(v@.skip(from as int)),
{
    let n = v.len();
    let ghost s = v@.skip(from as int);
    let start: usize = if from < n && (v[from] == '+' || v[from] == '-') {
        from + 1
    } else {
        from
    };
    proof {
        if from < n && (v@[from as int] == '+' || v@[from as int] == '-') {
            assert(s[0] == v@[from as int]);
            assert(strip_sign(s) == s.skip(1));
            assert(s.skip(1) =~= v@.skip(start as int));
        } else {
            if s.len() > 0 {
                assert(s[0] == v@[from as int]);
            }
            assert(strip_sign(s) == s);
            assert(s =~= v@.skip(start as int));
        }
    }
    let k = count_digits(v, start);
    let ghost rest = v@.skip(start as int);
    if k == 0 {
        proof {
            if rest.len() > 0 {
                assert(!is_digit(rest[0])) by {
                    if is_digit(rest[0]) {
                        assert(leading_digits(rest) == 1 + leading_digits(rest.skip(1)));
                        assert(leading_digits(rest) > 0) by {
                            lemma_leading_digits_nonneg(rest.skip(1));
                        }
                    }
                }
            }
        }
        return false;
    }
    if start + k == n {
        proof {
            assert forall|i: int| 0 <= i < rest.len() implies is_digit(rest[i]) by {
                lemma_digits_prefix(rest, k as int);
            }
        }
        true
    } else {
        proof {
            lemma_digits_prefix(rest, k as int);
            assert(!is_digit(rest[k as int]));
        }
        false
    }
}

proof fn lemma_leading_digits_nonneg(s: Seq<char>)
    ensures
        leading_digits(s) >= 0,
    decreases s.len(),
{
    if s.len() > 0 && is_digit(s[0]) {
        lemma_leading_digits_nonneg(s.skip(1));
    }
}

/// The first `leading_digits(s)` characters are digits, and the next one, if
/// any, is not.
proof fn lemma_digits_prefix(s: Seq<char>, k: int)
    requires
        k == leading_digits(s),
    ensures
        0 <= k <= s.len(),
        forall|i: int| 0 <= i < k ==> is_digit(s[i]),
        k < s.len() ==> !is_digit(s[k]),
    decreases s.len(),
{
    if s.len() > 0 && is_digit(s[0]) {
        lemma_digits_prefix(s.skip(1), k - 1);
        assert forall|i: int| 0 <= i < k implies is_digit(s[i]) by {
            if i > 0 {
                assert(s.skip(1)[i - 1] == s[i]);
            }
        }
        if k < s.len() {
            assert(s.skip(1)[k - 1] == s[k]);
        }
    }
}

/// Decide whether `v` is a string `f64::from_str` accepts.
pub fn check_float_chars(v: &Vec<char>) -> (r: bool)
    ensures
        r == is_float_literal(v@),
{
    let n = v.len();
    let from: usize = if n > 0 && (v[0] == '+' || v[0] == '-') {
        1
    } else {
        0
    };
    proof {
        if n > 0 && (v@[0] == '+' || v@[0] == '-') {
            assert(strip_sign(v@) == v@.skip(1));
        } else {
            assert(strip_sign(v@) == v@);
            assert(v@.skip(0) == v@);
        }
        assert(strip_sign(v@) =~= v@.skip(from as int));
    }
    let w_inf: Vec<char> = vec!['i', 'n', 'f'];
    let w_infinity: Vec<char> = vec!['i', 'n', 'f', 'i', 'n', 'i', 't', 'y'];
    let w_nan: Vec<char> = vec!['n', 'a', 'n'];
    if ci_eq_at(v, from, &w_inf) || ci_eq_at(v, from, &w_infinity) || ci_eq_at(v, from, &w_nan) {
        return true;
    }
    // Decimal number: digits, optional point and digits, optional exponent.
    let ghost t = v@.skip(from as int);
    let d1 = count_digits(v, from);
    let p1 = from + d1;
    proof {
        assert(t.skip(d1 as int) =~= v@.skip(p1 as int));
    }
    if p1 == n {
        return d1 > 0;
    }
    let c = v[p1];
    assert(c == t.skip(d1 as int)[0]);
    if c == '.' {
        let d2 = count_digits(v, p1 + 1);
        let p2 = p1 + 1 + d2;
        proof {
            assert(t.skip(d1 as int).skip(1) =~= v@.skip(p1 + 1));
            assert(t.skip(d1 as int).skip(1).skip(d2 as int) =~= v@.skip(p2 as int));
        }
        if d1 == 0 && d2 == 0 {
            return false;
        }
        if p2 == n {
            return true;
        }
        let c2 = v[p2];
        assert(c2 == t.skip(d1 as int).skip(1).skip(d2 as int)[0]);
        if c2 == 'e' || c2 == 'E' {
            let r = exp_tail_at(v, p2 + 1);
            proof {
                assert(t.skip(d1 as int).skip(1).skip(d2 as int).skip(1) =~= v@.skip(p2 + 1));
            }
            r
        } else {
            false
        }
    } else if c == 'e' || c == 'E' {
        if d1 == 0 {
            return false;
        }
        let r = exp_tail_at(v, p1 + 1);
        proof {
            assert(t.skip(d1 as int).skip(1) =~= v@.skip(p1 + 1));
        }
        r
    } else {
        false
    }
}

/// Decide whether `s` is a string `f64::from_str` accepts.
pub fn check_float_str(s: &str) -> (r: bool)
    ensures
        r == is_float_literal(s@),
{
    let v = crate::text::str_chars(s);
    check_float_chars(&v)
}

} // verus!
