//! Path text handling: the file name and stem of a slash-separated path, the
//! output path of a plot, and the classification of a file extension. Paths
//! are plain text here; whether they exist is the caller's business.
use vstd::prelude::*;

use crate::cli::Cli;
use crate::split::subvec;
use crate::text::{chars_string, str_chars};

verus! {

/// The last index where `c` occurs in `s`, or -1.
pub open spec fn rfind_char(s: Seq<char>, c: char) -> int
    decreases s.len(),
{
    if s.len() == 0 {
        -1
    } else if s[s.len() - 1] == c {
        s.len() - 1
    } else {
        rfind_char(s.take(s.len() - 1), c)
    }
}

pub proof fn lemma_rfind_char_at(s: Seq<char>, c: char, k: int)
    requires
        -1 <= k < s.len(),
        k >= 0 ==> s[k] == c,
        forall|i: int| k < i < s.len() ==> s[i] != c,
    ensures
        rfind_char(s, c) == k,
    decreases s.len(),
{
    if s.len() > 0 && s[s.len() - 1] != c {
        lemma_rfind_char_at(s.take(s.len() - 1), c, k);
    }
}

/// The segment after the last slash: the file's name.
pub open spec fn file_name_of(p: Seq<char>) -> Seq<char> {
    p.skip(rfind_char(p, '/') + 1)
}

/// The name without its extension: everything before the last dot, unless
/// the only dot leads the name.
pub open spec fn stem_of(name: Seq<char>) -> Seq<char> {
    let d = rfind_char(name, '.');
    if d <= 0 {
        name
    } else {
        name.take(d)
    }
}

/// The extension after the last dot of the name, or empty when the name has
/// no dot past its first character.
pub open spec fn extension_of(p: Seq<char>) -> Seq<char> {
    let name = file_name_of(p);
    let d = rfind_char(name, '.');
    if d <= 0 {
        seq![]
    } else {
        name.skip(d + 1)
    }
}

/// Where the plot of an input file goes: `<stem>.html` inside the output
/// directory when one is set, else next to the input.
pub open spec fn output_path_spec(input: Seq<char>, out_dir: Option<Seq<char>>) -> Seq<char> {
    let nm = stem_of(file_name_of(input)) + seq!['.', 'h', 't', 'm', 'l'];
    match out_dir {
        Some(d) => if d.len() == 0 {
            nm
        } else if d[d.len() - 1] == '/' {
            d + nm
        } else {
            d + seq!['/'] + nm
        },
        None => input.take(rfind_char(input, '/') + 1) + nm,
    }
}

/// The last index of `c` in `v`, or `None`.
fn rfind_exec(v: &Vec<char>, c: char) -> (r: Option<usize>)
    ensures
        match r {
            Some(k) => k < v@.len() && rfind_char(v@, c) == k,
            None => rfind_char(v@, c) == -1,
        },
{
    let n = v.len();
    let mut i: usize = n;
    while i > 0
        invariant
            0 <= i <= n,
            n == v@.len(),
            forall|j: int| i <= j < n ==> v@[j] != c,
        decreases i,
    {
        i = i - 1;
        if v[i] == c {
            proof {
                lemma_rfind_char_at(v@, c, i as int);
            }
            return Some(i);
        }
    }
    proof {
        lemma_rfind_char_at(v@, c, -1);
    }
    None
}

/// Append `src` to `dst`.
fn extend_chars(dst: &mut Vec<char>, src: &Vec<char>)
    ensures
        final(dst)@ == old(dst)@ + src@,
{
    let n = src.len();
    let mut i: usize = 0;
    while i < n
        invariant
            0 <= i <= n,
            n == src@.len(),
            dst@ == old(dst)@ + src@.subrange(0, i as int),
        decreases n - i,
    {
        dst.push(src[i]);
        i = i + 1;
        proof {
            assert(dst@ =~= old(dst)@ + src@.subrange(0, i as int));
        }
    }
    proof {
        assert(src@.subrange(0, n as int) == src@);
    }
}

/// Build the output path for a generated plot: `<stem>.html` inside the
/// configured output directory, else next to the input file.
pub fn generate_output_path(input_path: &str, cli: &Cli) -> (r: String)
    ensures
        r@ == output_path_spec(
            input_path@,
            match cli.output {
                Some(d) => Some(d@),
                None => None,
            },
        ),
{
    let p = str_chars(input_path);
    let plen = p.len();
    let slash = rfind_exec(&p, '/');
    let name_start: usize = match slash {
        Some(k) => {
            proof {
                assert(k < plen);
            }
            k + 1
        },
        None => 0,
    };
    let name = subvec(&p, name_start, p.len());
    proof {
        assert(name@ == file_name_of(input_path@));
    }
    let dot = rfind_exec(&name, '.');
    let stem_end: usize = match dot {
        Some(k) => if k == 0 {
            name.len()
        } else {
            k
        },
        None => name.len(),
    };
    let stem = subvec(&name, 0, stem_end);
    proof {
        assert(name@.take(name@.len() as int) == name@);
        assert(stem@ == stem_of(file_name_of(input_path@)));
    }
    let suffix: Vec<char> = vec!['.', 'h', 't', 'm', 'l'];
    let mut nm = stem;
    extend_chars(&mut nm, &suffix);
    proof {
        assert(suffix@ =~= seq!['.', 'h', 't', 'm', 'l']);
    }
    match &cli.output {
        Some(d) => {
            let dchars = str_chars(d.as_str());
            if dchars.len() == 0 {
                chars_string(&nm)
            } else if dchars[dchars.len() - 1] == '/' {
                let mut out = dchars;
                extend_chars(&mut out, &nm);
                chars_string(&out)
            } else {
                let mut out = dchars;
                out.push('/');
                extend_chars(&mut out, &nm);
                proof {
                    assert(out@ =~= d@ + seq!['/'] + nm@);
                }
                chars_string(&out)
            }
        },
        None => {
            let mut out = subvec(&p, 0, name_start);
            proof {
                assert(out@ == input_path@.take(rfind_char(input_path@, '/') + 1));
            }
            extend_chars(&mut out, &nm);
            chars_string(&out)
        },
    }
}

/// The file kinds the loader dispatches on.
#[derive(PartialEq, Eq, Structural, Debug, Clone, Copy)]
pub enum FileKind {
    Csv,
    Parquet,
    Json,
    Excel,
    Audio,
    Unsupported,
}

/// What a lower-case extension loads as.
pub open spec fn kind_of_ext(e: Seq<char>) -> FileKind {
    if e == "csv"@ {
        FileKind::Csv
    } else if e == "parquet"@ {
        FileKind::Parquet
    } else if e == "json"@ || e == "jsonl"@ || e == "ndjson"@ {
        FileKind::Json
    } else if e == "xlsx"@ || e == "xls"@ {
        FileKind::Excel
    } else if e == "wav"@ || e == "mp3"@ || e == "flac"@ || e == "ogg"@ || e == "m4a"@ || e
        == "aac"@ {
        FileKind::Audio
    } else {
        FileKind::Unsupported
    }
}

/// The extensions the directory scan picks up: exactly the ones the loader
/// takes.
pub open spec fn scan_supported(e: Seq<char>) -> bool {
    !(kind_of_ext(e) is Unsupported)
}

fn ext_is(e: &Vec<char>, w: &str) -> (r: bool)
    ensures
        r == (e@ == w@),
{
    let wc = str_chars(w);
    crate::text::chars_eq(e, &wc)
}

/// Classify a lower-case extension.
pub fn classify_extension(ext_lower: &str) -> (r: FileKind)
    ensures
        r == kind_of_ext(ext_lower@),
{
    let e = str_chars(ext_lower);
    if ext_is(&e, "csv") {
        FileKind::Csv
    } else if ext_is(&e, "parquet") {
        FileKind::Parquet
    } else if ext_is(&e, "json") || ext_is(&e, "jsonl") || ext_is(&e, "ndjson") {
        FileKind::Json
    } else if ext_is(&e, "xlsx") || ext_is(&e, "xls") {
        FileKind::Excel
    } else if ext_is(&e, "wav") || ext_is(&e, "mp3") || ext_is(&e, "flac") || ext_is(&e, "ogg")
        || ext_is(&e, "m4a") || ext_is(&e, "aac") {
        FileKind::Audio
    } else {
        FileKind::Unsupported
    }
}

/// Is this lower-case extension one the directory scan keeps?
pub fn is_supported_extension(ext_lower: &str) -> (r: bool)
    ensures
        r == scan_supported(ext_lower@),
{
    let kind = classify_extension(ext_lower);
    match kind {
        FileKind::Unsupported => false,
        _ => true,
    }
}

/// What str::to_lowercase turns a string into.
pub uninterp spec fn lower_of(s: Seq<char>) -> Seq<char>;

/// Relies on str::to_lowercase: the result depends on the characters alone.
#[verifier::external_body]
fn to_lowercase(s: &str) -> (r: String)
    ensures
        r@ == lower_of(s@),
{
    s.to_lowercase()
}

/// Extract a path's extension and lower-case it.
pub fn extension_lowered(path: &str) -> (r: String)
    ensures
        r@ == lower_of(extension_of(path@)),
{
    let p = str_chars(path);
    let plen = p.len();
    let slash = rfind_exec(&p, '/');
    let name_start: usize = match slash {
        Some(k) => {
            proof {
                assert(k < plen);
            }
            k + 1
        },
        None => 0,
    };
    let name = subvec(&p, name_start, p.len());
    proof {
        assert(name@ == file_name_of(path@));
    }
    let nlen = name.len();
    let dot = rfind_exec(&name, '.');
    let ext: Vec<char> = match dot {
        Some(k) => {
            proof {
                assert(k < nlen);
            }
            if k == 0 {
                Vec::new()
            } else {
                subvec(&name, k + 1, name.len())
            }
        },
        None => Vec::new(),
    };
    proof {
        assert(ext@ =~= extension_of(path@));
        assert(name@.skip(name@.len() as int) =~= Seq::<char>::empty());
    }
    let e = chars_string(&ext);
    to_lowercase(e.as_str())
}

/// Classify a path by its lower-cased extension.
pub fn classify_path(path: &str) -> (r: FileKind)
    ensures
        r == kind_of_ext(lower_of(extension_of(path@))),
{
    let e = extension_lowered(path);
    classify_extension(e.as_str())
}

/// Does a path's lower-cased extension pass the directory scan?
pub fn path_is_supported(path: &str) -> (r: bool)
    ensures
        r == scan_supported(lower_of(extension_of(path@))),
{
    let e = extension_lowered(path);
    is_supported_extension(e.as_str())
}

} // verus!
