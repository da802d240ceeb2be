//! `headr`: prints the first lines, or the first bytes, of files.
use vstd::prelude::*;
use vstd::utf8::{decode_utf8, valid_utf8};
use crate::decimal::{parsed, DecimalInt};
use crate::text::{banner, banner_text, concat_all, inclusive_lines, lines_inclusive, views};

verus! {

/// The files to print and how much of each.
pub struct Config {
    pub files: Vec<String>,
    pub lines: usize,
    pub bytes: Option<usize>,
}

/// Reads a positive count.
pub fn parse_positive_int(val: &str) -> (r: Result<usize, String>)
    ensures
        match parsed(val@, false, 0, usize::MAX as int) {
            Some(n) if n > 0 => r == Ok::<usize, String>(n as usize),
            _ => r matches Err(e) && e@ == "invalid digit found in string"@,
        },
{
    match usize::parse_decimal(val) {
        Some(n) if n > 0 => Ok(n),
        _ => Err("invalid digit found in string".to_owned()),
    }
}

/// Around the part shown of the `n`-th of `num_files` files (counted from
/// 0): the banner above it when there are several files, and whether a
/// blank line follows it (when there are several, and not after the last).
pub open spec fn head_frame(name: Seq<char>, n: int, num_files: int) -> (Option<Seq<char>>, bool) {
    (if num_files > 1 {
        Some(banner_text(name))
    } else {
        None
    }, num_files > 1 && n + 1 < num_files)
}

/// The banner above a file's part, and whether a blank line follows it.
pub fn file_frame(name: &str, n: usize, num_files: usize) -> (r: (Option<String>, bool))
    ensures
        r.1 == head_frame(name@, n as int, num_files as int).1,
        match head_frame(name@, n as int, num_files as int).0 {
            Some(h) => r.0 matches Some(b) && b@ == h,
            None => r.0 is None,
        },
{
    let header = if num_files > 1 {
        Some(banner(name))
    } else {
        None
    };
    (header, num_files > 1 && n < num_files - 1)
}

/// The text the first `n` lines of `text` make, newlines kept.
pub open spec fn first_lines(text: Seq<char>, n: nat) -> Seq<char> {
    let ls = inclusive_lines(text);
    concat_all(if n < ls.len() {
        ls.take(n as int)
    } else {
        ls
    })
}

/// The first `n` lines of `text`, newlines kept.
pub fn head_lines(text: &str, n: usize) -> (out: String)
    ensures
        out@ == first_lines(text@, n as nat),
{
    let pieces = lines_inclusive(text);
    let ghost ls = inclusive_lines(text@);
    let mut out = String::new();
    let mut i: usize = 0;
    while i < n && i < pieces.len()
        invariant
            i <= pieces.len(),
            i <= n,
            views(pieces@) == ls,
            out@ == concat_all(ls.take(i as int)),
        decreases pieces.len() - i,
    {
        let ghost s = ls.take(i + 1);
        assert(s.drop_last() =~= ls.take(i as int));
        assert(s.last() == pieces@[i as int]@);
        out.append(pieces[i].as_str());
        i += 1;
    }
    if n >= pieces.len() {
        assert(ls.take(i as int) =~= ls);
    } else {
        assert(i == n);
    }
    out
}

/// What `String::from_utf8_lossy` makes of some bytes.
pub uninterp spec fn utf8_lossy(bytes: Seq<u8>) -> Seq<char>;

/// `String::from_utf8_lossy`: the text of the bytes, each invalid sequence
/// replaced by U+FFFD.  The contract claims the result is a function of the
/// bytes, and is their decoding when they are valid UTF-8.
#[verifier::external_body]
pub(crate) fn from_utf8_lossy(bytes: &[u8]) -> (s: String)
    ensures
        s@ == utf8_lossy(bytes@),
        s@ == decode_utf8(bytes@) || !valid_utf8(bytes@),
{
    String::from_utf8_lossy(bytes).into_owned()
}

/// The first `n` bytes of `data` as text, invalid sequences replaced.
pub fn head_bytes(data: &[u8], n: usize) -> (out: String)
    ensures
        out@ == utf8_lossy(if n < data@.len() {
            data@.take(n as int)
        } else {
            data@
        }),
{
    let mut taken: Vec<u8> = Vec::new();
    let mut i: usize = 0;
    while i < n && i < data.len()
        invariant
            i <= data.len(),
            i <= n,
            taken@ == data@.take(i as int),
        decreases data.len() - i,
    {
        taken.push(data[i]);
        assert(taken@ =~= data@.take(i + 1));
        i += 1;
    }
    if n >= data.len() {
        assert(data@.take(i as int) =~= data@);
    } else {
        assert(i == n);
    }
    from_utf8_lossy(taken.as_slice())
}


/// Asking for at least as many lines as a text has gives the whole text.
pub proof fn enough_lines_give_everything(text: Seq<char>, n: nat)
    requires
        n >= inclusive_lines(text).len(),
    ensures
        first_lines(text, n) == text,
{
    crate::text::inclusive_lines_rejoin(text);
}

} // verus!
