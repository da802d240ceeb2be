//! `tailr`: shows the end of a file, or what follows a given line.
use vstd::prelude::*;
use crate::decimal::{digits_value, parsed, DecimalInt};
use crate::headr::{from_utf8_lossy, utf8_lossy};
use crate::pattern::{group_views, regex_build_error, regex_capture_groups, Pattern};
use crate::text::{banner, banner_text, concat_all, inclusive_lines, lines_inclusive, same_text, text_lines, views};

verus! {

/// How much of a file to show: `TakeNum(n)` with `n < 0` means the last
/// `-n` lines, with `n > 0` everything from line `n` on; `PlusZero` (`+0`)
/// means everything.
#[derive(Clone, Copy, Debug, PartialEq, Eq, Structural)]
pub enum TakeValue {
    PlusZero,
    TakeNum(i64),
}

/// The files to show and how much of each.
pub struct Config {
    pub files: Vec<String>,
    pub lines: TakeValue,
    pub bytes: Option<TakeValue>,
    pub quiet: bool,
}

/// The pattern of a count: an optional sign and digits.
pub open spec fn count_pattern() -> Seq<char> {
    "^([+-])?(\\d+)$"@
}

/// The message for a count that cannot be read.
pub open spec fn illegal_count(s: Seq<char>) -> Seq<char> {
    "illegal count -- "@ + s
}

/// What a count reads as, given the capture groups of the count pattern in
/// it: the digits take the sign that was written, and `-` when none was;
/// `+0` stands apart; a number out of range is refused.
pub open spec fn take_value_from_groups(s: Seq<char>, groups: Option<Seq<Option<Seq<char>>>>) -> Result<
    TakeValue,
    Seq<char>,
> {
    match groups {
        None => Err(illegal_count(s)),
        Some(g) => {
            let sign = if g.len() > 1 && g[1] is Some {
                g[1]->0
            } else {
                "-"@
            };
            if g.len() > 2 && g[2] is Some {
                match parsed(sign + g[2]->0, true, i64::MIN as int, i64::MAX as int) {
                    Some(v) => if sign == "+"@ && v == 0 {
                        Ok(TakeValue::PlusZero)
                    } else {
                        Ok(TakeValue::TakeNum(v as i64))
                    },
                    None => Err(illegal_count(s)),
                }
            } else {
                Err(illegal_count(s))
            }
        },
    }
}

/// What a count reads as.
pub open spec fn take_value_of(s: Seq<char>) -> Result<TakeValue, Seq<char>> {
    match regex_build_error(count_pattern(), false) {
        Some(_) => Err(illegal_count(s)),
        None => take_value_from_groups(s, regex_capture_groups(count_pattern(), false, s)),
    }
}

/// Turns the capture groups of the count pattern in `s` into a count.
pub fn take_value_from_captures(s: &str, groups: Option<Vec<Option<String>>>) -> (r: Result<
    TakeValue,
    String,
>)
    ensures
        match take_value_from_groups(
            s@,
            match groups {
                Some(g) => Some(group_views(g@)),
                None => None,
            },
        ) {
            Ok(v) => r == Ok::<TakeValue, String>(v),
            Err(msg) => r matches Err(e) && e@ == msg,
        },
{
    let mut err = "illegal count -- ".to_owned();
    err.append(s);
    match groups {
        None => Err(err),
        Some(g) => {
            let ghost gv = group_views(g@);
            let sign: String = if g.len() > 1 {
                assert(gv[1] == match g@[1] {
                    Some(x) => Some(x@),
                    None => None,
                });
                match &g[1] {
                    Some(x) => x.clone(),
                    None => "-".to_owned(),
                }
            } else {
                "-".to_owned()
            };
            if g.len() > 2 {
                assert(gv[2] == match g@[2] {
                    Some(x) => Some(x@),
                    None => None,
                });
                match &g[2] {
                    Some(digits) => {
                        let mut num = sign.clone();
                        num.append(digits.as_str());
                        match i64::parse_decimal(num.as_str()) {
                            Some(val) => {
                                if same_text(sign.as_str(), "+") && val == 0 {
                                    Ok(TakeValue::PlusZero)
                                } else {
                                    Ok(TakeValue::TakeNum(val))
                                }
                            },
                            None => Err(err),
                        }
                    },
                    None => Err(err),
                }
            } else {
                Err(err)
            }
        },
    }
}

impl TakeValue {
    /// Reads a count: `+N` is `TakeNum(N)`, `-N` and `N` are `TakeNum(-N)`,
    /// and `+0` is `PlusZero`.
    pub fn from_str(s: &str) -> (r: Result<TakeValue, String>)
        ensures
            match take_value_of(s@) {
                Ok(v) => r == Ok::<TakeValue, String>(v),
                Err(msg) => r matches Err(e) && e@ == msg,
            },
    {
        match Pattern::new("^([+-])?(\\d+)$", false) {
            Ok(re) => {
                let caps = re.captures(s);
                take_value_from_captures(s, caps)
            },
            Err(_) => {
                let mut err = "illegal count -- ".to_owned();
                err.append(s);
                Err(err)
            },
        }
    }
}

/// Where output starts, 0-based, for a count `take` and a file of `total`
/// lines: the last `-n` lines (all when there are fewer), or from line `n`
/// on; nothing when `n` is 0 or beyond the end, or for `+0` on an empty file.
pub open spec fn start_index(take: TakeValue, total: int) -> Option<u64> {
    match take {
        TakeValue::TakeNum(n) => if n < 0 {
            let remain = total + n;
            if remain < 0 {
                Some(0)
            } else {
                Some(remain as u64)
            }
        } else if n == 0 || n > total {
            None
        } else {
            Some((n - 1) as u64)
        },
        TakeValue::PlusZero => if total > 0 {
            Some(0)
        } else {
            None
        },
    }
}

/// Where output starts for a count and a file of `total` lines.
pub fn get_start_index(take_val: &TakeValue, total: i64) -> (r: Option<u64>)
    ensures
        r == start_index(*take_val, total as int),
{
    match take_val {
        TakeValue::TakeNum(num) => {
            if *num < 0 {
                // `total - |num|`, worked out where it cannot overflow.
                let remain: i128 = total as i128 + *num as i128;
                if remain < 0 {
                    Some(0)
                } else {
                    Some(remain as u64)
                }
            } else if *num == 0 || *num > total {
                None
            } else {
                Some((*num - 1) as u64)
            }
        },
        TakeValue::PlusZero => {
            if total > 0 {
                Some(0)
            } else {
                None
            }
        },
    }
}

/// The number of lines of `text`.
pub fn count_lines(text: &str) -> (n: usize)
    ensures
        n == text_lines(text@).len(),
{
    let v = lines_inclusive(text);
    v.len()
}

/// The lines of `text` from line `start` (0-based) on, newlines kept.
pub open spec fn lines_from(text: Seq<char>, start: int) -> Seq<char> {
    let ls = inclusive_lines(text);
    if start < ls.len() {
        concat_all(ls.skip(start))
    } else {
        seq![]
    }
}

/// What `tailr` shows of `text` for a count and a file of `total` lines:
/// the lines from the start index on, or nothing when there is none.
pub fn lines_to_print(text: &str, num_lines: &TakeValue, total_lines: i64) -> (r: Option<String>)
    ensures
        match start_index(*num_lines, total_lines as int) {
            Some(start) => r matches Some(s) && s@ == lines_from(text@, start as int),
            None => r is None,
        },
{
    match get_start_index(num_lines, total_lines) {
        None => None,
        Some(start) => {
            let pieces = lines_inclusive(text);
            let ghost ls = inclusive_lines(text@);
            let mut out = String::new();
            let mut index: usize = 0;
            while index < pieces.len()
                invariant
                    index <= pieces.len(),
                    views(pieces@) == ls,
                    out@ == (if (start as int) < index {
                        concat_all(ls.subrange(start as int, index as int))
                    } else {
                        Seq::<char>::empty()
                    }),
                decreases pieces.len() - index,
            {
                if index as u64 >= start {
                    let ghost old = out@;
                    out.append(pieces[index].as_str());
                    proof {
                        let sub = ls.subrange(start as int, index + 1);
                        assert(sub.drop_last() =~= ls.subrange(start as int, index as int));
                        assert(sub.last() == pieces@[index as int]@);
                        if (start as int) == index {
                            assert(ls.subrange(start as int, index as int) =~= Seq::<Seq<char>>::empty());
                            assert(concat_all(sub.drop_last()) =~= Seq::<char>::empty());
                        }
                        assert(concat_all(sub) == concat_all(sub.drop_last()) + sub.last());
                        assert(out@ =~= concat_all(sub));
                    }
                }
                index += 1;
            }
            proof {
                if (start as int) < ls.len() {
                    assert(ls.subrange(start as int, ls.len() as int) =~= ls.skip(start as int));
                }
            }
            Some(out)
        },
    }
}


/// The bytes of `data` from byte `start` (0-based) on.
pub open spec fn bytes_from(data: Seq<u8>, start: int) -> Seq<u8> {
    if start < data.len() {
        data.skip(start)
    } else {
        seq![]
    }
}

/// What `tailr -c` shows of `data` for a count and a file of `total_bytes`
/// bytes: the bytes from the start index on, as text with each invalid
/// sequence replaced, or nothing when there is no start index.
pub fn bytes_to_print(data: &[u8], num_bytes: &TakeValue, total_bytes: i64) -> (r: Option<String>)
    ensures
        match start_index(*num_bytes, total_bytes as int) {
            Some(start) => r matches Some(s) && s@ == utf8_lossy(bytes_from(data@, start as int)),
            None => r is None,
        },
{
    match get_start_index(num_bytes, total_bytes) {
        None => None,
        Some(start) => {
            let mut tail: Vec<u8> = Vec::new();
            let mut i: usize = 0;
            while i < data.len()
                invariant
                    i <= data.len(),
                    tail@ == (if (start as int) < i {
                        data@.subrange(start as int, i as int)
                    } else {
                        Seq::<u8>::empty()
                    }),
                decreases data.len() - i,
            {
                if i as u64 >= start {
                    tail.push(data[i]);
                    assert(tail@ =~= data@.subrange(start as int, i + 1));
                }
                i += 1;
            }
            proof {
                if (start as int) < data@.len() {
                    assert(data@.subrange(start as int, data@.len() as int) =~= data@.skip(
                        start as int,
                    ));
                }
            }
            Some(from_utf8_lossy(tail.as_slice()))
        },
    }
}

/// Around the part shown of the `n`-th of `num_files` files (counted from
/// 0): the banner above it, when there are several files and headers are
/// not suppressed, and whether a blank line follows it (under the same
/// condition, and not after the last file).
pub open spec fn tail_frame(name: Seq<char>, n: int, num_files: int, quiet: bool) -> (
    Option<Seq<char>>,
    bool,
) {
    let headed = num_files > 1 && !quiet;
    (if headed {
        Some(banner_text(name))
    } else {
        None
    }, headed && n + 1 < num_files)
}

/// The banner above a file's part, and whether a blank line follows it.
pub fn file_frame(name: &str, n: usize, num_files: usize, quiet: bool) -> (r: (Option<String>, bool))
    ensures
        r.1 == tail_frame(name@, n as int, num_files as int, quiet).1,
        match tail_frame(name@, n as int, num_files as int, quiet).0 {
            Some(h) => r.0 matches Some(b) && b@ == h,
            None => r.0 is None,
        },
{
    let headed = num_files > 1 && !quiet;
    let header = if headed {
        Some(banner(name))
    } else {
        None
    };
    (header, headed && n < num_files - 1)
}

/// The start index always falls inside a file that has lines: with a file
/// of `total` lines, output starts at a line that exists.
pub proof fn start_index_within_file(take: TakeValue, total: i64)
    requires
        total > 0,
    ensures
        start_index(take, total as int) matches Some(s) ==> s < total,
{
}

/// A negative count at least as large as the file is long shows the whole
/// file: output starts at its first line.
pub proof fn large_negative_count_shows_everything(n: i64, total: i64)
    requires
        n < 0,
        total + n <= 0,
    ensures
        start_index(TakeValue::TakeNum(n), total as int) == Some(0u64),
{
}

/// `+0` shows the whole of a text that has lines.
pub proof fn plus_zero_shows_everything(text: Seq<char>)
    requires
        text.len() > 0,
    ensures
        start_index(TakeValue::PlusZero, inclusive_lines(text).len() as int) == Some(0u64),
        lines_from(text, 0) == text,
{
    crate::text::inclusive_lines_rejoin(text);
    crate::text::lemma_inclusive_lines_len(text);
    assert(inclusive_lines(text).skip(0) =~= inclusive_lines(text));
}


/// A count written without a sign counts from the end: digits `d` with no
/// sign before them read as `TakeNum(-d)`; with a `+` they read as
/// `TakeNum(d)`, and `+0` as `PlusZero`.
pub proof fn unsigned_count_is_from_the_end(s: Seq<char>, whole: Seq<char>, d: Seq<char>)
    requires
        d.len() > 0,
        crate::decimal::all_digits(d),
        digits_value(d) <= i64::MAX,
    ensures
        take_value_from_groups(s, Some(seq![Some(whole), None, Some(d)])) == Ok::<
            TakeValue,
            Seq<char>,
        >(TakeValue::TakeNum(-(digits_value(d) as int) as i64)),
        take_value_from_groups(s, Some(seq![Some(whole), Some("+"@), Some(d)])) == Ok::<
            TakeValue,
            Seq<char>,
        >(
            if digits_value(d) == 0 {
                TakeValue::PlusZero
            } else {
                TakeValue::TakeNum(digits_value(d) as i64)
            },
        ),
{
    reveal_strlit("-");
    reveal_strlit("+");
    assert(("-"@ + d).skip(1) =~= d);
    assert(("+"@ + d).skip(1) =~= d);
    assert("-"@ != "+"@) by {
        assert("-"@[0] != "+"@[0]);
    }
}

} // verus!
