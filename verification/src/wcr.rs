//! `wcr`: counts the lines, words, bytes and characters of files.
use vstd::prelude::*;
use vstd::utf8::encode_utf8;
use crate::text::{chars_of, decimal, is_white, is_whitespace, pad_left, same_text, usize_to_string};

verus! {

/// The counts of one file.
#[derive(Debug, PartialEq, Eq, Structural)]
pub struct FileInfo {
    pub num_lines: usize,
    pub num_words: usize,
    pub num_bytes: usize,
    pub num_chars: usize,
}

/// What to count, and in which files.
pub struct Config {
    pub files: Vec<String>,
    pub lines: bool,
    pub words: bool,
    pub bytes: bool,
    pub chars: bool,
}

/// The number of newlines in `s`.
pub open spec fn newline_count(s: Seq<char>) -> nat
    decreases s.len(),
{
    if s.len() == 0 {
        0
    } else {
        newline_count(s.drop_last()) + if s.last() == '\n' {
            1nat
        } else {
            0nat
        }
    }
}

/// The number of lines of `s`: its newlines, and one more when it ends in
/// text without a newline.
pub open spec fn line_count(s: Seq<char>) -> nat {
    newline_count(s) + if s.len() > 0 && s.last() != '\n' {
        1nat
    } else {
        0nat
    }
}

/// The number of words of `s`: the characters that are not whitespace and
/// come first or after whitespace.
pub open spec fn word_count(s: Seq<char>) -> nat
    decreases s.len(),
{
    if s.len() == 0 {
        0
    } else {
        let p = s.drop_last();
        word_count(p) + if !is_white(s.last()) && (p.len() == 0 || is_white(p.last())) {
            1nat
        } else {
            0nat
        }
    }
}

/// The number of bytes of `s` in UTF-8.
pub open spec fn byte_count(s: Seq<char>) -> nat {
    encode_utf8(s).len()
}

/// Counts the lines, words, bytes and characters of `text`.
pub fn count(text: &str) -> (info: FileInfo)
    ensures
        info.num_lines == line_count(text@),
        info.num_words == word_count(text@),
        info.num_bytes == text.len(),
        info.num_bytes == byte_count(text@),
        info.num_chars == text@.len(),
{
    let chars = chars_of(text);
    let mut newlines: usize = 0;
    let mut words: usize = 0;
    let mut i: usize = 0;
    while i < chars.len()
        invariant
            i <= chars.len(),
            chars@ == text@,
            newlines == newline_count(chars@.take(i as int)),
            words == word_count(chars@.take(i as int)),
            newlines <= i,
            i > 0 && chars@[i - 1] != '\n' ==> newlines < i,
            words <= i,
        decreases chars.len() - i,
    {
        let c = chars[i];
        let ghost s = chars@.take(i + 1);
        assert(s.drop_last() =~= chars@.take(i as int));
        if c == '\n' {
            newlines += 1;
        }
        if !is_whitespace(c) && (i == 0 || is_whitespace(chars[i - 1])) {
            words += 1;
        }
        i += 1;
    }
    assert(chars@.take(chars.len() as int) =~= chars@);
    let n = chars.len();
    let lines = if n > 0 && chars[n - 1] != '\n' {
        newlines + 1
    } else {
        newlines
    };
    let bytes = text.as_bytes().len();
    FileInfo { num_lines: lines, num_words: words, num_bytes: bytes, num_chars: n }
}

/// Turns on the line, word and byte counts when no count was asked for.
pub fn fill_default_counts(config: &mut Config)
    ensures
        final(config).files@ == old(config).files@,
        final(config).chars == old(config).chars,
        if !old(config).lines && !old(config).words && !old(config).bytes && !old(config).chars {
            final(config).lines && final(config).words && final(config).bytes
        } else {
            final(config).lines == old(config).lines && final(config).words == old(
                config,
            ).words && final(config).bytes == old(config).bytes
        },
{
    if !config.lines && !config.words && !config.bytes && !config.chars {
        config.lines = true;
        config.words = true;
        config.bytes = true;
    }
}

/// A count right-aligned in eight columns, when it is asked for.
pub open spec fn column(show: bool, n: nat) -> Seq<char> {
    if show {
        pad_left(decimal(n), 8)
    } else {
        seq![]
    }
}

/// The report line for one file (or for the total): the counts asked for,
/// each in eight columns, then a blank and the name unless it is `-`.
pub open spec fn report_line(
    config: Config,
    num_lines: nat,
    num_words: nat,
    num_bytes: nat,
    num_chars: nat,
    filename: Seq<char>,
) -> Seq<char> {
    column(config.lines, num_lines) + column(config.words, num_words) + column(
        config.bytes,
        num_bytes,
    ) + column(config.chars, num_chars) + if filename != seq!['-'] {
        seq![' '] + filename
    } else {
        seq![]
    }
}

fn append_column(out: &mut String, show: bool, n: usize)
    ensures
        final(out)@ == old(out)@ + column(show, n as nat),
{
    if show {
        let s = usize_to_string(n);
        let c = crate::text::right_align(s.as_str(), 8);
        out.append(c.as_str());
    } else {
        assert(old(out)@ + column(show, n as nat) =~= old(out)@);
    }
}

/// The report line for one file.
pub fn report(
    config: &Config,
    num_lines: usize,
    num_words: usize,
    num_bytes: usize,
    num_chars: usize,
    filename: &str,
) -> (line: String)
    ensures
        line@ == report_line(
            *config,
            num_lines as nat,
            num_words as nat,
            num_bytes as nat,
            num_chars as nat,
            filename@,
        ),
{
    let mut out = String::new();
    append_column(&mut out, config.lines, num_lines);
    append_column(&mut out, config.words, num_words);
    append_column(&mut out, config.bytes, num_bytes);
    append_column(&mut out, config.chars, num_chars);
    let dash = same_text(filename, "-");
    proof {
        reveal_strlit("-");
    }
    assert("-"@ =~= seq!['-']);
    if !dash {
        crate::text::push_char(&mut out, ' ');
        out.append(filename);
    }
    assert(out@ =~= report_line(
        *config,
        num_lines as nat,
        num_words as nat,
        num_bytes as nat,
        num_chars as nat,
        filename@,
    ));
    out
}

/// One of the four counts.
#[derive(Clone, Copy, PartialEq, Eq, Structural)]
pub enum Tally {
    Lines,
    Words,
    Bytes,
    Chars,
}

/// One count of a file's counts.
pub open spec fn tally_of(i: FileInfo, which: Tally) -> nat {
    match which {
        Tally::Lines => i.num_lines as nat,
        Tally::Words => i.num_words as nat,
        Tally::Bytes => i.num_bytes as nat,
        Tally::Chars => i.num_chars as nat,
    }
}

/// The sum of one count over a list of counts.
pub open spec fn total_of(infos: Seq<FileInfo>, which: Tally) -> nat
    decreases infos.len(),
{
    if infos.len() == 0 {
        0
    } else {
        total_of(infos.drop_last(), which) + tally_of(infos.last(), which)
    }
}

/// Whether each total fits in a `usize`.
pub open spec fn totals_fit(infos: Seq<FileInfo>) -> bool {
    total_of(infos, Tally::Lines) <= usize::MAX && total_of(infos, Tally::Words) <= usize::MAX
        && total_of(infos, Tally::Bytes) <= usize::MAX && total_of(infos, Tally::Chars)
        <= usize::MAX
}

proof fn lemma_total_monotone(infos: Seq<FileInfo>, k: int, which: Tally)
    requires
        0 <= k <= infos.len(),
    ensures
        total_of(infos.take(k), which) <= total_of(infos, which),
    decreases infos.len(),
{
    if k < infos.len() {
        assert(infos.drop_last().take(k) =~= infos.take(k));
        lemma_total_monotone(infos.drop_last(), k, which);
    } else {
        assert(infos.take(k) =~= infos);
    }
}

/// The totals over several files, when they fit in a `usize`.
pub fn totals(infos: &Vec<FileInfo>) -> (r: Option<FileInfo>)
    ensures
        r is Some <==> totals_fit(infos@),
        r matches Some(t) ==> t.num_lines == total_of(infos@, Tally::Lines) && t.num_words
            == total_of(infos@, Tally::Words) && t.num_bytes == total_of(infos@, Tally::Bytes)
            && t.num_chars == total_of(infos@, Tally::Chars),
{
    let mut t = FileInfo { num_lines: 0, num_words: 0, num_bytes: 0, num_chars: 0 };
    let mut k: usize = 0;
    while k < infos.len()
        invariant
            k <= infos.len(),
            t.num_lines == total_of(infos@.take(k as int), Tally::Lines),
            t.num_words == total_of(infos@.take(k as int), Tally::Words),
            t.num_bytes == total_of(infos@.take(k as int), Tally::Bytes),
            t.num_chars == total_of(infos@.take(k as int), Tally::Chars),
        decreases infos.len() - k,
    {
        let ghost next = infos@.take(k + 1);
        assert(next.drop_last() =~= infos@.take(k as int));
        assert(next.last() == infos@[k as int]);
        let i = &infos[k];
        let l = t.num_lines.checked_add(i.num_lines);
        let w = t.num_words.checked_add(i.num_words);
        let b = t.num_bytes.checked_add(i.num_bytes);
        let c = t.num_chars.checked_add(i.num_chars);
        match (l, w, b, c) {
            (Some(l), Some(w), Some(b), Some(c)) => {
                t = FileInfo { num_lines: l, num_words: w, num_bytes: b, num_chars: c };
            },
            _ => {
                proof {
                    lemma_total_monotone(infos@, k + 1, Tally::Lines);
                    lemma_total_monotone(infos@, k + 1, Tally::Words);
                    lemma_total_monotone(infos@, k + 1, Tally::Bytes);
                    lemma_total_monotone(infos@, k + 1, Tally::Chars);
                }
                return None;
            },
        }
        k += 1;
    }
    assert(infos@.take(infos.len() as int) =~= infos@);
    Some(t)
}


proof fn lemma_counts_append(a: Seq<char>, b: Seq<char>)
    requires
        a.len() == 0 || a.last() == '\n',
    ensures
        newline_count(a + b) == newline_count(a) + newline_count(b),
        word_count(a + b) == word_count(a) + word_count(b),
    decreases b.len(),
{
    if b.len() == 0 {
        assert(a + b =~= a);
    } else {
        let p = b.drop_last();
        assert((a + b).drop_last() =~= a + p);
        assert((a + b).last() == b.last());
        lemma_counts_append(a, p);
        if p.len() == 0 {
            assert(a + p =~= a);
        } else {
            assert((a + p).last() == p.last());
        }
    }
}

proof fn lemma_encode_append(a: Seq<char>, b: Seq<char>)
    ensures
        encode_utf8(a + b) == encode_utf8(a) + encode_utf8(b),
    decreases a.len(),
{
    if a.len() == 0 {
        assert(a + b =~= b);
        assert(encode_utf8(a) + encode_utf8(b) =~= encode_utf8(b));
    } else {
        assert((a + b).drop_first() =~= a.drop_first() + b);
        assert((a + b)[0] == a[0]);
        lemma_encode_append(a.drop_first(), b);
        assert(encode_utf8(a + b) =~= encode_utf8(a) + encode_utf8(b));
    }
}

/// Counting two texts one after the other, the first empty or ending in a
/// newline, gives the sums of their line, word, byte and character counts:
/// the total that `wcr` reports over several files is what it would count
/// in their concatenation.
pub proof fn counts_add_up(a: Seq<char>, b: Seq<char>)
    requires
        a.len() == 0 || a.last() == '\n',
    ensures
        line_count(a + b) == line_count(a) + line_count(b),
        word_count(a + b) == word_count(a) + word_count(b),
        byte_count(a + b) == byte_count(a) + byte_count(b),
        (a + b).len() == a.len() + b.len(),
{
    lemma_encode_append(a, b);
    lemma_counts_append(a, b);
    if b.len() > 0 {
        assert((a + b).last() == b.last());
    } else {
        assert(a + b =~= a);
    }
}

/// Words are separated by any whitespace (in the sense of
/// `char::is_whitespace`, as `str::split_whitespace` splits): putting one
/// whitespace character in place of another, a tab for a blank say, never
/// changes the word count.
pub proof fn any_whitespace_separates_words(s: Seq<char>, i: int, c: char)
    requires
        0 <= i < s.len(),
        is_white(s[i]),
        is_white(c),
    ensures
        word_count(s.update(i, c)) == word_count(s),
    decreases s.len(),
{
    let t = s.update(i, c);
    let n = s.len() - 1;
    if i == n {
        assert(t.drop_last() =~= s.drop_last());
    } else {
        assert(t.drop_last() =~= s.drop_last().update(i, c));
        any_whitespace_separates_words(s.drop_last(), i, c);
        assert(t.last() == s.last());
        if i == n - 1 {
            assert(t.drop_last().last() == c);
        } else if n > 0 {
            assert(t.drop_last().last() == s.drop_last().last());
        }
    }
}

/// A text, a whitespace character and another text hold the words of the
/// one and of the other: whitespace of any kind ends a word.
pub proof fn whitespace_ends_words(a: Seq<char>, c: char, b: Seq<char>)
    requires
        is_white(c),
    ensures
        word_count(a + seq![c] + b) == word_count(a) + word_count(b),
    decreases b.len(),
{
    if b.len() == 0 {
        assert(a + seq![c] + b =~= a.push(c));
        assert((a + seq![c] + b).drop_last() =~= a);
    } else {
        let s = a + seq![c] + b;
        assert(s.drop_last() =~= a + seq![c] + b.drop_last());
        whitespace_ends_words(a, c, b.drop_last());
        assert(s.last() == b.last());
        if b.len() == 1 {
            assert(s.drop_last().last() == c);
            assert(b.drop_last().len() == 0);
        } else {
            assert(s.drop_last().last() == b.drop_last().last());
        }
    }
}

/// Among ASCII characters, the whitespace that separates words is exactly
/// the blank, the tab, the line feed, the vertical tab, the form feed and
/// the carriage return.
pub proof fn ascii_word_separators(c: char)
    requires
        (c as u32) < 128,
    ensures
        is_white(c) <==> (c == ' ' || c == '\t' || c == '\n' || c == '\x0b' || c == '\x0c' || c
            == '\r'),
{
}

} // verus!
