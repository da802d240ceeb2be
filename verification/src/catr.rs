//! `catr`: prints files, optionally numbering all lines or the non-blank
//! ones.
use vstd::prelude::*;
use crate::text::{decimal, lines_of, pad_left, text_lines, usize_to_string, views};

verus! {

/// The files to print and how to number their lines.
pub struct Config {
    pub files: Vec<String>,
    pub number_lines: bool,
    pub number_nonblank_lines: bool,
}

/// The number of non-empty lines in `ls`.
pub open spec fn nonblank_count(ls: Seq<Seq<char>>) -> nat
    decreases ls.len(),
{
    if ls.len() == 0 {
        0
    } else {
        nonblank_count(ls.drop_last()) + if ls.last().len() > 0 {
            1nat
        } else {
            0nat
        }
    }
}

/// A line after its number, right-aligned in six columns, and a tab.
pub open spec fn numbered(n: nat, line: Seq<char>) -> Seq<char> {
    pad_left(decimal(n), 6) + seq!['\t'] + line
}

/// How line `k` of `ls` is printed: numbered from 1 with `number_lines`;
/// with `number_nonblank_lines`, non-empty lines numbered from 1 among the
/// non-empty ones and empty lines as they are; otherwise as it is.
pub open spec fn cat_line(ls: Seq<Seq<char>>, k: int, number_lines: bool, number_nonblank: bool) -> Seq<
    char,
> {
    if number_lines {
        numbered((k + 1) as nat, ls[k])
    } else if number_nonblank && ls[k].len() > 0 {
        numbered(nonblank_count(ls.take(k)) + 1, ls[k])
    } else {
        ls[k]
    }
}

/// The lines `catr` prints for a file with text `text`.
pub fn cat_lines(text: &str, number_lines: bool, number_nonblank_lines: bool) -> (out: Vec<String>)
    ensures
        out@.len() == text_lines(text@).len(),
        forall|k: int|
            0 <= k < out@.len() ==> (#[trigger] out@[k])@ == cat_line(
                text_lines(text@),
                k,
                number_lines,
                number_nonblank_lines,
            ),
{
    let lines = lines_of(text);
    let ghost ls = text_lines(text@);
    let mut out: Vec<String> = Vec::new();
    let mut blank: usize = 0;
    let mut i: usize = 0;
    while i < lines.len()
        invariant
            i <= lines.len(),
            views(lines@) == ls,
            out@.len() == i,
            blank <= i,
            i - blank == nonblank_count(ls.take(i as int)),
            forall|k: int|
                0 <= k < i ==> (#[trigger] out@[k])@ == cat_line(
                    ls,
                    k,
                    number_lines,
                    number_nonblank_lines,
                ),
        decreases lines.len() - i,
    {
        let ghost s = ls.take(i + 1);
        assert(s.drop_last() =~= ls.take(i as int));
        assert(s.last() == lines@[i as int]@);
        let line = &lines[i];
        let nonempty = line.unicode_len() > 0;
        let printed = if number_lines {
            let n = usize_to_string(i + 1);
            let mut p = crate::text::right_align(n.as_str(), 6);
            crate::text::push_char(&mut p, '\t');
            p.append(line.as_str());
            p
        } else if number_nonblank_lines && nonempty {
            let n = usize_to_string(i - blank + 1);
            let mut p = crate::text::right_align(n.as_str(), 6);
            crate::text::push_char(&mut p, '\t');
            p.append(line.as_str());
            p
        } else {
            line.clone()
        };
        if !nonempty {
            blank += 1;
        }
        out.push(printed);
        i += 1;
    }
    out
}

/// The count behind the numbers of non-blank lines is the number of
/// non-empty lines, whatever stands between them.
pub proof fn nonblank_count_counts_nonempty_lines(ls: Seq<Seq<char>>)
    ensures
        nonblank_count(ls) == ls.filter(|l: Seq<char>| l.len() > 0).len(),
    decreases ls.len(),
{
    reveal(Seq::filter);
    if ls.len() > 0 {
        nonblank_count_counts_nonempty_lines(ls.drop_last());
    }
}

proof fn lemma_count_over_empty_lines(ls: Seq<Seq<char>>, j: int, m: int)
    requires
        0 <= j < m <= ls.len(),
        ls[j].len() > 0,
        forall|x: int| j < x < m ==> (#[trigger] ls[x]).len() == 0,
    ensures
        nonblank_count(ls.take(m)) == nonblank_count(ls.take(j)) + 1,
    decreases m,
{
    assert(ls.take(m).drop_last() =~= ls.take(m - 1));
    assert(ls.take(m).last() == ls[m - 1]);
    if m - 1 > j {
        lemma_count_over_empty_lines(ls, j, m - 1);
    }
}

/// Numbering non-blank lines, the first non-empty line is numbered 1, and
/// each next non-empty line one more than the one before, however many
/// empty lines lie between them; empty lines are printed as they are.
pub proof fn nonblank_numbers_are_consecutive(ls: Seq<Seq<char>>, j: int, k: int)
    requires
        0 <= j < k < ls.len(),
        ls[j].len() > 0,
        ls[k].len() > 0,
        forall|x: int| j < x < k ==> (#[trigger] ls[x]).len() == 0,
    ensures
        cat_line(ls, j, false, true) == numbered(nonblank_count(ls.take(j)) + 1, ls[j]),
        cat_line(ls, k, false, true) == numbered(nonblank_count(ls.take(j)) + 2, ls[k]),
        forall|x: int| j < x < k ==> cat_line(ls, x, false, true) == ls[x],
{
    lemma_count_over_empty_lines(ls, j, k);
}

/// Numbering non-blank lines, a non-empty line with only empty lines before
/// it is numbered 1.
pub proof fn first_nonblank_line_is_one(ls: Seq<Seq<char>>, k: int)
    requires
        0 <= k < ls.len(),
        ls[k].len() > 0,
        forall|x: int| 0 <= x < k ==> (#[trigger] ls[x]).len() == 0,
    ensures
        cat_line(ls, k, false, true) == numbered(1, ls[k]),
{
    lemma_zero_count(ls, k);
}

proof fn lemma_zero_count(ls: Seq<Seq<char>>, m: int)
    requires
        0 <= m <= ls.len(),
        forall|x: int| 0 <= x < m ==> (#[trigger] ls[x]).len() == 0,
    ensures
        nonblank_count(ls.take(m)) == 0,
    decreases m,
{
    if m > 0 {
        assert(ls.take(m).drop_last() =~= ls.take(m - 1));
        assert(ls.take(m).last() == ls[m - 1]);
        lemma_zero_count(ls, m - 1);
    }
}

} // verus!
