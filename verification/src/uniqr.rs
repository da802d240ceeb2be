//! `uniqr`: collapses runs of adjacent equal lines (equal once trailing
//! whitespace is ignored), optionally with the length of each run.
use vstd::prelude::*;
use crate::text::{decimal, inclusive_lines, lines_inclusive, pad_left, trim_end, trim_trailing, views};

verus! {

/// Where to read, where to write, and whether to count.
pub struct Config {
    pub in_file: String,
    pub out_file: Option<String>,
    pub count: bool,
}

/// The runs of `lines`: each is its first line and its length; a line joins
/// the run before it when both are equal once trailing whitespace is
/// removed.
pub open spec fn runs(lines: Seq<Seq<char>>) -> Seq<(Seq<char>, nat)>
    decreases lines.len(),
{
    if lines.len() == 0 {
        seq![]
    } else {
        let g = runs(lines.drop_last());
        let l = lines.last();
        if g.len() > 0 && trim_end(g.last().0) == trim_end(l) {
            g.update(g.len() - 1, (g.last().0, g.last().1 + 1))
        } else {
            g.push((l, 1))
        }
    }
}

/// How a run is written: its first line as read, after its length
/// right-aligned in four columns and a blank when counting.
pub open spec fn run_text(run: (Seq<char>, nat), count: bool) -> Seq<char> {
    if count {
        pad_left(decimal(run.1), 4) + seq![' '] + run.0
    } else {
        run.0
    }
}

/// What `uniqr` writes for a list of runs.
pub open spec fn runs_text(g: Seq<(Seq<char>, nat)>, count: bool) -> Seq<char>
    decreases g.len(),
{
    if g.len() == 0 {
        seq![]
    } else {
        runs_text(g.drop_last(), count) + run_text(g.last(), count)
    }
}

/// What `uniqr` writes for `text`.
pub open spec fn uniq_text(text: Seq<char>, count: bool) -> Seq<char> {
    runs_text(runs(inclusive_lines(text)), count)
}

/// The runs of adjacent equal lines of `text`, as (first line, length).
pub fn find_runs(text: &str) -> (g: Vec<(String, usize)>)
    ensures
        g@.map_values(|r: (String, usize)| (r.0@, r.1 as nat)) == runs(inclusive_lines(text@)),
{
    let lines = lines_inclusive(text);
    let ghost ls = inclusive_lines(text@);
    let mut g: Vec<(String, usize)> = Vec::new();
    let mut last_trimmed = String::new();
    let mut i: usize = 0;
    while i < lines.len()
        invariant
            i <= lines.len(),
            views(lines@) == ls,
            g@.map_values(|r: (String, usize)| (r.0@, r.1 as nat)) == runs(ls.take(i as int)),
            g@.len() > 0 ==> last_trimmed@ == trim_end(g@.last().0@),
            forall|k: int| 0 <= k < g@.len() ==> #[trigger] g@[k].1 <= i,
        decreases lines.len() - i,
    {
        let ghost s = ls.take(i + 1);
        assert(s.drop_last() =~= ls.take(i as int));
        assert(s.last() == lines@[i as int]@);
        let ghost old_g = g@;
        let t = trim_trailing(lines[i].as_str());
        let n = g.len();
        if n > 0 && crate::text::same_text(last_trimmed.as_str(), t.as_str()) {
            let (first, c) = g.pop().unwrap();
            g.push((first, c + 1));
            assert(g@.map_values(|r: (String, usize)| (r.0@, r.1 as nat)) =~= runs(s));
        } else {
            g.push((lines[i].clone(), 1));
            last_trimmed = t;
            assert(g@.map_values(|r: (String, usize)| (r.0@, r.1 as nat)) =~= runs(s));
        }
        i += 1;
    }
    assert(ls.take(lines.len() as int) =~= ls);
    g
}

/// What `uniqr` writes for `text`: each run of adjacent equal lines once,
/// with its length when counting.
pub fn uniq(text: &str, count: bool) -> (out: String)
    ensures
        out@ == uniq_text(text@, count),
{
    let g = find_runs(text);
    let ghost gv = g@.map_values(|r: (String, usize)| (r.0@, r.1 as nat));
    let mut out = String::new();
    let mut k: usize = 0;
    while k < g.len()
        invariant
            k <= g.len(),
            gv == g@.map_values(|r: (String, usize)| (r.0@, r.1 as nat)),
            out@ == runs_text(gv.take(k as int), count),
        decreases g.len() - k,
    {
        let ghost s = gv.take(k + 1);
        assert(s.drop_last() =~= gv.take(k as int));
        assert(s.last() == gv[k as int]);
        if count {
            let n = crate::text::usize_to_string(g[k].1);
            let c = crate::text::right_align(n.as_str(), 4);
            out.append(c.as_str());
            crate::text::push_char(&mut out, ' ');
        }
        out.append(g[k].0.as_str());
        assert(out@ =~= runs_text(s, count));
        k += 1;
    }
    assert(gv.take(g.len() as int) =~= gv);
    out
}


/// The total length of a list of runs.
pub open spec fn run_total(g: Seq<(Seq<char>, nat)>) -> nat
    decreases g.len(),
{
    if g.len() == 0 {
        0
    } else {
        run_total(g.drop_last()) + g.last().1
    }
}

/// The runs account for every line exactly once, none is empty, and two
/// adjacent runs differ once trailing whitespace is removed.
pub proof fn runs_cover_lines(lines: Seq<Seq<char>>)
    ensures
        run_total(runs(lines)) == lines.len(),
        forall|k: int| 0 <= k < runs(lines).len() ==> #[trigger] runs(lines)[k].1 >= 1,
        forall|k: int|
            0 < k < runs(lines).len() ==> trim_end(runs(lines)[k - 1].0) != trim_end(
                #[trigger] runs(lines)[k].0,
            ),
    decreases lines.len(),
{
    if lines.len() > 0 {
        let p = lines.drop_last();
        runs_cover_lines(p);
        let g = runs(p);
        let l = lines.last();
        if g.len() > 0 && trim_end(g.last().0) == trim_end(l) {
            let h = g.update(g.len() - 1, (g.last().0, g.last().1 + 1));
            assert(h.drop_last() =~= g.drop_last());
        } else {
            let h = g.push((l, 1));
            assert(h.drop_last() =~= g);
        }
    }
}

} // verus!
