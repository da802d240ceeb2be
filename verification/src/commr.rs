//! `commr`: compares two sorted files line by line and shows the lines found
//! only in the first file, only in the second, and in both, in three
//! columns.
use vstd::prelude::*;
use crate::text::{
    compare_text, lines_of, lowercase, same_text, text_less, text_lines, to_lowercase, views,
    Precedence,
};

verus! {

/// The command line as given.
pub struct Args {
    pub file1: String,
    pub file2: String,
    pub insensitive: bool,
    pub suppress_col1: bool,
    pub suppress_col2: bool,
    pub suppress_col3: bool,
    pub delimiter: String,
}

/// What a comparison is asked to do.
pub struct Config {
    pub file1: String,
    pub file2: String,
    pub show_col1: bool,
    pub show_col2: bool,
    pub show_col3: bool,
    pub insensitive: bool,
    pub delimiter: String,
}

/// The column that a line goes to.
#[derive(Clone, Copy, Debug, PartialEq, Eq, Structural)]
pub enum Column {
    /// Only in the first file.
    First,
    /// Only in the second file.
    Second,
    /// In both files.
    Both,
}

/// The configuration that a command line asks for: a column is shown unless
/// it is suppressed.
pub fn config_from_args(args: Args) -> (c: Config)
    ensures
        c.file1@ == args.file1@,
        c.file2@ == args.file2@,
        c.show_col1 == !args.suppress_col1,
        c.show_col2 == !args.suppress_col2,
        c.show_col3 == !args.suppress_col3,
        c.insensitive == args.insensitive,
        c.delimiter@ == args.delimiter@,
{
    Config {
        file1: args.file1,
        file2: args.file2,
        show_col1: !args.suppress_col1,
        show_col2: !args.suppress_col2,
        show_col3: !args.suppress_col3,
        insensitive: args.insensitive,
        delimiter: args.delimiter,
    }
}

/// Both inputs cannot be standard input.
pub fn check_inputs(config: &Config) -> (r: Result<(), String>)
    ensures
        r is Err <==> (config.file1@ == seq!['-'] && config.file2@ == seq!['-']),
        r matches Err(e) ==> e@ == "Both input files cannot be STDIN (\"-\")"@,
{
    proof {
        reveal_strlit("-");
    }
    assert("-"@ =~= seq!['-']);
    if same_text(config.file1.as_str(), "-") && same_text(config.file2.as_str(), "-") {
        Err("Both input files cannot be STDIN (\"-\")".to_owned())
    } else {
        Ok(())
    }
}

/// How a line is shown: lower-cased when the comparison ignores case.
pub open spec fn shown(c: Config, line: Seq<char>) -> Seq<char> {
    if c.insensitive {
        lowercase(line)
    } else {
        line
    }
}

/// What a shown line is compared by: lower-cased once more when the
/// comparison ignores case.
pub open spec fn sort_key(c: Config, shown_line: Seq<char>) -> Seq<char> {
    if c.insensitive {
        lowercase(shown_line)
    } else {
        shown_line
    }
}

/// The column of each line, walking both files at once: the smaller of the
/// two current lines goes first and only its file moves on; equal lines go to
/// the third column together; once one file is exhausted, the rest of the
/// other follows.
pub open spec fn merge(c: Config, a: Seq<Seq<char>>, b: Seq<Seq<char>>) -> Seq<(Column, Seq<char>)>
    decreases a.len() + b.len(),
{
    if a.len() == 0 && b.len() == 0 {
        seq![]
    } else if a.len() == 0 {
        seq![(Column::Second, b[0])] + merge(c, a, b.skip(1))
    } else if b.len() == 0 {
        seq![(Column::First, a[0])] + merge(c, a.skip(1), b)
    } else {
        let x = shown(c, a[0]);
        let y = shown(c, b[0]);
        if sort_key(c, x) == sort_key(c, y) {
            seq![(Column::Both, x)] + merge(c, a.skip(1), b.skip(1))
        } else if text_less(sort_key(c, x), sort_key(c, y)) {
            seq![(Column::First, x)] + merge(c, a.skip(1), b)
        } else {
            seq![(Column::Second, y)] + merge(c, a, b.skip(1))
        }
    }
}

/// The output line for a line in column `col`: the columns before it that
/// are shown hold the delimiter, and nothing is printed when `col` is hidden.
pub open spec fn render_row(c: Config, col: Column, t: Seq<char>) -> Option<Seq<char>> {
    let has1 = col == Column::First && c.show_col1;
    let has2 = col == Column::Second && c.show_col2;
    let has3 = col == Column::Both && c.show_col3;
    if !(has1 || has2 || has3) {
        None
    } else {
        Some(
            (if has1 {
                t
            } else if c.show_col1 && (has2 || has3) {
                c.delimiter@
            } else {
                seq![]
            }) + (if has2 {
                t
            } else if c.show_col2 && has3 {
                c.delimiter@
            } else {
                seq![]
            }) + (if has3 {
                t
            } else {
                seq![]
            }),
        )
    }
}

/// The output lines for a sequence of placed lines.
pub open spec fn rendered(c: Config, rows: Seq<(Column, Seq<char>)>) -> Seq<Seq<char>>
    decreases rows.len(),
{
    if rows.len() == 0 {
        seq![]
    } else {
        match render_row(c, rows[0].0, rows[0].1) {
            Some(l) => seq![l] + rendered(c, rows.skip(1)),
            None => rendered(c, rows.skip(1)),
        }
    }
}

/// The output line for a line in column `col`, if it is shown.
pub fn format_row(config: &Config, col: Column, t: &str) -> (r: Option<String>)
    ensures
        match render_row(*config, col, t@) {
            Some(l) => r matches Some(s) && s@ == l,
            None => r is None,
        },
{
    let has1 = col == Column::First && config.show_col1;
    let has2 = col == Column::Second && config.show_col2;
    let has3 = col == Column::Both && config.show_col3;
    if !(has1 || has2 || has3) {
        return None;
    }
    let mut out = String::new();
    if has1 {
        out.append(t);
    } else if config.show_col1 && (has2 || has3) {
        out.append(config.delimiter.as_str());
    }
    if has2 {
        out.append(t);
    } else if config.show_col2 && has3 {
        out.append(config.delimiter.as_str());
    }
    if has3 {
        out.append(t);
    }
    assert(out@ =~= render_row(*config, col, t@).unwrap());
    Some(out)
}

proof fn lemma_rendered_append(c: Config, r1: Seq<(Column, Seq<char>)>, r2: Seq<(Column, Seq<char>)>)
    ensures
        rendered(c, r1 + r2) == rendered(c, r1) + rendered(c, r2),
    decreases r1.len(),
{
    if r1.len() == 0 {
        assert(r1 + r2 =~= r2);
    } else {
        assert((r1 + r2).skip(1) =~= r1.skip(1) + r2);
        lemma_rendered_append(c, r1.skip(1), r2);
        assert((r1 + r2)[0] == r1[0]);
    }
}

/// The output lines of comparing the lines `a` of the first file with the
/// lines `b` of the second.
pub fn compare_lines(config: &Config, a: &Vec<String>, b: &Vec<String>) -> (out: Vec<String>)
    ensures
        views(out@) == rendered(*config, merge(*config, views(a@), views(b@))),
{
    let ghost c = *config;
    let ghost va = views(a@);
    let ghost vb = views(b@);
    let mut out: Vec<String> = Vec::new();
    let mut i: usize = 0;
    let mut j: usize = 0;
    assert(va.skip(0) =~= va);
    assert(vb.skip(0) =~= vb);
    assert(views(out@) + rendered(c, merge(c, va, vb)) =~= rendered(c, merge(c, va, vb)));
    while i < a.len() || j < b.len()
        invariant
            i <= a.len(),
            j <= b.len(),
            c == *config,
            va == views(a@),
            vb == views(b@),
            views(out@) + rendered(c, merge(c, va.skip(i as int), vb.skip(j as int))) == rendered(
                c,
                merge(c, va, vb),
            ),
        decreases a.len() - i + b.len() - j,
    {
        let ghost sa = va.skip(i as int);
        let ghost sb = vb.skip(j as int);
        let ghost rows = merge(c, sa, sb);
        let col: Column;
        let text: String;
        if i < a.len() && j < b.len() {
            assert(sa[0] == a@[i as int]@);
            assert(sb[0] == b@[j as int]@);
            let x = if config.insensitive {
                to_lowercase(a[i].as_str())
            } else {
                a[i].clone()
            };
            let y = if config.insensitive {
                to_lowercase(b[j].as_str())
            } else {
                b[j].clone()
            };
            let kx = if config.insensitive {
                to_lowercase(x.as_str())
            } else {
                x.clone()
            };
            let ky = if config.insensitive {
                to_lowercase(y.as_str())
            } else {
                y.clone()
            };
            match compare_text(kx.as_str(), ky.as_str()) {
                Precedence::Same => {
                    col = Column::Both;
                    text = x;
                    assert(sa.skip(1) =~= va.skip(i + 1));
                    assert(sb.skip(1) =~= vb.skip(j + 1));
                    i += 1;
                    j += 1;
                },
                Precedence::Before => {
                    col = Column::First;
                    text = x;
                    assert(sa.skip(1) =~= va.skip(i + 1));
                    i += 1;
                },
                Precedence::After => {
                    col = Column::Second;
                    text = y;
                    assert(sb.skip(1) =~= vb.skip(j + 1));
                    j += 1;
                },
            }
        } else if i < a.len() {
            assert(sa[0] == a@[i as int]@);
            assert(sb.len() == 0);
            col = Column::First;
            text = a[i].clone();
            assert(sa.skip(1) =~= va.skip(i + 1));
            i += 1;
        } else {
            assert(sb[0] == b@[j as int]@);
            assert(sa.len() == 0);
            col = Column::Second;
            text = b[j].clone();
            assert(sb.skip(1) =~= vb.skip(j + 1));
            j += 1;
        }
        let ghost rest = merge(c, va.skip(i as int), vb.skip(j as int));
        assert(rows =~= seq![(col, text@)] + rest);
        let ghost single = seq![(col, text@)];
        proof {
            lemma_rendered_append(c, single, rest);
            assert(single.skip(1) =~= Seq::<(Column, Seq<char>)>::empty());
            assert(single[0] == (col, text@));
            assert(rendered(c, single.skip(1)) == Seq::<Seq<char>>::empty());
            match render_row(c, col, text@) {
                Some(l) => {
                    assert(rendered(c, single) =~= seq![l]);
                },
                None => {
                    assert(rendered(c, single) =~= Seq::<Seq<char>>::empty());
                },
            }
        }
        let ghost old_out = views(out@);
        match format_row(config, col, text.as_str()) {
            Some(line) => {
                out.push(line);
                assert(views(out@) =~= old_out.push(render_row(c, col, text@).unwrap()));
            },
            None => {},
        }
        assert(views(out@) + rendered(c, rest) =~= old_out + rendered(c, rows));
    }
    assert(va.skip(i as int) =~= Seq::<Seq<char>>::empty());
    assert(vb.skip(j as int) =~= Seq::<Seq<char>>::empty());
    assert(views(out@) =~= views(out@) + rendered(c, merge(c, va.skip(i as int), vb.skip(j as int))));
    out
}

/// The output lines of comparing the text of the first file with the text of
/// the second, line by line.
pub fn compare_texts(config: &Config, text1: &str, text2: &str) -> (out: Vec<String>)
    ensures
        views(out@) == rendered(*config, merge(*config, text_lines(text1@), text_lines(text2@))),
{
    let a = lines_of(text1);
    let b = lines_of(text2);
    compare_lines(config, &a, &b)
}


/// How many placed lines come from the first file (columns one and three).
pub open spec fn taken_from_first(rows: Seq<(Column, Seq<char>)>) -> nat
    decreases rows.len(),
{
    if rows.len() == 0 {
        0
    } else {
        (if rows[0].0 == Column::Second {
            0nat
        } else {
            1nat
        }) + taken_from_first(rows.skip(1))
    }
}

/// How many placed lines come from the second file (columns two and three).
pub open spec fn taken_from_second(rows: Seq<(Column, Seq<char>)>) -> nat
    decreases rows.len(),
{
    if rows.len() == 0 {
        0
    } else {
        (if rows[0].0 == Column::First {
            0nat
        } else {
            1nat
        }) + taken_from_second(rows.skip(1))
    }
}

/// Every line of each file is placed exactly once: the lines placed in the
/// first and third columns are as many as the first file has, and those in
/// the second and third as many as the second file has.
pub proof fn merge_places_every_line(c: Config, a: Seq<Seq<char>>, b: Seq<Seq<char>>)
    ensures
        taken_from_first(merge(c, a, b)) == a.len(),
        taken_from_second(merge(c, a, b)) == b.len(),
    decreases a.len() + b.len(),
{
    let rows = merge(c, a, b);
    if a.len() == 0 && b.len() == 0 {
    } else if a.len() == 0 {
        merge_places_every_line(c, a, b.skip(1));
        assert(rows.skip(1) =~= merge(c, a, b.skip(1)));
    } else if b.len() == 0 {
        merge_places_every_line(c, a.skip(1), b);
        assert(rows.skip(1) =~= merge(c, a.skip(1), b));
    } else {
        let x = shown(c, a[0]);
        let y = shown(c, b[0]);
        if sort_key(c, x) == sort_key(c, y) {
            merge_places_every_line(c, a.skip(1), b.skip(1));
            assert(rows.skip(1) =~= merge(c, a.skip(1), b.skip(1)));
        } else if text_less(sort_key(c, x), sort_key(c, y)) {
            merge_places_every_line(c, a.skip(1), b);
            assert(rows.skip(1) =~= merge(c, a.skip(1), b));
        } else {
            merge_places_every_line(c, a, b.skip(1));
            assert(rows.skip(1) =~= merge(c, a, b.skip(1)));
        }
    }
}


/// The texts placed in the first and third columns, in order.
pub open spec fn texts_from_first(rows: Seq<(Column, Seq<char>)>) -> Seq<Seq<char>>
    decreases rows.len(),
{
    if rows.len() == 0 {
        seq![]
    } else {
        (if rows[0].0 == Column::Second {
            Seq::<Seq<char>>::empty()
        } else {
            seq![rows[0].1]
        }) + texts_from_first(rows.skip(1))
    }
}

/// The texts placed in the second and third columns, in order.
pub open spec fn texts_from_second(rows: Seq<(Column, Seq<char>)>) -> Seq<Seq<char>>
    decreases rows.len(),
{
    if rows.len() == 0 {
        seq![]
    } else {
        (if rows[0].0 == Column::First {
            Seq::<Seq<char>>::empty()
        } else {
            seq![rows[0].1]
        }) + texts_from_second(rows.skip(1))
    }
}

/// When case matters, reading the first and third columns top to bottom
/// gives back the first file line for line, and the second and third columns
/// give back the second file.
pub proof fn columns_give_back_the_files(c: Config, a: Seq<Seq<char>>, b: Seq<Seq<char>>)
    requires
        !c.insensitive,
    ensures
        texts_from_first(merge(c, a, b)) == a,
        texts_from_second(merge(c, a, b)) == b,
    decreases a.len() + b.len(),
{
    let rows = merge(c, a, b);
    if a.len() == 0 && b.len() == 0 {
    } else if a.len() == 0 {
        columns_give_back_the_files(c, a, b.skip(1));
        assert(rows.skip(1) =~= merge(c, a, b.skip(1)));
        assert(b =~= seq![b[0]] + b.skip(1));
        assert(texts_from_first(rows) =~= a);
    } else if b.len() == 0 {
        columns_give_back_the_files(c, a.skip(1), b);
        assert(rows.skip(1) =~= merge(c, a.skip(1), b));
        assert(a =~= seq![a[0]] + a.skip(1));
        assert(texts_from_second(rows) =~= b);
    } else {
        let x = shown(c, a[0]);
        let y = shown(c, b[0]);
        assert(a =~= seq![a[0]] + a.skip(1));
        assert(b =~= seq![b[0]] + b.skip(1));
        if sort_key(c, x) == sort_key(c, y) {
            columns_give_back_the_files(c, a.skip(1), b.skip(1));
            assert(rows.skip(1) =~= merge(c, a.skip(1), b.skip(1)));
        } else if text_less(sort_key(c, x), sort_key(c, y)) {
            columns_give_back_the_files(c, a.skip(1), b);
            assert(rows.skip(1) =~= merge(c, a.skip(1), b));
            assert(texts_from_second(rows) =~= texts_from_second(rows.skip(1)));
        } else {
            columns_give_back_the_files(c, a, b.skip(1));
            assert(rows.skip(1) =~= merge(c, a, b.skip(1)));
            assert(texts_from_first(rows) =~= texts_from_first(rows.skip(1)));
        }
    }
}

/// The delimiter, when the column it stands for is shown, and nothing
/// otherwise.
pub open spec fn gap(shown: bool, delimiter: Seq<char>) -> Seq<char> {
    if shown {
        delimiter
    } else {
        seq![]
    }
}

/// What a line of each column looks like: a line only in the first file is
/// printed as it is; a line only in the second is preceded by one delimiter
/// when the first column is shown; a line in both by one delimiter for each
/// of the first two columns that is shown, and none for a suppressed one.  A
/// line whose column is suppressed is not printed.
pub proof fn rows_carry_one_delimiter_per_shown_column(c: Config, t: Seq<char>)
    ensures
        render_row(c, Column::First, t) == (if c.show_col1 {
            Some(t)
        } else {
            None
        }),
        render_row(c, Column::Second, t) == (if c.show_col2 {
            Some(gap(c.show_col1, c.delimiter@) + t)
        } else {
            None
        }),
        render_row(c, Column::Both, t) == (if c.show_col3 {
            Some(gap(c.show_col1, c.delimiter@) + gap(c.show_col2, c.delimiter@) + t)
        } else {
            None
        }),
{
    assert(t + seq![] + seq![] =~= t);
    assert(gap(c.show_col1, c.delimiter@) + t + seq![] =~= gap(c.show_col1, c.delimiter@) + t);
    assert(seq![] + gap(c.show_col2, c.delimiter@) + t =~= gap(c.show_col2, c.delimiter@) + t);
    if !c.show_col1 {
        assert(seq![] + t + seq![] =~= t);
        assert(gap(c.show_col1, c.delimiter@) + t =~= t);
        assert(gap(c.show_col1, c.delimiter@) + gap(c.show_col2, c.delimiter@) + t =~= gap(
            c.show_col2,
            c.delimiter@,
        ) + t);
    }
    if !c.show_col2 {
        assert(gap(c.show_col1, c.delimiter@) + gap(c.show_col2, c.delimiter@) + t =~= gap(
            c.show_col1,
            c.delimiter@,
        ) + t);
        assert(gap(c.show_col1, c.delimiter@) + seq![] + t =~= gap(c.show_col1, c.delimiter@) + t);
    }
}

} // verus!
