//! `grepr`: shows the lines of files that match (or do not match) a
//! regular expression, or how many there are.
use vstd::prelude::*;
use crate::paths::WalkEntry;
use crate::pattern::{regex_build_error, regex_matches, Pattern};
use crate::text::{decimal, inclusive_lines, lines_inclusive, same_text, usize_to_string, views};

verus! {

/// The command line as given.
pub struct Args {
    pub pattern: String,
    pub files: Vec<String>,
    pub count: bool,
    pub insensitive: bool,
    pub invert_match: bool,
    pub recursive: bool,
}

/// A search to run.
pub struct Config {
    pub pattern: Pattern,
    pub files: Vec<String>,
    pub recursive: bool,
    pub count: bool,
    pub invert_match: bool,
}

/// Compiles the pattern of a command line into a search.
pub fn config_from_args(args: Args) -> (r: Result<Config, String>)
    ensures
        match regex_build_error(args.pattern@, args.insensitive) {
            None => r matches Ok(c) && c.pattern.source_text() == args.pattern@
                && c.pattern.ignores_case() == args.insensitive && c.files@ == args.files@
                && c.recursive == args.recursive && c.count == args.count && c.invert_match
                == args.invert_match,
            Some(_) => r matches Err(e) && e@ == "Invalid pattern: \""@ + args.pattern@ + "\""@,
        },
{
    match Pattern::new(args.pattern.as_str(), args.insensitive) {
        Ok(pattern) => Ok(
            Config {
                pattern,
                files: args.files,
                recursive: args.recursive,
                count: args.count,
                invert_match: args.invert_match,
            },
        ),
        Err(_) => {
            let mut e = "Invalid pattern: \"".to_owned();
            e.append(args.pattern.as_str());
            e.append("\"");
            Err(e)
        },
    }
}

/// Whether a line is kept: it matches, or with `invert` it does not.
pub open spec fn kept(pattern: Seq<char>, insensitive: bool, invert: bool, line: Seq<char>) -> bool {
    regex_matches(pattern, insensitive, line) != invert
}

/// The lines of `lines` that are kept, in order.
pub open spec fn kept_lines(
    pattern: Seq<char>,
    insensitive: bool,
    invert: bool,
    lines: Seq<Seq<char>>,
) -> Seq<Seq<char>>
    decreases lines.len(),
{
    if lines.len() == 0 {
        seq![]
    } else {
        let rest = kept_lines(pattern, insensitive, invert, lines.drop_last());
        if kept(pattern, insensitive, invert, lines.last()) {
            rest.push(lines.last())
        } else {
            rest
        }
    }
}

/// The lines of `text` (newlines kept) that match `pattern`, or with
/// `invert_match` those that do not.
pub fn find_lines(text: &str, pattern: &Pattern, invert_match: bool) -> (found: Vec<String>)
    ensures
        views(found@) == kept_lines(
            pattern.source_text(),
            pattern.ignores_case(),
            invert_match,
            inclusive_lines(text@),
        ),
{
    let lines = lines_inclusive(text);
    let ghost ls = inclusive_lines(text@);
    let ghost src = pattern.source_text();
    let ghost ins = pattern.ignores_case();
    let mut found: Vec<String> = Vec::new();
    let mut i: usize = 0;
    while i < lines.len()
        invariant
            i <= lines.len(),
            views(lines@) == ls,
            src == pattern.source_text(),
            ins == pattern.ignores_case(),
            views(found@) == kept_lines(src, ins, invert_match, ls.take(i as int)),
        decreases lines.len() - i,
    {
        let ghost s = ls.take(i + 1);
        assert(s.drop_last() =~= ls.take(i as int));
        assert(s.last() == lines@[i as int]@);
        let ghost old = views(found@);
        let m = pattern.is_match(lines[i].as_str());
        if (!invert_match && m) || (invert_match && !m) {
            found.push(lines[i].clone());
            assert(views(found@) =~= old.push(lines@[i as int]@));
        }
        i += 1;
    }
    assert(ls.take(lines.len() as int) =~= ls);
    found
}

/// The file name prefix of an output line: `name:` when several files are
/// searched.
pub open spec fn name_prefix(num_files: nat, filename: Seq<char>) -> Seq<char> {
    if num_files > 1 {
        filename + seq![':']
    } else {
        seq![]
    }
}

/// Each line after the file name prefix, one after the other.
pub open spec fn prefixed_lines(prefix: Seq<char>, lines: Seq<Seq<char>>) -> Seq<char>
    decreases lines.len(),
{
    if lines.len() == 0 {
        seq![]
    } else {
        prefixed_lines(prefix, lines.drop_last()) + prefix + lines.last()
    }
}

/// What `grepr` prints for one file: the number of found lines and a
/// newline when counting, else the found lines; each after the file name
/// when several files are searched.
pub open spec fn matches_text(lines: Seq<Seq<char>>, num_files: nat, count: bool, filename: Seq<
    char,
>) -> Seq<char> {
    if count {
        name_prefix(num_files, filename) + decimal(lines.len()) + seq!['\n']
    } else {
        prefixed_lines(name_prefix(num_files, filename), lines)
    }
}

/// What `grepr` prints for the found lines of one file.
pub fn format_matches(lines: &Vec<String>, num_files: usize, count: bool, filename: &str) -> (out:
    String)
    ensures
        out@ == matches_text(views(lines@), num_files as nat, count, filename@),
{
    let mut prefix = String::new();
    if num_files > 1 {
        prefix.append(filename);
        crate::text::push_char(&mut prefix, ':');
    }
    assert(prefix@ =~= name_prefix(num_files as nat, filename@));
    let mut out = String::new();
    if count {
        out.append(prefix.as_str());
        let n = usize_to_string(lines.len());
        out.append(n.as_str());
        crate::text::push_char(&mut out, '\n');
        assert(out@ =~= matches_text(views(lines@), num_files as nat, count, filename@));
    } else {
        let ghost ls = views(lines@);
        let mut i: usize = 0;
        while i < lines.len()
            invariant
                i <= lines.len(),
                ls == views(lines@),
                prefix@ == name_prefix(num_files as nat, filename@),
                out@ == prefixed_lines(prefix@, ls.take(i as int)),
            decreases lines.len() - i,
        {
            let ghost s = ls.take(i + 1);
            assert(s.drop_last() =~= ls.take(i as int));
            assert(s.last() == lines@[i as int]@);
            out.append(prefix.as_str());
            out.append(lines[i].as_str());
            i += 1;
        }
        assert(ls.take(lines.len() as int) =~= ls);
    }
    out
}

/// What to do with one path given on the command line.
#[derive(Debug, PartialEq, Eq)]
pub enum PathStep {
    /// Search it as it is.
    Use(String),
    /// Report this error for it.
    Refuse(String),
    /// Walk it, and search the regular files met.
    Walk,
}

/// A search result or error, by its text.
pub open spec fn result_view(r: Result<String, String>) -> Result<Seq<char>, Seq<char>> {
    match r {
        Ok(s) => Ok(s@),
        Err(e) => Err(e@),
    }
}

/// The results, by their text.
pub open spec fn result_views(v: Seq<Result<String, String>>) -> Seq<Result<Seq<char>, Seq<char>>> {
    v.map_values(|r: Result<String, String>| result_view(r))
}

/// `-` (standard input) is used as it is; a directory, when not searching
/// recursively, is refused; anything else is walked.
pub fn path_step(path: &str, recursive: bool, is_dir: bool) -> (r: PathStep)
    ensures
        path@ == "-"@ ==> (r matches PathStep::Use(p) && p@ == path@),
        path@ != "-"@ && !recursive && is_dir ==> (r matches PathStep::Refuse(e) && e@ == path@
            + " is a directory"@),
        path@ != "-"@ && (recursive || !is_dir) ==> r is Walk,
{
    if same_text(path, "-") {
        PathStep::Use(path.to_owned())
    } else if !recursive && is_dir {
        let mut e = path.to_owned();
        e.append(" is a directory");
        PathStep::Refuse(e)
    } else {
        PathStep::Walk
    }
}

/// What a walk gives to search: the regular files met, and the errors met,
/// in the order met; other entries (directories) are passed over.
pub open spec fn walk_results(entries: Seq<WalkEntry>) -> Seq<Result<Seq<char>, Seq<char>>>
    decreases entries.len(),
{
    if entries.len() == 0 {
        seq![]
    } else {
        let rest = walk_results(entries.drop_last());
        match entries.last() {
            WalkEntry::Entry { path, is_file } => if is_file {
                rest.push(Ok(path@))
            } else {
                rest
            },
            WalkEntry::Error(e) => rest.push(Err(e@)),
        }
    }
}

/// The files to search that a walk gives, and the errors it met.
pub fn walked_files(entries: &Vec<WalkEntry>) -> (r: Vec<Result<String, String>>)
    ensures
        result_views(r@) == walk_results(entries@),
{
    let mut r: Vec<Result<String, String>> = Vec::new();
    let mut i: usize = 0;
    while i < entries.len()
        invariant
            i <= entries.len(),
            result_views(r@) == walk_results(entries@.take(i as int)),
        decreases entries.len() - i,
    {
        let ghost s = entries@.take(i + 1);
        assert(s.drop_last() =~= entries@.take(i as int));
        assert(s.last() == entries@[i as int]);
        let ghost old = result_views(r@);
        match &entries[i] {
            WalkEntry::Entry { path, is_file } => {
                if *is_file {
                    r.push(Ok(path.clone()));
                    assert(result_views(r@) =~= old.push(Ok(path@)));
                }
            },
            WalkEntry::Error(e) => {
                r.push(Err(e.clone()));
                assert(result_views(r@) =~= old.push(Err(e@)));
            },
        }
        i += 1;
    }
    assert(entries@.take(entries.len() as int) =~= entries@);
    r
}

/// What one path gives to search, given whether it is a directory and what
/// walking it met.
pub open spec fn path_results(
    path: Seq<char>,
    recursive: bool,
    is_dir: bool,
    walk: Seq<WalkEntry>,
) -> Seq<Result<Seq<char>, Seq<char>>> {
    if path == "-"@ {
        seq![Ok(path)]
    } else if !recursive && is_dir {
        seq![Err(path + " is a directory"@)]
    } else {
        walk_results(walk)
    }
}

/// What all the paths give to search, one path after the other.
pub open spec fn search_list(
    paths: Seq<Seq<char>>,
    is_dir: Seq<bool>,
    walks: Seq<Vec<WalkEntry>>,
    recursive: bool,
) -> Seq<Result<Seq<char>, Seq<char>>>
    decreases paths.len(),
{
    if paths.len() == 0 {
        seq![]
    } else {
        let k = paths.len() - 1;
        search_list(paths.drop_last(), is_dir.take(k), walks.take(k), recursive) + path_results(
            paths[k],
            recursive,
            is_dir[k],
            walks[k]@,
        )
    }
}

/// The files to search, and the errors to report, for the paths given:
/// `is_dir[i]` tells whether `paths[i]` is a directory and `walks[i]` what
/// walking it met (read only where `path_step` asks for a walk).
pub fn files_to_search(
    paths: &Vec<String>,
    is_dir: &Vec<bool>,
    walks: &Vec<Vec<WalkEntry>>,
    recursive: bool,
) -> (r: Vec<Result<String, String>>)
    requires
        paths.len() == is_dir.len(),
        paths.len() == walks.len(),
    ensures
        result_views(r@) == search_list(views(paths@), is_dir@, walks@, recursive),
{
    let ghost ps = views(paths@);
    let mut r: Vec<Result<String, String>> = Vec::new();
    let mut i: usize = 0;
    while i < paths.len()
        invariant
            i <= paths.len(),
            paths.len() == is_dir.len(),
            paths.len() == walks.len(),
            ps == views(paths@),
            result_views(r@) == search_list(
                ps.take(i as int),
                is_dir@.take(i as int),
                walks@.take(i as int),
                recursive,
            ),
        decreases paths.len() - i,
    {
        proof {
            let s = ps.take(i + 1);
            assert(s.drop_last() =~= ps.take(i as int));
            assert(is_dir@.take(i + 1).take(i as int) =~= is_dir@.take(i as int));
            assert(walks@.take(i + 1).take(i as int) =~= walks@.take(i as int));
            assert(s[i as int] == paths@[i as int]@);
            reveal_strlit("-");
        }
        let ghost old = result_views(r@);
        match path_step(paths[i].as_str(), recursive, is_dir[i]) {
            PathStep::Use(p) => {
                r.push(Ok(p));
            },
            PathStep::Refuse(e) => {
                r.push(Err(e));
            },
            PathStep::Walk => {
                let mut w = walked_files(&walks[i]);
                r.append(&mut w);
            },
        }
        assert(result_views(r@) =~= old + path_results(
            paths@[i as int]@,
            recursive,
            is_dir@[i as int],
            walks@[i as int]@,
        ));
        i += 1;
    }
    assert(ps.take(paths.len() as int) =~= ps);
    assert(is_dir@.take(paths.len() as int) =~= is_dir@);
    assert(walks@.take(paths.len() as int) =~= walks@);
    r
}

/// Every line is found exactly once between a search and its inverse: the
/// lines kept by the one and by the other number as many as the lines.
pub proof fn search_and_inverse_partition(
    pattern: Seq<char>,
    insensitive: bool,
    lines: Seq<Seq<char>>,
)
    ensures
        kept_lines(pattern, insensitive, false, lines).len() + kept_lines(
            pattern,
            insensitive,
            true,
            lines,
        ).len() == lines.len(),
    decreases lines.len(),
{
    if lines.len() > 0 {
        search_and_inverse_partition(pattern, insensitive, lines.drop_last());
    }
}

} // verus!
