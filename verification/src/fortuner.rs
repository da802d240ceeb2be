//! `fortuner`: reads fortune files (quotations separated by lines holding
//! only `%`), and shows a random one or all those matching a pattern.
use vstd::prelude::*;
use rand::seq::IndexedRandom;
use rand::SeedableRng;
use crate::paths::{
    WalkEntry,
    components, compare_components, file_name, name_mark, parts_less, parts_less_irreflexive,
    parts_less_total, parts_less_transitive, path_less, path_parts,
};
use crate::pattern::{regex_build_error, regex_matches, Pattern};
use crate::text::{chars_of, joined_lines, join_lines, lines_of, same_text, text_lines, views, Precedence};

verus! {

/// The command line as given.
pub struct Args {
    pub sources: Vec<String>,
    pub pattern: Option<String>,
    pub seed: Option<u64>,
    pub insensitive: bool,
}

/// What to show.
pub struct Config {
    pub sources: Vec<String>,
    pub pattern: Option<Pattern>,
    pub seed: Option<u64>,
}

/// One quotation and the file it comes from.
#[derive(Debug)]
pub struct Fortune {
    /// The name of the file it was read from.
    pub source: String,
    /// The quotation, without the `%` lines.
    pub text: String,
}

/// Compiles the pattern of a command line, if any.
pub fn config_from_args(args: Args) -> (r: Result<Config, String>)
    ensures
        match args.pattern {
            None => r matches Ok(c) && c.pattern is None && c.sources@ == args.sources@ && c.seed
                == args.seed,
            Some(p) => match regex_build_error(p@, args.insensitive) {
                None => r matches Ok(c) && c.pattern matches Some(q) && q.source_text() == p@
                    && q.ignores_case() == args.insensitive && c.sources@ == args.sources@
                    && c.seed == args.seed,
                Some(_) => r matches Err(e) && e@ == "Invalid --pattern \""@ + p@ + "\""@,
            },
        },
{
    let pattern = match &args.pattern {
        None => None,
        Some(p) => match Pattern::new(p.as_str(), args.insensitive) {
            Ok(q) => Some(q),
            Err(_) => {
                let mut e = "Invalid --pattern \"".to_owned();
                e.append(p.as_str());
                e.append("\"");
                return Err(e);
            },
        },
    };
    Ok(Config { sources: args.sources, pattern, seed: args.seed })
}

/// Whether a file name has the extension `dat`, as `Path::extension` reads
/// it: what follows its last `.` is `dat`, and something stands before that
/// `.` (a name such as `.dat` has no extension).
pub open spec fn dat_name(name: Seq<char>) -> bool {
    name.len() > 4 && name.skip(name.len() - 4) == seq!['.', 'd', 'a', 't']
}

/// Whether the components of a path end in a name whose extension is `dat`.
pub open spec fn dat_parts(parts: Seq<Seq<char>>) -> bool {
    parts.len() > 0 && parts.last().len() > 0 && parts.last()[0] == name_mark() && dat_name(
        parts.last().skip(1),
    )
}

/// Whether a path names a `.dat` file (an index, not a fortune file): its
/// file name has the extension `dat`.
pub open spec fn is_dat_file(p: Seq<char>) -> bool {
    file_name(p) matches Some(n) && dat_name(n)
}

/// Whether components end in a name with the extension `dat`.
fn has_dat_extension(parts: &Vec<String>) -> (r: bool)
    ensures
        r == dat_parts(views(parts@)),
{
    if parts.len() == 0 {
        return false;
    }
    let last = chars_of(parts[parts.len() - 1].as_str());
    let n = last.len();
    let ghost l = views(parts@).last();
    assert(l == last@);
    if n > 5 && last[0] == '\u{4}' {
        let ghost name = l.skip(1);
        assert(name.skip(name.len() - 4) =~= last@.subrange(n - 4, n as int));
        let r = last[n - 4] == '.' && last[n - 3] == 'd' && last[n - 2] == 'a' && last[n - 1] == 't';
        proof {
            if r {
                assert(last@.subrange(n - 4, n as int) =~= seq!['.', 'd', 'a', 't']);
            } else if dat_name(name) {
                assert(last@.subrange(n - 4, n as int)[0] == last@[n - 4]);
                assert(last@.subrange(n - 4, n as int)[3] == last@[n - 1]);
                assert(last@.subrange(n - 4, n as int)[1] == last@[n - 3]);
                assert(last@.subrange(n - 4, n as int)[2] == last@[n - 2]);
            }
        }
        r
    } else {
        false
    }
}

/// The components of each path, as the library writes them.
pub open spec fn key_views(keys: Seq<Vec<String>>) -> Seq<Seq<Seq<char>>> {
    keys.map_values(|k: Vec<String>| views(k@))
}

/// Whether components are in strictly ascending order.
pub open spec fn ascending(ks: Seq<Seq<Seq<char>>>) -> bool {
    forall|i: int, j: int| 0 <= i < j < ks.len() ==> parts_less(#[trigger] ks[i], #[trigger] ks[j])
}

proof fn lemma_insert_ascending(ks: Seq<Seq<Seq<char>>>, pos: int, k: Seq<Seq<char>>)
    requires
        ascending(ks),
        0 <= pos <= ks.len(),
        forall|j: int| 0 <= j < pos ==> parts_less(#[trigger] ks[j], k),
        pos < ks.len() ==> parts_less(k, ks[pos]),
    ensures
        ascending(ks.insert(pos, k)),
{
    let s = ks.insert(pos, k);
    ks.insert_ensures(pos, k);
    assert forall|i: int, j: int| 0 <= i < j < s.len() implies parts_less(
        #[trigger] s[i],
        #[trigger] s[j],
    ) by {
        if j < pos {
            assert(s[i] == ks[i] && s[j] == ks[j]);
        } else if j == pos {
            assert(s[i] == ks[i]);
        } else if i == pos {
            assert(s[j] == ks[j - 1]);
            if j - 1 > pos {
                assert(parts_less(ks[pos], ks[j - 1]));
                parts_less_transitive(k, ks[pos], ks[j - 1]);
            }
        } else if i < pos {
            assert(s[i] == ks[i] && s[j] == ks[j - 1]);
        } else {
            assert(s[i] == ks[i - 1] && s[j] == ks[j - 1]);
        }
    }
}

/// Each path of `r` has the components at the same place in `ks`.
pub open spec fn keyed(r: Seq<String>, ks: Seq<Seq<Seq<char>>>) -> bool {
    r.len() == ks.len() && forall|j: int| 0 <= j < r.len() ==> #[trigger] ks[j] == path_parts(r[j]@)
}

/// Whether `p` is one of the first `n` paths found, not a `.dat` file, and
/// the first of them with its components.
pub open spec fn found_among(found: Seq<String>, n: int, p: Seq<char>) -> bool {
    exists|i: int|
        0 <= i < n && i < found.len() && found[i]@ == p && !is_dat_file(p) && forall|i2: int|
            0 <= i2 < i ==> path_parts(#[trigger] found[i2]@) != path_parts(p)
}

/// Whether a path with components `k` is among `r`.
pub open spec fn listed(r: Seq<String>, k: Seq<Seq<char>>) -> bool {
    exists|j: int| 0 <= j < r.len() && path_parts(r[j]@) == k
}

/// Each path of `r` is one of the first `n` paths found, and not a `.dat`
/// file.
pub open spec fn drawn_from(r: Seq<String>, found: Seq<String>, n: int) -> bool {
    forall|j: int| 0 <= j < r.len() ==> found_among(found, n, #[trigger] r[j]@)
}

/// Each of the first `n` paths found that is not a `.dat` file has its
/// components among those of `r`.
pub open spec fn covers(r: Seq<String>, found: Seq<String>, n: int) -> bool {
    forall|i: int|
        0 <= i < n && i < found.len() && !is_dat_file(#[trigger] found[i]@) ==> listed(
            r,
            path_parts(found[i]@),
        )
}

/// `p` put in its place among the ascending paths `v`, unless a path with
/// the same components is there already.
pub open spec fn insert_sorted(v: Seq<Seq<char>>, p: Seq<char>) -> Seq<Seq<char>>
    decreases v.len(),
{
    if v.len() == 0 {
        seq![p]
    } else if path_parts(v[0]) == path_parts(p) {
        v
    } else if path_less(p, v[0]) {
        seq![p] + v
    } else {
        seq![v[0]] + insert_sorted(v.drop_first(), p)
    }
}

/// The fortune files among the paths found: each path that is not a `.dat`
/// file is put in its place among those before it, unless a path with the
/// same components is there already.
pub open spec fn fortune_list(found: Seq<Seq<char>>) -> Seq<Seq<char>>
    decreases found.len(),
{
    if found.len() == 0 {
        seq![]
    } else {
        let v = fortune_list(found.drop_last());
        if is_dat_file(found.last()) {
            v
        } else {
            insert_sorted(v, found.last())
        }
    }
}

proof fn lemma_insert_sorted(v: Seq<Seq<char>>, p: Seq<char>, pos: int)
    requires
        0 <= pos <= v.len(),
        forall|j: int| 0 <= j < pos ==> path_less(#[trigger] v[j], p),
        (pos < v.len() && path_parts(v[pos]) == path_parts(p)) || pos == v.len() || path_less(
            p,
            v[pos],
        ),
    ensures
        pos < v.len() && path_parts(v[pos]) == path_parts(p) ==> insert_sorted(v, p) == v,
        !(pos < v.len() && path_parts(v[pos]) == path_parts(p)) ==> insert_sorted(v, p) == v.insert(
            pos,
            p,
        ),
    decreases pos,
{
    parts_less_irreflexive(path_parts(p));
    if v.len() == 0 {
        assert(v.insert(0, p) =~= seq![p]);
    } else if pos == 0 {
        if path_parts(v[0]) != path_parts(p) {
            assert(v.insert(0, p) =~= seq![p] + v);
        }
    } else {
        assert(path_less(v[0], p));
        parts_less_total(path_parts(v[0]), path_parts(p));
        let w = v.drop_first();
        assert forall|j: int| 0 <= j < pos - 1 implies path_less(#[trigger] w[j], p) by {
            assert(w[j] == v[j + 1]);
        }
        assert(pos - 1 < w.len() ==> w[pos - 1] == v[pos]);
        lemma_insert_sorted(w, p, pos - 1);
        if pos < v.len() && path_parts(v[pos]) == path_parts(p) {
            assert(seq![v[0]] + w =~= v);
        } else {
            assert(seq![v[0]] + w.insert(pos - 1, p) =~= v.insert(pos, p));
        }
    }
}

/// Puts `p` (with components `parts`) in its place among the ascending
/// paths `r` (with components `keys`), unless a path with the same
/// components is there already; says where it went, or where the same one
/// stands.
fn insert_path(r: &mut Vec<String>, keys: &mut Vec<Vec<String>>, p: &String, parts: Vec<String>) -> (res: (
    usize,
    bool,
))
    requires
        keyed(old(r)@, key_views(old(keys)@)),
        ascending(key_views(old(keys)@)),
        views(parts@) == path_parts(p@),
    ensures
        keyed(final(r)@, key_views(final(keys)@)),
        ascending(key_views(final(keys)@)),
        res.0 <= old(r)@.len(),
        res.1 ==> final(r)@ == old(r)@.insert(res.0 as int, *p) && !listed(old(r)@, path_parts(p@)),
        !res.1 ==> final(r)@ == old(r)@ && res.0 < old(r)@.len() && path_parts(old(r)@[res.0 as int]@)
            == path_parts(p@),
        views(final(r)@) == insert_sorted(views(old(r)@), p@),
{
    let ghost kp = views(parts@);
    let ghost ks = key_views(keys@);
    let mut pos: usize = 0;
    let mut same = false;
    while pos < r.len()
        invariant_except_break
            pos <= r.len(),
            !same,
        invariant
            r@.len() == keys@.len(),
            ks == key_views(keys@),
            kp == views(parts@),
            forall|j: int| 0 <= j < pos ==> parts_less(#[trigger] ks[j], kp),
        ensures
            pos <= r.len(),
            forall|j: int| 0 <= j < pos ==> parts_less(#[trigger] ks[j], kp),
            same ==> pos < r.len() && ks[pos as int] == kp,
            !same ==> pos == r.len() || parts_less(kp, ks[pos as int]),
        decreases r.len() - pos,
    {
        assert(ks[pos as int] == views(keys@[pos as int]@));
        match compare_components(&keys[pos], &parts) {
            Precedence::Before => {
                pos += 1;
            },
            Precedence::Same => {
                same = true;
                break ;
            },
            Precedence::After => {
                break ;
            },
        }
    }
    proof {
        let v = views(r@);
        assert forall|j: int| 0 <= j < pos implies path_less(#[trigger] v[j], p@) by {
            assert(ks[j] == path_parts(r@[j]@));
        }
        if pos < r.len() {
            assert(ks[pos as int] == path_parts(v[pos as int]));
        }
        lemma_insert_sorted(v, p@, pos as int);
    }
    if same {
        return (pos, false);
    }
    let ghost old_r = r@;
    proof {
        lemma_insert_ascending(ks, pos as int, kp);
        parts_less_irreflexive(kp);
        assert forall|j: int| 0 <= j < old_r.len() implies path_parts(old_r[j]@) != kp by {
            assert(ks[j] == path_parts(old_r[j]@));
            if j > pos {
                assert(parts_less(ks[pos as int], ks[j]));
                parts_less_transitive(kp, ks[pos as int], ks[j]);
            }
        }
    }
    r.insert(pos, p.clone());
    keys.insert(pos, parts);
    proof {
        old_r.insert_ensures(pos as int, *p);
        ks.insert_ensures(pos as int, kp);
        assert(key_views(keys@) =~= ks.insert(pos as int, kp));
        assert forall|j: int| 0 <= j < r@.len() implies #[trigger] key_views(keys@)[j] == path_parts(
            r@[j]@,
        ) by {
            if j < pos {
                assert(r@[j] == old_r[j]);
            } else if j > pos {
                assert(r@[j] == old_r[j - 1]);
            }
        }
    }
    (pos, true)
}

proof fn lemma_take_next(
    r_old: Seq<String>,
    r: Seq<String>,
    found: Seq<String>,
    n: int,
    pos: int,
    inserted: bool,
)
    requires
        0 <= n < found.len(),
        drawn_from(r_old, found, n),
        covers(r_old, found, n),
        0 <= pos <= r_old.len(),
        !is_dat_file(found[n]@),
        inserted ==> r == r_old.insert(pos, found[n]) && !listed(r_old, path_parts(found[n]@)),
        !inserted ==> r == r_old && pos < r_old.len() && path_parts(r_old[pos]@) == path_parts(
            found[n]@,
        ),
    ensures
        drawn_from(r, found, n + 1),
        covers(r, found, n + 1),
{
    assert forall|p: Seq<char>| found_among(found, n, p) implies found_among(found, n + 1, p) by {
        let i = choose|i: int|
            0 <= i < n && i < found.len() && found[i]@ == p && !is_dat_file(p) && forall|i2: int|
                0 <= i2 < i ==> path_parts(#[trigger] found[i2]@) != path_parts(p);
        assert(0 <= i < n + 1);
    }
    if inserted {
        assert forall|i2: int| 0 <= i2 < n implies path_parts(#[trigger] found[i2]@) != path_parts(
            found[n]@,
        ) by {
            if path_parts(found[i2]@) == path_parts(found[n]@) {
                assert(is_dat_file(found[i2]@) == is_dat_file(found[n]@));
                assert(listed(r_old, path_parts(found[i2]@)));
            }
        }
        assert(found_among(found, n + 1, found[n]@));
        r_old.insert_ensures(pos, found[n]);
        assert forall|j: int| 0 <= j < r.len() implies found_among(found, n + 1, #[trigger] r[j]@) by {
            if j < pos {
                assert(r[j] == r_old[j]);
                assert(found_among(found, n, r_old[j]@));
            } else if j > pos {
                assert(r[j] == r_old[j - 1]);
                assert(found_among(found, n, r_old[j - 1]@));
            }
        }
        assert forall|k: Seq<Seq<char>>| listed(r_old, k) implies listed(r, k) by {
            let j0 = choose|j: int| 0 <= j < r_old.len() && path_parts(r_old[j]@) == k;
            if j0 < pos {
                assert(r[j0] == r_old[j0]);
            } else {
                assert(r[j0 + 1] == r_old[j0]);
            }
        }
        assert(r[pos] == found[n]);
        assert(listed(r, path_parts(found[n]@)));
    } else {
        assert(listed(r, path_parts(found[n]@)));
    }
}

proof fn lemma_skip_next(r: Seq<String>, found: Seq<String>, n: int)
    requires
        0 <= n < found.len(),
        drawn_from(r, found, n),
        covers(r, found, n),
        is_dat_file(found[n]@),
    ensures
        drawn_from(r, found, n + 1),
        covers(r, found, n + 1),
{
    assert forall|j: int| 0 <= j < r.len() implies found_among(found, n + 1, #[trigger] r[j]@) by {
        assert(found_among(found, n, r[j]@));
        let p = r[j]@;
        let i = choose|i: int|
            0 <= i < n && i < found.len() && found[i]@ == p && !is_dat_file(p) && forall|i2: int|
                0 <= i2 < i ==> path_parts(#[trigger] found[i2]@) != path_parts(p);
        assert(0 <= i < n + 1);
    }
}

/// The fortune files among the files found: each found path whose
/// extension is not `dat`, in ascending order component by component (as
/// `PathBuf` sorts), and each path once (paths with the same components
/// count as the same path, and the first found of them is kept, as a stable
/// sort followed by removing repeats keeps it).
pub fn fortune_files(found: &Vec<String>) -> (r: Vec<String>)
    ensures
        forall|i: int, j: int| 0 <= i < j < r@.len() ==> path_less(#[trigger] r@[i]@, #[trigger] r@[j]@),
        forall|j: int| 0 <= j < r@.len() ==> found_among(found@, found@.len() as int, #[trigger] r@[j]@),
        forall|i: int|
            0 <= i < found@.len() && !is_dat_file(#[trigger] found@[i]@) ==> listed(
                r@,
                path_parts(found@[i]@),
            ),
        views(r@) == fortune_list(views(found@)),
{
    let ghost fv = views(found@);
    let mut r: Vec<String> = Vec::new();
    let mut keys: Vec<Vec<String>> = Vec::new();
    let mut idx: usize = 0;
    while idx < found.len()
        invariant
            idx <= found.len(),
            keyed(r@, key_views(keys@)),
            ascending(key_views(keys@)),
            drawn_from(r@, found@, idx as int),
            covers(r@, found@, idx as int),
            fv == views(found@),
            views(r@) == fortune_list(fv.take(idx as int)),
        decreases found.len() - idx,
    {
        let parts = components(found[idx].as_str());
        let ghost r_old = r@;
        proof {
            let t = fv.take(idx + 1);
            assert(t.drop_last() =~= fv.take(idx as int));
            assert(t.last() == found@[idx as int]@);
        }
        if has_dat_extension(&parts) {
            proof {
                lemma_skip_next(r@, found@, idx as int);
            }
        } else {
            let (pos, inserted) = insert_path(&mut r, &mut keys, &found[idx], parts);
            proof {
                lemma_take_next(r_old, r@, found@, idx as int, pos as int, inserted);
            }
        }
        idx += 1;
    }
    proof {
        assert(fv.take(found.len() as int) =~= fv);
        let ks = key_views(keys@);
        assert forall|i: int, j: int| 0 <= i < j < r@.len() implies path_less(
            #[trigger] r@[i]@,
            #[trigger] r@[j]@,
        ) by {
            assert(ks[i] == path_parts(r@[i]@));
            assert(ks[j] == path_parts(r@[j]@));
        }
    }
    r
}

/// What looking at one source met.
pub enum SourceWalk {
    /// The source cannot be looked at (it does not exist): the error's text.
    Missing(String),
    /// What walking the source met, in order.
    Walked(Vec<WalkEntry>),
}

/// The regular files a walk met, in order; errors and other entries are
/// passed over.
pub open spec fn walk_files(ws: Seq<WalkEntry>) -> Seq<Seq<char>>
    decreases ws.len(),
{
    if ws.len() == 0 {
        seq![]
    } else {
        let rest = walk_files(ws.drop_last());
        match ws.last() {
            WalkEntry::Entry { path, is_file } => if is_file {
                rest.push(path@)
            } else {
                rest
            },
            WalkEntry::Error(_) => rest,
        }
    }
}

/// The text of the first error a walk met, if any.
pub open spec fn first_walk_error(ws: Seq<WalkEntry>) -> Option<Seq<char>>
    decreases ws.len(),
{
    if ws.len() == 0 {
        None
    } else {
        match first_walk_error(ws.drop_last()) {
            Some(e) => Some(e),
            None => match ws.last() {
                WalkEntry::Error(e) => Some(e@),
                _ => None,
            },
        }
    }
}

/// The paths found under the sources, source after source, skipping what
/// cannot be read; the first source that cannot be looked at is an error,
/// its name, `: ` and the error's text.
pub open spec fn gathered(sources: Seq<Seq<char>>, walks: Seq<SourceWalk>) -> Result<
    Seq<Seq<char>>,
    Seq<char>,
>
    decreases walks.len(),
{
    if walks.len() == 0 {
        Ok(seq![])
    } else {
        let k = walks.len() - 1;
        match gathered(sources.take(k), walks.drop_last()) {
            Err(e) => Err(e),
            Ok(fs) => match walks.last() {
                SourceWalk::Missing(e) => Err(sources[k] + seq![':', ' '] + e@),
                SourceWalk::Walked(ws) => Ok(fs + walk_files(ws@)),
            },
        }
    }
}

/// The paths found under the sources, source after source; the first error
/// met while walking is the result.
pub open spec fn gathered_strictly(walks: Seq<Vec<WalkEntry>>) -> Result<Seq<Seq<char>>, Seq<char>>
    decreases walks.len(),
{
    if walks.len() == 0 {
        Ok(seq![])
    } else {
        match gathered_strictly(walks.drop_last()) {
            Err(e) => Err(e),
            Ok(fs) => match first_walk_error(walks.last()@) {
                Some(e) => Err(e),
                None => Ok(fs + walk_files(walks.last()@)),
            },
        }
    }
}

proof fn lemma_gathered_stays(sources: Seq<Seq<char>>, walks: Seq<SourceWalk>, i: int)
    requires
        0 <= i <= walks.len(),
        sources.len() == walks.len(),
        gathered(sources.take(i), walks.take(i)) is Err,
    ensures
        gathered(sources, walks) == gathered(sources.take(i), walks.take(i)),
    decreases walks.len(),
{
    if i == walks.len() {
        assert(sources.take(i) =~= sources);
        assert(walks.take(i) =~= walks);
    } else {
        let k = walks.len() - 1;
        assert(sources.take(k).take(i) =~= sources.take(i));
        assert(walks.drop_last().take(i) =~= walks.take(i));
        lemma_gathered_stays(sources.take(k), walks.drop_last(), i);
    }
}

proof fn lemma_gathered_strictly_stays(walks: Seq<Vec<WalkEntry>>, i: int)
    requires
        0 <= i <= walks.len(),
        gathered_strictly(walks.take(i)) is Err,
    ensures
        gathered_strictly(walks) == gathered_strictly(walks.take(i)),
    decreases walks.len(),
{
    if i == walks.len() {
        assert(walks.take(i) =~= walks);
    } else {
        assert(walks.drop_last().take(i) =~= walks.take(i));
        lemma_gathered_strictly_stays(walks.drop_last(), i);
    }
}

/// The regular files a walk met, in order.
fn regular_files(ws: &Vec<WalkEntry>, found: &mut Vec<String>)
    ensures
        views(final(found)@) == views(old(found)@) + walk_files(ws@),
{
    let ghost start = views(found@);
    let mut i: usize = 0;
    while i < ws.len()
        invariant
            i <= ws.len(),
            views(found@) == start + walk_files(ws@.take(i as int)),
        decreases ws.len() - i,
    {
        let ghost t = ws@.take(i + 1);
        assert(t.drop_last() =~= ws@.take(i as int));
        assert(t.last() == ws@[i as int]);
        let ghost before = views(found@);
        match &ws[i] {
            WalkEntry::Entry { path, is_file } => {
                if *is_file {
                    found.push(path.clone());
                    assert(views(found@) =~= before.push(path@));
                    assert(start + walk_files(t) =~= (start + walk_files(ws@.take(i as int))).push(
                        path@,
                    ));
                }
            },
            WalkEntry::Error(_) => {},
        }
        i += 1;
    }
    assert(ws@.take(ws.len() as int) =~= ws@);
}

/// The text of the first error a walk met, if any.
fn first_error(ws: &Vec<WalkEntry>) -> (r: Option<String>)
    ensures
        match first_walk_error(ws@) {
            Some(e) => r matches Some(x) && x@ == e,
            None => r is None,
        },
{
    let mut i: usize = 0;
    while i < ws.len()
        invariant
            i <= ws.len(),
            first_walk_error(ws@.take(i as int)) is None,
        decreases ws.len() - i,
    {
        let ghost t = ws@.take(i + 1);
        assert(t.drop_last() =~= ws@.take(i as int));
        assert(t.last() == ws@[i as int]);
        if let WalkEntry::Error(e) = &ws[i] {
            proof {
                lemma_first_error_stays(ws@, i + 1);
            }
            return Some(e.clone());
        }
        i += 1;
    }
    assert(ws@.take(ws.len() as int) =~= ws@);
    None
}

proof fn lemma_first_error_stays(ws: Seq<WalkEntry>, i: int)
    requires
        0 <= i <= ws.len(),
        first_walk_error(ws.take(i)) is Some,
    ensures
        first_walk_error(ws) == first_walk_error(ws.take(i)),
    decreases ws.len(),
{
    if i == ws.len() {
        assert(ws.take(i) =~= ws);
    } else {
        assert(ws.drop_last().take(i) =~= ws.take(i));
        lemma_first_error_stays(ws.drop_last(), i);
    }
}

/// The fortune files under the sources: the regular files that walking
/// them met (skipping what cannot be read), sorted and without repeats as
/// `fortune_files` does; or the error for the first source that cannot be
/// looked at.
pub fn find_fortune_files(sources: &Vec<String>, walks: &Vec<SourceWalk>) -> (r: Result<
    Vec<String>,
    String,
>)
    requires
        sources.len() == walks.len(),
    ensures
        match gathered(views(sources@), walks@) {
            Ok(fs) => r matches Ok(v) && views(v@) == fortune_list(fs),
            Err(e) => r matches Err(x) && x@ == e,
        },
{
    let ghost sv = views(sources@);
    let mut found: Vec<String> = Vec::new();
    assert(views(found@) =~= Seq::<Seq<char>>::empty());
    let mut i: usize = 0;
    while i < walks.len()
        invariant
            i <= walks.len(),
            sources.len() == walks.len(),
            sv == views(sources@),
            gathered(sv.take(i as int), walks@.take(i as int)) == Ok::<
                Seq<Seq<char>>,
                Seq<char>,
            >(views(found@)),
        decreases walks.len() - i,
    {
        assert(sv.take(i + 1).take(i as int) =~= sv.take(i as int));
        assert(walks@.take(i + 1).drop_last() =~= walks@.take(i as int));
        assert(sv.take(i + 1)[i as int] == sources@[i as int]@);
        match &walks[i] {
            SourceWalk::Missing(e) => {
                let mut msg = sources[i].clone();
                msg.append(": ");
                msg.append(e.as_str());
                proof {
                    reveal_strlit(": ");
                    assert(": "@ =~= seq![':', ' ']);
                    lemma_gathered_stays(sv, walks@, i + 1);
                }
                return Err(msg);
            },
            SourceWalk::Walked(ws) => {
                regular_files(ws, &mut found);
            },
        }
        i += 1;
    }
    assert(sv.take(walks.len() as int) =~= sv);
    assert(walks@.take(walks.len() as int) =~= walks@);
    Ok(fortune_files(&found))
}

/// The fortune files under the sources, found as the second version of
/// `fortuner` does: the regular files that walking them met, sorted and
/// without repeats as `fortune_files` does; or the first error met.
pub fn my_find_fortune_files(walks: &Vec<Vec<WalkEntry>>) -> (r: Result<Vec<String>, String>)
    ensures
        match gathered_strictly(walks@) {
            Ok(fs) => r matches Ok(v) && views(v@) == fortune_list(fs),
            Err(e) => r matches Err(x) && x@ == e,
        },
{
    let mut found: Vec<String> = Vec::new();
    assert(views(found@) =~= Seq::<Seq<char>>::empty());
    let mut i: usize = 0;
    while i < walks.len()
        invariant
            i <= walks.len(),
            gathered_strictly(walks@.take(i as int)) == Ok::<Seq<Seq<char>>, Seq<char>>(
                views(found@),
            ),
        decreases walks.len() - i,
    {
        assert(walks@.take(i + 1).drop_last() =~= walks@.take(i as int));
        assert(walks@.take(i + 1).last() == walks@[i as int]);
        match first_error(&walks[i]) {
            Some(e) => {
                proof {
                    lemma_gathered_strictly_stays(walks@, i + 1);
                }
                return Err(e);
            },
            None => {
                regular_files(&walks[i], &mut found);
            },
        }
        i += 1;
    }
    assert(walks@.take(walks.len() as int) =~= walks@);
    Ok(fortune_files(&found))
}

/// Where every source can be looked at and no walk meets an error, the two
/// ways of finding fortune files find the same paths, and so the same
/// fortune files.
pub proof fn walks_without_errors_agree(
    sources: Seq<Seq<char>>,
    walks: Seq<SourceWalk>,
    plain: Seq<Vec<WalkEntry>>,
)
    requires
        sources.len() == walks.len(),
        walks.len() == plain.len(),
        forall|i: int| 0 <= i < walks.len() ==> #[trigger] walks[i] == SourceWalk::Walked(plain[i]),
        forall|i: int| 0 <= i < plain.len() ==> first_walk_error(#[trigger] plain[i]@) is None,
    ensures
        gathered(sources, walks) is Ok,
        gathered(sources, walks) == gathered_strictly(plain),
    decreases walks.len(),
{
    if walks.len() > 0 {
        let k = walks.len() - 1;
        let s2 = sources.take(k);
        let w2 = walks.drop_last();
        let p2 = plain.drop_last();
        assert forall|i: int| 0 <= i < w2.len() implies #[trigger] w2[i] == SourceWalk::Walked(p2[i]) by {
            assert(walks[i] == SourceWalk::Walked(plain[i]));
        }
        assert forall|i: int| 0 <= i < p2.len() implies first_walk_error(#[trigger] p2[i]@) is None by {
            assert(first_walk_error(plain[i]@) is None);
        }
        walks_without_errors_agree(s2, w2, p2);
        assert(walks[k] == SourceWalk::Walked(plain[k]));
        assert(first_walk_error(plain[k]@) is None);
    }
}

/// Reading lines one by one: the quotations completed so far, and the lines
/// of the one being read.  A line holding only `%` never joins a quotation:
/// it ends the one being read when that has lines, and is skipped otherwise.
/// Any other line is added to the quotation being read.
pub open spec fn reading(lines: Seq<Seq<char>>) -> (Seq<Seq<char>>, Seq<Seq<char>>)
    decreases lines.len(),
{
    if lines.len() == 0 {
        (seq![], seq![])
    } else {
        let (done, cur) = reading(lines.drop_last());
        let l = lines.last();
        if l == seq!['%'] {
            if cur.len() > 0 {
                (done.push(joined_lines(cur)), seq![])
            } else {
                (done, cur)
            }
        } else {
            (done, cur.push(l))
        }
    }
}

/// The quotations of a fortune file: what stands between `%` lines, joined
/// with newlines; lines after the last `%` are dropped.
pub open spec fn fortune_texts(text: Seq<char>) -> Seq<Seq<char>> {
    reading(text_lines(text)).0
}

/// Whether `q` is lines `a` to `b` (excluded) of `lines` joined with
/// newlines, there is at least one, and none of them is a `%` line.
pub open spec fn percent_free_run(lines: Seq<Seq<char>>, a: int, b: int, q: Seq<char>) -> bool {
    &&& 0 <= a < b <= lines.len()
    &&& q == joined_lines(lines.subrange(a, b))
    &&& forall|j: int| a <= j < b ==> lines[j] != seq!['%']
}

/// Whether `q` is some run of lines of `lines` with no `%` line.
pub open spec fn is_percent_free_run(lines: Seq<Seq<char>>, q: Seq<char>) -> bool {
    exists|a: int, b: int| percent_free_run(lines, a, b, q)
}

/// Whether lines `a` to `b` (excluded) are a whole run between `%` lines:
/// the file starts, or a `%` line stands, just before it, and a `%` line
/// just after it.
pub open spec fn closed_run(lines: Seq<Seq<char>>, a: int, b: int) -> bool {
    &&& 0 <= a <= b < lines.len()
    &&& (a == 0 || lines[a - 1] == seq!['%'])
    &&& lines[b] == seq!['%']
}

/// Whether `q` is a whole run of lines of `lines` with no `%` line in it
/// (empty lines included), from just after a `%` line (or the start) to
/// just before the next `%` line, joined with newlines.
pub open spec fn is_whole_quotation(lines: Seq<Seq<char>>, q: Seq<char>) -> bool {
    exists|a: int, b: int| percent_free_run(lines, a, b, q) && closed_run(lines, a, b)
}

/// Whether `q` is quotation `k` (from 0) of `lines`: the whole run that
/// the `k+1`-th `%` line following a line other than `%` ends.
pub open spec fn is_quotation_number(lines: Seq<Seq<char>>, k: int, q: Seq<char>) -> bool {
    exists|a: int, b: int|
        percent_free_run(lines, a, b, q) && closed_run(lines, a, b) && closing_count(
            lines.take(b + 1),
        ) == k + 1
}

/// The number of `%` lines that follow a line other than `%`: each ends a
/// quotation.
pub open spec fn closing_count(lines: Seq<Seq<char>>) -> nat
    decreases lines.len(),
{
    if lines.len() == 0 {
        0
    } else {
        closing_count(lines.drop_last()) + if lines.last() == seq!['%'] && lines.len() > 1
            && lines[lines.len() - 2] != seq!['%'] {
            1nat
        } else {
            0nat
        }
    }
}

proof fn lemma_reading_runs(lines: Seq<Seq<char>>)
    ensures
        forall|k: int|
            0 <= k < reading(lines).0.len() ==> is_quotation_number(
                lines,
                k,
                #[trigger] reading(lines).0[k],
            ),
        reading(lines).0.len() == closing_count(lines),
        reading(lines).1.len() > 0 <==> (lines.len() > 0 && lines.last() != seq!['%']),
        exists|a: int|
            0 <= a <= lines.len() && reading(lines).1 == lines.subrange(a, lines.len() as int)
                && (a == 0 || lines[a - 1] == seq!['%']) && forall|j: int|
                a <= j < lines.len() ==> lines[j] != seq!['%'],
    decreases lines.len(),
{
    let n = lines.len() as int;
    if n == 0 {
        assert(reading(lines).0.len() == 0);
        assert(reading(lines).1 =~= lines.subrange(0, 0));
    } else {
        let p = lines.drop_last();
        lemma_reading_runs(p);
        let (done, cur) = reading(p);
        let a = choose|a: int|
            0 <= a <= p.len() && cur == p.subrange(a, p.len() as int) && (a == 0 || p[a - 1] == seq![
                '%',
            ]) && forall|j: int| a <= j < p.len() ==> p[j] != seq!['%'];
        let l = lines.last();
        assert forall|k: int| 0 <= k < done.len() implies is_quotation_number(
            lines,
            k,
            #[trigger] done[k],
        ) by {
            let (a2, b2) = choose|a2: int, b2: int|
                percent_free_run(p, a2, b2, done[k]) && closed_run(p, a2, b2) && closing_count(
                    p.take(b2 + 1),
                ) == k + 1;
            assert(lines.take(b2 + 1) =~= p.take(b2 + 1));
            assert(lines.subrange(a2, b2) =~= p.subrange(a2, b2));
            assert forall|j: int| a2 <= j < b2 implies lines[j] != seq!['%'] by {
                assert(lines[j] == p[j]);
            }
            assert(lines[b2] == p[b2]);
            if a2 > 0 {
                assert(lines[a2 - 1] == p[a2 - 1]);
            }
            assert(percent_free_run(lines, a2, b2, done[k]) && closed_run(lines, a2, b2)
                && closing_count(lines.take(b2 + 1)) == k + 1);
        }
        if a > 0 {
            assert(lines[a - 1] == p[a - 1]);
        }
        if n > 1 {
            assert(lines[n - 2] == p.last());
        }
        if l == seq!['%'] && cur.len() > 0 {
            assert(lines.subrange(a, n - 1) =~= cur);
            assert forall|j: int| a <= j < n - 1 implies lines[j] != seq!['%'] by {
                assert(lines[j] == p[j]);
            }
            assert(lines.take(n) =~= lines);
            assert(percent_free_run(lines, a, n - 1, joined_lines(cur)) && closed_run(lines, a, n - 1)
                && closing_count(lines.take(n)) == done.len() + 1);
        }
        assert forall|k: int| 0 <= k < reading(lines).0.len() implies is_quotation_number(
            lines,
            k,
            #[trigger] reading(lines).0[k],
        ) by {
            if k < done.len() {
                assert(reading(lines).0[k] == done[k]);
            } else {
                assert(reading(lines).0[k] == joined_lines(cur));
            }
        }
        if l == seq!['%'] {
            assert(reading(lines).1 =~= lines.subrange(n, n));
        } else {
            assert(reading(lines).1 =~= lines.subrange(a, n));
            assert forall|j: int| a <= j < n implies lines[j] != seq!['%'] by {
                if j < n - 1 {
                    assert(lines[j] == p[j]);
                }
            }
        }
    }
}

/// Only a line that is exactly `%` ends a quotation: each quotation of a
/// fortune file is a whole run of consecutive lines of the file (empty lines
/// included) from just after a `%` line, or the start of the file, to just
/// before the next `%` line, joined with newlines; none of its lines is
/// `%`; quotation `k` is the run that the `k+1`-th such `%` line ends, so
/// the quotations come in the order of the file; and there are as many
/// quotations as `%` lines that follow a line other than `%`.
pub proof fn quotations_hold_no_percent_line(text: Seq<char>, k: int)
    requires
        0 <= k < fortune_texts(text).len(),
    ensures
        is_percent_free_run(text_lines(text), fortune_texts(text)[k]),
        is_whole_quotation(text_lines(text), fortune_texts(text)[k]),
        is_quotation_number(text_lines(text), k, fortune_texts(text)[k]),
        fortune_texts(text).len() == closing_count(text_lines(text)),
{
    let lines = text_lines(text);
    lemma_reading_runs(lines);
    assert(fortune_texts(text)[k] == reading(lines).0[k]);
    let q = fortune_texts(text)[k];
    let (a, b) = choose|a: int, b: int|
        percent_free_run(lines, a, b, q) && closed_run(lines, a, b) && closing_count(lines.take(b + 1))
            == k + 1;
    assert(percent_free_run(lines, a, b, q) && closed_run(lines, a, b));
}

/// The quotations of one fortune file, each marked with the file's name.
pub fn parse_fortunes(source: &str, text: &str) -> (fortunes: Vec<Fortune>)
    ensures
        fortunes@.len() == fortune_texts(text@).len(),
        forall|k: int|
            0 <= k < fortunes@.len() ==> (#[trigger] fortunes@[k]).source@ == source@
                && fortunes@[k].text@ == fortune_texts(text@)[k],
{
    let lines = lines_of(text);
    let ghost ls = text_lines(text@);
    let mut fortunes: Vec<Fortune> = Vec::new();
    let mut cur: Vec<String> = Vec::new();
    let mut i: usize = 0;
    while i < lines.len()
        invariant
            i <= lines.len(),
            views(lines@) == ls,
            fortunes@.len() == reading(ls.take(i as int)).0.len(),
            forall|k: int|
                0 <= k < fortunes@.len() ==> (#[trigger] fortunes@[k]).source@ == source@
                    && fortunes@[k].text@ == reading(ls.take(i as int)).0[k],
            views(cur@) == reading(ls.take(i as int)).1,
        decreases lines.len() - i,
    {
        let ghost s = ls.take(i + 1);
        assert(s.drop_last() =~= ls.take(i as int));
        assert(s.last() == lines@[i as int]@);
        proof {
            reveal_strlit("%");
        }
        assert("%"@ =~= seq!['%']);
        if same_text(lines[i].as_str(), "%") {
            if cur.len() > 0 {
                let joined = join_lines(&cur);
                fortunes.push(Fortune { source: source.to_owned(), text: joined });
                cur = Vec::new();
                assert(views(cur@) =~= Seq::<Seq<char>>::empty());
            }
        } else {
            let ghost old = views(cur@);
            cur.push(lines[i].clone());
            assert(views(cur@) =~= old.push(lines@[i as int]@));
        }
        i += 1;
    }
    assert(ls.take(lines.len() as int) =~= ls);
    fortunes
}

/// Which quotation a generator seeded with `seed` picks from `len`.
pub uninterp spec fn seeded_choice(seed: u64, len: usize) -> usize;

/// `rand::seq::IndexedRandom::choose` with a `StdRng` made by
/// `SeedableRng::seed_from_u64(seed)`; the text of the quotation picked.
/// The contract claims: nothing is picked from nothing, and otherwise the
/// pick is the quotation at an index below the count that depends on the
/// seed and the count alone (the generator is deterministic once seeded).
#[verifier::external_body]
fn choose_seeded(fortunes: &[Fortune], seed: u64) -> (r: Option<String>)
    ensures
        r is None <==> fortunes@.len() == 0,
        r matches Some(t) ==> seeded_choice(seed, fortunes@.len() as usize) < fortunes@.len()
            && t@ == fortunes@[seeded_choice(seed, fortunes@.len() as usize) as int].text@,
{
    let mut rng = rand::rngs::StdRng::seed_from_u64(seed);
    fortunes.choose(&mut rng).map(|f| f.text.clone())
}

/// `rand::seq::IndexedRandom::choose` with the thread's generator
/// `rand::rng()`; the text of the quotation picked.  The contract claims
/// only that nothing is picked from nothing and that what is picked is one
/// of the quotations: which one rests on the operating system's entropy.
#[verifier::external_body]
fn choose_unseeded(fortunes: &[Fortune]) -> (r: Option<String>)
    ensures
        r is None <==> fortunes@.len() == 0,
        r matches Some(t) ==> exists|i: int| 0 <= i < fortunes@.len() && fortunes@[i].text@ == t@,
{
    fortunes.choose(&mut rand::rng()).map(|f| f.text.clone())
}

/// The text of a quotation picked at random (by the seed, when one is
/// given), or nothing when there are none.
pub fn pick_fortune(fortunes: &[Fortune], seed: Option<u64>) -> (r: Option<String>)
    ensures
        r is None <==> fortunes@.len() == 0,
        r matches Some(t) ==> exists|i: int| 0 <= i < fortunes@.len() && fortunes@[i].text@ == t@,
        r matches Some(t) ==> (seed matches Some(s) ==> t@ == fortunes@[seeded_choice(
            s,
            fortunes@.len() as usize,
        ) as int].text@),
{
    match seed {
        Some(s) => choose_seeded(fortunes, s),
        None => choose_unseeded(fortunes),
    }
}


/// A line to print, on standard output or on standard error.
pub enum Printed {
    Stdout(String),
    Stderr(String),
}

/// Where a printed line goes (`true` for standard error) and its text.
pub open spec fn printed_view(p: Printed) -> (bool, Seq<char>) {
    match p {
        Printed::Stdout(s) => (false, s@),
        Printed::Stderr(s) => (true, s@),
    }
}

/// The printed lines, in order.
pub open spec fn printed_views(v: Seq<Printed>) -> Seq<(bool, Seq<char>)> {
    v.map_values(|p: Printed| printed_view(p))
}

/// The source of the last quotation that matches.
pub open spec fn last_matching_source(fs: Seq<Fortune>, pattern: Seq<char>, insensitive: bool) -> Option<
    Seq<char>,
>
    decreases fs.len(),
{
    if fs.len() == 0 {
        None
    } else if regex_matches(pattern, insensitive, fs.last().text@) {
        Some(fs.last().source@)
    } else {
        last_matching_source(fs.drop_last(), pattern, insensitive)
    }
}

/// What is printed for the quotations that match: each quotation followed by
/// a `%` line, and before the first one and whenever the source changes, the
/// source in parentheses and a `%` line on standard error.
pub open spec fn matching_output(fs: Seq<Fortune>, pattern: Seq<char>, insensitive: bool) -> Seq<
    (bool, Seq<char>),
>
    decreases fs.len(),
{
    if fs.len() == 0 {
        seq![]
    } else {
        let rest = matching_output(fs.drop_last(), pattern, insensitive);
        let f = fs.last();
        if regex_matches(pattern, insensitive, f.text@) {
            let header = if last_matching_source(fs.drop_last(), pattern, insensitive) == Some(
                f.source@,
            ) {
                Seq::<(bool, Seq<char>)>::empty()
            } else {
                seq![(true, "("@ + f.source@ + ")\n%"@)]
            };
            rest + header + seq![(false, f.text@ + "\n%"@)]
        } else {
            rest
        }
    }
}

/// The lines printed for the quotations that match `pattern`.
pub fn print_matching(fortunes: &[Fortune], pattern: &Pattern) -> (out: Vec<Printed>)
    ensures
        printed_views(out@) == matching_output(
            fortunes@,
            pattern.source_text(),
            pattern.ignores_case(),
        ),
{
    let ghost src = pattern.source_text();
    let ghost ins = pattern.ignores_case();
    let mut out: Vec<Printed> = Vec::new();
    let mut prev: Option<&String> = None;
    let mut i: usize = 0;
    while i < fortunes.len()
        invariant
            i <= fortunes.len(),
            src == pattern.source_text(),
            ins == pattern.ignores_case(),
            printed_views(out@) == matching_output(fortunes@.take(i as int), src, ins),
            match prev {
                Some(p) => last_matching_source(fortunes@.take(i as int), src, ins) == Some(p@),
                None => last_matching_source(fortunes@.take(i as int), src, ins) is None,
            },
        decreases fortunes.len() - i,
    {
        let ghost s = fortunes@.take(i + 1);
        assert(s.drop_last() =~= fortunes@.take(i as int));
        assert(s.last() == fortunes@[i as int]);
        let f = &fortunes[i];
        let ghost old = printed_views(out@);
        if pattern.is_match(f.text.as_str()) {
            let same = match prev {
                Some(p) => same_text(p.as_str(), f.source.as_str()),
                None => false,
            };
            if !same {
                let mut h = "(".to_owned();
                h.append(f.source.as_str());
                h.append(")\n%");
                out.push(Printed::Stderr(h));
                prev = Some(&f.source);
            }
            let mut t = f.text.clone();
            t.append("\n%");
            out.push(Printed::Stdout(t));
            assert(printed_views(out@) =~= matching_output(s, src, ins));
        }
        i += 1;
    }
    assert(fortunes@.take(fortunes.len() as int) =~= fortunes@);
    out
}

/// Whether `p` is the line printed without a pattern: on standard output,
/// `No fortunes found` when there are no quotations, and otherwise one of
/// them, the seeded pick when there is a seed.
pub open spec fn picked_line(p: Printed, fortunes: Seq<Fortune>, seed: Option<u64>) -> bool {
    match p {
        Printed::Stdout(t) => if fortunes.len() == 0 {
            t@ == "No fortunes found"@
        } else {
            (exists|i: int| 0 <= i < fortunes.len() && fortunes[i].text@ == t@) && match seed {
                Some(s) => t@ == fortunes[seeded_choice(s, fortunes.len() as usize) as int].text@,
                None => true,
            }
        },
        Printed::Stderr(_) => false,
    }
}

/// What `fortuner` prints: with a pattern, the matching quotations; without
/// one, a quotation picked at random (by the seed, when one is given), or
/// `No fortunes found`.
pub fn run_output(fortunes: &[Fortune], pattern: &Option<Pattern>, seed: Option<u64>) -> (out: Vec<
    Printed,
>)
    ensures
        match pattern {
            Some(p) => printed_views(out@) == matching_output(
                fortunes@,
                p.source_text(),
                p.ignores_case(),
            ),
            None => out@.len() == 1 && picked_line(out@[0], fortunes@, seed),
        },
{
    match pattern {
        Some(p) => print_matching(fortunes, p),
        None => {
            let t = match pick_fortune(fortunes, seed) {
                Some(t) => t,
                None => "No fortunes found".to_owned(),
            };
            let mut out: Vec<Printed> = Vec::new();
            out.push(Printed::Stdout(t));
            out
        },
    }
}

/// What the second version of `fortuner` prints: `No fortunes found` when
/// there are no quotations at all, and otherwise what `run_output` prints.
pub fn my_run_output(fortunes: &[Fortune], pattern: &Option<Pattern>, seed: Option<u64>) -> (out:
    Vec<Printed>)
    ensures
        fortunes@.len() == 0 ==> printed_views(out@) == seq![(false, "No fortunes found"@)],
        fortunes@.len() > 0 ==> match pattern {
            Some(p) => printed_views(out@) == matching_output(
                fortunes@,
                p.source_text(),
                p.ignores_case(),
            ),
            None => out@.len() == 1 && picked_line(out@[0], fortunes@, seed),
        },
{
    if fortunes.len() == 0 {
        let mut out: Vec<Printed> = Vec::new();
        out.push(Printed::Stdout("No fortunes found".to_owned()));
        assert(printed_views(out@) =~= seq![(false, "No fortunes found"@)]);
        return out;
    }
    run_output(fortunes, pattern, seed)
}

} // verus!
