//! Paths taken apart into their components as `std::path::Path::components`
//! does on Unix, and ordered and compared as `PathBuf` orders and compares
//! them: component by component.
use vstd::prelude::*;
use crate::text::{chars_of, compare_text, push_char, same_text, text_less, views, Precedence};

verus! {

/// One entry met while walking a path: a path and whether it is a regular
/// file, or the error met.
pub enum WalkEntry {
    Entry { path: String, is_file: bool },
    Error(String),
}

/// The pieces of `p` between slashes: `a//b` has `a`, an empty piece and
/// `b`; `/a` has an empty piece and `a`.
pub open spec fn pieces(p: Seq<char>) -> Seq<Seq<char>>
    decreases p.len(),
{
    if p.len() == 0 {
        seq![seq![]]
    } else {
        let rest = pieces(p.drop_last());
        if p.last() == '/' {
            rest.push(seq![])
        } else {
            rest.update(rest.len() - 1, rest.last().push(p.last()))
        }
    }
}

/// A component is written as a mark for its kind followed by its name (for
/// a plain name).  The marks rank the kinds as `Component` does: the root,
/// then the current directory, then the parent directory, then names.
pub open spec fn root_mark() -> char {
    '\u{1}'
}

/// The mark of the current directory `.`.
pub open spec fn current_mark() -> char {
    '\u{2}'
}

/// The mark of the parent directory `..`.
pub open spec fn parent_mark() -> char {
    '\u{3}'
}

/// The mark of a plain name.
pub open spec fn name_mark() -> char {
    '\u{4}'
}

/// The component a piece gives, if any: an empty piece gives none; `.`
/// gives the current directory when it is the first piece and none
/// elsewhere; `..` gives the parent directory; anything else a name.
pub open spec fn piece_part(piece: Seq<char>, first: bool) -> Seq<Seq<char>> {
    if piece.len() == 0 {
        seq![]
    } else if piece == seq!['.'] {
        if first {
            seq![seq![current_mark()]]
        } else {
            seq![]
        }
    } else if piece == seq!['.', '.'] {
        seq![seq![parent_mark()]]
    } else {
        seq![seq![name_mark()] + piece]
    }
}

/// The components that pieces give, in order.
pub open spec fn pieces_parts(ps: Seq<Seq<char>>) -> Seq<Seq<char>>
    decreases ps.len(),
{
    if ps.len() == 0 {
        seq![]
    } else {
        pieces_parts(ps.drop_last()) + piece_part(ps.last(), ps.len() == 1)
    }
}

/// The components of a path: the root when it starts with `/`, then what
/// its pieces give.
pub open spec fn path_parts(p: Seq<char>) -> Seq<Seq<char>> {
    (if p.len() > 0 && p[0] == '/' {
        seq![seq![root_mark()]]
    } else {
        seq![]
    }) + pieces_parts(pieces(p))
}

/// Whether components `a` sort strictly before components `b`: the first
/// component that differs decides, and a path sorts before the paths it is
/// the beginning of.
pub open spec fn parts_less(a: Seq<Seq<char>>, b: Seq<Seq<char>>) -> bool
    decreases a.len(),
{
    if a.len() == 0 {
        b.len() > 0
    } else if b.len() == 0 {
        false
    } else if a[0] != b[0] {
        text_less(a[0], b[0])
    } else {
        parts_less(a.skip(1), b.skip(1))
    }
}

/// Whether path `p` sorts strictly before path `q`, component by component.
pub open spec fn path_less(p: Seq<char>, q: Seq<char>) -> bool {
    parts_less(path_parts(p), path_parts(q))
}

proof fn lemma_pieces_len(p: Seq<char>)
    ensures
        pieces(p).len() >= 1,
    decreases p.len(),
{
    if p.len() > 0 {
        lemma_pieces_len(p.drop_last());
    }
}

/// No text sorts before itself.
pub proof fn text_less_irreflexive(x: Seq<char>)
    ensures
        !text_less(x, x),
    decreases x.len(),
{
    if x.len() > 0 {
        text_less_irreflexive(x.skip(1));
    }
}

/// Of two different texts, one sorts before the other, and never both.
pub proof fn text_less_total(x: Seq<char>, y: Seq<char>)
    ensures
        x != y ==> text_less(x, y) || text_less(y, x),
        !(text_less(x, y) && text_less(y, x)),
    decreases x.len(),
{
    if x.len() > 0 && y.len() > 0 && x[0] == y[0] {
        text_less_total(x.skip(1), y.skip(1));
        if x.skip(1) == y.skip(1) {
            assert(x =~= seq![x[0]] + x.skip(1));
            assert(y =~= seq![y[0]] + y.skip(1));
        }
    } else if x.len() == 0 && y.len() == 0 {
        assert(x =~= y);
    }
}

/// Sorting texts is transitive.
pub proof fn text_less_transitive(x: Seq<char>, y: Seq<char>, z: Seq<char>)
    requires
        text_less(x, y),
        text_less(y, z),
    ensures
        text_less(x, z),
    decreases x.len(),
{
    if x.len() > 0 && y.len() > 0 && z.len() > 0 && x[0] == y[0] && y[0] == z[0] {
        text_less_transitive(x.skip(1), y.skip(1), z.skip(1));
    }
}

/// No path sorts before itself.
pub proof fn parts_less_irreflexive(a: Seq<Seq<char>>)
    ensures
        !parts_less(a, a),
    decreases a.len(),
{
    if a.len() > 0 {
        parts_less_irreflexive(a.skip(1));
    }
}

/// Of two paths with different components, one sorts before the other, and
/// never both.
pub proof fn parts_less_total(a: Seq<Seq<char>>, b: Seq<Seq<char>>)
    ensures
        a != b ==> parts_less(a, b) || parts_less(b, a),
        !(parts_less(a, b) && parts_less(b, a)),
    decreases a.len(),
{
    if a.len() > 0 && b.len() > 0 {
        if a[0] == b[0] {
            parts_less_total(a.skip(1), b.skip(1));
            if a.skip(1) == b.skip(1) {
                assert(a =~= seq![a[0]] + a.skip(1));
                assert(b =~= seq![b[0]] + b.skip(1));
            }
        } else {
            text_less_total(a[0], b[0]);
        }
    } else if a.len() == 0 && b.len() == 0 {
        assert(a =~= b);
    }
}

/// Sorting paths is transitive.
pub proof fn parts_less_transitive(a: Seq<Seq<char>>, b: Seq<Seq<char>>, c: Seq<Seq<char>>)
    requires
        parts_less(a, b),
        parts_less(b, c),
    ensures
        parts_less(a, c),
    decreases a.len(),
{
    if a.len() > 0 && b.len() > 0 && c.len() > 0 {
        if a[0] == b[0] && b[0] == c[0] {
            parts_less_transitive(a.skip(1), b.skip(1), c.skip(1));
        } else if a[0] == b[0] {
        } else if b[0] == c[0] {
        } else {
            text_less_total(a[0], b[0]);
            text_less_transitive(a[0], b[0], c[0]);
        }
    }
}

/// A string of one mark, or of a mark and a name.
fn marked(mark: char, name: &str) -> (s: String)
    ensures
        s@ == seq![mark] + name@,
{
    let mut s = String::new();
    push_char(&mut s, mark);
    s.append(name);
    s
}

/// The components of a path, each written as its mark and name.
pub fn components(p: &str) -> (parts: Vec<String>)
    ensures
        views(parts@) == path_parts(p@),
{
    let cs = chars_of(p);
    let mut ps: Vec<String> = Vec::new();
    let mut cur = String::new();
    let mut i: usize = 0;
    while i < cs.len()
        invariant
            i <= cs.len(),
            cs@ == p@,
            views(ps@).push(cur@) == pieces(cs@.take(i as int)),
        decreases cs.len() - i,
    {
        let ghost t = cs@.take(i + 1);
        assert(t.drop_last() =~= cs@.take(i as int));
        assert(t.last() == cs@[i as int]);
        let ghost before = views(ps@);
        if cs[i] == '/' {
            let done = cur;
            ps.push(done);
            cur = String::new();
            assert(views(ps@).push(cur@) =~= pieces(t));
        } else {
            push_char(&mut cur, cs[i]);
            assert(views(ps@).push(cur@) =~= pieces(t));
        }
        i += 1;
    }
    ps.push(cur);
    assert(cs@.take(cs.len() as int) =~= p@);
    let ghost all = views(ps@);
    assert(all == pieces(p@));
    let ghost head: Seq<Seq<char>> = if p@.len() > 0 && p@[0] == '/' {
        seq![seq![root_mark()]]
    } else {
        seq![]
    };
    let mut parts: Vec<String> = Vec::new();
    if cs.len() > 0 && cs[0] == '/' {
        proof {
            reveal_strlit("");
        }
        let m = marked('\u{1}', "");
        assert(m@ =~= seq![root_mark()]);
        parts.push(m);
        assert(views(parts@) =~= head);
    } else {
        assert(views(parts@) =~= head);
    }
    let mut k: usize = 0;
    while k < ps.len()
        invariant
            k <= ps.len(),
            all == views(ps@),
            views(parts@) == head + pieces_parts(all.take(k as int)),
        decreases ps.len() - k,
    {
        let ghost t = all.take(k + 1);
        assert(t.drop_last() =~= all.take(k as int));
        assert(t.last() == ps@[k as int]@);
        let ghost before = views(parts@);
        proof {
            reveal_strlit("");
            reveal_strlit(".");
            reveal_strlit("..");
            assert(""@ =~= Seq::<char>::empty());
            assert("."@ =~= seq!['.']);
            assert(".."@ =~= seq!['.', '.']);
        }
        let piece = ps[k].as_str();
        if same_text(piece, "") {
            assert(piece@ =~= Seq::<char>::empty());
        } else if same_text(piece, ".") {
            assert(piece@ =~= seq!['.']);
            if k == 0 {
                let m = marked('\u{2}', "");
                assert(m@ =~= seq![current_mark()]);
                parts.push(m);
            }
        } else if same_text(piece, "..") {
            assert(piece@ =~= seq!['.', '.']);
            let m = marked('\u{3}', "");
            assert(m@ =~= seq![parent_mark()]);
            parts.push(m);
        } else {
            assert(piece@ != seq!['.']);
            assert(piece@ != seq!['.', '.']);
            assert(piece@.len() != 0) by {
                if piece@.len() == 0 {
                    assert(piece@ =~= ""@);
                }
            }
            parts.push(marked('\u{4}', piece));
        }
        assert(views(parts@) =~= before + piece_part(piece@, k == 0));
        assert(views(parts@) =~= head + pieces_parts(t));
        k += 1;
    }
    assert(all.take(ps.len() as int) =~= all);
    parts
}

/// The file name of a path, as `Path::file_name` gives it: its last
/// component when that is a name, and none when it is the root, `.` or `..`
/// (or when there is no component).
pub open spec fn file_name(p: Seq<char>) -> Option<Seq<char>> {
    let k = path_parts(p);
    if k.len() > 0 && k.last().len() > 0 && k.last()[0] == name_mark() {
        Some(k.last().skip(1))
    } else {
        None
    }
}

/// The file name of a path.
pub fn file_name_of(p: &str) -> (r: Option<String>)
    ensures
        r is None <==> file_name(p@) is None,
        r matches Some(n) ==> file_name(p@) == Some(n@),
{
    let parts = components(p);
    if parts.len() == 0 {
        return None;
    }
    let last = chars_of(parts[parts.len() - 1].as_str());
    assert(last@ == views(parts@).last());
    if last.len() == 0 || last[0] != '\u{4}' {
        return None;
    }
    let mut name = String::new();
    let mut i: usize = 1;
    while i < last.len()
        invariant
            1 <= i <= last.len(),
            name@ == last@.subrange(1, i as int),
        decreases last.len() - i,
    {
        push_char(&mut name, last[i]);
        assert(last@.subrange(1, i + 1) =~= last@.subrange(1, i as int).push(last@[i as int]));
        i += 1;
    }
    assert(last@.skip(1) =~= last@.subrange(1, last.len() as int));
    Some(name)
}

/// How one list of components sorts against another.
pub fn compare_components(a: &Vec<String>, b: &Vec<String>) -> (r: Precedence)
    ensures
        r == Precedence::Same <==> views(a@) == views(b@),
        r == Precedence::Before <==> parts_less(views(a@), views(b@)),
        r == Precedence::After <==> parts_less(views(b@), views(a@)),
{
    let ghost x = views(a@);
    let ghost y = views(b@);
    let mut i: usize = 0;
    assert(x.skip(0) =~= x);
    assert(y.skip(0) =~= y);
    loop
        invariant
            i <= a.len(),
            i <= b.len(),
            x == views(a@),
            y == views(b@),
            x.take(i as int) == y.take(i as int),
            parts_less(x, y) == parts_less(x.skip(i as int), y.skip(i as int)),
            parts_less(y, x) == parts_less(y.skip(i as int), x.skip(i as int)),
        decreases a.len() - i,
    {
        let ghost xs = x.skip(i as int);
        let ghost ys = y.skip(i as int);
        if i == a.len() && i == b.len() {
            assert(x =~= x.take(i as int));
            assert(y =~= y.take(i as int));
            return Precedence::Same;
        } else if i == a.len() {
            proof {
                if x == y {
                    assert(x.len() == y.len());
                }
            }
            return Precedence::Before;
        } else if i == b.len() {
            proof {
                if x == y {
                    assert(x.len() == y.len());
                }
            }
            return Precedence::After;
        }
        assert(xs[0] == a@[i as int]@);
        assert(ys[0] == b@[i as int]@);
        match compare_text(a[i].as_str(), b[i].as_str()) {
            Precedence::Same => {
                assert(xs.skip(1) =~= x.skip(i + 1));
                assert(ys.skip(1) =~= y.skip(i + 1));
                assert(x.take(i + 1) =~= x.take(i as int).push(x[i as int]));
                assert(y.take(i + 1) =~= y.take(i as int).push(y[i as int]));
                i += 1;
            },
            Precedence::Before => {
                proof {
                    if x == y {
                        assert(x[i as int] == y[i as int]);
                    }
                }
                return Precedence::Before;
            },
            Precedence::After => {
                proof {
                    if x == y {
                        assert(x[i as int] == y[i as int]);
                    }
                }
                return Precedence::After;
            },
        }
    }
}

} // verus!
