//! Character-level helpers shared by the tools: conversion between strings
//! and character vectors, decimal rendering, padding and line splitting.
use vstd::prelude::*;

verus! {

/// Appends one character to a string.
#[verifier::external_body]
pub(crate) fn push_char(s: &mut String, c: char)
    ensures
        final(s)@ == old(s)@.push(c),
{
    s.push(c);
}

/// The characters of `s`, in order.
pub fn chars_of(s: &str) -> (v: Vec<char>)
    ensures
        v@ == s@,
{
    let mut v: Vec<char> = Vec::new();
    for c in it: s.chars()
        invariant
            v@ == it.seq().take(it.index() as int),
            it.seq() == s@,
    {
        v.push(c);
    }
    v
}

/// The string made of the characters of `v`, in order.
pub fn string_of(v: &[char]) -> (s: String)
    ensures
        s@ == v@,
{
    let mut s = String::new();
    let mut i: usize = 0;
    while i < v.len()
        invariant
            i <= v.len(),
            s@ == v@.take(i as int),
        decreases v.len() - i,
    {
        push_char(&mut s, v[i]);
        assert(v@.take(i as int).push(v@[i as int]) =~= v@.take(i + 1));
        i += 1;
    }
    assert(v@.take(v.len() as int) =~= v@);
    s
}


/// The character of a decimal digit `d` (`d < 10`).
pub open spec fn digit_char(d: nat) -> char {
    (('0' as nat) + d) as char
}

/// The decimal rendering of a natural number, most significant digit first,
/// without leading zeros (zero renders as `"0"`).
pub open spec fn decimal(n: nat) -> Seq<char>
    decreases n,
{
    if n < 10 {
        seq![digit_char(n)]
    } else {
        decimal(n / 10).push(digit_char(n % 10))
    }
}

/// The decimal rendering of an integer: a `-` before the magnitude of a
/// negative number.
pub open spec fn signed_decimal(n: int) -> Seq<char> {
    if n < 0 {
        seq!['-'] + decimal((-n) as nat)
    } else {
        decimal(n as nat)
    }
}

/// `n` blanks.
pub open spec fn spaces(n: nat) -> Seq<char> {
    Seq::new(n, |i: int| ' ')
}

/// `s` right-aligned in a field of `width` characters (`{:>width}`).
pub open spec fn pad_left(s: Seq<char>, width: nat) -> Seq<char> {
    if s.len() >= width {
        s
    } else {
        spaces((width - s.len()) as nat) + s
    }
}

/// `s` left-aligned in a field of `width` characters (`{:width}`).
pub open spec fn pad_right(s: Seq<char>, width: nat) -> Seq<char> {
    if s.len() >= width {
        s
    } else {
        s + spaces((width - s.len()) as nat)
    }
}

/// `s` centred in a field of `width` characters (`{:^width}`); an odd blank
/// goes to the right.
pub open spec fn center(s: Seq<char>, width: nat) -> Seq<char> {
    if s.len() >= width {
        s
    } else {
        let pad = (width - s.len()) as nat;
        spaces(pad / 2) + s + spaces((pad - pad / 2) as nat)
    }
}

/// The decimal rendering of `n` as a string.
pub fn u64_to_string(n: u64) -> (s: String)
    ensures
        s@ == decimal(n as nat),
{
    let mut digits: Vec<char> = Vec::new();
    let mut m: u64 = n;
    while m >= 10
        invariant
            decimal(n as nat) == decimal(m as nat) + digits@,
        decreases m,
    {
        let d: u64 = m % 10;
        let c: char = digit(d);
        let ghost old_digits = digits@;
        digits.insert(0, c);
        assert(digits@ =~= seq![c] + old_digits);
        assert(decimal(m as nat) == decimal((m / 10) as nat).push(c));
        assert(decimal((m / 10) as nat).push(c) + old_digits =~= decimal((m / 10) as nat) + digits@);
        m = m / 10;
    }
    let c: char = digit(m);
    digits.insert(0, c);
    assert(digits@ =~= decimal(n as nat));
    string_of(&digits)
}

/// The character of the decimal digit `d`.
fn digit(d: u64) -> (c: char)
    requires
        d < 10,
    ensures
        c == digit_char(d as nat),
{
    match d {
        0 => '0',
        1 => '1',
        2 => '2',
        3 => '3',
        4 => '4',
        5 => '5',
        6 => '6',
        7 => '7',
        8 => '8',
        _ => '9',
    }
}

/// The decimal rendering of `n` as a string.
pub fn usize_to_string(n: usize) -> (s: String)
    ensures
        s@ == decimal(n as nat),
{
    u64_to_string(n as u64)
}

/// The decimal rendering of `n`, with a `-` when it is negative.
pub fn i64_to_string(n: i64) -> (s: String)
    ensures
        s@ == signed_decimal(n as int),
{
    if n < 0 {
        let magnitude: u64 = if n == i64::MIN {
            9223372036854775808u64
        } else {
            (-n) as u64
        };
        let mut s = String::new();
        push_char(&mut s, '-');
        let m = u64_to_string(magnitude);
        s.append(m.as_str());
        s
    } else {
        u64_to_string(n as u64)
    }
}

/// `n` blanks, as a string.
pub fn blanks(n: usize) -> (s: String)
    ensures
        s@ == spaces(n as nat),
{
    let mut s = String::new();
    let mut i: usize = 0;
    while i < n
        invariant
            i <= n,
            s@ == spaces(i as nat),
        decreases n - i,
    {
        push_char(&mut s, ' ');
        assert(s@ =~= spaces((i + 1) as nat));
        i += 1;
    }
    s
}

/// `s` right-aligned in a field of `width` characters.
pub fn right_align(s: &str, width: usize) -> (r: String)
    ensures
        r@ == pad_left(s@, width as nat),
{
    let n = s.unicode_len();
    if n >= width {
        s.to_owned()
    } else {
        let mut r = blanks(width - n);
        r.append(s);
        r
    }
}

/// `s` left-aligned in a field of `width` characters.
pub fn left_align(s: &str, width: usize) -> (r: String)
    ensures
        r@ == pad_right(s@, width as nat),
{
    let n = s.unicode_len();
    if n >= width {
        s.to_owned()
    } else {
        let mut r = s.to_owned();
        let b = blanks(width - n);
        r.append(b.as_str());
        r
    }
}

/// `s` centred in a field of `width` characters.
pub fn centered(s: &str, width: usize) -> (r: String)
    ensures
        r@ == center(s@, width as nat),
{
    let n = s.unicode_len();
    if n >= width {
        s.to_owned()
    } else {
        let pad = width - n;
        let mut r = blanks(pad / 2);
        r.append(s);
        let b = blanks(pad - pad / 2);
        r.append(b.as_str());
        r
    }
}


/// The characters that `char::is_whitespace` accepts: those with the
/// Unicode `White_Space` property.
pub open spec fn is_white(c: char) -> bool {
    let v = c as u32;
    (0x9 <= v && v <= 0xd) || v == 0x20 || v == 0x85 || v == 0xa0 || v == 0x1680 || (0x2000 <= v
        && v <= 0x200a) || v == 0x2028 || v == 0x2029 || v == 0x202f || v == 0x205f || v == 0x3000
}

/// Whether `c` is a whitespace character.
pub fn is_whitespace(c: char) -> (b: bool)
    ensures
        b == is_white(c),
{
    let v = c as u32;
    (0x9 <= v && v <= 0xd) || v == 0x20 || v == 0x85 || v == 0xa0 || v == 0x1680 || (0x2000 <= v
        && v <= 0x200a) || v == 0x2028 || v == 0x2029 || v == 0x202f || v == 0x205f || v == 0x3000
}

/// `s` without its trailing whitespace (`str::trim_end`).
pub open spec fn trim_end(s: Seq<char>) -> Seq<char>
    decreases s.len(),
{
    if s.len() > 0 && is_white(s.last()) {
        trim_end(s.drop_last())
    } else {
        s
    }
}

/// The lines of `s` as `BufRead::read_line` hands them out: each piece
/// runs up to and including a `'\n'`, and a last piece without one holds
/// what follows the last newline.  Built one character at a time: a
/// character starts a new line at the start of the text and after a newline,
/// and otherwise extends the current line.
pub open spec fn inclusive_lines(s: Seq<char>) -> Seq<Seq<char>>
    decreases s.len(),
{
    if s.len() == 0 {
        seq![]
    } else {
        let p = s.drop_last();
        let ls = inclusive_lines(p);
        if p.len() == 0 || p.last() == '\n' {
            ls.push(seq![s.last()])
        } else {
            ls.update(ls.len() - 1, ls.last().push(s.last()))
        }
    }
}

/// A line without its end-of-line marker, as `BufRead::lines` returns it: a
/// final `'\n'` is removed, and then a `'\r'` just before it.
pub open spec fn strip_eol(l: Seq<char>) -> Seq<char> {
    if l.len() > 0 && l.last() == '\n' {
        let m = l.drop_last();
        if m.len() > 0 && m.last() == '\r' {
            m.drop_last()
        } else {
            m
        }
    } else {
        l
    }
}

/// The lines of `s` as `BufRead::lines` returns them.
pub open spec fn text_lines(s: Seq<char>) -> Seq<Seq<char>> {
    inclusive_lines(s).map_values(|l: Seq<char>| strip_eol(l))
}

/// The contents of a sequence of strings.
pub open spec fn views(v: Seq<String>) -> Seq<Seq<char>> {
    v.map_values(|s: String| s@)
}

/// A text has lines exactly when it is not empty.
pub(crate) proof fn lemma_inclusive_lines_len(s: Seq<char>)
    ensures
        s.len() == 0 <==> inclusive_lines(s).len() == 0,
    decreases s.len(),
{
    if s.len() > 0 {
        lemma_inclusive_lines_len(s.drop_last());
    }
}

/// The pieces into which `read_line` cuts `text`, newlines included.
pub fn lines_inclusive(text: &str) -> (v: Vec<String>)
    ensures
        views(v@) == inclusive_lines(text@),
{
    let chars = chars_of(text);
    let mut done: Vec<String> = Vec::new();
    let mut cur = String::new();
    let mut i: usize = 0;
    while i < chars.len()
        invariant
            i <= chars.len(),
            chars@ == text@,
            cur@.len() == 0 <==> (i == 0 || chars@[i - 1] == '\n'),
            inclusive_lines(chars@.take(i as int)) == views(done@) + (if cur@.len() == 0 {
                Seq::<Seq<char>>::empty()
            } else {
                seq![cur@]
            }),
        decreases chars.len() - i,
    {
        let c = chars[i];
        let ghost p = chars@.take(i as int);
        let ghost s = chars@.take(i + 1);
        assert(s.drop_last() =~= p);
        assert(s.last() == c);
        proof {
            lemma_inclusive_lines_len(p);
        }
        let ghost old_done = views(done@);
        let ghost old_cur = cur@;
        push_char(&mut cur, c);
        if c == '\n' {
            done.push(cur);
            cur = String::new();
            assert(views(done@) =~= old_done.push(old_cur.push(c)));
        }
        proof {
            assert(p.len() == i);
            if i > 0 {
                assert(p.last() == chars@[i - 1]);
            }
            if old_cur.len() == 0 {
                assert(p.len() == 0 || p.last() == '\n');
                assert(inclusive_lines(p) =~= old_done);
                assert(old_cur.push(c) =~= seq![c]);
                assert(inclusive_lines(s) == inclusive_lines(p).push(seq![c]));
                assert(inclusive_lines(s) =~= views(done@) + (if cur@.len() == 0 {
                    Seq::<Seq<char>>::empty()
                } else {
                    seq![cur@]
                }));
            } else {
                assert(p.last() != '\n');
                assert(inclusive_lines(s) =~= views(done@) + (if cur@.len() == 0 {
                    Seq::<Seq<char>>::empty()
                } else {
                    seq![cur@]
                }));
            }
        }
        i += 1;
    }
    assert(chars@.take(chars.len() as int) =~= chars@);
    if i > 0 && chars[i - 1] != '\n' {
        let ghost old_done = views(done@);
        done.push(cur);
        assert(views(done@) =~= old_done.push(cur@));
    } else {
        assert(views(done@) + Seq::<Seq<char>>::empty() =~= views(done@));
    }
    done
}

/// `l` without its end-of-line marker.
pub fn strip_line_end(l: &str) -> (r: String)
    ensures
        r@ == strip_eol(l@),
{
    let mut v = chars_of(l);
    let n = v.len();
    if n > 0 && v[n - 1] == '\n' {
        v.pop();
        let m = v.len();
        if m > 0 && v[m - 1] == '\r' {
            v.pop();
        }
    }
    proof {
        if l@.len() > 0 && l@.last() == '\n' {
            assert(l@.drop_last() =~= l@.take(n - 1));
        }
    }
    let r = string_of(&v);
    assert(r@ =~= strip_eol(l@));
    r
}

/// The lines of `text` without their end-of-line markers.
pub fn lines_of(text: &str) -> (v: Vec<String>)
    ensures
        views(v@) == text_lines(text@),
{
    let pieces = lines_inclusive(text);
    let mut v: Vec<String> = Vec::new();
    let mut i: usize = 0;
    while i < pieces.len()
        invariant
            i <= pieces.len(),
            views(pieces@) == inclusive_lines(text@),
            views(v@) == inclusive_lines(text@).take(i as int).map_values(
                |l: Seq<char>| strip_eol(l),
            ),
        decreases pieces.len() - i,
    {
        let ghost old_v = views(v@);
        assert(views(pieces@)[i as int] == pieces@[i as int]@);
        let r = strip_line_end(pieces[i].as_str());
        v.push(r);
        assert(views(v@) =~= old_v.push(strip_eol(inclusive_lines(text@)[i as int])));
        assert(views(v@) =~= inclusive_lines(text@).take(i + 1).map_values(
            |l: Seq<char>| strip_eol(l),
        ));
        i += 1;
    }
    assert(inclusive_lines(text@).take(pieces.len() as int) =~= inclusive_lines(text@));
    v
}

/// `s` without its trailing whitespace.
pub fn trim_trailing(s: &str) -> (r: String)
    ensures
        r@ == trim_end(s@),
{
    let mut v = chars_of(s);
    while v.len() > 0 && is_whitespace(v[v.len() - 1])
        invariant
            trim_end(v@) == trim_end(s@),
        decreases v.len(),
    {
        let ghost old = v@;
        v.pop();
        assert(v@ =~= old.drop_last());
    }
    string_of(&v)
}


/// What `str::to_lowercase` makes of `s` (full Unicode case mapping).
pub uninterp spec fn lowercase(s: Seq<char>) -> Seq<char>;

/// `str::to_lowercase`; the contract claims the result is a function of the
/// text alone.
#[verifier::external_body]
pub fn to_lowercase(s: &str) -> (r: String)
    ensures
        r@ == lowercase(s@),
{
    s.to_lowercase()
}

/// Whether `x` sorts strictly before `y`, comparing character by character
/// (the order of `str`'s `cmp`, which compares the UTF-8 bytes; UTF-8 keeps
/// the order of code points).
pub open spec fn text_less(x: Seq<char>, y: Seq<char>) -> bool
    decreases x.len(),
{
    if x.len() == 0 {
        y.len() > 0
    } else if y.len() == 0 {
        false
    } else if x[0] != y[0] {
        x[0] < y[0]
    } else {
        text_less(x.skip(1), y.skip(1))
    }
}

/// Where one text stands against another in sort order.
#[derive(Clone, Copy, Debug, PartialEq, Eq, Structural)]
pub enum Precedence {
    Before,
    Same,
    After,
}

/// How `x` sorts against `y`.
pub fn compare_text(x: &str, y: &str) -> (r: Precedence)
    ensures
        r == Precedence::Same <==> x@ == y@,
        r == Precedence::Before <==> text_less(x@, y@),
        r == Precedence::After <==> text_less(y@, x@),
{
    let a = chars_of(x);
    let b = chars_of(y);
    let mut i: usize = 0;
    assert(x@.skip(0) =~= x@);
    assert(y@.skip(0) =~= y@);
    while i < a.len() && i < b.len() && a[i] == b[i]
        invariant
            i <= a.len(),
            i <= b.len(),
            a@ == x@,
            b@ == y@,
            a@.take(i as int) == b@.take(i as int),
            text_less(x@, y@) == text_less(x@.skip(i as int), y@.skip(i as int)),
            text_less(y@, x@) == text_less(y@.skip(i as int), x@.skip(i as int)),
        decreases a.len() - i,
    {
        let ghost xs = x@.skip(i as int);
        let ghost ys = y@.skip(i as int);
        assert(xs.skip(1) =~= x@.skip(i + 1));
        assert(ys.skip(1) =~= y@.skip(i + 1));
        assert(a@.take(i + 1) =~= a@.take(i as int).push(a@[i as int]));
        assert(b@.take(i + 1) =~= b@.take(i as int).push(b@[i as int]));
        i += 1;
    }
    let ghost xs = x@.skip(i as int);
    let ghost ys = y@.skip(i as int);
    if i == a.len() && i == b.len() {
        assert(a@ =~= a@.take(i as int));
        assert(b@ =~= b@.take(i as int));
        Precedence::Same
    } else if i == a.len() {
        proof {
            if x@ == y@ {
                assert(x@.len() == y@.len());
            }
        }
        Precedence::Before
    } else if i == b.len() {
        proof {
            if x@ == y@ {
                assert(x@.len() == y@.len());
            }
        }
        Precedence::After
    } else {
        assert(xs[0] == a@[i as int]);
        assert(ys[0] == b@[i as int]);
        proof {
            if x@ == y@ {
                assert(x@[i as int] == y@[i as int]);
            }
        }
        if a[i] < b[i] {
            Precedence::Before
        } else {
            Precedence::After
        }
    }
}


/// Whether `s` begins with `prefix`.
pub fn starts_with(s: &str, prefix: &str) -> (b: bool)
    ensures
        b == prefix@.is_prefix_of(s@),
{
    let a = chars_of(s);
    let p = chars_of(prefix);
    if p.len() > a.len() {
        return false;
    }
    let mut i: usize = 0;
    while i < p.len()
        invariant
            i <= p.len() <= a.len(),
            a@ == s@,
            p@ == prefix@,
            forall|k: int| 0 <= k < i ==> p@[k] == a@[k],
        decreases p.len() - i,
    {
        if p[i] != a[i] {
            return false;
        }
        i += 1;
    }
    true
}

/// Whether two strings hold the same text.
pub fn same_text(a: &str, b: &str) -> (r: bool)
    ensures
        r == (a@ == b@),
{
    let x = chars_of(a);
    let y = chars_of(b);
    if x.len() != y.len() {
        return false;
    }
    let mut i: usize = 0;
    while i < x.len()
        invariant
            i <= x.len() == y.len(),
            x@ == a@,
            y@ == b@,
            forall|k: int| 0 <= k < i ==> x@[k] == y@[k],
        decreases x.len() - i,
    {
        if x[i] != y[i] {
            return false;
        }
        i += 1;
    }
    assert(x@ =~= y@);
    true
}


/// Texts joined with newlines between them.
pub open spec fn joined_lines(v: Seq<Seq<char>>) -> Seq<char>
    decreases v.len(),
{
    if v.len() == 0 {
        seq![]
    } else if v.len() == 1 {
        v[0]
    } else {
        joined_lines(v.drop_last()) + seq!['\n'] + v.last()
    }
}

/// Texts joined with newlines between them.
pub fn join_lines(texts: &Vec<String>) -> (s: String)
    ensures
        s@ == joined_lines(views(texts@)),
{
    let ghost v = views(texts@);
    let mut s = String::new();
    let mut i: usize = 0;
    while i < texts.len()
        invariant
            i <= texts.len(),
            v == views(texts@),
            s@ == joined_lines(v.take(i as int)),
        decreases texts.len() - i,
    {
        let ghost t = v.take(i + 1);
        assert(t.drop_last() =~= v.take(i as int));
        assert(t.last() == texts@[i as int]@);
        if i > 0 {
            push_char(&mut s, '\n');
        } else {
            assert(s@ =~= Seq::<char>::empty());
        }
        s.append(texts[i].as_str());
        i += 1;
    }
    assert(v.take(texts.len() as int) =~= v);
    s
}

/// The texts of `ls` one after the other.
pub open spec fn concat_all(ls: Seq<Seq<char>>) -> Seq<char>
    decreases ls.len(),
{
    if ls.len() == 0 {
        seq![]
    } else {
        concat_all(ls.drop_last()) + ls.last()
    }
}

/// Putting the pieces that `read_line` hands out back together gives the
/// text they were cut from.
pub proof fn inclusive_lines_rejoin(s: Seq<char>)
    ensures
        concat_all(inclusive_lines(s)) == s,
    decreases s.len(),
{
    if s.len() > 0 {
        let p = s.drop_last();
        inclusive_lines_rejoin(p);
        lemma_inclusive_lines_len(p);
        let ls = inclusive_lines(p);
        if p.len() == 0 || p.last() == '\n' {
            assert(ls.push(seq![s.last()]).drop_last() =~= ls);
            assert(p.push(s.last()) =~= s);
        } else {
            let u = ls.update(ls.len() - 1, ls.last().push(s.last()));
            assert(u.drop_last() =~= ls.drop_last());
            assert(concat_all(ls) == concat_all(ls.drop_last()) + ls.last());
            assert(p.push(s.last()) =~= s);
            assert(concat_all(u) =~= concat_all(ls) + seq![s.last()]);
        }
    }
}

/// The line shown above a file's part when several files are shown:
/// `==> name <==`.
pub open spec fn banner_text(name: Seq<char>) -> Seq<char> {
    "==> "@ + name + " <=="@
}

/// The line shown above a file's part when several files are shown.
pub fn banner(name: &str) -> (r: String)
    ensures
        r@ == banner_text(name@),
{
    let mut r = "==> ".to_owned();
    r.append(name);
    r.append(" <==");
    r
}

} // verus!
