//! Decimal integer literals as Rust's `str::parse` reads them for the
//! integer types: an optional sign, then one or more ASCII digits, and a
//! value that fits the type.
use vstd::prelude::*;
use crate::text::chars_of;

verus! {

/// Whether `c` is an ASCII decimal digit.
pub open spec fn is_digit(c: char) -> bool {
    '0' <= c && c <= '9'
}

/// Whether every character of `s` is an ASCII decimal digit.
pub open spec fn all_digits(s: Seq<char>) -> bool {
    forall|i: int| 0 <= i < s.len() ==> is_digit(#[trigger] s[i])
}

/// The number that the digit string `s` denotes.
pub open spec fn digits_value(s: Seq<char>) -> nat
    decreases s.len(),
{
    if s.len() == 0 {
        0
    } else {
        digits_value(s.drop_last()) * 10 + ((s.last() as nat) - ('0' as nat)) as nat
    }
}

/// The value of `s` read as an unsigned literal: an optional `+`, then one or
/// more digits.
pub open spec fn unsigned_literal(s: Seq<char>) -> Option<int> {
    let d = if s.len() > 0 && s[0] == '+' {
        s.skip(1)
    } else {
        s
    };
    if d.len() > 0 && all_digits(d) {
        Some(digits_value(d) as int)
    } else {
        None
    }
}

/// The value of `s` read as a signed literal: an optional `+` or `-`, then
/// one or more digits.
pub open spec fn signed_literal(s: Seq<char>) -> Option<int> {
    if s.len() > 0 && (s[0] == '+' || s[0] == '-') {
        let d = s.skip(1);
        if d.len() > 0 && all_digits(d) {
            Some(
                if s[0] == '-' {
                    -(digits_value(d) as int)
                } else {
                    digits_value(d) as int
                },
            )
        } else {
            None
        }
    } else if s.len() > 0 && all_digits(s) {
        Some(digits_value(s) as int)
    } else {
        None
    }
}

/// The value of `s` as a literal of a signed or an unsigned type.
pub open spec fn literal(s: Seq<char>, signed: bool) -> Option<int> {
    if signed {
        signed_literal(s)
    } else {
        unsigned_literal(s)
    }
}

/// What parsing `s` gives for a type whose values run from `lo` to `hi`:
/// the literal's value when it is one and fits, and nothing otherwise.
pub open spec fn parsed(s: Seq<char>, signed: bool, lo: int, hi: int) -> Option<int> {
    match literal(s, signed) {
        Some(v) => if lo <= v && v <= hi {
            Some(v)
        } else {
            None
        },
        None => None,
    }
}

proof fn lemma_digits_value_prefix(s: Seq<char>, k: int)
    requires
        all_digits(s),
        0 <= k <= s.len(),
    ensures
        digits_value(s.take(k)) <= digits_value(s),
    decreases s.len(),
{
    if k < s.len() {
        assert(all_digits(s.drop_last()));
        assert(s.drop_last().take(k) =~= s.take(k));
        lemma_digits_value_prefix(s.drop_last(), k);
    } else {
        assert(s.take(k) =~= s);
    }
}

/// The value of the digits `d[start..]` when they are all digits, there is
/// at least one, and the value is at most `limit`.
fn magnitude(d: &[char], start: usize, limit: u64) -> (r: Option<u64>)
    requires
        start <= d.len(),
    ensures
        ({
            let t = d@.skip(start as int);
            if t.len() > 0 && all_digits(t) && digits_value(t) <= limit {
                r == Some(digits_value(t) as u64)
            } else {
                r is None
            }
        }),
{
    let ghost t = d@.skip(start as int);
    if start == d.len() {
        return None;
    }
    let mut acc: u128 = 0;
    let mut i: usize = start;
    while i < d.len()
        invariant
            start <= i <= d.len(),
            t == d@.skip(start as int),
            all_digits(t.take(i - start)),
            acc == digits_value(t.take(i - start)),
            acc <= limit,
        decreases d.len() - i,
    {
        let c = d[i];
        if !('0' <= c && c <= '9') {
            proof {
                assert(t[i - start] == c);
            }
            return None;
        }
        let ghost pre = t.take(i - start);
        let ghost next = t.take(i - start + 1);
        assert(next.drop_last() =~= pre);
        assert(next.last() == c);
        acc = acc * 10 + ((c as u32) - ('0' as u32)) as u128;
        assert(all_digits(next)) by {
            assert forall|j: int| 0 <= j < next.len() implies is_digit(#[trigger] next[j]) by {
                if j < next.len() - 1 {
                    assert(next[j] == pre[j]);
                }
            }
        }
        if acc > limit as u128 {
            proof {
                if all_digits(t) {
                    lemma_digits_value_prefix(t, i - start + 1);
                }
            }
            return None;
        }
        i += 1;
    }
    assert(t.take(i - start) =~= t);
    Some(acc as u64)
}

/// Integer types that can be read from a decimal literal.
pub trait DecimalInt: Sized {
    /// The number that a value stands for.
    spec fn value(&self) -> int;

    /// The smallest value of the type.
    spec fn lowest() -> int;

    /// The largest value of the type.
    spec fn highest() -> int;

    /// Whether the type takes a leading `-`.
    spec fn signed() -> bool;

    /// Reads `s` as a decimal literal of the type.
    fn parse_decimal(s: &str) -> (r: Option<Self>)
        ensures
            match parsed(s@, Self::signed(), Self::lowest(), Self::highest()) {
                Some(v) => r matches Some(x) && x.value() == v,
                None => r is None,
            },
    ;
}

/// Reads an unsigned literal of value at most `limit`.
fn parse_unsigned(s: &str, limit: u64) -> (r: Option<u64>)
    ensures
        match parsed(s@, false, 0, limit as int) {
            Some(v) => r == Some(v as u64),
            None => r is None,
        },
{
    let d = chars_of(s);
    let start: usize = if d.len() > 0 && d[0] == '+' {
        1
    } else {
        0
    };
    proof {
        if start == 0 {
            assert(d@.skip(0) =~= d@);
        }
    }
    magnitude(d.as_slice(), start, limit)
}

/// Reads a signed literal of value from `-limit - 1` to `limit`.
fn parse_signed(s: &str, limit: u64) -> (r: Option<i128>)
    requires
        limit < u64::MAX,
    ensures
        match parsed(s@, true, -limit - 1, limit as int) {
            Some(v) => r == Some(v as i128),
            None => r is None,
        },
{
    let d = chars_of(s);
    if d.len() > 0 && (d[0] == '+' || d[0] == '-') {
        if d[0] == '-' {
            match magnitude(d.as_slice(), 1, limit + 1) {
                Some(m) => Some(-(m as i128)),
                None => None,
            }
        } else {
            match magnitude(d.as_slice(), 1, limit) {
                Some(m) => Some(m as i128),
                None => None,
            }
        }
    } else {
        assert(d@.skip(0) =~= d@);
        match magnitude(d.as_slice(), 0, limit) {
            Some(m) => Some(m as i128),
            None => None,
        }
    }
}

impl DecimalInt for usize {
    open spec fn value(&self) -> int {
        *self as int
    }

    open spec fn lowest() -> int {
        0
    }

    open spec fn highest() -> int {
        usize::MAX as int
    }

    open spec fn signed() -> bool {
        false
    }

    fn parse_decimal(s: &str) -> (r: Option<usize>) {
        match parse_unsigned(s, usize::MAX as u64) {
            Some(v) => Some(v as usize),
            None => None,
        }
    }
}

impl DecimalInt for u32 {
    open spec fn value(&self) -> int {
        *self as int
    }

    open spec fn lowest() -> int {
        0
    }

    open spec fn highest() -> int {
        u32::MAX as int
    }

    open spec fn signed() -> bool {
        false
    }

    fn parse_decimal(s: &str) -> (r: Option<u32>) {
        match parse_unsigned(s, u32::MAX as u64) {
            Some(v) => Some(v as u32),
            None => None,
        }
    }
}

impl DecimalInt for i32 {
    open spec fn value(&self) -> int {
        *self as int
    }

    open spec fn lowest() -> int {
        i32::MIN as int
    }

    open spec fn highest() -> int {
        i32::MAX as int
    }

    open spec fn signed() -> bool {
        true
    }

    fn parse_decimal(s: &str) -> (r: Option<i32>) {
        match parse_signed(s, i32::MAX as u64) {
            Some(v) => Some(v as i32),
            None => None,
        }
    }
}

impl DecimalInt for i64 {
    open spec fn value(&self) -> int {
        *self as int
    }

    open spec fn lowest() -> int {
        i64::MIN as int
    }

    open spec fn highest() -> int {
        i64::MAX as int
    }

    open spec fn signed() -> bool {
        true
    }

    fn parse_decimal(s: &str) -> (r: Option<i64>) {
        match parse_signed(s, i64::MAX as u64) {
            Some(v) => Some(v as i64),
            None => None,
        }
    }
}

} // verus!
