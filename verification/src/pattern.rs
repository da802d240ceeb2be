//! Regular expressions, compiled and run by the `regex` crate.  A `Pattern`
//! remembers the text and the case flag it was compiled from, so that what a
//! search gives back can be spoken of as a function of those and of the
//! searched text.
use vstd::prelude::*;

verus! {

#[verifier::external_type_specification]
#[verifier::external_body]
pub struct ExRegex(regex::Regex);

/// What compiling `pattern` gives: nothing when it compiles, and otherwise
/// the text of the error that the compiler reports.
pub uninterp spec fn regex_build_error(pattern: Seq<char>, insensitive: bool) -> Option<Seq<char>>;

/// Whether the compiled `pattern` matches somewhere in `text`.
pub uninterp spec fn regex_matches(pattern: Seq<char>, insensitive: bool, text: Seq<char>) -> bool;

/// The capture groups of the leftmost match of `pattern` in `text`, group 0
/// first, a group that took no part in the match as `None`; nothing when
/// there is no match.
pub uninterp spec fn regex_capture_groups(
    pattern: Seq<char>,
    insensitive: bool,
    text: Seq<char>,
) -> Option<Seq<Option<Seq<char>>>>;

/// A compiled regular expression, with the text and case flag it was
/// compiled from.  Its fields are private: only `Pattern::new` makes one.
pub struct Pattern {
    source: String,
    insensitive: bool,
    re: regex::Regex,
}

/// The contents of a list of optional strings.
pub open spec fn group_views(groups: Seq<Option<String>>) -> Seq<Option<Seq<char>>> {
    groups.map_values(|g: Option<String>| match g {
        Some(s) => Some(s@),
        None => None,
    })
}

/// Compiles `pattern` with `regex::RegexBuilder`, case-insensitively when
/// asked, and renders a compile error with its `Display`.  The contract
/// claims that the outcome is a function of the pattern and the flag alone.
#[verifier::external_body]
fn build_regex(pattern: &str, insensitive: bool) -> (r: Result<regex::Regex, String>)
    ensures
        match regex_build_error(pattern@, insensitive) {
            None => r is Ok,
            Some(msg) => r matches Err(e) && e@ == msg,
        },
{
    regex::RegexBuilder::new(pattern).case_insensitive(insensitive).build().map_err(|e| e.to_string())
}

/// `regex::Regex::is_match`; the contract claims the answer is a function of
/// the pattern's source, its case flag and the text.  It speaks of the
/// source and flag that the `Pattern` records, which are those its compiled
/// expression was built from: `Pattern::new` is the only way to make one.
#[verifier::external_body]
fn regex_is_match(p: &Pattern, text: &str) -> (b: bool)
    ensures
        b == regex_matches(p.source_text(), p.ignores_case(), text@),
{
    p.re.is_match(text)
}

/// `regex::Regex::captures`, each group turned into an owned string; the
/// contract claims the groups are a function of the pattern's source, its
/// case flag and the text (the ones `Pattern::new` compiled).
#[verifier::external_body]
fn regex_captures(p: &Pattern, text: &str) -> (r: Option<Vec<Option<String>>>)
    ensures
        match regex_capture_groups(p.source_text(), p.ignores_case(), text@) {
            None => r is None,
            Some(g) => r matches Some(v) && group_views(v@) == g,
        },
{
    p.re.captures(text).map(|caps| caps.iter().map(|m| m.map(|m| m.as_str().to_string())).collect())
}

impl Pattern {
    /// The text the pattern was compiled from.
    pub closed spec fn source_text(&self) -> Seq<char> {
        self.source@
    }

    /// Whether the pattern ignores case.
    pub closed spec fn ignores_case(&self) -> bool {
        self.insensitive
    }

    /// Compiles `pattern`; on failure, the compiler's message.
    pub fn new(pattern: &str, insensitive: bool) -> (r: Result<Pattern, String>)
        ensures
            match regex_build_error(pattern@, insensitive) {
                None => r matches Ok(p) && p.source_text() == pattern@ && p.ignores_case()
                    == insensitive,
                Some(msg) => r matches Err(e) && e@ == msg,
            },
    {
        match build_regex(pattern, insensitive) {
            Ok(re) => Ok(Pattern { source: pattern.to_owned(), insensitive, re }),
            Err(e) => Err(e),
        }
    }

    /// Whether the pattern matches somewhere in `text`.
    pub fn is_match(&self, text: &str) -> (b: bool)
        ensures
            b == regex_matches(self.source_text(), self.ignores_case(), text@),
    {
        regex_is_match(self, text)
    }

    /// The capture groups of the leftmost match in `text`.
    pub fn captures(&self, text: &str) -> (r: Option<Vec<Option<String>>>)
        ensures
            match regex_capture_groups(self.source_text(), self.ignores_case(), text@) {
                None => r is None,
                Some(g) => r matches Some(v) && group_views(v@) == g,
            },
    {
        regex_captures(self, text)
    }
}

} // verus!
