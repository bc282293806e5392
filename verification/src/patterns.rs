//! Matching configured patterns against type names.  The matching itself is
//! done by the `regex` crate behind trusted wrappers; everything around the
//! calls is verified against the named results below.

use vstd::prelude::*;

verus! {

/// Whether `pattern` is a regular expression that `regex::bytes::Regex::new`
/// accepts.
pub uninterp spec fn regex_valid(pattern: Seq<char>) -> bool;

/// Whether the regular expression `pattern` matches anywhere in `text`.
/// Meaningful only where `regex_valid(pattern)` holds.
pub uninterp spec fn regex_match(pattern: Seq<char>, text: Seq<u8>) -> bool;

/// What the pipeline treats as "pattern matches name": a valid pattern that
/// matches somewhere in the name.  An invalid pattern matches nothing.
pub open spec fn spec_pattern_matches(pattern: Seq<char>, text: Seq<u8>) -> bool {
    regex_valid(pattern) && regex_match(pattern, text)
}

/// Whether some pattern of the set matches `text`.
pub open spec fn spec_any_match(patterns: Seq<Seq<char>>, text: Seq<u8>) -> bool {
    exists|i: int| 0 <= i < patterns.len() && spec_pattern_matches(patterns[i], text)
}

/// Whether every pattern of the set is a valid regular expression.
pub open spec fn spec_all_valid(patterns: Seq<Seq<char>>) -> bool {
    forall|i: int| 0 <= i < patterns.len() ==> regex_valid(patterns[i])
}

/// Relies on regex::bytes::Regex::new and regex::bytes::Regex::is_match:
/// compilation succeeds exactly on valid patterns, and `is_match` reports an
/// (unanchored) match as a function of the pattern and the haystack alone.
#[verifier::external_body]
pub(crate) fn pattern_matches(pattern: &String, text: &Vec<u8>) -> (r: bool)
    ensures
        r == (regex_valid(pattern@) && regex_match(pattern@, text@)),
{
    match regex::bytes::Regex::new(pattern.as_str()) {
        Ok(re) => re.is_match(text.as_slice()),
        Err(_) => false,
    }
}

/// Relies on regex::bytes::Regex::new: it returns `Ok` exactly on valid
/// patterns.
#[verifier::external_body]
pub(crate) fn pattern_valid(pattern: &String) -> (r: bool)
    ensures
        r == regex_valid(pattern@),
{
    regex::bytes::Regex::new(pattern.as_str()).is_ok()
}

/// Reports whether some pattern of `patterns` matches `text`.
pub fn any_match(patterns: &Vec<String>, text: &Vec<u8>) -> (r: bool)
    ensures
        r == spec_any_match(patterns.deep_view(), text@),
{
    let ghost ps = patterns.deep_view();
    for i in 0..patterns.len()
        invariant
            ps == patterns.deep_view(),
            forall|j: int| 0 <= j < i ==> !spec_pattern_matches(ps[j], text@),
    {
        let m = pattern_matches(&patterns[i], text);
        assert(ps[i as int] == patterns@[i as int]@);
        if m {
            return true;
        }
    }
    false
}

/// Reports whether every pattern of `patterns` is a valid regular expression.
pub fn all_valid(patterns: &Vec<String>) -> (r: bool)
    ensures
        r == spec_all_valid(patterns.deep_view()),
{
    let ghost ps = patterns.deep_view();
    for i in 0..patterns.len()
        invariant
            ps == patterns.deep_view(),
            forall|j: int| 0 <= j < i ==> regex_valid(ps[j]),
    {
        let v = pattern_valid(&patterns[i]);
        assert(ps[i as int] == patterns@[i as int]@);
        if !v {
            return false;
        }
    }
    true
}

} // verus!
