//! Filters on the names of measurements: regular expressions that a name
//! must match, and regular expressions that it must not.

use regex::Regex;
use vstd::prelude::*;

verus! {

/// Whether a pattern is a regular expression that can be used.
pub uninterp spec fn regex_compiles(pattern: Seq<char>) -> bool;

/// Whether a usable regular expression matches somewhere in a text.
pub uninterp spec fn regex_matches(pattern: Seq<char>, text: Seq<char>) -> bool;

/// Calls `Regex::new` of the `regex` crate and tells whether it gave a
/// regular expression or an error. The answer is named, not described.
#[verifier::external_body]
fn pattern_compiles(pattern: &str) -> (r: bool)
    ensures
        r == regex_compiles(pattern@),
{
    Regex::new(pattern).is_ok()
}

/// Calls `Regex::new` and, on what it gives, `Regex::is_match` of the
/// `regex` crate. The answer is named, not described; for a pattern that is
/// no regular expression it is `false`.
#[verifier::external_body]
fn pattern_matches(pattern: &str, text: &str) -> (r: bool)
    ensures
        regex_compiles(pattern@) ==> r == regex_matches(pattern@, text@),
        !regex_compiles(pattern@) ==> !r,
{
    match Regex::new(pattern) {
        Ok(re) => re.is_match(text),
        Err(_) => false,
    }
}

/// Whether the pattern at `i` or a later one matches the name. A pattern
/// that is no regular expression matches nothing.
pub open spec fn any_matches(patterns: Seq<String>, name: Seq<char>, i: int) -> bool
    decreases patterns.len() - i,
{
    if 0 <= i < patterns.len() {
        (regex_compiles(patterns[i]@) && regex_matches(patterns[i]@, name)) || any_matches(
            patterns,
            name,
            i + 1,
        )
    } else {
        false
    }
}

/// Whether a name passes the filters: it matches one of the patterns to
/// keep, where there is any, and none of the patterns to leave out.
pub open spec fn kept(name: Seq<char>, filter_in: Seq<String>, filter_out: Seq<String>) -> bool {
    (filter_in.len() == 0 || any_matches(filter_in, name, 0)) && !any_matches(filter_out, name, 0)
}

/// The first pattern from `i` on that is no regular expression; the length
/// of the list where all are.
pub open spec fn first_invalid(patterns: Seq<String>, i: int) -> int
    decreases patterns.len() - i,
{
    if 0 <= i < patterns.len() {
        if regex_compiles(patterns[i]@) {
            first_invalid(patterns, i + 1)
        } else {
            i
        }
    } else {
        patterns.len() as int
    }
}

/// Where the first pattern that is no regular expression stands.
pub fn find_invalid(patterns: &Vec<String>) -> (r: Option<usize>)
    ensures
        match r {
            Some(i) => i == first_invalid(patterns@, 0) && i < patterns@.len(),
            None => first_invalid(patterns@, 0) == patterns@.len(),
        },
{
    let mut i: usize = 0;
    while i < patterns.len()
        invariant
            i <= patterns.len(),
            first_invalid(patterns@, i as int) == first_invalid(patterns@, 0),
        decreases patterns.len() - i,
    {
        if !pattern_compiles(patterns[i].as_str()) {
            return Some(i);
        }
        i = i + 1;
    }
    None
}

/// Whether one of the patterns matches the name.
pub fn matches_any(patterns: &Vec<String>, name: &str) -> (r: bool)
    ensures
        r == any_matches(patterns@, name@, 0),
{
    let mut i: usize = 0;
    while i < patterns.len()
        invariant
            i <= patterns.len(),
            any_matches(patterns@, name@, i as int) == any_matches(patterns@, name@, 0),
        decreases patterns.len() - i,
    {
        if pattern_matches(patterns[i].as_str(), name) {
            return true;
        }
        i = i + 1;
    }
    false
}

/// Whether a name passes the filters.
pub fn passes(name: &str, filter_in: &Vec<String>, filter_out: &Vec<String>) -> (r: bool)
    ensures
        r == kept(name@, filter_in@, filter_out@),
{
    if filter_in.len() > 0 && !matches_any(filter_in, name) {
        return false;
    }
    !matches_any(filter_out, name)
}

} // verus!
