//! Regular expressions, as the `regex` crate matches them.
//!
//! A pattern is held as its source text. What the `regex` crate answers for a
//! pattern and a subject is not proved here: it is given a name, and the rule
//! engine is verified against that name.

use regex::Regex;
use vstd::prelude::*;

verus! {

/// Whether the pattern finds a match anywhere in the subject, as
/// `regex::Regex::is_match` answers for the pattern compiled by
/// `regex::Regex::new`; `None` where the pattern does not compile.
pub uninterp spec fn regex_is_match(pattern: Seq<char>, subject: Seq<char>) -> Option<bool>;

/// The texts of the successive non-overlapping matches of the pattern in the
/// subject, in the order in which `regex::Regex::find_iter` yields them for
/// the pattern compiled by `regex::Regex::new`; `None` where the pattern does
/// not compile.
pub uninterp spec fn regex_matches(pattern: Seq<char>, subject: Seq<char>) -> Option<
    Seq<Seq<char>>,
>;

/// The texts that a list of strings holds.
pub open spec fn texts(strings: Seq<String>) -> Seq<Seq<char>> {
    strings.map_values(|s: String| s@)
}

/// Calls `regex::Regex::is_match` on the pattern compiled from `pattern`.
/// Nothing is claimed of the answer but that it is the one the crate gives
/// for these two texts.
#[verifier::external_body]
pub(crate) fn is_match(pattern: &str, subject: &str) -> (r: Option<bool>)
    ensures
        r == regex_is_match(pattern@, subject@),
{
    match Regex::new(pattern) {
        Ok(compiled) => Some(compiled.is_match(subject)),
        Err(_) => None,
    }
}

/// Calls `regex::Regex::find_iter` on the pattern compiled from `pattern` and
/// hands out the text of each match. Nothing is claimed of the matches but
/// that they are the ones the crate finds for these two texts.
#[verifier::external_body]
pub(crate) fn find_all(pattern: &str, subject: &str) -> (r: Option<Vec<String>>)
    ensures
        match r {
            Some(found) => regex_matches(pattern@, subject@) == Some(texts(found@)),
            None => regex_matches(pattern@, subject@) is None,
        },
{
    match Regex::new(pattern) {
        Ok(compiled) => Some(compiled.find_iter(subject).map(|m| m.as_str().to_string()).collect()),
        Err(_) => None,
    }
}

} // verus!
