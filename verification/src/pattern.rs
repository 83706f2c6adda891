//! Regular-expression matching, delegated to the `regex` crate.

use regex::Regex;
use vstd::prelude::*;

verus! {

/// What the leftmost match of the regular expression `pattern` in `text`
/// captured: group 0 is the whole match, group `i` the text of the `i`-th
/// parenthesis, `None` for a group that took no part in the match. The whole
/// result is `None` where nothing in `text` matches, and where `pattern` is
/// no regular expression.
pub uninterp spec fn regex_captures(pattern: Seq<char>, text: Seq<char>) -> Option<
    Seq<Option<Seq<char>>>,
>;

/// Compiles `pattern` with `regex::Regex::new` and searches `text` with
/// `regex::Regex::captures`, copying each group of the match out of
/// `regex::Captures::iter`. The matching itself is not proved: the result is
/// [`regex_captures`] of the two texts, and a pattern that does not compile
/// gives `None`.
#[verifier::external_body]
pub(crate) fn captures(pattern: &str, text: &str) -> (groups: Option<Vec<Option<String>>>)
    ensures
        groups.deep_view() == regex_captures(pattern@, text@),
{
    match Regex::new(pattern) {
        Ok(re) => re.captures(text).map(
            |found| found.iter().map(|group| group.map(|m| m.as_str().to_string())).collect(),
        ),
        Err(_) => None,
    }
}

} // verus!
