//! Regular expressions, evaluated by the `regex` crate.
use vstd::prelude::*;

verus! {

/// Whether `text` has a match of the regular expression `pattern`, as `Regex::is_match`
/// decides; `None` when `Regex::new` rejects `pattern`.
pub uninterp spec fn regex_is_match(pattern: Seq<char>, text: Seq<char>) -> Option<bool>;

/// The successive non-overlapping matches of the regular expression `pattern` in `text`, as
/// `Regex::find_iter` yields them; `None` when `Regex::new` rejects `pattern`.
pub uninterp spec fn regex_find_iter(pattern: Seq<char>, text: Seq<char>) -> Option<Seq<Seq<char>>>;

/// `Regex::new(pattern)` then `is_match(text)`.
/// Trusted: the result is the named outcome for these arguments.
#[verifier::external_body]
pub(crate) fn pattern_is_match(pattern: &str, text: &str) -> (res: Option<bool>)
    ensures
        res == regex_is_match(pattern@, text@),
{
    match regex::Regex::new(pattern) {
        Ok(re) => Some(re.is_match(text)),
        Err(_) => None,
    }
}

/// `Regex::new(pattern)` then the text of each match of `find_iter(text)`, in order.
/// Trusted: the result is the named list of matches for these arguments.
#[verifier::external_body]
pub(crate) fn pattern_find_all(pattern: &str, text: &str) -> (res: Option<Vec<String>>)
    ensures
        match res {
            Some(found) => regex_find_iter(pattern@, text@) == Some(
                found@.map_values(|m: String| m@),
            ),
            None => regex_find_iter(pattern@, text@) is None,
        },
{
    match regex::Regex::new(pattern) {
        Ok(re) => Some(re.find_iter(text).map(|m| m.as_str().to_string()).collect()),
        Err(_) => None,
    }
}

} // verus!
