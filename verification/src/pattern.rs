//! The one place where the crate talks to the `regex` crate.
//!
//! What a regular expression matches is not modelled: the result of a
//! replacement is given a name, and the rest of the crate states its contracts
//! over that name.

use vstd::prelude::*;

verus! {

/// What `regex` makes of replacing every match of `pattern` in `text` by
/// `replacement`; `None` when `pattern` is not a regular expression that the
/// crate accepts.
pub uninterp spec fn regex_replaced(
    pattern: Seq<char>,
    text: Seq<char>,
    replacement: Seq<char>,
) -> Option<Seq<char>>;

/// Number of characters of `text` up to the end of the first match of
/// `pattern`; `None` when there is no match or `pattern` is not accepted.
pub uninterp spec fn regex_first_match_end(pattern: Seq<char>, text: Seq<char>) -> Option<nat>;

/// Calls `regex::Regex::new` on `pattern` and, when that succeeds,
/// `Regex::replace_all` with `replacement` as the replacement string (so `$1`
/// and the like refer to capture groups).  Trusted: the result is the named
/// value `regex_replaced`; nothing else is claimed about it.
#[verifier::external_body]
pub(crate) fn replace_all(pattern: &str, text: &str, replacement: &str) -> (r: Option<String>)
    ensures
        r.deep_view() == regex_replaced(pattern@, text@, replacement@),
{
    regex::Regex::new(pattern).ok().map(|re| re.replace_all(text, replacement).into_owned())
}

/// Calls `regex::Regex::new` on `pattern` and, when that succeeds,
/// `Regex::find` on `text`, and counts the characters of `text` that lie
/// before the end of the match.  Trusted: the result is the named value
/// `regex_first_match_end`, and it never exceeds the length of `text`.
#[verifier::external_body]
pub(crate) fn first_match_end(pattern: &str, text: &str) -> (r: Option<usize>)
    ensures
        r matches Some(n) ==> regex_first_match_end(pattern@, text@) == Some(n as nat) && n
            <= text@.len(),
        r is None ==> regex_first_match_end(pattern@, text@) is None,
{
    let re = regex::Regex::new(pattern).ok()?;
    re.find(text).map(|m| text[..m.end()].chars().count())
}

} // verus!
