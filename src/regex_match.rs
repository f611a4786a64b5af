use vstd::prelude::*;

verus! {

/// What compiling `pattern` with the `regex` crate and searching `text` gives:
/// `None` when the pattern does not compile, else whether `text` holds a match.
pub uninterp spec fn regex_verdict(pattern: Seq<char>, text: Seq<char>) -> Option<bool>;

/// Relies on `regex::Regex::new` (an error for a pattern that does not compile)
/// and `regex::Regex::is_match` (whether the haystack holds a match). The verdict
/// depends on the two strings alone.
#[verifier::external_body]
pub(crate) fn regex_search(pattern: &str, text: &str) -> (r: Option<bool>)
    ensures
        r == regex_verdict(pattern@, text@),
{
    match regex::Regex::new(pattern) {
        Ok(re) => Some(re.is_match(text)),
        Err(_) => None,
    }
}

} // verus!
