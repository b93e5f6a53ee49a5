//! Replacement by regular expression, done by the `regex` crate.

use vstd::prelude::*;
use crate::text::opt_text;

verus! {

/// What the `regex` crate makes of `haystack` when every match of `pattern`
/// in it is replaced by `replacement`, or `None` where the crate does not
/// accept `pattern` as a regular expression.
pub uninterp spec fn regex_replace_all(
    pattern: Seq<char>,
    haystack: Seq<char>,
    replacement: Seq<char>,
) -> Option<Seq<char>>;

/// Compiles `pattern` with `regex::Regex::new` and applies
/// `regex::Regex::replace_all` to `haystack` and `replacement`.
///
/// Not proved: that the text returned is the one that [`regex_replace_all`]
/// names for these three arguments, which says no more than that the crate
/// gives the same answer whenever it is asked the same question.
#[verifier::external_body]
pub(crate) fn replace_all(pattern: &str, haystack: &str, replacement: &str) -> (replaced: Option<
    String,
>)
    ensures
        opt_text(replaced) == regex_replace_all(pattern@, haystack@, replacement@),
{
    match regex::Regex::new(pattern) {
        Ok(re) => Some(re.replace_all(haystack, replacement).into_owned()),
        Err(_) => None,
    }
}

} // verus!
