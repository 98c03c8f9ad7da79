//! Regular-expression matching, done by the `regex` crate.

use vstd::prelude::*;

verus! {

/// The error that `regex::Regex::new` gives for a pattern it does not accept.
#[verifier::external_type_specification]
#[verifier::external_body]
pub struct ExRegexError(regex::Error);

/// What the `regex` crate makes of `haystack` under `pattern`: `None` where
/// `regex::Regex::new` refuses the pattern; otherwise what
/// `regex::Regex::captures` finds, with each capture group, group 0 first,
/// as the text it matched or `None` where it took no part in the match.
pub uninterp spec fn regex_captures(pattern: Seq<char>, haystack: Seq<char>) -> Option<
    Option<Seq<Option<Seq<char>>>>,
>;

/// The capture groups as plain texts.
pub open spec fn captures_view(groups: Option<Vec<Option<String>>>) -> Option<
    Seq<Option<Seq<char>>>,
> {
    match groups {
        None => None,
        Some(v) => Some(
            v@.map_values(
                |g: Option<String>|
                    match g {
                        Some(t) => Some(t@),
                        None => None,
                    },
            ),
        ),
    }
}

/// Compiles `pattern` with `regex::Regex::new` and searches `haystack` with
/// `regex::Regex::captures`, handing each group back as an owned `String`.
/// Trusted: the result is `regex_captures(pattern, haystack)`, an error exactly
/// where the pattern is refused. Which texts a pattern matches, and what its
/// groups capture, is left unsaid: that is the crate's matching engine, with
/// its Unicode tables (`\d` is any character of class `Nd`).
#[verifier::external_body]
pub(crate) fn captures_of(pattern: &str, haystack: &str) -> (res: Result<
    Option<Vec<Option<String>>>,
    regex::Error,
>)
    ensures
        res is Err <==> regex_captures(pattern@, haystack@) is None,
        res matches Ok(c) ==> regex_captures(pattern@, haystack@) == Some(captures_view(c)),
{
    let re = regex::Regex::new(pattern)?;
    Ok(re.captures(haystack).map(|caps| caps.iter().map(|m| m.map(|m| m.as_str().to_string())).collect()))
}

} // verus!
