//! The three operations of the `regex` crate that the PTN reader uses.
//! Each compiles its pattern with `regex::Regex::new` and applies it; the
//! results are named, since what a regular expression matches takes pages to
//! state.
use vstd::prelude::*;

verus! {

/// What `regex_capture_pairs` returns: for a pattern that compiles, the text
/// of capture groups 1 and 2 of each successive match.
pub uninterp spec fn regex_capture_pairs(pattern: Seq<char>, text: Seq<char>) -> Option<
    Seq<(Option<Seq<char>>, Option<Seq<char>>)>,
>;

/// What `regex_replace_all` returns: for a pattern that compiles, the text
/// with every match replaced.
pub uninterp spec fn regex_replace_all(
    pattern: Seq<char>,
    text: Seq<char>,
    replacement: Seq<char>,
) -> Option<Seq<char>>;

/// What `regex_split` returns: for a pattern that compiles, the pieces of
/// the text between the matches.
pub uninterp spec fn regex_split(pattern: Seq<char>, text: Seq<char>) -> Option<Seq<Seq<char>>>;

/// Calls `regex::Regex::new(pattern)` and, if it compiles, `captures_iter(text)`,
/// keeping the text of capture groups 1 and 2 (`Captures::get`) of each match.
/// The contract only ties the result to its arguments through the name
/// `regex_capture_pairs`; what the matches are is left unsaid.
#[verifier::external_body]
pub(crate) fn capture_pairs(pattern: &str, text: &str) -> (r: Option<
    Vec<(Option<String>, Option<String>)>,
>)
    ensures
        r.deep_view() == regex_capture_pairs(pattern@, text@),
{
    let re = regex::Regex::new(pattern).ok()?;
    Some(
        re.captures_iter(text).map(
            |c| (c.get(1).map(|m| m.as_str().to_string()), c.get(2).map(|m| m.as_str().to_string())),
        ).collect(),
    )
}

/// Calls `regex::Regex::new(pattern)` and, if it compiles,
/// `replace_all(text, replacement)`.
/// The contract only ties the result to its arguments through the name
/// `regex_replace_all`.
#[verifier::external_body]
pub(crate) fn replace_all(pattern: &str, text: &str, replacement: &str) -> (r: Option<String>)
    ensures
        r.deep_view() == regex_replace_all(pattern@, text@, replacement@),
{
    let re = regex::Regex::new(pattern).ok()?;
    Some(re.replace_all(text, replacement).into_owned())
}

/// Calls `regex::Regex::new(pattern)` and, if it compiles, `split(text)`.
/// The contract only ties the result to its arguments through the name
/// `regex_split`.
#[verifier::external_body]
pub(crate) fn split(pattern: &str, text: &str) -> (r: Option<Vec<String>>)
    ensures
        r.deep_view() == regex_split(pattern@, text@),
{
    let re = regex::Regex::new(pattern).ok()?;
    Some(re.split(text).map(|piece| piece.to_string()).collect())
}

} // verus!
