//! Regular expressions and glob patterns, as the `regex` and `fnmatch_regex`
//! crates provide them. Nothing here is proved: each contract restates what
//! the crate documents.

use vstd::prelude::*;

verus! {

/// `regex::Error`: why a pattern did not compile. Carried, never read.
#[verifier::external_type_specification]
#[verifier::external_body]
pub struct ExRegexError(regex::Error);

/// Whether `pattern` is a regular expression that `Regex::new` accepts.
pub uninterp spec fn regex_compiles(pattern: Seq<char>) -> bool;

/// The capture groups of the leftmost match of `pattern` in `text`, group 0
/// (the whole match) first; `None` when nothing matches.
pub uninterp spec fn regex_captures(pattern: Seq<char>, text: Seq<char>) -> Option<
    Seq<Option<Seq<char>>>,
>;

/// Whether the regular expression `pattern` matches anywhere in `text`.
pub uninterp spec fn regex_is_match(pattern: Seq<char>, text: Seq<char>) -> bool;

/// The regular expression that a shell glob stands for; `None` for a glob
/// that the crate refuses.
pub uninterp spec fn glob_regex(glob: Seq<char>) -> Option<Seq<char>>;

/// Views of the groups of a match.
pub open spec fn groups_view(g: Option<Vec<Option<String>>>) -> Option<Seq<Option<Seq<char>>>> {
    match g {
        Some(v) => Some(
            Seq::new(
                v@.len(),
                |i: int|
                    match v@[i] {
                        Some(s) => Some(s@),
                        None => None,
                    },
            ),
        ),
        None => None,
    }
}

/// `Regex::new`: tells whether `pattern` compiles, and hands on the crate's
/// error where it does not.
#[verifier::external_body]
pub(crate) fn check_pattern(pattern: &str) -> (r: Result<(), regex::Error>)
    ensures
        r is Ok <==> regex_compiles(pattern@),
{
    regex::Regex::new(pattern).map(|_| ())
}

/// `Regex::captures` on the expression that `Regex::new` makes of
/// `pattern`: the groups of the leftmost match in `text`, each group that
/// took part as the text it matched. Nothing where `pattern` does not
/// compile.
#[verifier::external_body]
pub(crate) fn captures(pattern: &str, text: &str) -> (r: Option<Vec<Option<String>>>)
    ensures
        regex_compiles(pattern@) ==> groups_view(r) == regex_captures(pattern@, text@),
        !regex_compiles(pattern@) ==> r is None,
{
    let re = regex::Regex::new(pattern).ok()?;
    re.captures(text).map(|c| c.iter().map(|m| m.map(|m| m.as_str().to_string())).collect())
}

/// `fnmatch_regex::glob_to_regex`, then `Regex::is_match` on what it
/// gives: whether the expression that `glob` stands for matches anywhere in
/// `path`; nothing for a glob that the crate refuses.
#[verifier::external_body]
pub(crate) fn glob_matches(glob: &str, path: &str) -> (r: Option<bool>)
    ensures
        r == match glob_regex(glob@) {
            Some(re) => Some(regex_is_match(re, path@)),
            None => None,
        },
{
    match fnmatch_regex::glob_to_regex(glob) {
        Ok(re) => Some(re.is_match(path)),
        Err(_) => None,
    }
}

} // verus!
