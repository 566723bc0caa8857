//! Regular expressions, compiled and run by the `regex` crate.
use vstd::prelude::*;

verus! {

#[verifier::external_type_specification]
#[verifier::external_body]
pub struct ExRegex(regex::Regex);

#[verifier::external_type_specification]
#[verifier::external_body]
pub struct ExRegexError(regex::Error);

/// Whether `regex::Regex::new` accepts a pattern: it is well formed and its
/// compiled program stays under the crate's default size limit.
pub uninterp spec fn regex_compiles(pattern: Seq<char>) -> bool;

/// The pattern text a compiled regex was built from; `regex::Regex::as_str`
/// hands it back.
pub uninterp spec fn regex_source(re: regex::Regex) -> Seq<char>;

/// Whether a pattern has a match somewhere in a text, as
/// `regex::Regex::is_match` decides it.
pub uninterp spec fn regex_finds(pattern: Seq<char>, text: Seq<char>) -> bool;

/// Relies on `regex::Regex::new`: it succeeds exactly on the patterns it
/// accepts, and the regex it builds keeps the pattern text it was given.
pub assume_specification[ regex::Regex::new ](re: &str) -> (r: Result<
    regex::Regex,
    regex::Error,
>)
    ensures
        r is Ok <==> regex_compiles(re@),
        r matches Ok(x) ==> regex_source(x) == re@,
;

/// Relies on `regex::Regex::is_match`: whether the regex's pattern matches
/// anywhere in the haystack.
pub assume_specification[ regex::Regex::is_match ](re: &regex::Regex, haystack: &str) -> (r:
    bool)
    ensures
        r == regex_finds(regex_source(*re), haystack@),
;

} // verus!
