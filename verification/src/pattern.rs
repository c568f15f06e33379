//! Regular expressions, matched by the `regex` crate.
use vstd::prelude::*;

verus! {

/// Whether `regex::Regex::new(pattern)` succeeds.
pub uninterp spec fn regex_compiles(pattern: Seq<char>) -> bool;

/// What `regex::Regex::is_match` answers for the compiled `pattern` on
/// `text`: whether the pattern matches somewhere in the text.
pub uninterp spec fn regex_is_match(pattern: Seq<char>, text: Seq<char>) -> bool;

/// Compiles `pattern` with `regex::Regex::new` and, when that succeeds,
/// asks `regex::Regex::is_match` whether it matches `text`.
/// The contract claims: the result is `Some` exactly when the pattern
/// compiles, and then holds the named result of `is_match`; both depend on
/// the pattern and the text only.
#[verifier::external_body]
pub(crate) fn regex_search(pattern: &str, text: &str) -> (r: Option<bool>)
    ensures
        r is Some <==> regex_compiles(pattern@),
        r matches Some(b) ==> b == regex_is_match(pattern@, text@),
{
    match regex::Regex::new(pattern) {
        Ok(re) => Some(re.is_match(text)),
        Err(_) => None,
    }
}

/// Whether `pattern` is a valid regular expression.
pub fn regex_valid(pattern: &str) -> (r: bool)
    ensures
        r == regex_compiles(pattern@),
{
    regex_search(pattern, "").is_some()
}

/// Whether `pattern` compiles and matches `text`.
pub fn regex_matches(pattern: &str, text: &str) -> (r: bool)
    ensures
        r == (regex_compiles(pattern@) && regex_is_match(pattern@, text@)),
{
    match regex_search(pattern, text) {
        Some(b) => b,
        None => false,
    }
}

} // verus!
