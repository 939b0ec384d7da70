//! Regular expressions: the boundary to the `regex` crate.

use regex::Regex;
use vstd::prelude::*;

verus! {

#[verifier::external_type_specification]
#[verifier::external_body]
pub struct ExRegex(regex::Regex);

/// What `Regex::new` makes of a pattern: `None` where it is not valid.
pub uninterp spec fn compiled(pattern: Seq<char>) -> Option<Regex>;

/// What `Regex::is_match` answers for a text.
pub uninterp spec fn matches_text(re: Regex, text: Seq<char>) -> bool;

/// `Regex::new` with the error dropped: the result is a function of the
/// pattern's text alone, named `compiled`.
#[verifier::external_body]
pub(crate) fn compile(pattern: &str) -> (r: Option<Regex>)
    ensures
        r == compiled(pattern@),
{
    Regex::new(pattern).ok()
}

/// `Regex::is_match`: the answer is a function of the expression and the text,
/// named `matches_text`.
#[verifier::external_body]
pub(crate) fn is_match(re: &Regex, text: &str) -> (b: bool)
    ensures
        b == matches_text(*re, text@),
{
    re.is_match(text)
}

} // verus!
