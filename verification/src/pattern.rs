//! Compiled regular expressions, through the `regex` crate.
use vstd::prelude::*;

verus! {

#[verifier::external_type_specification]
#[verifier::external_body]
pub struct ExRegex(regex::Regex);

#[verifier::external_type_specification]
#[verifier::external_body]
pub struct ExRegexError(regex::Error);

/// Whether `regex::Regex::new` accepts `pattern`.
pub uninterp spec fn regex_compiles(pattern: Seq<char>) -> bool;

/// What `regex::Regex::is_match` answers for a regex compiled from `pattern`
/// on the haystack `text`.
pub uninterp spec fn regex_is_match(pattern: Seq<char>, text: Seq<char>) -> bool;

/// What `regex::Regex::replace` returns for a regex compiled from `pattern`:
/// `text` with its leftmost-first match replaced by `replacement`.
pub uninterp spec fn regex_replace(pattern: Seq<char>, text: Seq<char>, replacement: Seq<char>) -> Seq<char>;

/// A regular expression together with the pattern it was compiled from.
/// Only `compile` builds one, so the two always agree.
pub struct Pattern {
    re: regex::Regex,
    source: String,
}

impl View for Pattern {
    type V = Seq<char>;

    closed spec fn view(&self) -> Seq<char> {
        self.source@
    }
}

/// `regex::Regex::new`: succeeds exactly when the pattern compiles; the
/// result remembers the pattern.
#[verifier::external_body]
pub fn compile(pattern: &str) -> (r: Result<Pattern, regex::Error>)
    ensures
        r is Ok <==> regex_compiles(pattern@),
        r matches Ok(p) ==> p@ == pattern@,
{
    match regex::Regex::new(pattern) {
        Ok(re) => Ok(Pattern { re, source: pattern.to_string() }),
        Err(e) => Err(e),
    }
}

/// `regex::Regex::is_match`.
#[verifier::external_body]
pub fn is_match(p: &Pattern, text: &str) -> (r: bool)
    ensures
        r == regex_is_match(p@, text@),
{
    p.re.is_match(text)
}

/// `regex::Regex::replace` with a string replacement. The crate documents
/// that a haystack with no match is returned unchanged.
#[verifier::external_body]
pub fn replace(p: &Pattern, text: &str, replacement: &str) -> (r: String)
    ensures
        r@ == regex_replace(p@, text@, replacement@),
        !regex_is_match(p@, text@) ==> r@ == text@,
{
    p.re.replace(text, replacement).into_owned()
}

} // verus!
