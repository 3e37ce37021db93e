//! The two token shapes that are recognised by a regular expression, and the
//! call into the regex engine that decides them.

use regex::Regex;
use vstd::prelude::*;

verus! {

/// The shape of a string literal: a double quote, any text, a double quote.
pub const STRING_PATTERN: &'static str = r#"^(".*?")$"#;

/// The shape of a number: digits, optionally followed by a dot and more
/// digits.
pub const NUMBER_PATTERN: &'static str = r#"^(\d+(\.\d+)?)$"#;

/// Whether the regex engine finds a match of `pattern` anywhere in
/// `haystack`. The engine's answer is not modelled any further: this is the
/// name under which contracts speak of it.
pub uninterp spec fn regex_is_match(pattern: Seq<char>, haystack: Seq<char>) -> bool;

/// `pattern` is one of the patterns of this module.
pub open spec fn known_pattern(pattern: Seq<char>) -> bool {
    pattern == STRING_PATTERN@ || pattern == NUMBER_PATTERN@
}

/// Compiles `pattern` with `regex::Regex::new` and searches `haystack` with
/// `regex::Regex::is_match`.
///
/// Trusted: the answer is the engine's, named [`regex_is_match`]. The
/// patterns that `requires` admits are the two constants above, which the
/// engine compiles; for any other pattern compilation could fail.
#[verifier::external_body]
pub(crate) fn search(pattern: &str, haystack: &str) -> (found: bool)
    requires
        known_pattern(pattern@),
    ensures
        found == regex_is_match(pattern@, haystack@),
{
    Regex::new(pattern).unwrap().is_match(haystack)
}

} // verus!
