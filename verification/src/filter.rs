//! Name filtering through a compiled regular expression.
//!
//! Enumeration optionally keeps only the tests whose synthesized name
//! the caller's pattern matches. Matching is done by the `regex` crate;
//! what its engine accepts is named by the uninterpreted function
//! [`regex_match`], a function of the pattern and the text alone, and
//! every contract about filtering speaks through that name.

use crate::Error;
use vstd::prelude::*;

verus! {

/// The compiled regular expression type of the `regex` crate, opaque to
/// verification; values of it only ride inside [`NameFilter`].
#[verifier::external_type_specification]
#[verifier::external_body]
pub struct ExRegex(regex::Regex);

/// Whether the regular expression compiled from `pattern` matches
/// anywhere inside `text`. Names the result of `regex::Regex::is_match`,
/// which depends on the pattern and the haystack alone.
pub uninterp spec fn regex_match(pattern: Seq<char>, text: Seq<char>) -> bool;

/// A test-name filter: a pattern kept beside the expression compiled
/// from it. The only constructor compiles the kept pattern, so every
/// match answered by the compiled expression is a match of the pattern.
pub struct NameFilter {
    pattern: String,
    compiled: regex::Regex,
}

impl NameFilter {
    /// The pattern this filter was compiled from.
    pub closed spec fn spec_pattern(&self) -> Seq<char> {
        self.pattern@
    }

    /// The pattern this filter was compiled from.
    pub fn pattern(&self) -> (r: &str)
        ensures
            r@ == self.spec_pattern(),
    {
        self.pattern.as_str()
    }

    /// Compiles a filter from a pattern. Relies on `regex::Regex::new`:
    /// it returns the compiled expression of exactly the given pattern,
    /// or an error for a pattern the engine rejects.
    #[verifier::external_body]
    pub fn new(pattern: &str) -> (r: Result<NameFilter, Error>)
        ensures
            match r {
                Ok(f) => f.spec_pattern() == pattern@,
                Err(e) => e == Error::ParseFailed,
            },
    {
        match regex::Regex::new(pattern) {
            Ok(compiled) => Ok(NameFilter { pattern: pattern.to_string(), compiled }),
            Err(_) => Err(Error::ParseFailed),
        }
    }

    /// Whether this filter's pattern matches anywhere in `text`.
    /// Relies on `regex::Regex::is_match`: true if and only if the
    /// compiled pattern matches somewhere in the haystack.
    #[verifier::external_body]
    pub fn is_match(&self, text: &str) -> (r: bool)
        ensures
            r == regex_match(self.spec_pattern(), text@),
    {
        self.compiled.is_match(text)
    }
}

} // verus!
