//! Traits & impls for matching types with strings.
//!
//! Anything that implements [`Pattern`] can be handed to the query builder
//! wherever a tag name, attribute name or attribute value is expected.

use vstd::prelude::*;
use crate::strutil::str_eq;

verus! {

/// A trait used to indicate a type which can be used to match a value.
///
/// Each pattern carries its meaning as a specification-level predicate over
/// character sequences, and its executable `matches` method decides exactly
/// that predicate.
pub trait Pattern: Sized {
    /// The set of strings this pattern accepts.
    spec fn spec_matches(&self, haystack: Seq<char>) -> bool;

    /// Matches the `Pattern` with the value `haystack`.
    fn matches(&self, haystack: &str) -> (r: bool)
        ensures
            r == self.spec_matches(haystack@),
    ;
}

impl Pattern for bool {
    /// `true` accepts every string, `false` accepts none.
    open spec fn spec_matches(&self, haystack: Seq<char>) -> bool {
        *self
    }

    fn matches(&self, haystack: &str) -> (r: bool) {
        *self
    }
}

impl Pattern for String {
    /// Exact equality with the haystack.
    open spec fn spec_matches(&self, haystack: Seq<char>) -> bool {
        self@ == haystack
    }

    fn matches(&self, haystack: &str) -> (r: bool) {
        str_eq(self.as_str(), haystack)
    }
}

impl<'a> Pattern for &'a str {
    /// Exact equality with the haystack.
    open spec fn spec_matches(&self, haystack: Seq<char>) -> bool {
        self@ == haystack
    }

    fn matches(&self, haystack: &str) -> (r: bool) {
        str_eq(self, haystack)
    }
}

#[verifier::external_type_specification]
#[verifier::external_body]
/// Declares `regex::Regex` so that a compiled regular expression can be held
/// in a field; the value is opaque to verification.
pub struct ExRegex(regex::Regex);

/// Whether the regular expression written as `pattern` matches anywhere in
/// `haystack` (the unanchored-search semantics of `regex::Regex::is_match`).
/// Matching is a function of the pattern source and the haystack alone.
pub uninterp spec fn regex_match_of(pattern: Seq<char>, haystack: Seq<char>) -> bool;

/// A pattern backed by a compiled regular expression, accepting every string
/// that the expression matches somewhere (an unanchored search).
pub struct RegexPattern {
    src: String,
    re: regex::Regex,
}

impl RegexPattern {
    /// The source text the regular expression was compiled from.
    pub closed spec fn src_spec(&self) -> Seq<char> {
        self.src@
    }

    /// Relies on `regex::Regex::new`: compiling `src` either yields a regex
    /// that searches for exactly the pattern written as `src` (kept here
    /// beside its source text), or fails on a syntactically invalid pattern.
    #[verifier::external_body]
    fn compile(src: &str) -> (r: Option<RegexPattern>)
        ensures
            r matches Some(p) ==> p.src_spec() == src@,
    {
        match regex::Regex::new(src) {
            Ok(re) => Some(RegexPattern { src: src.to_owned(), re }),
            Err(_) => None,
        }
    }

    /// Compiles `src`; returns `None` when it is not a valid regular
    /// expression.
    pub fn new(src: &str) -> (r: Option<RegexPattern>)
        ensures
            r matches Some(p) ==> p.src_spec() == src@,
    {
        RegexPattern::compile(src)
    }
}

/// Relies on `regex::Regex::is_match`: an unanchored search of `haystack`,
/// deciding `regex_match_of` for the source text that `p`'s expression was
/// compiled from (the two travel together in [`RegexPattern`]).
#[verifier::external_body]
fn regex_is_match(p: &RegexPattern, haystack: &str) -> (r: bool)
    ensures
        r == regex_match_of(p.src_spec(), haystack@),
{
    p.re.is_match(haystack)
}

impl Pattern for RegexPattern {
    /// Whatever the regular expression matches somewhere in the haystack.
    open spec fn spec_matches(&self, haystack: Seq<char>) -> bool {
        regex_match_of(self.src_spec(), haystack)
    }

    fn matches(&self, haystack: &str) -> (r: bool) {
        regex_is_match(self, haystack)
    }
}

impl<'a, P: Pattern> Pattern for &'a P {
    /// A reference to a pattern matches whatever the referent matches.
    open spec fn spec_matches(&self, haystack: Seq<char>) -> bool {
        (**self).spec_matches(haystack)
    }

    fn matches(&self, haystack: &str) -> (r: bool) {
        (**self).matches(haystack)
    }
}

} // verus!
