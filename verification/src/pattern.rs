//! Trusted boundary around the `regex` crate.
//!
//! A [`Pattern`] pairs a compiled regular expression with the exact text it
//! was compiled from; its view is that text. The two uninterpreted spec
//! functions name what the `regex` crate computes: whether a pattern text
//! compiles, and whether a compiled pattern matches anywhere in a text. Both
//! are functions of their string arguments alone.

use vstd::prelude::*;

verus! {

#[verifier::external_type_specification]
#[verifier::external_body]
pub struct ExRegex(regex::Regex);

/// Whether `regex::Regex::new` accepts `pattern` as a regular expression.
pub uninterp spec fn regex_ok(pattern: Seq<char>) -> bool;

/// Whether the regular expression compiled from `pattern` matches anywhere in
/// `text`, as `regex::Regex::is_match` decides it.
pub uninterp spec fn regex_match(pattern: Seq<char>, text: Seq<char>) -> bool;

/// A compiled regular expression together with the text it was compiled from.
///
/// The fields are private and [`Pattern::compile`] is the only constructor, so
/// `compiled` is always the compilation of `text`; the contract of
/// [`Pattern::is_match`] rests on that pairing.
pub(crate) struct Pattern {
    text: String,
    compiled: regex::Regex,
}

impl View for Pattern {
    type V = Seq<char>;

    closed spec fn view(&self) -> Seq<char> {
        self.text@
    }
}

impl Pattern {
    /// Relies on `regex::Regex::new`: whether compilation succeeds depends on
    /// the pattern text alone.
    #[verifier::external_body]
    pub(crate) fn compile(text: &str) -> (r: Option<Pattern>)
        ensures
            r is Some <==> regex_ok(text@),
            r matches Some(p) ==> p@ == text@,
    {
        match regex::Regex::new(text) {
            Ok(compiled) => Some(Pattern { text: text.to_string(), compiled }),
            Err(_) => None,
        }
    }

    /// Relies on `regex::Regex::is_match`: whether the compiled pattern
    /// matches anywhere in `text` depends on the pattern text and `text`
    /// alone.
    #[verifier::external_body]
    pub(crate) fn is_match(&self, text: &str) -> (r: bool)
        ensures
            r == regex_match(self@, text@),
    {
        self.compiled.is_match(text)
    }
}

} // verus!
