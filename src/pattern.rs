//! Compiled regular expressions, each remembering the text it was compiled
//! from.
use vstd::prelude::*;

use crate::error::FilterError;

verus! {

/// `regex::Regex`, opaque: it is only matched through `regex_is_match`.
#[verifier::external_type_specification]
#[verifier::external_body]
pub struct ExRegex(regex::Regex);

/// Whether `regex` accepts `pattern` as a regular expression (its syntax
/// and its default size limit).
pub uninterp spec fn pattern_valid(pattern: Seq<char>) -> bool;

/// Whether the regular expression `pattern` matches somewhere in `text`.
pub uninterp spec fn pattern_matches(pattern: Seq<char>, text: Seq<char>) -> bool;

/// A regular expression together with its source text. Only
/// `Pattern::compile` makes one, so the two always agree.
#[derive(Debug)]
pub struct Pattern {
    source: String,
    re: regex::Regex,
}

impl View for Pattern {
    type V = Seq<char>;

    closed spec fn view(&self) -> Seq<char> {
        self.source@
    }
}

/// Relies on `regex::Regex::new`: it succeeds exactly on the patterns that
/// it accepts, which depends on the pattern alone.
#[verifier::external_body]
fn regex_new(source: &String) -> (r: Result<Pattern, regex::Error>)
    ensures
        r is Ok <==> pattern_valid(source@),
        r is Ok ==> r->Ok_0@ == source@,
{
    match regex::Regex::new(source) {
        Ok(re) => Ok(Pattern { source: source.clone(), re }),
        Err(e) => Err(e),
    }
}

/// Relies on `regex::Regex::is_match`: whether the expression matches
/// anywhere in `text`.
#[verifier::external_body]
fn regex_is_match(p: &Pattern, text: &str) -> (r: bool)
    ensures
        r == pattern_matches(p@, text@),
{
    p.re.is_match(text)
}

impl Pattern {
    /// Compiles `source`, or says why it is no regular expression.
    pub fn compile(source: &String) -> (r: Result<Pattern, FilterError>)
        ensures
            r is Ok <==> pattern_valid(source@),
            r is Ok ==> r->Ok_0@ == source@,
            r is Err ==> r->Err_0 is RegexError,
    {
        match regex_new(source) {
            Ok(p) => Ok(p),
            Err(e) => Err(FilterError::RegexError(e)),
        }
    }

    /// Whether this expression matches somewhere in `text`.
    pub fn is_match(&self, text: &str) -> (r: bool)
        ensures
            r == pattern_matches(self@, text@),
    {
        regex_is_match(self, text)
    }
}

} // verus!
