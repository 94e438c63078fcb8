//! Regular-expression matching, done by the `regex` crate.
use vstd::prelude::*;

verus! {

#[verifier::external_type_specification]
#[verifier::external_body]
pub struct ExRegex(regex::Regex);

#[verifier::external_type_specification]
#[verifier::external_body]
pub struct ExRegexError(regex::Error);

/// Whether `regex::Regex::new` accepts `pattern`. For a given build of the
/// program that depends on the pattern alone: its syntax and the crate's
/// size limits. Those limits count the compiled program's memory with
/// `mem::size_of`, so a pattern near them may compile on a target with one
/// pointer width and not on another.
pub uninterp spec fn regex_compiles(pattern: Seq<char>) -> bool;

/// Whether the regex compiled from `pattern` matches somewhere in
/// `haystack`, as `regex::Regex::is_match` answers.
pub uninterp spec fn regex_finds_match(pattern: Seq<char>, haystack: Seq<char>) -> bool;

/// A regex together with the pattern it was compiled from.
pub struct CompiledPattern {
    regex: regex::Regex,
    source: Ghost<Seq<char>>,
}

impl View for CompiledPattern {
    type V = Seq<char>;

    /// The pattern that the regex was compiled from.
    closed spec fn view(&self) -> Seq<char> {
        self.source@
    }
}

/// Compiles `pattern` with `regex::Regex::new`. Claimed: it succeeds
/// exactly when the pattern is one that the crate accepts, and what it gives
/// back matches as that pattern does.
#[verifier::external_body]
pub(crate) fn compile_pattern(pattern: &str) -> (r: Result<CompiledPattern, regex::Error>)
    ensures
        r is Ok <==> regex_compiles(pattern@),
        r matches Ok(c) ==> c@ == pattern@,
{
    match regex::Regex::new(pattern) {
        Ok(regex) => Ok(CompiledPattern { regex, source: Ghost(pattern@) }),
        Err(e) => Err(e),
    }
}

/// Searches `haystack` with `regex::Regex::is_match`. Claimed: the answer is
/// whether the compiled pattern matches anywhere in the haystack.
#[verifier::external_body]
pub(crate) fn pattern_matches(compiled: &CompiledPattern, haystack: &str) -> (r: bool)
    ensures
        r == regex_finds_match(compiled@, haystack@),
{
    compiled.regex.is_match(haystack)
}

/// Whether `pattern` compiles, and if so whether it matches in `haystack`:
/// `None` for a pattern that does not compile.
pub fn match_pattern(pattern: &str, haystack: &str) -> (r: Option<bool>)
    ensures
        r is Some <==> regex_compiles(pattern@),
        r matches Some(b) ==> b == regex_finds_match(pattern@, haystack@),
{
    match compile_pattern(pattern) {
        Ok(compiled) => Some(pattern_matches(&compiled, haystack)),
        Err(_) => None,
    }
}

} // verus!
