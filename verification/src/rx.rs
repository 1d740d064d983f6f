use vstd::prelude::*;

verus! {

/// Whether a pattern is a valid regular expression for the engine.
/// Compilation succeeds or fails on the pattern text alone.
pub uninterp spec fn pattern_valid(pat: Seq<char>) -> bool;

/// The pattern a compiled regular expression was built from; a compiled
/// regex keeps its source pattern (regex::Regex::as_str returns it).
pub uninterp spec fn pattern_of(re: regex::Regex) -> Seq<char>;

/// Whether a pattern matches anywhere in a text; a function of the
/// pattern and the text alone.
pub uninterp spec fn regex_matches(pat: Seq<char>, text: Seq<char>) -> bool;

#[verifier::external_type_specification]
#[verifier::external_body]
pub struct ExRegex(regex::Regex);

/// Relies on regex::Regex::new: compilation is determined by the pattern
/// alone, and the compiled value keeps that pattern. A failure is handed
/// back as the error's rendered message.
#[verifier::external_body]
pub fn regex_new(pat: &str) -> (r: Result<regex::Regex, String>)
    ensures
        r is Ok <==> pattern_valid(pat@),
        r matches Ok(re) ==> pattern_of(re) == pat@,
{
    regex::Regex::new(pat).map_err(|e| e.to_string())
}

/// Relies on regex::Regex::is_match: true exactly when the compiled
/// pattern matches somewhere in the text.
#[verifier::external_body]
pub fn regex_is_match(re: &regex::Regex, text: &str) -> (r: bool)
    ensures
        r == regex_matches(pattern_of(*re), text@),
{
    re.is_match(text)
}

} // verus!
