use vstd::prelude::*;

verus! {

/// Declares regex::Regex to Verus: the compiled form of a pattern, opaque
/// here beyond the pattern text it holds.
#[verifier::external_type_specification]
#[verifier::external_body]
pub struct ExRegex(regex::Regex);

/// Whether a pattern text is valid regular-expression syntax: exactly the
/// patterns regex::Regex::new accepts.
pub uninterp spec fn pattern_valid(pat: Seq<char>) -> bool;

/// The pattern text a compiled regex holds (what regex::Regex::as_str
/// returns): the one it was built from.
pub uninterp spec fn regex_source(re: regex::Regex) -> Seq<char>;

/// Whether the regular expression written `pat` matches anywhere inside
/// `text`: what regex::Regex::is_match returns, a function of the pattern and
/// the text alone.
pub uninterp spec fn regex_match(pat: Seq<char>, text: Seq<char>) -> bool;

/// Relies on regex::Regex::new: it returns Ok exactly on syntactically valid
/// patterns, and the compiled value holds the pattern it was given.
#[verifier::external_body]
pub(crate) fn regex_new(pat: &str) -> (r: Option<regex::Regex>)
    ensures
        r is Some <==> pattern_valid(pat@),
        r is Some ==> regex_source(r->Some_0) == pat@,
{
    regex::Regex::new(pat).ok()
}

/// Relies on regex::Regex::is_match: whether the compiled pattern matches
/// anywhere in the text; the result depends on the pattern and the text alone.
#[verifier::external_body]
pub(crate) fn regex_is_match(re: &regex::Regex, text: &str) -> (r: bool)
    ensures
        r == regex_match(regex_source(*re), text@),
{
    re.is_match(text)
}

} // verus!
