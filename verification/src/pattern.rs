//! Regular-expression substitution, through the `regex` crate.
//!
//! Compiling and running a regular expression is the `regex` crate's work;
//! its outcome is named here (`regex_builds`, `regex_replaced`) and the
//! library's own decisions around it are verified.
use vstd::prelude::*;

verus! {

#[verifier::external_type_specification]
#[verifier::external_body]
pub struct ExRegexError(regex::Error);

/// Whether `RegexBuilder::new(pattern).case_insensitive(ci).build()` succeeds.
pub uninterp spec fn regex_builds(pattern: Seq<char>, case_insensitive: bool) -> bool;

/// The text that `Regex::replace_all(haystack, NoExpand(replacement))`
/// returns for the regex built from `pattern` with the given case mode.
pub uninterp spec fn regex_replaced(
    pattern: Seq<char>,
    case_insensitive: bool,
    haystack: Seq<char>,
    replacement: Seq<char>,
) -> Seq<char>;

/// Builds a regex with `regex::RegexBuilder` (case-insensitive when asked)
/// and, when that succeeds, replaces every match in `haystack` with the
/// literal `replacement` (`Regex::replace_all` with `NoExpand`).  The claim is
/// that success is `regex_builds` and the text is `regex_replaced`; what
/// matches is left to the crate.  A compiled `Regex` is opaque, so building
/// and replacing form one trusted step.
#[verifier::external_body]
pub(crate) fn regex_replace_all(
    pattern: &str,
    case_insensitive: bool,
    haystack: &str,
    replacement: &str,
) -> (r: Result<String, regex::Error>)
    ensures
        r is Ok <==> regex_builds(pattern@, case_insensitive),
        r matches Ok(out) ==> out@ == regex_replaced(
            pattern@,
            case_insensitive,
            haystack@,
            replacement@,
        ),
{
    let re = regex::RegexBuilder::new(pattern).case_insensitive(case_insensitive).build()?;
    Ok(re.replace_all(haystack, regex::NoExpand(replacement)).into_owned())
}

/// The characters that `regex::escape` prefixes with a backslash.
pub open spec fn is_regex_meta(c: char) -> bool {
    c == '\\' || c == '.' || c == '+' || c == '*' || c == '?' || c == '(' || c == ')' || c == '|'
        || c == '[' || c == ']' || c == '{' || c == '}' || c == '^' || c == '$' || c == '#' || c
        == '&' || c == '-' || c == '~'
}

/// `regex::escape`: each meta character gets a backslash in front of it.
pub open spec fn escaped(s: Seq<char>) -> Seq<char>
    decreases s.len(),
{
    if s.len() == 0 {
        seq![]
    } else {
        (if is_regex_meta(s[0]) {
            seq!['\\', s[0]]
        } else {
            seq![s[0]]
        }) + escaped(s.drop_first())
    }
}

/// Calls `regex::escape`, which writes a backslash before every meta
/// character and copies every other character.
#[verifier::external_body]
fn regex_escape(text: &str) -> (r: String)
    ensures
        r@ == escaped(text@),
{
    regex::escape(text)
}

/// The result of replacing, ignoring case, every occurrence of `needle` in
/// `haystack` with `replacement`.  An empty needle, or a needle whose
/// escaped pattern the regex crate refuses, leaves the haystack as it is.
pub open spec fn replaced_ignoring_case(
    haystack: Seq<char>,
    needle: Seq<char>,
    replacement: Seq<char>,
) -> Seq<char> {
    if needle.len() == 0 {
        haystack
    } else if regex_builds(escaped(needle), true) {
        regex_replaced(escaped(needle), true, haystack, replacement)
    } else {
        haystack
    }
}

/// Keeps the substituted text when the substitution ran, and the original
/// text when the pattern could not be built.
pub fn replacement_or_original(haystack: &str, outcome: Result<String, regex::Error>) -> (r: String)
    ensures
        outcome matches Ok(s) ==> r@ == s@,
        outcome is Err ==> r@ == haystack@,
{
    match outcome {
        Ok(s) => s,
        Err(_) => haystack.to_owned(),
    }
}

/// Replaces, ignoring case, every occurrence of `needle` in `haystack` with
/// `replacement` taken literally.
pub fn replace_case_insensitive(haystack: &str, needle: &str, replacement: &str) -> (r: String)
    ensures
        r@ == replaced_ignoring_case(haystack@, needle@, replacement@),
{
    if needle.is_empty() {
        return haystack.to_owned();
    }
    let pattern = regex_escape(needle);
    let outcome = regex_replace_all(pattern.as_str(), true, haystack, replacement);
    replacement_or_original(haystack, outcome)
}

} // verus!
