//! Regular expressions, as the `regex` crate compiles and searches them.

use vstd::prelude::*;

use crate::mask;

verus! {

/// A compiled regular expression of the `regex` crate.
#[verifier::external_type_specification]
#[verifier::external_body]
pub struct ExRegex(regex::Regex);

/// Why a pattern does not compile.
#[verifier::external_type_specification]
#[verifier::external_body]
pub struct ExRegexError(regex::Error);

/// The pattern that a compiled expression holds, as `Regex::as_str` gives it.
pub uninterp spec fn regex_source(expression: regex::Regex) -> Seq<char>;

/// Whether `Regex::new` accepts a pattern.
pub uninterp spec fn regex_compiles(pattern: Seq<char>) -> bool;

/// Whether `Regex::is_match` finds a match of the pattern in the text.
pub uninterp spec fn regex_matches(pattern: Seq<char>, text: Seq<char>) -> bool;

/// What the first group of the leftmost match holds, as `Regex::captures`
/// finds it; none where there is no match, or where the group took no part in it.
pub uninterp spec fn regex_first_group(pattern: Seq<char>, text: Seq<char>) -> Option<Seq<char>>;

/// Whether a pattern finds nothing in any text that holds a sign.
pub open spec fn shuns(pattern: Seq<char>, sign: char) -> bool {
    &&& forall|text: Seq<char>|
        text.contains(sign) ==> !(#[trigger] regex_matches(pattern, text))
    &&& forall|text: Seq<char>|
        text.contains(sign) ==> (#[trigger] regex_first_group(pattern, text)) is None
}

/// Whether the first group of a pattern holds what the text starts with: a letter from
/// A to Z, large or small, or an underscore, and what follows it.
pub open spec fn starts_with_its_group(pattern: Seq<char>) -> bool {
    forall|text: Seq<char>|
        (#[trigger] regex_first_group(pattern, text)) matches Some(name) ==> {
            &&& 0 < name.len() <= text.len()
            &&& text.take(name.len() as int) == name
            &&& 'a' <= name[0] <= 'z' || 'A' <= name[0] <= 'Z' || name[0] == '_'
        }
}

/// `Regex::new`: compiles a pattern, and keeps it. Of the patterns of `mask` more is
/// taken for granted, as the syntax of the `regex` crate has it. Each of them is
/// anchored at both ends, so a text fits it only as a whole, and none of its characters
/// and classes takes `<`. The first group of the pattern of a process stands right
/// behind the anchor and starts with the class `[A-Za-z_]`.
#[verifier::external_body]
pub(crate) fn compile(pattern: &str) -> (compiled: Result<regex::Regex, regex::Error>)
    ensures
        compiled is Ok <==> regex_compiles(pattern@),
        compiled is Ok ==> regex_source(compiled->Ok_0) == pattern@,
        compiled is Ok && mask::is_mask_pattern(pattern@) ==> shuns(
            regex_source(compiled->Ok_0),
            '<',
        ),
        compiled is Ok && pattern@ == mask::PROCESS_PATTERN@ ==> starts_with_its_group(
            regex_source(compiled->Ok_0),
        ),
{
    regex::Regex::new(pattern)
}

/// `Regex::is_match`: whether the expression matches anywhere in the text.
#[verifier::external_body]
pub(crate) fn is_match(expression: &regex::Regex, text: &str) -> (found: bool)
    ensures
        found == regex_matches(regex_source(*expression), text@),
{
    expression.is_match(text)
}

/// `Regex::captures`: the text of the first group of the leftmost match.
#[verifier::external_body]
pub(crate) fn first_group(expression: &regex::Regex, text: &str) -> (group: Option<String>)
    ensures
        match group {
            Some(found) => regex_first_group(regex_source(*expression), text@) == Some(found@),
            None => regex_first_group(regex_source(*expression), text@) is None,
        },
{
    expression.captures(text).and_then(|found| found.get(1)).map(|group| group.as_str().to_string())
}

} // verus!
