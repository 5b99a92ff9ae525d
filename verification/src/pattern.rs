//! Regular expressions, from the `regex` crate.

use regex::Regex;
use vstd::prelude::*;

verus! {

/// `regex::Regex`, carried as an opaque value.
#[verifier::external_type_specification]
#[verifier::external_body]
pub struct ExRegex(regex::Regex);

/// The pattern that a `Regex` was made from (`Regex::as_str`).
pub uninterp spec fn pattern_of(re: regex::Regex) -> Seq<char>;

/// Why `Regex::new` refuses a pattern, as the error's text; nothing where it does not.
pub uninterp spec fn pattern_fault(pattern: Seq<char>) -> Option<Seq<char>>;

/// Whether a pattern matches somewhere in a text (`Regex::is_match`).
pub uninterp spec fn pattern_matches(pattern: Seq<char>, text: Seq<char>) -> bool;

/// What the first capture group of a pattern's leftmost match in a text holds
/// (`Regex::captures`, `Captures::get`).
pub uninterp spec fn pattern_group(pattern: Seq<char>, text: Seq<char>) -> Option<Seq<char>>;

/// A character that can mean something in a pattern.
pub open spec fn is_meta_char(c: char) -> bool {
    c == '\\' || c == '.' || c == '+' || c == '*' || c == '?' || c == '(' || c == ')' || c == '|' || c == '['
        || c == ']' || c == '{' || c == '}' || c == '^' || c == '$' || c == '#' || c == '&' || c == '-' || c == '~'
}

/// A text with a backslash in front of every character that can mean something in a pattern.
pub open spec fn pattern_escaped(text: Seq<char>) -> Seq<char>
    decreases text.len(),
{
    if text.len() == 0 {
        Seq::empty()
    } else if is_meta_char(text.last()) {
        pattern_escaped(text.drop_last()).push('\\').push(text.last())
    } else {
        pattern_escaped(text.drop_last()).push(text.last())
    }
}

/// `Regex::new`: a regular expression made from the pattern, or the text of the error.
#[verifier::external_body]
pub(crate) fn compile(pattern: &str) -> (r: Result<Regex, String>)
    ensures
        match pattern_fault(pattern@) {
            None => r is Ok && pattern_of(r->Ok_0) == pattern@,
            Some(m) => r is Err && r->Err_0@ == m,
        },
{
    Regex::new(pattern).map_err(|e| e.to_string())
}

/// `Regex::is_match`: whether the expression matches somewhere in the text.
#[verifier::external_body]
pub(crate) fn is_match(re: &Regex, text: &str) -> (r: bool)
    ensures
        r == pattern_matches(pattern_of(*re), text@),
{
    re.is_match(text)
}

/// `Regex::captures`, then `Captures::get(1)`: what the first group of the leftmost match holds,
/// where there is a match and the group took part in it.
#[verifier::external_body]
pub(crate) fn first_group(re: &Regex, text: &str) -> (r: Option<String>)
    ensures
        match pattern_group(pattern_of(*re), text@) {
            Some(g) => r is Some && r->0@ == g,
            None => r is None,
        },
{
    re.captures(text).and_then(|c| c.get(1)).map(|m| m.as_str().to_owned())
}

/// `regex::escape`: the text with a backslash in front of every character that can mean
/// something in a pattern.
#[verifier::external_body]
pub(crate) fn escape(text: &str) -> (r: String)
    ensures
        r@ == pattern_escaped(text@),
{
    regex::escape(text)
}

} // verus!
