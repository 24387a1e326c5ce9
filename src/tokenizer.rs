//! The two ways of cutting text into words: maximal runs of letters (used to
//! link texts to words) and whitespace-separated display tokens with the
//! punctuation taken out (used to look words up when a text is shown).
use vstd::prelude::*;

verus! {

/// The character sequences of a list of strings.
pub open spec fn strings_view(v: Seq<String>) -> Seq<Seq<char>> {
    v.map_values(|s: String| s@)
}

/// The matches of `\p{L}+` in `s`, in order: each maximal run of Unicode
/// letters. Digits, punctuation and symbols separate runs.
pub uninterp spec fn letter_runs(s: Seq<char>) -> Seq<Seq<char>>;

/// The punctuation set of display tokens: sentence punctuation, quotes,
/// brackets, the ellipsis, the slash and the hyphen.
pub open spec fn is_punctuation(c: char) -> bool {
    c == '.' || c == ',' || c == ':' || c == '!' || c == '?' || c == '"' || c == '\''
        || c == '\u{2019}' || c == '\u{201C}' || c == '\u{201D}' || c == '\u{2026}' || c == '/'
        || c == '[' || c == ']' || c == '(' || c == ')' || c == '{' || c == '}' || c == '<'
        || c == '>' || c == '\u{00AB}' || c == '\u{00BB}' || c == '-'
}

/// `s` with every character of the punctuation set removed.
pub open spec fn punctuation_stripped(s: Seq<char>) -> Seq<char> {
    s.filter(|c: char| !is_punctuation(c))
}

/// The pieces of `s` between runs of Unicode whitespace, in order.
pub uninterp spec fn whitespace_words(s: Seq<char>) -> Seq<Seq<char>>;

/// The display tokens of `s`.
pub open spec fn display_words(s: Seq<char>) -> Seq<Seq<char>> {
    whitespace_words(punctuation_stripped(s))
}

/// Relies on the regex crate: `Regex::find_iter` with the pattern `\p{L}+`,
/// which yields non-empty matches in order.
#[verifier::external_body]
fn letter_matches(text: &str) -> (r: Vec<String>)
    ensures
        strings_view(r@) == letter_runs(text@),
        forall|i: int| 0 <= i < r@.len() ==> r@[i]@.len() > 0,
{
    let re = regex::Regex::new(r"\p{L}+").unwrap();
    re.find_iter(text).map(|m| m.as_str().to_string()).collect()
}

/// Relies on the regex crate: `Regex::replace_all` with an empty replacement
/// over a character class of one character each, which deletes every
/// character of the class and keeps the rest in order.
#[verifier::external_body]
fn remove_punctuation(text: &str) -> (r: String)
    ensures
        r@ == text@.filter(|c: char| !is_punctuation(c)),
{
    let re = regex::Regex::new("[.,:!’?\"!“.”'’,,’’…/\\[\\](){}<>«'»-]").unwrap();
    re.replace_all(text, "").to_string()
}

/// Relies on `str::split_whitespace`: the non-empty pieces between whitespace.
#[verifier::external_body]
fn split_on_whitespace(text: &str) -> (r: Vec<String>)
    ensures
        strings_view(r@) == whitespace_words(text@),
        forall|i: int| 0 <= i < r@.len() ==> r@[i]@.len() > 0,
{
    text.split_whitespace().map(|w| w.to_string()).collect()
}

/// The word tokens of `text`: maximal letter runs, in order of appearance,
/// with their casing kept and repeats kept.
pub fn letter_tokens(text: &str) -> (r: Vec<String>)
    ensures
        strings_view(r@) == letter_runs(text@),
        forall|i: int| 0 <= i < r@.len() ==> r@[i]@.len() > 0,
{
    letter_matches(text)
}

/// The display tokens of `text`: the punctuation set removed, then split on
/// whitespace.
pub fn display_tokens(text: &str) -> (r: Vec<String>)
    ensures
        strings_view(r@) == display_words(text@),
        forall|i: int| 0 <= i < r@.len() ==> r@[i]@.len() > 0,
{
    let cleaned = remove_punctuation(text);
    split_on_whitespace(cleaned.as_str())
}

} // verus!
