//! Calls into the `regex` crate. What a pattern matches in a text is named,
//! not restated: the pattern language is the regex crate's.

use vstd::prelude::*;

verus! {

/// The texts of the successive non-overlapping leftmost-first matches of
/// `pattern` in `haystack`, in order; empty when `pattern` does not compile.
pub uninterp spec fn regex_matches(pattern: Seq<char>, haystack: Seq<char>) -> Seq<Seq<char>>;

/// `haystack` with the leftmost-first match of `pattern` removed; `haystack`
/// itself when `pattern` does not compile.
pub uninterp spec fn regex_without_first(pattern: Seq<char>, haystack: Seq<char>) -> Seq<char>;

/// Relies on `regex::Regex::new` and `Regex::find_iter`: the text of every
/// match, in the order the iterator yields them.
#[verifier::external_body]
pub(crate) fn find_all(pattern: &str, haystack: &str) -> (r: Vec<String>)
    ensures
        r@.len() == regex_matches(pattern@, haystack@).len(),
        forall|i: int| 0 <= i < r@.len() ==> #[trigger] r@[i]@ == regex_matches(pattern@, haystack@)[i],
{
    match regex::Regex::new(pattern) {
        Ok(re) => re.find_iter(haystack).map(|m| m.as_str().to_string()).collect(),
        Err(_) => Vec::new(),
    }
}

/// Relies on `regex::Regex::new` and `Regex::is_match`: true exactly when the
/// pattern matches somewhere, that is when `find_iter` yields a first match.
#[verifier::external_body]
pub(crate) fn has_match(pattern: &str, haystack: &str) -> (r: bool)
    ensures
        r == (regex_matches(pattern@, haystack@).len() > 0),
{
    match regex::Regex::new(pattern) {
        Ok(re) => re.is_match(haystack),
        Err(_) => false,
    }
}

/// Relies on `regex::Regex::new` and `Regex::replace` with an empty
/// replacement: the leftmost-first match is cut out.
#[verifier::external_body]
pub(crate) fn remove_first_match(pattern: &str, haystack: &str) -> (r: String)
    ensures
        r@ == regex_without_first(pattern@, haystack@),
{
    match regex::Regex::new(pattern) {
        Ok(re) => re.replace(haystack, "").into_owned(),
        Err(_) => haystack.to_string(),
    }
}

/// The text of the first capture group in the leftmost-first match of
/// `pattern` in `haystack`, if there is a match and the group took part.
pub uninterp spec fn regex_first_group(pattern: Seq<char>, haystack: Seq<char>) -> Option<Seq<char>>;

/// A character with a meaning in a regex.
pub open spec fn is_meta_character(c: char) -> bool {
    c == '\\' || c == '.' || c == '+' || c == '*' || c == '?' || c == '(' || c == ')' || c == '|'
        || c == '[' || c == ']' || c == '{' || c == '}' || c == '^' || c == '$' || c == '#' || c
        == '&' || c == '-' || c == '~'
}

/// `s` with a backslash before every regex meta character, so that it
/// matches itself.
pub open spec fn regex_escaped(s: Seq<char>) -> Seq<char>
    decreases s.len(),
{
    if s.len() == 0 {
        Seq::empty()
    } else if is_meta_character(s.last()) {
        regex_escaped(s.drop_last()) + seq!['\\', s.last()]
    } else {
        regex_escaped(s.drop_last()).push(s.last())
    }
}

/// Relies on `regex::Regex::new`, `Regex::captures` and `Captures::get(1)`.
#[verifier::external_body]
pub(crate) fn first_group(pattern: &str, haystack: &str) -> (r: Option<String>)
    ensures
        match r {
            Some(g) => regex_first_group(pattern@, haystack@) == Some(g@),
            None => regex_first_group(pattern@, haystack@) is None,
        },
{
    let re = regex::Regex::new(pattern).ok()?;
    re.captures(haystack)?.get(1).map(|m| m.as_str().to_string())
}

/// Relies on `regex::escape`, which puts a backslash before each regex meta
/// character and keeps every other character.
#[verifier::external_body]
pub(crate) fn escape_pattern(s: &str) -> (r: String)
    ensures
        r@ == regex_escaped(s@),
{
    regex::escape(s)
}

} // verus!
