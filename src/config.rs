//! The bot's configuration and the test that a token is usable.

use vstd::prelude::*;
use crate::text::{chars_of, contains_chars, str_contains, trim, trim_chars};

verus! {

/// What the bot needs to start.
#[derive(Debug, Clone, PartialEq, Eq)]
pub struct Config {
    pub telegram_api_token: String,
}

/// The placeholder word of the template file; a token holding it was never
/// filled in.
pub const PLACEHOLDER_WORD: &'static str = "your";

/// `s` in lower case, as Unicode defines it.
pub uninterp spec fn lower_of(s: Seq<char>) -> Seq<char>;

/// Relies on `str::to_lowercase`: the result depends on the characters alone.
#[verifier::external_body]
fn lowercase(s: &str) -> (r: String)
    ensures
        r@ == lower_of(s@),
{
    s.to_lowercase()
}

/// A token is usable when it is not blank and, lower-cased, does not hold the
/// placeholder word.
pub fn is_valid(token: &str) -> (r: bool)
    ensures
        r == (trim(token@).len() > 0 && !contains_chars(lower_of(token@), PLACEHOLDER_WORD@)),
{
    let trimmed = trim_chars(&chars_of(token));
    if trimmed.len() == 0 {
        return false;
    }
    let lower = lowercase(token);
    !str_contains(lower.as_str(), PLACEHOLDER_WORD)
}

} // verus!
