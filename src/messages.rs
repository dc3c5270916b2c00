//! What the bot reads out of a message and writes back: the gallery id a
//! message asks for, the text of a gallery reply, whether a message is for
//! the assistant, and message text with its links rewritten.

use vstd::prelude::*;
use crate::gallery::GalleryInfo;
use crate::links::LinkConversion;
use crate::matching::{escape_pattern, first_group, regex_escaped, regex_first_group};
use crate::planabrain::{extract_plana_question, plana_question};
use crate::state::ChatKind;
use crate::text::{
    chars_of, contains_chars, join_strings, joined, push_all, str_contains, string_of, string_views,
    trim, trim_chars,
};
use crate::url_parts::pair_views;

verus! {

/// A message that is `!` and digits, in any chat.
pub const BANG_ID_PATTERN: &'static str = r"^!(\d+)$";

pub const MENTION_START: &'static str = "^@";

pub const MENTION_ID_TAIL: &'static str = r"\s+(\d+)";

pub open spec fn all_ascii_digits(s: Seq<char>) -> bool {
    forall|i: int| 0 <= i < s.len() ==> '0' <= #[trigger] s[i] <= '9'
}

/// The pattern of a message that mentions the bot and then gives an id.
pub open spec fn mention_pattern(bot_username: Seq<char>) -> Seq<char> {
    MENTION_START@ + regex_escaped(bot_username) + MENTION_ID_TAIL@
}

/// The gallery id that a message asks for: `!` and digits anywhere; the bare
/// digits, at least one, in a private chat; a mention of the bot and then digits in a group.
pub open spec fn gallery_id_of(text: Seq<char>, kind: ChatKind, bot_username: Seq<char>) -> Option<
    Seq<char>,
> {
    match regex_first_group(BANG_ID_PATTERN@, text) {
        Some(id) => Some(id),
        None => match kind {
            ChatKind::Private => if text.len() > 0 && all_ascii_digits(text) {
                Some(text)
            } else {
                None
            },
            ChatKind::Group | ChatKind::Supergroup => if bot_username.len() == 0 {
                None
            } else {
                regex_first_group(mention_pattern(bot_username), text)
            },
            ChatKind::Channel => None,
        },
    }
}

fn all_digits(text: &str) -> (r: bool)
    ensures
        r == all_ascii_digits(text@),
{
    let chars = chars_of(text);
    let mut i: usize = 0;
    while i < chars.len()
        invariant
            i <= chars@.len(),
            chars@ == text@,
            forall|k: int| 0 <= k < i ==> '0' <= #[trigger] chars@[k] <= '9',
        decreases chars@.len() - i,
    {
        if !('0' <= chars[i] && chars[i] <= '9') {
            return false;
        }
        i = i + 1;
    }
    true
}

/// The gallery id that a message asks for, if it asks for one.
pub fn extract_gallery_id(text: &str, kind: ChatKind, bot_username: &str) -> (r: Option<String>)
    ensures
        match r {
            Some(id) => gallery_id_of(text@, kind, bot_username@) == Some(id@),
            None => gallery_id_of(text@, kind, bot_username@) is None,
        },
{
    if let Some(id) = first_group(BANG_ID_PATTERN, text) {
        return Some(id);
    }
    match kind {
        ChatKind::Private => {
            if !text.is_empty() && all_digits(text) {
                Some(text.to_owned())
            } else {
                None
            }
        },
        ChatKind::Group | ChatKind::Supergroup => {
            if bot_username.is_empty() {
                return None;
            }
            let mut pattern = chars_of(MENTION_START);
            push_all(&mut pattern, &chars_of(escape_pattern(bot_username).as_str()));
            push_all(&mut pattern, &chars_of(MENTION_ID_TAIL));
            let pattern = string_of(&pattern);
            first_group(pattern.as_str(), text)
        },
        ChatKind::Channel => None,
    }
}

/// The HTML form of one character.
pub open spec fn escape_char(c: char) -> Seq<char> {
    if c == '&' {
        "&amp;"@
    } else if c == '<' {
        "&lt;"@
    } else if c == '>' {
        "&gt;"@
    } else {
        seq![c]
    }
}

/// `s` with `&`, `<` and `>` written as HTML entities.
pub open spec fn html_escaped(s: Seq<char>) -> Seq<char>
    decreases s.len(),
{
    if s.len() == 0 {
        Seq::empty()
    } else {
        html_escaped(s.drop_last()) + escape_char(s.last())
    }
}

/// Relies on `teloxide::utils::html::escape`, which writes `&`, `<` and `>`
/// as entities and keeps every other character.
#[verifier::external_body]
fn escape_html(s: &str) -> (r: String)
    ensures
        r@ == html_escaped(s@),
{
    teloxide::utils::html::escape(s)
}

pub const HEADER_START: &'static str = "<b>선생님, ID ";

pub const HEADER_END: &'static str = "에 대한 분석 결과입니다.</b>";

pub const HEADER_END_SAVED: &'static str = "에 대한 분석 결과입니다. (#저장됨)</b>";

pub const TITLE_LABEL: &'static str = "\n\n<b>제목:</b> ";

pub const ARTISTS_LABEL: &'static str = "\n<b>작가:</b> ";

pub const LANGUAGE_LABEL: &'static str = "\n<b>언어:</b> ";

pub const TAGS_LABEL: &'static str = "\n<b>태그:</b> ";

pub const NO_TAGS: &'static str = "태그 정보 없음";

pub const TAG_SEPARATOR: &'static str = ", ";

pub open spec fn escaped_all(tags: Seq<Seq<char>>) -> Seq<Seq<char>> {
    tags.map_values(|t: Seq<char>| html_escaped(t))
}

pub open spec fn tags_text(tags: Seq<String>) -> Seq<char> {
    if tags.len() == 0 {
        NO_TAGS@
    } else {
        joined(escaped_all(string_views(tags)), TAG_SEPARATOR@)
    }
}

/// The HTML reply that describes a gallery; `saved` marks the copy sent to a
/// user's private chat.
pub open spec fn rendered(info: GalleryInfo, saved: bool) -> Seq<char> {
    HEADER_START@ + info.id@ + (if saved {
        HEADER_END_SAVED@
    } else {
        HEADER_END@
    }) + TITLE_LABEL@ + html_escaped(info.title@) + ARTISTS_LABEL@ + html_escaped(info.artists@)
        + LANGUAGE_LABEL@ + html_escaped(info.language@) + TAGS_LABEL@ + tags_text(info.tags@)
}

fn push_str(out: &mut Vec<char>, s: &str)
    ensures
        final(out)@ == old(out)@ + s@,
{
    push_all(out, &chars_of(s));
}

/// The HTML reply that describes a gallery.
pub fn render_gallery_message(info: &GalleryInfo, saved: bool) -> (r: String)
    ensures
        r@ == rendered(*info, saved),
{
    let mut escaped: Vec<String> = Vec::new();
    let mut i: usize = 0;
    while i < info.tags.len()
        invariant
            i <= info.tags@.len(),
            string_views(escaped@) == escaped_all(string_views(info.tags@.subrange(0, i as int))),
        decreases info.tags@.len() - i,
    {
        let ghost before = escaped@;
        let e = escape_html(info.tags[i].as_str());
        escaped.push(e);
        proof {
            assert(string_views(escaped@) == string_views(before).push(e@));
            assert(string_views(info.tags@.subrange(0, i + 1)) == string_views(
                info.tags@.subrange(0, i as int),
            ).push(info.tags@[i as int]@));
        }
        i = i + 1;
    }
    proof {
        assert(info.tags@.subrange(0, info.tags@.len() as int) == info.tags@);
    }
    let tags = if info.tags.len() == 0 {
        NO_TAGS.to_owned()
    } else {
        join_strings(&escaped, TAG_SEPARATOR)
    };
    let mut out: Vec<char> = Vec::new();
    push_str(&mut out, HEADER_START);
    push_str(&mut out, info.id.as_str());
    if saved {
        push_str(&mut out, HEADER_END_SAVED);
    } else {
        push_str(&mut out, HEADER_END);
    }
    push_str(&mut out, TITLE_LABEL);
    push_str(&mut out, escape_html(info.title.as_str()).as_str());
    push_str(&mut out, ARTISTS_LABEL);
    push_str(&mut out, escape_html(info.artists.as_str()).as_str());
    push_str(&mut out, LANGUAGE_LABEL);
    push_str(&mut out, escape_html(info.language.as_str()).as_str());
    push_str(&mut out, TAGS_LABEL);
    push_str(&mut out, tags.as_str());
    proof {
        assert(Seq::<char>::empty() + HEADER_START@ == HEADER_START@);
    }
    string_of(&out)
}

/// Whether a message is for the assistant: sent after start-up, not blank,
/// and either addressed to it or a reply to one of its answers.
pub fn is_plana_trigger(after_boot: bool, text: &str, is_reply_to_bot: bool) -> (r: bool)
    ensures
        r == (after_boot && trim(text@).len() > 0 && (plana_question(text@) is Some
            || is_reply_to_bot)),
{
    if !after_boot {
        return false;
    }
    let blank = trim_chars(&chars_of(text)).len() == 0;
    if !blank && extract_plana_question(text).is_some() {
        return true;
    }
    if blank {
        return false;
    }
    is_reply_to_bot
}

/// The question to put to the assistant: the addressed question, or for a
/// reply to one of its answers the whole message, trimmed.
pub fn question_for(text: &str, is_reply_to_bot: bool) -> (r: Option<String>)
    ensures
        match plana_question(text@) {
            Some(q) => r is Some && r->0@ == trim(q),
            None => if is_reply_to_bot {
                r is Some && r->0@ == trim(text@)
            } else {
                r is None
            },
        },
{
    match extract_plana_question(text) {
        Some(q) => Some(string_of(&trim_chars(&chars_of(q.as_str())))),
        None => {
            if is_reply_to_bot {
                Some(string_of(&trim_chars(&chars_of(text))))
            } else {
                None
            }
        },
    }
}

/// Every non-overlapping occurrence of `from` in `s`, left to right, written
/// as `to`.
pub open spec fn replaced_all(s: Seq<char>, from: Seq<char>, to: Seq<char>) -> Seq<char>
    decreases s.len(),
{
    if from.len() == 0 || s.len() < from.len() {
        s
    } else if s.subrange(0, from.len() as int) == from {
        to + replaced_all(s.subrange(from.len() as int, s.len() as int), from, to)
    } else {
        seq![s[0]] + replaced_all(s.drop_first(), from, to)
    }
}

/// Relies on `str::replace`, which replaces each non-overlapping match of a
/// non-empty pattern, scanning from the left.
#[verifier::external_body]
fn replace_all(s: &str, from: &str, to: &str) -> (r: String)
    requires
        from@.len() > 0,
    ensures
        r@ == replaced_all(s@, from@, to@),
{
    s.replace(from, to)
}

/// `text` with each pair's first text replaced by its second, pair by pair.
pub open spec fn with_replacements(text: Seq<char>, pairs: Seq<(Seq<char>, Seq<char>)>) -> Seq<char>
    decreases pairs.len(),
{
    if pairs.len() == 0 {
        text
    } else {
        let before = with_replacements(text, pairs.drop_last());
        if pairs.last().0.len() == 0 {
            before
        } else {
            replaced_all(before, pairs.last().0, pairs.last().1)
        }
    }
}

/// `text` with every rewritten link put in place of its original.
pub fn rewrite_text(text: &str, links: &Vec<(String, String)>) -> (r: String)
    ensures
        r@ == with_replacements(text@, pair_views(links@)),
{
    let ghost pv = pair_views(links@);
    let mut out = text.to_owned();
    let mut i: usize = 0;
    proof {
        assert(pv.subrange(0, 0) == Seq::<(Seq<char>, Seq<char>)>::empty());
    }
    while i < links.len()
        invariant
            i <= links@.len(),
            pv == pair_views(links@),
            out@ == with_replacements(text@, pv.subrange(0, i as int)),
        decreases links@.len() - i,
    {
        let (from, to) = (&links[i].0, &links[i].1);
        proof {
            let sub = pv.subrange(0, i + 1);
            assert(sub.drop_last() == pv.subrange(0, i as int));
            assert(sub.last() == (from@, to@));
        }
        if !from.as_str().is_empty() {
            out = replace_all(out.as_str(), from.as_str(), to.as_str());
        }
        i = i + 1;
    }
    proof {
        assert(pv.subrange(0, links@.len() as int) == pv);
    }
    out
}

/// The conversions as (original, rewritten) pairs.
pub fn conversion_pairs(links: &Vec<LinkConversion>) -> (r: Vec<(String, String)>)
    ensures
        r@.len() == links@.len(),
        forall|i: int| 0 <= i < links@.len() ==> (#[trigger] r@[i]).0@ == links@[i].original@
            && r@[i].1@ == links@[i].converted@,
{
    let mut out: Vec<(String, String)> = Vec::new();
    let mut i: usize = 0;
    while i < links.len()
        invariant
            i <= links@.len(),
            out@.len() == i,
            forall|k: int| 0 <= k < i ==> (#[trigger] out@[k]).0@ == links@[k].original@
                && out@[k].1@ == links@[k].converted@,
        decreases links@.len() - i,
    {
        out.push((links[i].original.clone(), links[i].converted.clone()));
        i = i + 1;
    }
    out
}

/// Previews are turned off when any link asked for it.
pub fn any_preview_disabled(links: &Vec<LinkConversion>) -> (r: bool)
    ensures
        r == exists|i: int| 0 <= i < links@.len() && (#[trigger] links@[i]).disable_preview,
{
    let mut i: usize = 0;
    while i < links.len()
        invariant
            i <= links@.len(),
            forall|k: int| 0 <= k < i ==> !(#[trigger] links@[k]).disable_preview,
        decreases links@.len() - i,
    {
        if links[i].disable_preview {
            return true;
        }
        i = i + 1;
    }
    false
}

/// What the chat service says when the message to reply to is gone.
pub const MISSING_REPLY_TARGET: &'static str = "message to be replied not found";

/// Whether a failed reply should be sent again as a plain message: the
/// message it answered no longer exists.
pub fn is_missing_reply_target(error_text: &str) -> (r: bool)
    ensures
        r == contains_chars(error_text@, MISSING_REPLY_TARGET@),
{
    str_contains(error_text, MISSING_REPLY_TARGET)
}

} // verus!
