//! The rules around the question-answering assistant: recognising a question
//! addressed to it, who may ask, how long an answer may be, and the file-safe
//! form of a user id. The assistant itself runs outside this library.

use vstd::prelude::*;
use crate::text::{
    chars_of, is_whitespace, is_ws, same_chars_at, slice_chars, string_of, trim, trim_chars,
    trim_start, trim_start_index,
};

verus! {

/// The word that addresses the assistant at the start of a message.
pub const QUESTION_PREFIX: &'static str = "프라나야";

/// The id used for a user whose id has no usable character.
pub const DEFAULT_USER_ID: &'static str = "default";

/// The longest file-safe user id.
pub const MAX_SAFE_ID_LEN: usize = 200;

pub open spec fn is_separator(c: char) -> bool {
    is_ws(c) || c == ':' || c == '-' || c == '—'
}

/// `s` without its leading separators.
pub open spec fn strip_separators(s: Seq<char>) -> Seq<char>
    decreases s.len(),
{
    if s.len() > 0 && is_separator(s[0]) {
        strip_separators(s.drop_first())
    } else {
        s
    }
}

pub open spec fn starts_with(s: Seq<char>, prefix: Seq<char>) -> bool {
    prefix.len() <= s.len() && s.subrange(0, prefix.len() as int) == prefix
}

/// The question in `text`, if `text` addresses the assistant: what follows the
/// address word, without leading separators or surrounding whitespace.
pub open spec fn plana_question(text: Seq<char>) -> Option<Seq<char>> {
    let t = trim_start(text);
    if starts_with(t, QUESTION_PREFIX@) {
        Some(trim(strip_separators(t.subrange(QUESTION_PREFIX@.len() as int, t.len() as int))))
    } else {
        None
    }
}

proof fn lemma_strip_separators_skip(s: Seq<char>, i: int)
    requires
        0 <= i <= s.len(),
        forall|k: int| 0 <= k < i ==> is_separator(#[trigger] s[k]),
    ensures
        strip_separators(s) == strip_separators(s.subrange(i, s.len() as int)),
    decreases i,
{
    if i > 0 {
        let t = s.drop_first();
        assert forall|k: int| 0 <= k < i - 1 implies is_separator(#[trigger] t[k]) by {
            assert(t[k] == s[k + 1]);
        }
        lemma_strip_separators_skip(t, i - 1);
        assert(t.subrange(i - 1, t.len() as int) == s.subrange(i, s.len() as int));
    } else {
        assert(s.subrange(0, s.len() as int) == s);
    }
}

fn is_separator_char(c: char) -> (r: bool)
    ensures
        r == is_separator(c),
{
    is_whitespace(c) || c == ':' || c == '-' || c == '—'
}

/// The question of a message addressed to the assistant, or nothing when the
/// message does not start with the address word.
pub fn extract_plana_question(text: &str) -> (r: Option<String>)
    ensures
        match r {
            Some(q) => plana_question(text@) == Some(q@),
            None => plana_question(text@) is None,
        },
{
    let chars = chars_of(text);
    let start = trim_start_index(&chars);
    let prefix = chars_of(QUESTION_PREFIX);
    let ghost t = chars@.subrange(start as int, chars@.len() as int);
    if prefix.len() > chars.len() - start {
        return None;
    }
    if !same_chars_at(&chars, &prefix, start) {
        proof {
            assert(t.subrange(0, prefix@.len() as int) == chars@.subrange(
                start as int,
                start + prefix@.len(),
            ));
        }
        return None;
    }
    let mut i: usize = start + prefix.len();
    let ghost rest = chars@.subrange(i as int, chars@.len() as int);
    proof {
        assert(t.subrange(0, prefix@.len() as int) == chars@.subrange(
            start as int,
            start + prefix@.len(),
        ));
        assert(t.subrange(prefix@.len() as int, t.len() as int) == rest);
    }
    while i < chars.len() && is_separator_char(chars[i])
        invariant
            start + prefix@.len() <= i <= chars@.len(),
            rest == chars@.subrange(start + prefix@.len(), chars@.len() as int),
            strip_separators(rest) == strip_separators(chars@.subrange(i as int, chars@.len() as int)),
        decreases chars@.len() - i,
    {
        proof {
            let u = chars@.subrange(i as int, chars@.len() as int);
            assert(u[0] == chars@[i as int]);
            assert(u.drop_first() == chars@.subrange(i + 1, chars@.len() as int));
        }
        i = i + 1;
    }
    proof {
        let u = chars@.subrange(i as int, chars@.len() as int);
        if u.len() > 0 {
            assert(u[0] == chars@[i as int]);
        }
    }
    let question = trim_chars(&slice_chars(&chars, i, chars.len()));
    Some(string_of(&question))
}

/// `text` cut to `limit` characters, with a marker added where it was cut.
pub open spec fn truncated(text: Seq<char>, limit: nat) -> Seq<char> {
    if text.len() <= limit {
        text
    } else {
        text.subrange(0, limit as int) + seq!['\n', '…']
    }
}

/// Cuts `text` to at most `limit` characters, marking the cut with a new
/// line and an ellipsis.
pub fn truncate_message(text: &str, limit: usize) -> (r: String)
    ensures
        r@ == truncated(text@, limit as nat),
{
    let chars = chars_of(text);
    if chars.len() <= limit {
        return text.to_owned();
    }
    let mut out = slice_chars(&chars, 0, limit);
    out.push('\n');
    out.push('…');
    string_of(&out)
}

pub open spec fn is_safe_char(c: char) -> bool {
    ('a' <= c && c <= 'z') || ('A' <= c && c <= 'Z') || ('0' <= c && c <= '9') || c == '_' || c
        == '-'
}

pub open spec fn safe_char(c: char) -> char {
    if is_safe_char(c) {
        c
    } else {
        '_'
    }
}

/// The file-safe form of a user id: trimmed, at most the first
/// `MAX_SAFE_ID_LEN` characters, each character outside `[A-Za-z0-9_-]`
/// replaced by `_`; the default id where nothing is left.
pub open spec fn safe_id(raw: Seq<char>) -> Seq<char> {
    let t = trim(raw);
    if t.len() == 0 {
        DEFAULT_USER_ID@
    } else {
        let n = if t.len() < MAX_SAFE_ID_LEN { t.len() as int } else { MAX_SAFE_ID_LEN as int };
        t.subrange(0, n).map_values(|c: char| safe_char(c))
    }
}

/// The form of `raw` that can name a file.
pub fn safe_user_id(raw: &str) -> (r: String)
    ensures
        r@ == safe_id(raw@),
{
    let trimmed = trim_chars(&chars_of(raw));
    if trimmed.len() == 0 {
        return DEFAULT_USER_ID.to_owned();
    }
    let n: usize = if trimmed.len() < MAX_SAFE_ID_LEN {
        trimmed.len()
    } else {
        MAX_SAFE_ID_LEN
    };
    let mut out: Vec<char> = Vec::new();
    let mut i: usize = 0;
    while i < n
        invariant
            i <= n <= trimmed@.len(),
            out@ == trimmed@.subrange(0, i as int).map_values(|c: char| safe_char(c)),
        decreases n - i,
    {
        let c = trimmed[i];
        let safe = ('a' <= c && c <= 'z') || ('A' <= c && c <= 'Z') || ('0' <= c && c <= '9')
            || c == '_' || c == '-';
        if safe {
            out.push(c);
        } else {
            out.push('_');
        }
        proof {
            assert(trimmed@.subrange(0, i + 1).map_values(|c: char| safe_char(c))
                == trimmed@.subrange(0, i as int).map_values(|c: char| safe_char(c)).push(
                safe_char(c),
            ));
        }
        i = i + 1;
    }
    string_of(&out)
}

/// The chats and users allowed to ask the assistant.
#[derive(Debug, Clone, Default, PartialEq, Eq)]
pub struct PlanabrainAccess {
    pub chat_ids: Vec<i64>,
    pub user_ids: Vec<i64>,
}

fn contains_id(ids: &Vec<i64>, id: i64) -> (r: bool)
    ensures
        r == ids@.contains(id),
{
    let mut i: usize = 0;
    while i < ids.len()
        invariant
            i <= ids@.len(),
            forall|k: int| 0 <= k < i ==> ids@[k] != id,
        decreases ids@.len() - i,
    {
        if ids[i] == id {
            proof {
                assert(ids@[i as int] == id);
            }
            return true;
        }
        i = i + 1;
    }
    false
}

/// An allowed chat may always ask; elsewhere only an allowed user in a
/// private chat may.
pub fn is_planabrain_allowed(
    access: &PlanabrainAccess,
    chat_id: i64,
    user_id: Option<i64>,
    is_private: bool,
) -> (r: bool)
    ensures
        r == (access.chat_ids@.contains(chat_id) || (is_private && user_id is Some
            && access.user_ids@.contains(user_id->0))),
{
    if contains_id(&access.chat_ids, chat_id) {
        return true;
    }
    if !is_private {
        return false;
    }
    match user_id {
        Some(u) => contains_id(&access.user_ids, u),
        None => false,
    }
}

/// The value of a string of ASCII digits.
pub open spec fn digits_value(s: Seq<char>) -> int
    decreases s.len(),
{
    if s.len() == 0 {
        0
    } else {
        10 * digits_value(s.drop_last()) + (s.last() as u32 - '0' as u32)
    }
}

pub open spec fn is_ascii_digits(s: Seq<char>) -> bool {
    forall|i: int| 0 <= i < s.len() ==> '0' <= #[trigger] s[i] <= '9'
}

/// The `i64` written in `s`: an optional `+` or `-`, then one or more ASCII
/// digits, with a value in range.
pub open spec fn decimal_i64(s: Seq<char>) -> Option<i64> {
    let signed = s.len() > 0 && (s[0] == '-' || s[0] == '+');
    let d = if signed {
        s.drop_first()
    } else {
        s
    };
    let v = if s.len() > 0 && s[0] == '-' {
        -digits_value(d)
    } else {
        digits_value(d)
    };
    if d.len() > 0 && is_ascii_digits(d) && i64::MIN <= v <= i64::MAX {
        Some(v as i64)
    } else {
        None
    }
}

proof fn lemma_digits_prefix(s: Seq<char>, k: int)
    requires
        0 <= k <= s.len(),
        is_ascii_digits(s),
    ensures
        0 <= digits_value(s.subrange(0, k)) <= digits_value(s),
    decreases s.len() - k,
{
    if k < s.len() {
        lemma_digits_prefix(s, k + 1);
        let p = s.subrange(0, k + 1);
        assert(p.drop_last() == s.subrange(0, k));
        assert('0' <= p.last() <= '9');
    } else {
        assert(s.subrange(0, k) == s);
        lemma_digits_nonneg(s);
    }
}

proof fn lemma_digits_nonneg(s: Seq<char>)
    requires
        is_ascii_digits(s),
    ensures
        digits_value(s) >= 0,
    decreases s.len(),
{
    if s.len() > 0 {
        let p = s.drop_last();
        assert forall|i: int| 0 <= i < p.len() implies '0' <= #[trigger] p[i] <= '9' by {
            assert(p[i] == s[i]);
        }
        lemma_digits_nonneg(p);
        assert('0' <= s.last() <= '9');
    }
}

/// The `i64` written in `s`, as `i64`'s `FromStr` reads it: an optional sign
/// and decimal digits, with a value in range.
pub fn parse_i64(s: &str) -> (r: Option<i64>)
    ensures
        r == decimal_i64(s@),
{
    let c = chars_of(s);
    let n = c.len();
    if n == 0 {
        return None;
    }
    let neg = c[0] == '-';
    let start: usize = if c[0] == '-' || c[0] == '+' {
        1
    } else {
        0
    };
    let ghost d = c@.subrange(start as int, n as int);
    proof {
        if start == 1 {
            assert(d == s@.drop_first());
        } else {
            assert(d == s@);
        }
    }
    if start == n {
        return None;
    }
    let limit: i128 = 9223372036854775808;
    let mut acc: i128 = 0;
    let mut i: usize = start;
    proof {
        assert(c@.subrange(start as int, start as int) == Seq::<char>::empty());
    }
    while i < n
        invariant
            start <= i <= n,
            n == c@.len(),
            c@ == s@,
            s@.len() > 0,
            d == c@.subrange(start as int, n as int),
            d == (if s@[0] == '-' || s@[0] == '+' {
                s@.drop_first()
            } else {
                s@
            }),
            0 <= acc <= limit,
            limit == 9223372036854775808,
            acc == digits_value(c@.subrange(start as int, i as int)),
            forall|k: int| start <= k < i ==> '0' <= #[trigger] c@[k] <= '9',
        decreases n - i,
    {
        let ch = c[i];
        if !('0' <= ch && ch <= '9') {
            proof {
                assert(d[i - start] == ch);
            }
            return None;
        }
        proof {
            let p = c@.subrange(start as int, i + 1);
            assert(p.drop_last() == c@.subrange(start as int, i as int));
            assert(p.last() == ch);
        }
        assert(acc * 10 <= limit * 10) by (nonlinear_arith)
            requires
                0 <= acc <= limit,
        ;
        acc = acc * 10 + (ch as u32 - '0' as u32) as i128;
        if acc > limit {
            proof {
                let p = c@.subrange(start as int, i + 1);
                if is_ascii_digits(d) {
                    assert(d.subrange(0, i + 1 - start) == p);
                    lemma_digits_prefix(d, i + 1 - start);
                }
            }
            return None;
        }
        i = i + 1;
    }
    proof {
        assert(c@.subrange(start as int, n as int) == d);
        assert forall|k: int| 0 <= k < d.len() implies '0' <= #[trigger] d[k] <= '9' by {
            assert(d[k] == c@[k + start]);
        }
    }
    if neg {
        Some((-acc) as i64)
    } else if acc <= 9223372036854775807 {
        Some(acc as i64)
    } else {
        None
    }
}

/// A character that separates ids in a list.
pub open spec fn is_id_separator(c: char) -> bool {
    c == ',' || c == ';' || is_ws(c)
}

/// The pieces of `s` between separators, empty ones included.
pub open spec fn id_pieces(s: Seq<char>) -> Seq<Seq<char>>
    decreases s.len(),
{
    if s.len() == 0 {
        seq![Seq::empty()]
    } else if is_id_separator(s.last()) {
        id_pieces(s.drop_last()).push(Seq::empty())
    } else {
        let p = id_pieces(s.drop_last());
        p.update(p.len() - 1, p.last().push(s.last()))
    }
}

/// The values of the pieces that are integers, in order.
pub open spec fn piece_values(pieces: Seq<Seq<char>>) -> Seq<i64>
    decreases pieces.len(),
{
    if pieces.len() == 0 {
        Seq::empty()
    } else {
        piece_values(pieces.drop_last()) + match decimal_i64(pieces.last()) {
            Some(v) => seq![v],
            None => Seq::empty(),
        }
    }
}

proof fn lemma_id_pieces_nonempty(s: Seq<char>)
    ensures
        id_pieces(s).len() >= 1,
    decreases s.len(),
{
    if s.len() > 0 {
        lemma_id_pieces_nonempty(s.drop_last());
    }
}

fn is_id_separator_char(c: char) -> (r: bool)
    ensures
        r == is_id_separator(c),
{
    c == ',' || c == ';' || is_whitespace(c)
}

/// The integers of a list written with `,`, `;` or whitespace between them;
/// pieces that are not integers are skipped.
pub fn parse_id_list(raw: &str) -> (r: Vec<i64>)
    ensures
        r@ == piece_values(id_pieces(raw@)),
{
    let chars = chars_of(raw);
    let mut out: Vec<i64> = Vec::new();
    let mut cur: Vec<char> = Vec::new();
    let mut i: usize = 0;
    proof {
        assert(chars@.subrange(0, 0) == Seq::<char>::empty());
    }
    while i < chars.len()
        invariant
            i <= chars@.len(),
            chars@ == raw@,
            id_pieces(chars@.subrange(0, i as int)).len() >= 1,
            cur@ == id_pieces(chars@.subrange(0, i as int)).last(),
            out@ == piece_values(id_pieces(chars@.subrange(0, i as int)).drop_last()),
        decreases chars@.len() - i,
    {
        let c = chars[i];
        let ghost s = chars@.subrange(0, i + 1);
        let ghost p = id_pieces(chars@.subrange(0, i as int));
        proof {
            assert(s.drop_last() == chars@.subrange(0, i as int));
            assert(s.last() == c);
            lemma_id_pieces_nonempty(s);
        }
        if is_id_separator_char(c) {
            let piece = string_of(&cur);
            if let Some(v) = parse_i64(piece.as_str()) {
                out.push(v);
            }
            cur = Vec::new();
            proof {
                assert(id_pieces(s).drop_last() == p);
                assert(p == p.drop_last().push(p.last()));
            }
        } else {
            cur.push(c);
            proof {
                assert(id_pieces(s).drop_last() == p.drop_last());
            }
        }
        i = i + 1;
    }
    proof {
        assert(chars@.subrange(0, chars@.len() as int) == chars@);
        let p = id_pieces(chars@);
        assert(p == p.drop_last().push(p.last()));
    }
    let piece = string_of(&cur);
    if let Some(v) = parse_i64(piece.as_str()) {
        out.push(v);
    }
    out
}

} // verus!
