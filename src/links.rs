//! The link rewrite engine: finds links of known families in message text
//! and gives their canonical forms, without tracking parameters or on an
//! embed-friendly mirror host.

use vstd::prelude::*;
use crate::matching::{find_all, has_match, regex_matches};
use crate::text::{
    chars_of, find_chars, find_from, join_strings, joined, opt_view, push_all, slice_chars,
    string_of, string_views, strip_trailing, strip_trailing_chars,
};
use crate::url_parts::{
    on_host, opt_chars, pair_views, UrlParts, parse_url, url_host, url_on_host, url_parses, url_path, url_query,
    url_query_pairs, url_with_query, url_with_query_path, with_query, with_query_path,
};

verus! {

/// One rewritten link of the short-form social family.
#[derive(Debug, Clone, PartialEq, Eq)]
pub struct LinkConversion {
    /// The link as it stands in the text, with its opt-out dot if it had one.
    pub original: String,
    /// The canonical form, on the mirror host.
    pub converted: String,
    /// The link had the opt-out dot: the reply shows no preview.
    pub disable_preview: bool,
}

pub const YOUTUBE_PATTERN: &'static str = r"https?://(?:www\.)?youtu(?:\.be|be\.com)/\S+";

pub const YOUTUBE_MUSIC_PATTERN: &'static str = r"https?://(?:www\.)?music\.youtube\.com/\S+";

pub const SPOTIFY_PATTERN: &'static str = r"https?://(?:www\.)?open\.spotify\.com/\S+";

/// Short-form social links, with the optional leading opt-out dot.
pub const X_PATTERN: &'static str = r"\.?https?://(?:www\.)?(?:x|twitter)\.com/\S+";

pub const INSTAGRAM_PATTERN: &'static str = r"https?://(?:www\.)?instagram\.com/\S+";

pub const TRACKING_KEY: &'static str = "si";

pub const TRACKING_MARKER: &'static str = "si=";

pub const SHORT_LINK_HOST: &'static str = "youtu.be";

pub const X_MIRROR_HOST: &'static str = "fxtwitter.com";

pub const INSTAGRAM_MIRROR_HOST: &'static str = "www.kkinstagram.com";

pub open spec fn found(pattern: &str, text: Seq<char>) -> bool {
    regex_matches(pattern@, text).len() > 0
}

pub open spec fn music_detected(text: Seq<char>) -> bool {
    found(YOUTUBE_PATTERN, text) || found(YOUTUBE_MUSIC_PATTERN, text) || found(
        SPOTIFY_PATTERN,
        text,
    )
}

/// Whether `text` holds a link of the media/music family.
pub fn contains_music_link(text: &str) -> (r: bool)
    ensures
        r == music_detected(text@),
{
    has_match(YOUTUBE_PATTERN, text) || has_match(YOUTUBE_MUSIC_PATTERN, text) || has_match(
        SPOTIFY_PATTERN,
        text,
    )
}

/// Whether `text` holds a link of the short-form social family.
pub fn contains_x_link(text: &str) -> (r: bool)
    ensures
        r == found(X_PATTERN, text@),
{
    has_match(X_PATTERN, text)
}

/// Whether `text` holds a link of the photo-sharing family.
pub fn contains_instagram_link(text: &str) -> (r: bool)
    ensures
        r == found(INSTAGRAM_PATTERN, text@),
{
    has_match(INSTAGRAM_PATTERN, text)
}

/// A query pair written back as `name=value`.
pub open spec fn pair_text(p: (Seq<char>, Seq<char>)) -> Seq<char> {
    p.0 + "="@ + p.1
}

/// The pairs whose name is not the tracking key, in order.
pub open spec fn kept_pairs(pairs: Seq<(Seq<char>, Seq<char>)>) -> Seq<(Seq<char>, Seq<char>)>
    decreases pairs.len(),
{
    if pairs.len() == 0 {
        Seq::empty()
    } else if pairs.last().0 == TRACKING_KEY@ {
        kept_pairs(pairs.drop_last())
    } else {
        kept_pairs(pairs.drop_last()).push(pairs.last())
    }
}

/// The query kept from `query`, whose pairs are `pairs`, once the tracking
/// parameter is gone: none where there was none or nothing is left.
pub open spec fn query_without_tracking(
    query: Option<Seq<char>>,
    pairs: Seq<(Seq<char>, Seq<char>)>,
) -> Option<Seq<char>> {
    if query is None {
        None
    } else {
        let kept = kept_pairs(pairs);
        if kept.len() == 0 {
            None
        } else {
            Some(joined(kept.map_values(|p: (Seq<char>, Seq<char>)| pair_text(p)), "&"@))
        }
    }
}

/// The query that `s` keeps once the tracking parameter is gone.
pub open spec fn cleaned_query(s: Seq<char>) -> Option<Seq<char>> {
    query_without_tracking(url_query(s), url_query_pairs(s))
}

/// For a short link (on `host`) whose `path` carries the tracking marker, the
/// path cut before the marker, without trailing `?`.
pub open spec fn short_path_from(host: Option<Seq<char>>, path: Seq<char>) -> Option<Seq<char>> {
    if host == Some(SHORT_LINK_HOST@) {
        match find_from(path, TRACKING_MARKER@, 0) {
            Some(i) => Some(strip_trailing(path.subrange(0, i), '?')),
            None => None,
        }
    } else {
        None
    }
}

/// The cut path of `s`, where `s` is a short link carrying the marker.
pub open spec fn short_link_path(s: Seq<char>) -> Option<Seq<char>> {
    short_path_from(url_host(s), url_path(s))
}

/// `s` without its tracking parameter; `s` itself where it does not parse.
pub open spec fn si_removed(s: Seq<char>) -> Seq<char> {
    if !url_parses(s) {
        s
    } else {
        match short_link_path(s) {
            Some(p) => url_with_query_path(s, cleaned_query(s), p),
            None => url_with_query(s, cleaned_query(s)),
        }
    }
}

/// The matched links whose cleaned form differs, each with that form.
pub open spec fn cleaned_pairs(ms: Seq<Seq<char>>) -> Seq<(Seq<char>, Seq<char>)>
    decreases ms.len(),
{
    if ms.len() == 0 {
        Seq::empty()
    } else if si_removed(ms.last()) != ms.last() {
        cleaned_pairs(ms.drop_last()).push((ms.last(), si_removed(ms.last())))
    } else {
        cleaned_pairs(ms.drop_last())
    }
}

pub open spec fn music_pairs(text: Seq<char>) -> Seq<(Seq<char>, Seq<char>)> {
    cleaned_pairs(regex_matches(YOUTUBE_PATTERN@, text)) + cleaned_pairs(
        regex_matches(YOUTUBE_MUSIC_PATTERN@, text),
    ) + cleaned_pairs(regex_matches(SPOTIFY_PATTERN@, text))
}

pub open spec fn has_dot_marker(m: Seq<char>) -> bool {
    m.len() > 0 && m[0] == '.'
}

pub open spec fn without_marker(m: Seq<char>) -> Seq<char> {
    if has_dot_marker(m) {
        m.drop_first()
    } else {
        m
    }
}

/// Each matched social link that parses: as matched, on the mirror host, and
/// whether it had the opt-out dot.
pub open spec fn x_conversions(ms: Seq<Seq<char>>) -> Seq<(Seq<char>, Seq<char>, bool)>
    decreases ms.len(),
{
    if ms.len() == 0 {
        Seq::empty()
    } else if url_parses(without_marker(ms.last())) {
        x_conversions(ms.drop_last()).push(
            (
                ms.last(),
                url_on_host(without_marker(ms.last()), X_MIRROR_HOST@, None, None),
                has_dot_marker(ms.last()),
            ),
        )
    } else {
        x_conversions(ms.drop_last())
    }
}

/// Each matched photo link that parses, with its form on the mirror host.
pub open spec fn instagram_conversions(ms: Seq<Seq<char>>) -> Seq<(Seq<char>, Seq<char>)>
    decreases ms.len(),
{
    if ms.len() == 0 {
        Seq::empty()
    } else if url_parses(ms.last()) {
        instagram_conversions(ms.drop_last()).push(
            (ms.last(), url_on_host(ms.last(), INSTAGRAM_MIRROR_HOST@, None, None)),
        )
    } else {
        instagram_conversions(ms.drop_last())
    }
}

pub open spec fn conversion_views(v: Seq<LinkConversion>) -> Seq<(Seq<char>, Seq<char>, bool)> {
    v.map_values(|c: LinkConversion| (c.original@, c.converted@, c.disable_preview))
}

/// The pairs of `pairs` whose name is not the tracking key.
fn keep_untracked(pairs: &Vec<(String, String)>) -> (r: Vec<String>)
    ensures
        string_views(r@) == kept_pairs(pair_views(pairs@)).map_values(
            |p: (Seq<char>, Seq<char>)| pair_text(p),
        ),
{
    let key = TRACKING_KEY.to_owned();
    let ghost pv = pair_views(pairs@);
    let mut out: Vec<String> = Vec::new();
    let mut i: usize = 0;
    proof {
        assert(pv.subrange(0, 0) == Seq::<(Seq<char>, Seq<char>)>::empty());
        assert(string_views(out@) == Seq::<Seq<char>>::empty());
    }
    while i < pairs.len()
        invariant
            i <= pairs@.len(),
            pv == pair_views(pairs@),
            key@ == TRACKING_KEY@,
            string_views(out@) == kept_pairs(pv.subrange(0, i as int)).map_values(
                |p: (Seq<char>, Seq<char>)| pair_text(p),
            ),
        decreases pairs@.len() - i,
    {
        let ghost before = out@;
        let pair = &pairs[i];
        let ghost sub = pv.subrange(0, i + 1);
        proof {
            assert(sub.drop_last() == pv.subrange(0, i as int));
            assert(sub.last() == (pair.0@, pair.1@));
        }
        if pair.0 != key {
            let mut text = chars_of(pair.0.as_str());
            text.push('=');
            push_all(&mut text, &chars_of(pair.1.as_str()));
            out.push(string_of(&text));
            proof {
                reveal_strlit("=");
                assert(text@ == pair_text((pair.0@, pair.1@)));
                assert(string_views(out@) == string_views(before).push(text@));
                assert(kept_pairs(sub) == kept_pairs(pv.subrange(0, i as int)).push(sub.last()));
                assert(kept_pairs(sub).map_values(|p: (Seq<char>, Seq<char>)| pair_text(p))
                    == kept_pairs(pv.subrange(0, i as int)).map_values(
                    |p: (Seq<char>, Seq<char>)| pair_text(p),
                ).push(pair_text(sub.last())));
            }
        }
        i = i + 1;
    }
    proof {
        assert(pv.subrange(0, pairs@.len() as int) == pv);
    }
    out
}

/// The query to keep for a parsed URL: its pairs without the tracking
/// parameter, written back as `name=value` joined by `&`.
pub fn cleaned_query_of(parts: &UrlParts) -> (r: Option<String>)
    ensures
        opt_view(r) == query_without_tracking(opt_view(parts.query), pair_views(parts.query_pairs@)),
{
    match &parts.query {
        None => None,
        Some(_) => {
            let kept = keep_untracked(&parts.query_pairs);
            if kept.len() == 0 {
                None
            } else {
                Some(join_strings(&kept, "&"))
            }
        },
    }
}

/// The path to give a parsed URL: for a short link whose path carries the
/// tracking marker, the path cut before it, without trailing `?`.
pub fn short_link_path_of(parts: &UrlParts) -> (r: Option<String>)
    ensures
        opt_view(r) == short_path_from(opt_view(parts.host), parts.path@),
{
    let short_host = SHORT_LINK_HOST.to_owned();
    if let Some(h) = &parts.host {
        if *h == short_host {
            let path = chars_of(parts.path.as_str());
            if let Some(i) = find_chars(&path, &chars_of(TRACKING_MARKER)) {
                return Some(string_of(&strip_trailing_chars(&slice_chars(&path, 0, i), '?')));
            }
        }
    }
    None
}

/// Removes the tracking parameter `si` from a URL's query, and for a short
/// link also a `si=` marker written into its path; a text that does not
/// parse as a URL comes back unchanged.
pub fn remove_si_parameter(url_str: &str) -> (r: String)
    ensures
        r@ == si_removed(url_str@),
{
    let parts = match parse_url(url_str) {
        Some(p) => p,
        None => return url_str.to_owned(),
    };
    let query = cleaned_query_of(&parts);
    let qref: Option<&str> = match &query {
        Some(q) => Some(q.as_str()),
        None => None,
    };
    proof {
        assert(opt_chars(qref) == cleaned_query(url_str@));
    }
    let new_path = short_link_path_of(&parts);
    let rewritten = match &new_path {
        Some(p) => with_query_path(url_str, qref, p.as_str()),
        None => with_query(url_str, qref),
    };
    match rewritten {
        Some(s) => s,
        None => url_str.to_owned(),
    }
}

proof fn lemma_cleaned_pairs_step(ms: Seq<Seq<char>>, i: int)
    requires
        0 <= i < ms.len(),
    ensures
        cleaned_pairs(ms.subrange(0, i + 1)) == if si_removed(ms[i]) != ms[i] {
            cleaned_pairs(ms.subrange(0, i)).push((ms[i], si_removed(ms[i])))
        } else {
            cleaned_pairs(ms.subrange(0, i))
        },
{
    assert(ms.subrange(0, i + 1).drop_last() == ms.subrange(0, i));
}

/// Appends to `out` each of `matches` whose form without tracking parameters
/// differs, with that form.
pub fn push_cleaned(out: &mut Vec<(String, String)>, matches: &Vec<String>)
    ensures
        pair_views(final(out)@) == pair_views(old(out)@) + cleaned_pairs(string_views(matches@)),
{
    let ghost ms = string_views(matches@);
    let mut i: usize = 0;
    proof {
        assert(ms.subrange(0, 0) == Seq::<Seq<char>>::empty());
        assert(pair_views(out@) == pair_views(old(out)@) + Seq::<(Seq<char>, Seq<char>)>::empty());
    }
    while i < matches.len()
        invariant
            i <= matches@.len(),
            ms == string_views(matches@),
            pair_views(out@) == pair_views(old(out)@) + cleaned_pairs(ms.subrange(0, i as int)),
        decreases matches@.len() - i,
    {
        let original = &matches[i];
        let cleaned = remove_si_parameter(original.as_str());
        proof {
            lemma_cleaned_pairs_step(ms, i as int);
            assert(ms[i as int] == original@);
        }
        if *original != cleaned {
            let ghost before = out@;
            out.push((original.clone(), cleaned));
            proof {
                assert(pair_views(out@) == pair_views(before).push((ms[i as int], si_removed(ms[i as int]))));
            }
        }
        i = i + 1;
    }
    proof {
        assert(ms.subrange(0, matches@.len() as int) == ms);
    }
}

/// The media/music links of `text` whose form without tracking parameters
/// differs, each with that form: short and long video links first, then
/// music-service links, then streaming links, each group in text order.
pub fn extract_music_links(text: &str) -> (r: Vec<(String, String)>)
    ensures
        pair_views(r@) == music_pairs(text@),
{
    let mut links: Vec<(String, String)> = Vec::new();
    proof {
        assert(pair_views(links@) == Seq::<(Seq<char>, Seq<char>)>::empty());
    }
    let m1 = find_all(YOUTUBE_PATTERN, text);
    let m2 = find_all(YOUTUBE_MUSIC_PATTERN, text);
    let m3 = find_all(SPOTIFY_PATTERN, text);
    proof {
        assert(string_views(m1@) == regex_matches(YOUTUBE_PATTERN@, text@));
        assert(string_views(m2@) == regex_matches(YOUTUBE_MUSIC_PATTERN@, text@));
        assert(string_views(m3@) == regex_matches(SPOTIFY_PATTERN@, text@));
    }
    push_cleaned(&mut links, &m1);
    push_cleaned(&mut links, &m2);
    push_cleaned(&mut links, &m3);
    proof {
        assert(Seq::<(Seq<char>, Seq<char>)>::empty() + cleaned_pairs(string_views(m1@))
            == cleaned_pairs(string_views(m1@)));
    }
    links
}

/// A matched social link split into whether it has the opt-out dot and the
/// URL after the dot.
pub fn split_marker(m: &str) -> (r: (bool, String))
    ensures
        r.0 == has_dot_marker(m@),
        r.1@ == without_marker(m@),
{
    let chars = chars_of(m);
    if chars.len() > 0 && chars[0] == '.' {
        proof {
            assert(chars@.subrange(1, chars@.len() as int) == m@.drop_first());
        }
        (true, string_of(&slice_chars(&chars, 1, chars.len())))
    } else {
        (false, m.to_owned())
    }
}

/// Each of the matched social links `matches` that parses, moved to the
/// mirror host without query or fragment; a leading dot is kept in
/// `original`, left out of `converted`, and turns previews off.
pub fn x_conversions_of(matches: &Vec<String>) -> (r: Vec<LinkConversion>)
    ensures
        conversion_views(r@) == x_conversions(string_views(matches@)),
{
    let ghost ms = string_views(matches@);
    proof {
        assert(ms.subrange(0, 0) == Seq::<Seq<char>>::empty());
    }
    let mut links: Vec<LinkConversion> = Vec::new();
    let mut i: usize = 0;
    while i < matches.len()
        invariant
            i <= matches@.len(),
            ms == string_views(matches@),
            conversion_views(links@) == x_conversions(ms.subrange(0, i as int)),
        decreases matches@.len() - i,
    {
        let original = &matches[i];
        let (dot, url_text) = split_marker(original.as_str());
        let ghost sub = ms.subrange(0, i + 1);
        proof {
            assert(sub.drop_last() == ms.subrange(0, i as int));
            assert(sub.last() == original@);
        }
        if let Some(converted) = on_host(url_text.as_str(), X_MIRROR_HOST, None, None) {
            let ghost before = links@;
            links.push(LinkConversion { original: original.clone(), converted, disable_preview: dot });
            proof {
                assert(conversion_views(links@) == conversion_views(before).push(
                    (original@, url_on_host(url_text@, X_MIRROR_HOST@, None, None), dot),
                ));
            }
        }
        i = i + 1;
    }
    proof {
        assert(ms.subrange(0, matches@.len() as int) == ms);
    }
    links
}

/// The short-form social links of `text` that parse, each moved to the mirror
/// host without query or fragment; a leading dot is kept in `original`, left
/// out of `converted`, and turns previews off.
pub fn convert_x_links(text: &str) -> (r: Vec<LinkConversion>)
    ensures
        conversion_views(r@) == x_conversions(regex_matches(X_PATTERN@, text@)),
{
    let matches = find_all(X_PATTERN, text);
    proof {
        assert(string_views(matches@) == regex_matches(X_PATTERN@, text@));
    }
    x_conversions_of(&matches)
}

/// Each of the matched photo links `matches` that parses, with its form on
/// the mirror host without query or fragment.
pub fn instagram_conversions_of(matches: &Vec<String>) -> (r: Vec<(String, String)>)
    ensures
        pair_views(r@) == instagram_conversions(string_views(matches@)),
{
    let ghost ms = string_views(matches@);
    proof {
        assert(ms.subrange(0, 0) == Seq::<Seq<char>>::empty());
    }
    let mut links: Vec<(String, String)> = Vec::new();
    let mut i: usize = 0;
    while i < matches.len()
        invariant
            i <= matches@.len(),
            ms == string_views(matches@),
            pair_views(links@) == instagram_conversions(ms.subrange(0, i as int)),
        decreases matches@.len() - i,
    {
        let original = &matches[i];
        let ghost sub = ms.subrange(0, i + 1);
        proof {
            assert(sub.drop_last() == ms.subrange(0, i as int));
            assert(sub.last() == original@);
        }
        if let Some(converted) = on_host(original.as_str(), INSTAGRAM_MIRROR_HOST, None, None) {
            let ghost before = links@;
            links.push((original.clone(), converted));
            proof {
                assert(pair_views(links@) == pair_views(before).push(
                    (original@, url_on_host(original@, INSTAGRAM_MIRROR_HOST@, None, None)),
                ));
            }
        }
        i = i + 1;
    }
    proof {
        assert(ms.subrange(0, matches@.len() as int) == ms);
    }
    links
}

/// The photo-sharing links of `text` that parse, each with its form on the
/// mirror host without query or fragment.
pub fn convert_instagram_links(text: &str) -> (r: Vec<(String, String)>)
    ensures
        pair_views(r@) == instagram_conversions(regex_matches(INSTAGRAM_PATTERN@, text@)),
{
    let matches = find_all(INSTAGRAM_PATTERN, text);
    proof {
        assert(string_views(matches@) == regex_matches(INSTAGRAM_PATTERN@, text@));
    }
    instagram_conversions_of(&matches)
}

proof fn lemma_cleaned_pairs_len(ms: Seq<Seq<char>>)
    ensures
        cleaned_pairs(ms).len() <= ms.len(),
    decreases ms.len(),
{
    if ms.len() > 0 {
        lemma_cleaned_pairs_len(ms.drop_last());
    }
}

proof fn lemma_x_conversions_len(ms: Seq<Seq<char>>)
    ensures
        x_conversions(ms).len() <= ms.len(),
    decreases ms.len(),
{
    if ms.len() > 0 {
        lemma_x_conversions_len(ms.drop_last());
    }
}

proof fn lemma_instagram_conversions_len(ms: Seq<Seq<char>>)
    ensures
        instagram_conversions(ms).len() <= ms.len(),
    decreases ms.len(),
{
    if ms.len() > 0 {
        lemma_instagram_conversions_len(ms.drop_last());
    }
}

/// Detection never misses a rewrite: whenever a family's rewrite yields a
/// link, that family's detection holds for the same text.
pub proof fn lemma_rewrite_implies_detect(text: Seq<char>)
    ensures
        music_pairs(text).len() > 0 ==> music_detected(text),
        x_conversions(regex_matches(X_PATTERN@, text)).len() > 0 ==> found(X_PATTERN, text),
        instagram_conversions(regex_matches(INSTAGRAM_PATTERN@, text)).len() > 0 ==> found(
            INSTAGRAM_PATTERN,
            text,
        ),
{
    lemma_cleaned_pairs_len(regex_matches(YOUTUBE_PATTERN@, text));
    lemma_cleaned_pairs_len(regex_matches(YOUTUBE_MUSIC_PATTERN@, text));
    lemma_cleaned_pairs_len(regex_matches(SPOTIFY_PATTERN@, text));
    lemma_x_conversions_len(regex_matches(X_PATTERN@, text));
    lemma_instagram_conversions_len(regex_matches(INSTAGRAM_PATTERN@, text));
}

/// Links already in canonical form are not rewritten: when every matched
/// link is unchanged by tracking-parameter removal, no pair is produced.
pub proof fn lemma_clean_links_not_rewritten(ms: Seq<Seq<char>>)
    requires
        forall|i: int| 0 <= i < ms.len() ==> si_removed(#[trigger] ms[i]) == ms[i],
    ensures
        cleaned_pairs(ms).len() == 0,
    decreases ms.len(),
{
    if ms.len() > 0 {
        let prev = ms.drop_last();
        assert forall|i: int| 0 <= i < prev.len() implies si_removed(#[trigger] prev[i])
            == prev[i] by {
            assert(prev[i] == ms[i]);
        }
        lemma_clean_links_not_rewritten(prev);
        assert(si_removed(ms[ms.len() - 1]) == ms[ms.len() - 1]);
    }
}

/// Every produced pair changes its link: the rewritten form differs from
/// the original.
pub proof fn lemma_cleaned_pairs_differ(ms: Seq<Seq<char>>)
    ensures
        forall|k: int|
            0 <= k < cleaned_pairs(ms).len() ==> (#[trigger] cleaned_pairs(ms)[k]).0
                != cleaned_pairs(ms)[k].1,
    decreases ms.len(),
{
    if ms.len() > 0 {
        lemma_cleaned_pairs_differ(ms.drop_last());
        let prev = cleaned_pairs(ms.drop_last());
        assert forall|k: int|
            0 <= k < cleaned_pairs(ms).len() implies (#[trigger] cleaned_pairs(ms)[k]).0
                != cleaned_pairs(ms)[k].1 by {
            if k < prev.len() {
                assert(cleaned_pairs(ms)[k] == prev[k]);
            }
        }
    }
}

} // verus!
