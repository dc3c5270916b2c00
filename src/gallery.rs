//! Gallery metadata: the tolerant wire shape, the merge of its aliased
//! fields into one record, the payload framing, and the resolver's decisions.

use vstd::prelude::*;
use crate::matching::{regex_without_first, remove_first_match};
use crate::text::{
    chars_of, join_strings, joined, opt_view, push_all, slice_chars, string_of, string_views,
    strip_trailing, strip_trailing_chars, trim, trim_chars, trim_start, trim_start_index,
};

verus! {

/// One entry of a tag list as it comes off the wire.
#[derive(Debug, Clone, PartialEq, Eq)]
pub enum Tag {
    Simple(String),
    Object { tag: Option<String> },
    /// An entry of any other shape; it is dropped when lists are merged.
    Unrecognized,
}

/// One entry of an artist list as it comes off the wire.
#[derive(Debug, Clone, PartialEq, Eq)]
pub enum Artist {
    Simple(String),
    Object { artist: Option<String> },
    /// An entry of any other shape; it is dropped when lists are merged.
    Unrecognized,
}

/// The payload as read off the wire: every field optional, two key names
/// for each of title, tags, artists and language.
#[derive(Debug, Clone, Default, PartialEq, Eq)]
pub struct GalleryRaw {
    pub title: Option<String>,
    pub n: Option<String>,
    pub tags: Vec<Tag>,
    pub t: Vec<Tag>,
    pub artists: Vec<Artist>,
    pub a: Vec<Artist>,
    pub language_localname: Option<String>,
    pub language: Option<String>,
}

/// The canonical record of one gallery; every field is filled.
#[derive(Debug, Clone, PartialEq, Eq)]
pub struct GalleryInfo {
    pub id: String,
    pub title: String,
    pub artists: String,
    pub language: String,
    pub tags: Vec<String>,
}

/// The text of a field the payload leaves empty.
pub const NO_INFO: &'static str = "정보 없음";

pub const ARTIST_SEPARATOR: &'static str = ", ";

/// The assignment that wraps the payload's JSON object.
pub const PAYLOAD_PREFIX_PATTERN: &'static str = r"^\s*var\s+galleryinfo\s*=\s*";

/// The text an entry carries, if any.
pub open spec fn tag_value(t: Tag) -> Option<Seq<char>> {
    match t {
        Tag::Simple(s) => Some(s@),
        Tag::Object { tag } => opt_view(tag),
        Tag::Unrecognized => None,
    }
}

/// The text an entry carries, if any.
pub open spec fn artist_value(a: Artist) -> Option<Seq<char>> {
    match a {
        Artist::Simple(s) => Some(s@),
        Artist::Object { artist } => opt_view(artist),
        Artist::Unrecognized => None,
    }
}

/// One step of the merge: a value is kept trimmed, unless it is blank or
/// already present.
pub open spec fn merge_step(prev: Seq<Seq<char>>, v: Option<Seq<char>>) -> Seq<Seq<char>> {
    match v {
        Some(s) => if trim(s).len() > 0 && !prev.contains(trim(s)) {
            prev.push(trim(s))
        } else {
            prev
        },
        None => prev,
    }
}

/// The merged list: trimmed, non-blank values, each once, in order of first
/// occurrence.
pub open spec fn merged(vals: Seq<Option<Seq<char>>>) -> Seq<Seq<char>>
    decreases vals.len(),
{
    if vals.len() == 0 {
        Seq::empty()
    } else {
        merge_step(merged(vals.drop_last()), vals.last())
    }
}

/// The first of two alias values that is present and non-empty.
pub open spec fn first_filled(a: Option<Seq<char>>, b: Option<Seq<char>>) -> Option<Seq<char>> {
    if a is Some && a->0.len() > 0 {
        a
    } else if b is Some && b->0.len() > 0 {
        b
    } else {
        None
    }
}

pub open spec fn or_no_info(o: Option<Seq<char>>) -> Seq<char> {
    match o {
        Some(s) => s,
        None => NO_INFO@,
    }
}

pub open spec fn merged_tags(raw: GalleryRaw) -> Seq<Seq<char>> {
    merged((raw.tags@ + raw.t@).map_values(|t: Tag| tag_value(t)))
}

pub open spec fn merged_artists(raw: GalleryRaw) -> Seq<Seq<char>> {
    merged((raw.artists@ + raw.a@).map_values(|a: Artist| artist_value(a)))
}

pub open spec fn title_of(raw: GalleryRaw) -> Seq<char> {
    or_no_info(first_filled(opt_view(raw.title), opt_view(raw.n)))
}

pub open spec fn language_of(raw: GalleryRaw) -> Seq<char> {
    or_no_info(first_filled(opt_view(raw.language_localname), opt_view(raw.language)))
}

pub open spec fn artists_of(raw: GalleryRaw) -> Seq<char> {
    if merged_artists(raw).len() == 0 {
        NO_INFO@
    } else {
        joined(merged_artists(raw), ARTIST_SEPARATOR@)
    }
}

/// The JSON text inside a `var galleryinfo = {...};` statement.
pub open spec fn normalized_payload(raw: Seq<char>) -> Seq<char> {
    strip_trailing(trim(regex_without_first(PAYLOAD_PREFIX_PATTERN@, trim_start(raw))), ';')
}

proof fn lemma_merged_prefix(vals: Seq<Option<Seq<char>>>, i: int)
    requires
        0 <= i < vals.len(),
    ensures
        merged(vals.subrange(0, i + 1)) == merge_step(merged(vals.subrange(0, i)), vals[i]),
{
    let s = vals.subrange(0, i + 1);
    assert(s.drop_last() == vals.subrange(0, i));
    assert(s.last() == vals[i]);
}

proof fn lemma_merged_values_nonblank(vals: Seq<Option<Seq<char>>>)
    ensures
        forall|k: int| 0 <= k < merged(vals).len() ==> (#[trigger] merged(vals)[k]).len() > 0,
    decreases vals.len(),
{
    if vals.len() > 0 {
        let prev = merged(vals.drop_last());
        lemma_merged_values_nonblank(vals.drop_last());
        assert forall|k: int| 0 <= k < merged(vals).len() implies (#[trigger] merged(vals)[k]).len()
            > 0 by {
            if k < prev.len() {
                assert(merged(vals)[k] == prev[k]);
            }
        }
    }
}

/// Adds one value to a merged list.
fn merge_value(out: &mut Vec<String>, value: &Option<String>)
    ensures
        string_views(final(out)@) == merge_step(string_views(old(out)@), opt_view(*value)),
{
    if let Some(v) = value {
        let trimmed = trim_chars(&chars_of(v.as_str()));
        if trimmed.len() == 0 {
            return;
        }
        let candidate = string_of(&trimmed);
        let ghost prev = string_views(out@);
        let mut i: usize = 0;
        while i < out.len()
            invariant
                i <= out@.len(),
                prev == string_views(out@),
                out@ == old(out)@,
                opt_view(*value) == Some(v@),
                candidate@ == trim(v@),
                forall|k: int| 0 <= k < i ==> prev[k] != candidate@,
            decreases out@.len() - i,
        {
            if out[i] == candidate {
                assert(prev[i as int] == candidate@);
                assert(prev.contains(candidate@));
                return;
            }
            i = i + 1;
        }
        out.push(candidate);
        proof {
            assert(string_views(out@) == prev.push(candidate@));
        }
    }
}

/// The merge of a list of entry values.
fn merge_values(values: &Vec<Option<String>>) -> (r: Vec<String>)
    ensures
        string_views(r@) == merged(values@.map_values(|o: Option<String>| opt_view(o))),
{
    let ghost vals = values@.map_values(|o: Option<String>| opt_view(o));
    let mut out: Vec<String> = Vec::new();
    let mut i: usize = 0;
    proof {
        assert(vals.subrange(0, 0) == Seq::<Option<Seq<char>>>::empty());
        assert(string_views(out@) == Seq::<Seq<char>>::empty());
    }
    while i < values.len()
        invariant
            i <= values@.len(),
            vals == values@.map_values(|o: Option<String>| opt_view(o)),
            string_views(out@) == merged(vals.subrange(0, i as int)),
        decreases values@.len() - i,
    {
        merge_value(&mut out, &values[i]);
        proof {
            lemma_merged_prefix(vals, i as int);
        }
        i = i + 1;
    }
    proof {
        assert(vals.subrange(0, values@.len() as int) == vals);
    }
    out
}

fn clone_opt(o: &Option<String>) -> (r: Option<String>)
    ensures
        opt_view(r) == opt_view(*o),
{
    match o {
        Some(s) => Some(s.clone()),
        None => None,
    }
}

fn push_tag_values(out: &mut Vec<Option<String>>, tags: &Vec<Tag>)
    ensures
        final(out)@.map_values(|o: Option<String>| opt_view(o)) == old(out)@.map_values(
            |o: Option<String>| opt_view(o),
        ) + tags@.map_values(|t: Tag| tag_value(t)),
{
    let mut i: usize = 0;
    while i < tags.len()
        invariant
            i <= tags@.len(),
            out@.map_values(|o: Option<String>| opt_view(o)) == old(out)@.map_values(
                |o: Option<String>| opt_view(o),
            ) + tags@.subrange(0, i as int).map_values(|t: Tag| tag_value(t)),
        decreases tags@.len() - i,
    {
        let v = match &tags[i] {
            Tag::Simple(s) => Some(s.clone()),
            Tag::Object { tag } => clone_opt(tag),
            Tag::Unrecognized => None,
        };
        let ghost before = out@;
        let ghost value = opt_view(v);
        out.push(v);
        proof {
            assert(out@.map_values(|o: Option<String>| opt_view(o)) == before.map_values(
                |o: Option<String>| opt_view(o),
            ).push(value));
            assert(tags@.subrange(0, i + 1).map_values(|t: Tag| tag_value(t)) == tags@.subrange(
                0,
                i as int,
            ).map_values(|t: Tag| tag_value(t)).push(tag_value(tags@[i as int])));
        }
        i = i + 1;
    }
    proof {
        assert(tags@.subrange(0, tags@.len() as int) == tags@);
    }
}

fn push_artist_values(out: &mut Vec<Option<String>>, artists: &Vec<Artist>)
    ensures
        final(out)@.map_values(|o: Option<String>| opt_view(o)) == old(out)@.map_values(
            |o: Option<String>| opt_view(o),
        ) + artists@.map_values(|a: Artist| artist_value(a)),
{
    let mut i: usize = 0;
    while i < artists.len()
        invariant
            i <= artists@.len(),
            out@.map_values(|o: Option<String>| opt_view(o)) == old(out)@.map_values(
                |o: Option<String>| opt_view(o),
            ) + artists@.subrange(0, i as int).map_values(|a: Artist| artist_value(a)),
        decreases artists@.len() - i,
    {
        let v = match &artists[i] {
            Artist::Simple(s) => Some(s.clone()),
            Artist::Object { artist } => clone_opt(artist),
            Artist::Unrecognized => None,
        };
        let ghost before = out@;
        let ghost value = opt_view(v);
        out.push(v);
        proof {
            assert(out@.map_values(|o: Option<String>| opt_view(o)) == before.map_values(
                |o: Option<String>| opt_view(o),
            ).push(value));
            assert(artists@.subrange(0, i + 1).map_values(|a: Artist| artist_value(a))
                == artists@.subrange(0, i as int).map_values(|a: Artist| artist_value(a)).push(
                artist_value(artists@[i as int]),
            ));
        }
        i = i + 1;
    }
    proof {
        assert(artists@.subrange(0, artists@.len() as int) == artists@);
    }
}

/// The tags of both aliases, trimmed, without blanks or repeats, in order of
/// first occurrence.
pub fn merge_tags(a: Vec<Tag>, b: Vec<Tag>) -> (r: Vec<String>)
    ensures
        string_views(r@) == merged((a@ + b@).map_values(|t: Tag| tag_value(t))),
{
    let mut values: Vec<Option<String>> = Vec::new();
    push_tag_values(&mut values, &a);
    push_tag_values(&mut values, &b);
    proof {
        assert((a@ + b@).map_values(|t: Tag| tag_value(t)) == a@.map_values(|t: Tag| tag_value(t))
            + b@.map_values(|t: Tag| tag_value(t)));
    }
    merge_values(&values)
}

/// The artists of both aliases, trimmed, without blanks or repeats, in order
/// of first occurrence.
pub fn merge_artists(a: Vec<Artist>, b: Vec<Artist>) -> (r: Vec<String>)
    ensures
        string_views(r@) == merged((a@ + b@).map_values(|x: Artist| artist_value(x))),
{
    let mut values: Vec<Option<String>> = Vec::new();
    push_artist_values(&mut values, &a);
    push_artist_values(&mut values, &b);
    proof {
        assert((a@ + b@).map_values(|x: Artist| artist_value(x)) == a@.map_values(
            |x: Artist| artist_value(x),
        ) + b@.map_values(|x: Artist| artist_value(x)));
    }
    merge_values(&values)
}


/// Every field of `info` is non-empty, and so is every tag.
pub open spec fn filled(info: GalleryInfo) -> bool {
    &&& info.id@.len() > 0
    &&& info.title@.len() > 0
    &&& info.artists@.len() > 0
    &&& info.language@.len() > 0
    &&& forall|k: int| 0 <= k < info.tags@.len() ==> (#[trigger] info.tags@[k])@.len() > 0
}

/// `info` is the record that `raw` gives for the identifier `id`.
pub open spec fn describes(info: GalleryInfo, id: Seq<char>, raw: GalleryRaw) -> bool {
    &&& info.id@ == id
    &&& info.title@ == title_of(raw)
    &&& info.artists@ == artists_of(raw)
    &&& info.language@ == language_of(raw)
    &&& string_views(info.tags@) == merged_tags(raw)
}

pub const HITOMI_GALLERY_PREFIX: &'static str = "https://hitomi.la/galleries/";

pub const HITOMI_READER_PREFIX: &'static str = "https://hitomi.la/reader/";

pub const HTML_SUFFIX: &'static str = ".html";

pub const K_HENTAI_PREFIX: &'static str = "https://k-hentai.org/r/";

pub const GALLERY_DATA_PREFIX: &'static str = "https://ltn.gold-usergeneratedcontent.net/galleries/";

pub const GALLERY_DATA_SUFFIX: &'static str = ".js";

/// `a`, `b` and `c` one after the other.
pub fn concat3(a: &str, b: &str, c: &str) -> (r: String)
    ensures
        r@ == a@ + b@ + c@,
{
    let mut out = chars_of(a);
    push_all(&mut out, &chars_of(b));
    push_all(&mut out, &chars_of(c));
    string_of(&out)
}

/// The address of the data file that describes gallery `id`.
pub fn gallery_data_url(id: &str) -> (r: String)
    ensures
        r@ == GALLERY_DATA_PREFIX@ + id@ + GALLERY_DATA_SUFFIX@,
{
    concat3(GALLERY_DATA_PREFIX, id, GALLERY_DATA_SUFFIX)
}

/// The referer that the data source expects with a request for gallery `id`.
pub fn gallery_referer(id: &str) -> (r: String)
    ensures
        r@ == HITOMI_READER_PREFIX@ + id@ + HTML_SUFFIX@,
{
    concat3(HITOMI_READER_PREFIX, id, HTML_SUFFIX)
}

proof fn lemma_joined_nonempty(parts: Seq<Seq<char>>, sep: Seq<char>)
    requires
        parts.len() > 0,
        parts.last().len() > 0,
    ensures
        joined(parts, sep).len() > 0,
{
}

/// The first of two alias values that is present and non-empty, else the
/// fallback text.
fn first_filled_or_no_info(a: &Option<String>, b: &Option<String>) -> (r: String)
    ensures
        r@ == or_no_info(first_filled(opt_view(*a), opt_view(*b))),
{
    if let Some(s) = a {
        if !s.as_str().is_empty() {
            return s.clone();
        }
    }
    if let Some(s) = b {
        if !s.as_str().is_empty() {
            return s.clone();
        }
    }
    NO_INFO.to_owned()
}

proof fn lemma_no_info_nonempty()
    ensures
        NO_INFO@.len() > 0,
{
    reveal_strlit("정보 없음");
}

impl GalleryInfo {
    /// The gallery's page on the source site.
    pub fn hitomi_url(&self) -> (r: String)
        ensures
            r@ == HITOMI_GALLERY_PREFIX@ + self.id@ + HTML_SUFFIX@,
    {
        concat3(HITOMI_GALLERY_PREFIX, self.id.as_str(), HTML_SUFFIX)
    }

    /// The gallery's page on the mirror site.
    pub fn k_hentai_url(&self) -> (r: String)
        ensures
            r@ == K_HENTAI_PREFIX@ + self.id@,
    {
        let r = concat3(K_HENTAI_PREFIX, self.id.as_str(), "");
        proof {
            reveal_strlit("");
            assert(K_HENTAI_PREFIX@ + self.id@ + ""@ == K_HENTAI_PREFIX@ + self.id@);
        }
        r
    }

    /// The record for `id` made from a parsed payload: each aliased field takes
    /// the first non-empty of its two keys, lists are merged, and what is
    /// missing reads as the fallback text.
    pub fn from_raw(id: String, raw: GalleryRaw) -> (r: GalleryInfo)
        ensures
            describes(r, id@, raw),
            id@.len() > 0 ==> filled(r),
    {
        let title = first_filled_or_no_info(&raw.title, &raw.n);
        let language = first_filled_or_no_info(&raw.language_localname, &raw.language);
        let tags = merge_tags(raw.tags, raw.t);
        let artists_vec = merge_artists(raw.artists, raw.a);
        let artists = if artists_vec.len() == 0 {
            NO_INFO.to_owned()
        } else {
            join_strings(&artists_vec, ARTIST_SEPARATOR)
        };
        proof {
            lemma_no_info_nonempty();
            lemma_merged_values_nonblank((raw.tags@ + raw.t@).map_values(|t: Tag| tag_value(t)));
            lemma_merged_values_nonblank(
                (raw.artists@ + raw.a@).map_values(|a: Artist| artist_value(a)),
            );
            let ts = string_views(tags@);
            assert forall|k: int| 0 <= k < tags@.len() implies (#[trigger] tags@[k])@.len() > 0 by {
                assert(ts[k] == tags@[k]@);
            }
            let avs = string_views(artists_vec@);
            if avs.len() > 0 {
                lemma_joined_nonempty(avs, ARTIST_SEPARATOR@);
            }
        }
        GalleryInfo { id, title, artists, language, tags }
    }
}

/// The JSON object literal inside the data file's `var galleryinfo = ...;`
/// statement: leading whitespace and the assignment are removed, then
/// surrounding whitespace and trailing semicolons.
pub fn normalize_js_payload(raw: String) -> (r: String)
    ensures
        r@ == normalized_payload(raw@),
{
    let chars = chars_of(raw.as_str());
    let start = trim_start_index(&chars);
    let rest = string_of(&slice_chars(&chars, start, chars.len()));
    let without_prefix = remove_first_match(PAYLOAD_PREFIX_PATTERN, rest.as_str());
    let trimmed = trim_chars(&chars_of(without_prefix.as_str()));
    string_of(&strip_trailing_chars(&trimmed, ';'))
}

/// Why a gallery could not be resolved, where this is not "no such gallery".
#[derive(Debug, Clone, Copy, PartialEq, Eq)]
pub enum ResolveError {
    /// The data source could not be reached; the caller may try again.
    Transport,
}

/// What the caller learned from the data source since the last step.
#[derive(Debug, Clone, PartialEq, Eq)]
pub enum ResolveEvent {
    /// The request or the reading of its body failed in transport.
    TransportFailed,
    /// The response arrived with this HTTP status.
    Status(u16),
    /// The response body, as text.
    Body(String),
    /// The normalized payload parsed into the tolerant shape, or did not.
    Parsed(Option<GalleryRaw>),
}

/// What the caller does next.
#[derive(Debug, Clone, PartialEq, Eq)]
pub enum ResolveAction {
    /// Read the response body as text and report it.
    ReadBody,
    /// Parse this JSON text into the tolerant shape and report the result.
    Parse(String),
    /// Resolution ended: the record, or none for a gallery that is absent or
    /// whose data is unusable.
    Finish(Option<GalleryInfo>),
    /// Resolution ended with an error that the caller sees.
    Fail(ResolveError),
}

pub const STATUS_NOT_FOUND: u16 = 404;

pub open spec fn is_success(status: u16) -> bool {
    200 <= status <= 299
}

/// The record that a step ends with, if it ends with one.
pub open spec fn finished_record(a: ResolveAction) -> Option<GalleryInfo> {
    match a {
        ResolveAction::Finish(Some(info)) => Some(info),
        _ => None,
    }
}

/// The resolver's decision on gallery `id` after `event`. A transport failure
/// is an error; a missing gallery, an unsuccessful status and an unparsable
/// payload all end with no record.
pub fn resolve_step(id: &str, event: ResolveEvent) -> (r: ResolveAction)
    ensures
        event is TransportFailed ==> r == ResolveAction::Fail(ResolveError::Transport),
        event is Status ==> (if is_success(event->Status_0) {
            r == ResolveAction::ReadBody
        } else {
            r == ResolveAction::Finish(None)
        }),
        event is Body ==> (r is Parse && r->Parse_0@ == normalized_payload(event->Body_0@)),
        event == ResolveEvent::Parsed(None) ==> r == ResolveAction::Finish(None),
        event is Parsed && event->Parsed_0 is Some ==> (r is Finish && r->Finish_0 is Some
            && describes(r->Finish_0->0, id@, event->Parsed_0->0)),
        id@.len() > 0 && finished_record(r) is Some ==> filled(finished_record(r)->0),
{
    match event {
        ResolveEvent::TransportFailed => ResolveAction::Fail(ResolveError::Transport),
        ResolveEvent::Status(status) => {
            if status == STATUS_NOT_FOUND {
                ResolveAction::Finish(None)
            } else if 200 <= status && status <= 299 {
                ResolveAction::ReadBody
            } else {
                ResolveAction::Finish(None)
            }
        },
        ResolveEvent::Body(text) => ResolveAction::Parse(normalize_js_payload(text)),
        ResolveEvent::Parsed(None) => ResolveAction::Finish(None),
        ResolveEvent::Parsed(Some(raw)) => {
            let info = GalleryInfo::from_raw(id.to_owned(), raw);
            ResolveAction::Finish(Some(info))
        },
    }
}

/// Merging a list with itself gives what merging it with nothing gives: an
/// alias that repeats the canonical key adds no entry.
pub proof fn lemma_merge_alias_idempotent(vals: Seq<Option<Seq<char>>>)
    ensures
        merged(vals + vals) == merged(vals),
{
    lemma_merge_repeated_prefix(vals, vals.len() as int);
    assert((vals + vals).subrange(0, 2 * vals.len() as int) == vals + vals);
}

/// Merging `vals` followed by its first `k` values again gives `merged(vals)`.
proof fn lemma_merge_repeated_prefix(vals: Seq<Option<Seq<char>>>, k: int)
    requires
        0 <= k <= vals.len(),
    ensures
        merged((vals + vals).subrange(0, vals.len() as int + k)) == merged(vals),
    decreases k,
{
    if k == 0 {
        assert((vals + vals).subrange(0, vals.len() as int) == vals);
    } else {
        lemma_merge_repeated_prefix(vals, k - 1);
        lemma_merged_covers(vals);
        lemma_merged_prefix(vals + vals, vals.len() as int + k - 1);
        assert((vals + vals)[vals.len() as int + k - 1] == vals[k - 1]);
    }
}

/// Every kept value of the input appears, trimmed, in the merged list.
proof fn lemma_merged_covers(vals: Seq<Option<Seq<char>>>)
    ensures
        forall|i: int|
            0 <= i < vals.len() && (#[trigger] vals[i]) is Some && trim(vals[i]->0).len() > 0
                ==> merged(vals).contains(trim(vals[i]->0)),
    decreases vals.len(),
{
    if vals.len() > 0 {
        let prev = vals.drop_last();
        lemma_merged_covers(prev);
        let m = merged(vals);
        let pm = merged(prev);
        assert forall|x: Seq<char>| pm.contains(x) implies m.contains(x) by {
            let j = choose|j: int| 0 <= j < pm.len() && pm[j] == x;
            assert(m[j] == x);
        }
        assert forall|i: int|
            0 <= i < vals.len() && (#[trigger] vals[i]) is Some && trim(vals[i]->0).len()
                > 0 implies m.contains(trim(vals[i]->0)) by {
            if i < prev.len() {
                assert(prev[i] == vals[i]);
            } else {
                if !pm.contains(trim(vals[i]->0)) {
                    assert(m.last() == trim(vals[i]->0));
                    assert(m[m.len() - 1] == trim(vals[i]->0));
                }
            }
        }
    }
}

/// Merging a tag list with an identical alias list gives the same tags as the
/// list alone.
pub proof fn lemma_merge_tags_idempotent(tags: Seq<Tag>)
    ensures
        merged((tags + tags).map_values(|t: Tag| tag_value(t))) == merged(
            (tags + Seq::<Tag>::empty()).map_values(|t: Tag| tag_value(t)),
        ),
{
    let vals = tags.map_values(|t: Tag| tag_value(t));
    assert((tags + tags).map_values(|t: Tag| tag_value(t)) == vals + vals);
    assert(tags + Seq::<Tag>::empty() == tags);
    lemma_merge_alias_idempotent(vals);
}

/// Merging an artist list with an identical alias list gives the same
/// artists as the list alone.
pub proof fn lemma_merge_artists_idempotent(artists: Seq<Artist>)
    ensures
        merged((artists + artists).map_values(|a: Artist| artist_value(a))) == merged(
            (artists + Seq::<Artist>::empty()).map_values(|a: Artist| artist_value(a)),
        ),
{
    let vals = artists.map_values(|a: Artist| artist_value(a));
    assert((artists + artists).map_values(|a: Artist| artist_value(a)) == vals + vals);
    assert(artists + Seq::<Artist>::empty() == artists);
    lemma_merge_alias_idempotent(vals);
}

} // verus!
