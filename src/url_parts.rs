//! Calls into the `url` crate. A URL is held by the library as plain values;
//! what parsing and re-serialising give is named, not restated.

use vstd::prelude::*;
use crate::text::opt_view;

verus! {

/// `s` parses as an absolute URL.
pub uninterp spec fn url_parses(s: Seq<char>) -> bool;

/// The query of the parsed `s`, without its `?`, if it has one.
pub uninterp spec fn url_query(s: Seq<char>) -> Option<Seq<char>>;

/// The percent-decoded name/value pairs of the parsed `s`'s query, in order.
pub uninterp spec fn url_query_pairs(s: Seq<char>) -> Seq<(Seq<char>, Seq<char>)>;

/// The host of the parsed `s`, as serialised, if it has one.
pub uninterp spec fn url_host(s: Seq<char>) -> Option<Seq<char>>;

/// The path of the parsed `s`, as serialised.
pub uninterp spec fn url_path(s: Seq<char>) -> Seq<char>;

/// The serialisation of the parsed `s` with its query replaced by `query`.
pub uninterp spec fn url_with_query(s: Seq<char>, query: Option<Seq<char>>) -> Seq<char>;

/// The serialisation of the parsed `s` with its query replaced by `query`
/// and then its path by `path`.
pub uninterp spec fn url_with_query_path(
    s: Seq<char>,
    query: Option<Seq<char>>,
    path: Seq<char>,
) -> Seq<char>;

/// The serialisation of the parsed `s` moved to `host`, with its query
/// replaced by `query` and then its fragment by `fragment`.
pub uninterp spec fn url_on_host(
    s: Seq<char>,
    host: Seq<char>,
    query: Option<Seq<char>>,
    fragment: Option<Seq<char>>,
) -> Seq<char>;

/// What the library reads of a parsed URL.
pub struct UrlParts {
    pub query: Option<String>,
    pub query_pairs: Vec<(String, String)>,
    pub host: Option<String>,
    pub path: String,
}

pub open spec fn opt_chars(o: Option<&str>) -> Option<Seq<char>> {
    match o {
        Some(s) => Some(s@),
        None => None,
    }
}

pub open spec fn pair_views(v: Seq<(String, String)>) -> Seq<(Seq<char>, Seq<char>)> {
    v.map_values(|p: (String, String)| (p.0@, p.1@))
}

/// Relies on `url::Url::parse` and the accessors `query`, `query_pairs`,
/// `host_str` and `path` of the parsed URL.
#[verifier::external_body]
pub(crate) fn parse_url(s: &str) -> (r: Option<UrlParts>)
    ensures
        r is Some <==> url_parses(s@),
        r is Some ==> opt_view(r->0.query) == url_query(s@),
        r is Some ==> pair_views(r->0.query_pairs@) == url_query_pairs(s@),
        r is Some ==> opt_view(r->0.host) == url_host(s@),
        r is Some ==> r->0.path@ == url_path(s@),
{
    url::Url::parse(s).ok().map(|u| UrlParts {
        query: u.query().map(|q| q.to_string()),
        query_pairs: u.query_pairs().map(|(k, v)| (k.into_owned(), v.into_owned())).collect(),
        host: u.host_str().map(|h| h.to_string()),
        path: u.path().to_string(),
    })
}

/// Relies on `url::Url::parse`, `Url::set_query` and `Url`'s `Display`.
#[verifier::external_body]
pub(crate) fn with_query(s: &str, query: Option<&str>) -> (r: Option<String>)
    ensures
        r is Some <==> url_parses(s@),
        r is Some ==> r->0@ == url_with_query(s@, opt_chars(query)),
{
    let mut u = url::Url::parse(s).ok()?;
    u.set_query(query);
    Some(u.to_string())
}

/// Relies on `url::Url::parse`, `Url::set_query`, `Url::set_path` and `Url`'s
/// `Display`.
#[verifier::external_body]
pub(crate) fn with_query_path(s: &str, query: Option<&str>, path: &str) -> (r: Option<String>)
    ensures
        r is Some <==> url_parses(s@),
        r is Some ==> r->0@ == url_with_query_path(s@, opt_chars(query), path@),
{
    let mut u = url::Url::parse(s).ok()?;
    u.set_query(query);
    u.set_path(path);
    Some(u.to_string())
}

/// Relies on `url::Url::parse`, `Url::set_host` (whose refusal leaves the
/// host as it was), `Url::set_query`, `Url::set_fragment` and `Url`'s
/// `Display`.
#[verifier::external_body]
pub(crate) fn on_host(s: &str, host: &str, query: Option<&str>, fragment: Option<&str>) -> (r:
    Option<String>)
    ensures
        r is Some <==> url_parses(s@),
        r is Some ==> r->0@ == url_on_host(s@, host@, opt_chars(query), opt_chars(fragment)),
{
    let mut u = url::Url::parse(s).ok()?;
    u.set_host(Some(host)).ok();
    u.set_query(query);
    u.set_fragment(fragment);
    Some(u.to_string())
}

} // verus!
