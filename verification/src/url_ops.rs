//! What the crawler asks of the `url` and `form_urlencoded` crates and of
//! `str::to_lowercase`.
//!
//! A parsed URL is carried as a `url::Url` together with plain copies of
//! the parts that the canonicalization reads.  Each function here makes one
//! call into the `url` crate and copies the parts out again.  Their results
//! are named, not described: the naming functions below have no body, and
//! what they return is whatever the `url` crate computes.  A URL is named by
//! its serialization, which the crate's own equality of URLs compares.
use vstd::prelude::*;

verus! {

/// `url::Url` is held by [`ParsedUrl`] and changed only by the setters
/// below.
#[verifier::external_type_specification]
#[verifier::external_body]
pub struct ExUrl(url::Url);

/// A parsed URL, with the parts that the library reads copied out as plain
/// values.  Only the functions of this module make or change one, and each
/// copies the parts out again after the `url` crate has done its work.
pub struct ParsedUrl {
    url: url::Url,
    serialization: String,
    scheme: String,
    host: Option<String>,
    port: Option<u16>,
    query: Option<String>,
}

/// The mathematical value of a [`ParsedUrl`]: its serialization
/// (`Url::as_str`), `Url::scheme`, `Url::host_str`, `Url::port` (`None` for
/// a scheme's default port) and `Url::query` (without the `?`).
pub struct UrlView {
    pub serialization: Seq<char>,
    pub scheme: Seq<char>,
    pub host: Option<Seq<char>>,
    pub port: Option<u16>,
    pub query: Option<Seq<char>>,
}

pub open spec fn opt_str_view(o: Option<String>) -> Option<Seq<char>> {
    match o {
        Some(s) => Some(s@),
        None => None,
    }
}

impl View for ParsedUrl {
    type V = UrlView;

    closed spec fn view(&self) -> UrlView {
        UrlView {
            serialization: self.serialization@,
            scheme: self.scheme@,
            host: opt_str_view(self.host),
            port: self.port,
            query: opt_str_view(self.query),
        }
    }
}

impl ParsedUrl {
    pub fn serialization(&self) -> (r: &String)
        ensures
            r@ == self@.serialization,
    {
        &self.serialization
    }

    pub fn into_serialization(self) -> (r: String)
        ensures
            r@ == self@.serialization,
    {
        self.serialization
    }

    pub fn scheme(&self) -> (r: &String)
        ensures
            r@ == self@.scheme,
    {
        &self.scheme
    }

    pub fn host(&self) -> (r: &Option<String>)
        ensures
            opt_str_view(*r) == self@.host,
    {
        &self.host
    }

    pub fn port(&self) -> (r: Option<u16>)
        ensures
            r == self@.port,
    {
        self.port
    }

    pub fn query(&self) -> (r: &Option<String>)
        ensures
            opt_str_view(*r) == self@.query,
    {
        &self.query
    }
}

pub open spec fn opt_url_view(o: Option<ParsedUrl>) -> Option<UrlView> {
    match o {
        Some(u) => Some(u@),
        None => None,
    }
}

/// What `url::Url::parse` makes of a text: `None` where it refuses it.
pub uninterp spec fn url_parse_result(input: Seq<char>) -> Option<UrlView>;

/// What `url::Url::set_scheme` makes of the URL with this serialization:
/// `None` where it refuses the new scheme.
///
/// This and the setter names below are keyed by the URL's serialization:
/// `url` re-parses a serialization into the same URL, except that a URL
/// without a host may come back with an empty one.  The library calls the
/// setters only on URLs that have a host.
pub uninterp spec fn url_set_scheme_result(serialization: Seq<char>, scheme: Seq<char>) -> Option<UrlView>;

/// What `url::Url::set_host(Some(host))` makes of the URL with this
/// serialization: `None` where it refuses.
pub uninterp spec fn url_set_host_result(serialization: Seq<char>, host: Seq<char>) -> Option<UrlView>;

/// What `url::Url::set_port(None)` makes of the URL with this
/// serialization: `None` where it refuses.
pub uninterp spec fn url_clear_port_result(serialization: Seq<char>) -> Option<UrlView>;

/// What `url::Url::set_query` makes of the URL with this serialization.
pub uninterp spec fn url_set_query_result(serialization: Seq<char>, query: Option<Seq<char>>) -> UrlView;

/// What `url::Url::join` makes of the text relative to the URL with this
/// serialization: `None` where it refuses.
pub uninterp spec fn url_join_result(serialization: Seq<char>, input: Seq<char>) -> Option<UrlView>;

/// The name/value pairs that `url::form_urlencoded::parse` decodes from a query.
pub uninterp spec fn form_decode(query: Seq<u8>) -> Seq<(Seq<char>, Seq<char>)>;

/// The query text that `url::form_urlencoded::Serializer` writes for the pairs.
pub uninterp spec fn form_encode(pairs: Seq<(Seq<char>, Seq<char>)>) -> Seq<char>;

/// What `str::to_lowercase` returns.
pub uninterp spec fn lowercase(s: Seq<char>) -> Seq<char>;

/// Parses a text with `url::Url::parse` and copies out the serialization,
/// scheme, host, port and query of the result.  The contract claims only
/// that the result is the named [`url_parse_result`] of the text.
#[verifier::external_body]
pub fn parse_url(input: &str) -> (r: Option<ParsedUrl>)
    ensures
        opt_url_view(r) == url_parse_result(input@),
{
    let url = url::Url::parse(input).ok()?;
    Some(ParsedUrl {
        serialization: url.as_str().to_string(),
        scheme: url.scheme().to_string(),
        host: url.host_str().map(|h| h.to_string()),
        port: url.port(),
        query: url.query().map(|q| q.to_string()),
        url,
    })
}

/// `url::Url::join`; `None` where it refuses.  The contract claims only that
/// the result is the named [`url_join_result`] of the base's serialization
/// and the text.
#[verifier::external_body]
fn url_join(u: &ParsedUrl, input: &str) -> (r: Option<ParsedUrl>)
    ensures
        opt_url_view(r) == url_join_result(u@.serialization, input@),
{
    let url = u.url.join(input).ok()?;
    Some(ParsedUrl {
        serialization: url.as_str().to_string(),
        scheme: url.scheme().to_string(),
        host: url.host_str().map(|h| h.to_string()),
        port: url.port(),
        query: url.query().map(|q| q.to_string()),
        url,
    })
}

/// The URL that `href` names relative to the URL `base`, serialized; `None`
/// where `base` is not a URL or `url` cannot join the two.
pub fn join_url(base: &str, href: &str) -> (r: Option<String>)
    ensures
        url_parse_result(base@) is None ==> r is None,
        url_parse_result(base@) matches Some(b) ==> match url_join_result(b.serialization, href@) {
            Some(j) => r matches Some(s) && s@ == j.serialization,
            None => r is None,
        },
{
    match parse_url(base) {
        None => None,
        Some(b) => match url_join(&b, href) {
            None => None,
            Some(j) => Some(j.into_serialization()),
        },
    }
}

/// `url::Url::set_scheme`; `None` where it refuses.  The contract claims
/// only that the result is the named [`url_set_scheme_result`] of the URL's
/// serialization (a `Url` is equal to another exactly when their
/// serializations are) and the scheme.
#[verifier::external_body]
pub fn url_set_scheme(u: ParsedUrl, scheme: &str) -> (r: Option<ParsedUrl>)
    ensures
        opt_url_view(r) == url_set_scheme_result(u@.serialization, scheme@),
{
    let mut url = u.url;
    url.set_scheme(scheme).ok()?;
    Some(ParsedUrl {
        serialization: url.as_str().to_string(),
        scheme: url.scheme().to_string(),
        host: url.host_str().map(|h| h.to_string()),
        port: url.port(),
        query: url.query().map(|q| q.to_string()),
        url,
    })
}

/// `url::Url::set_host(Some(host))`; `None` where it refuses.  The contract
/// claims only that the result is the named [`url_set_host_result`].
#[verifier::external_body]
pub fn url_set_host(u: ParsedUrl, host: &str) -> (r: Option<ParsedUrl>)
    ensures
        opt_url_view(r) == url_set_host_result(u@.serialization, host@),
{
    let mut url = u.url;
    url.set_host(Some(host)).ok()?;
    Some(ParsedUrl {
        serialization: url.as_str().to_string(),
        scheme: url.scheme().to_string(),
        host: url.host_str().map(|h| h.to_string()),
        port: url.port(),
        query: url.query().map(|q| q.to_string()),
        url,
    })
}

/// `url::Url::set_port(None)`; `None` where it refuses.  The contract claims
/// only that the result is the named [`url_clear_port_result`].
#[verifier::external_body]
pub fn url_clear_port(u: ParsedUrl) -> (r: Option<ParsedUrl>)
    ensures
        opt_url_view(r) == url_clear_port_result(u@.serialization),
{
    let mut url = u.url;
    url.set_port(None).ok()?;
    Some(ParsedUrl {
        serialization: url.as_str().to_string(),
        scheme: url.scheme().to_string(),
        host: url.host_str().map(|h| h.to_string()),
        port: url.port(),
        query: url.query().map(|q| q.to_string()),
        url,
    })
}

/// `url::Url::set_query`, which cannot fail.  The contract claims only that
/// the result is the named [`url_set_query_result`].
#[verifier::external_body]
pub fn url_set_query(u: ParsedUrl, query: Option<&str>) -> (r: ParsedUrl)
    ensures
        r@ == url_set_query_result(
            u@.serialization,
            match query { Some(q) => Some(q@), None => None },
        ),
{
    let mut url = u.url;
    url.set_query(query);
    ParsedUrl {
        serialization: url.as_str().to_string(),
        scheme: url.scheme().to_string(),
        host: url.host_str().map(|h| h.to_string()),
        port: url.port(),
        query: url.query().map(|q| q.to_string()),
        url,
    }
}

pub open spec fn pair_view(p: (String, String)) -> (Seq<char>, Seq<char>) {
    (p.0@, p.1@)
}

pub open spec fn pairs_view(v: Seq<(String, String)>) -> Seq<(Seq<char>, Seq<char>)> {
    v.map_values(|p: (String, String)| pair_view(p))
}

/// `url::form_urlencoded::parse` on the bytes of a query, each decoded name and
/// value taken as an owned `String`.  The contract claims only that the
/// result is the named [`form_decode`] of the bytes.
#[verifier::external_body]
pub fn form_urlencoded_decode(query: &[u8]) -> (r: Vec<(String, String)>)
    ensures
        pairs_view(r@) == form_decode(query@),
{
    url::form_urlencoded::parse(query).map(|(k, v)| (k.into_owned(), v.into_owned())).collect()
}

/// `url::form_urlencoded::Serializer::new(String::new()).extend_pairs(..).finish()`.
/// The contract claims only that the result is the named [`form_encode`].
#[verifier::external_body]
pub fn form_urlencoded_encode(pairs: &Vec<(String, String)>) -> (r: String)
    ensures
        r@ == form_encode(pairs_view(pairs@)),
{
    url::form_urlencoded::Serializer::new(String::new()).extend_pairs(pairs.iter()).finish()
}

/// `str::to_lowercase`.  The contract claims only that the result is the
/// named [`lowercase`] of the text.
#[verifier::external_body]
pub fn to_lowercase(s: &str) -> (r: String)
    ensures
        r@ == lowercase(s@),
{
    s.to_lowercase()
}

} // verus!
