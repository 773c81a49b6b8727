//! Crawl requests: construction, canonical URLs and fingerprints.
use crate::canonical::{canonical_pairs, canonical_query_pairs};
use crate::url_ops::{
    form_decode, form_encode, form_urlencoded_decode, form_urlencoded_encode, lowercase,
    opt_str_view, parse_url, to_lowercase, url_clear_port, url_clear_port_result, url_parse_result,
    url_set_host, url_set_host_result, url_set_query, url_set_query_result, url_set_scheme,
    url_set_scheme_result, ParsedUrl, UrlView,
};
use vstd::multiset::Multiset;
use vstd::prelude::*;
use vstd::std_specs::cmp::PartialEqSpecImpl;
use vstd::string::StringExecFns;
use vstd::utf8::{encode_utf8, encode_utf8_decode_utf8};

verus! {

/// `http::HeaderMap` crosses the library unchanged: requests carry it to the
/// downloader, which alone reads it.
#[verifier::external_type_specification]
#[verifier::external_body]
#[verifier::reject_recursive_types(T)]
pub struct ExHeaderMap<T>(http::HeaderMap<T>);

/// The value type of `http::HeaderMap`.
#[verifier::external_type_specification]
#[verifier::external_body]
pub struct ExHeaderValue(http::HeaderValue);

/// The header name/value pairs a `http::HeaderMap` holds (a name with
/// several values counts once per value).
pub uninterp spec fn header_entries(m: http::HeaderMap) -> Multiset<(Seq<char>, Seq<u8>)>;

/// `http::HeaderMap::new`: the contract claims, as its documentation says,
/// that the map holds no header.
pub assume_specification[ http::HeaderMap::new ]() -> (m: http::HeaderMap)
    ensures
        header_entries(m) == Multiset::<(Seq<char>, Seq<u8>)>::empty(),
;

/// `Clone` of `http::HeaderMap`, which the derived `Clone` of requests
/// calls.  Nothing is claimed of the result.
pub assume_specification<T: Clone>[ <http::HeaderMap<T> as Clone>::clone ](
    m: &http::HeaderMap<T>,
) -> http::HeaderMap<T>;

/// The HTTP method of a request.
#[allow(non_camel_case_types)]
#[derive(Clone, Debug, PartialEq, Eq)]
pub enum Method {
    GET,
    POST,
    PUT,
    DELETE,
    HEAD,
    OPTIONS,
    CONNECT,
    PATCH,
    TRACE,
    /// Any other method, by its name.
    Extension(String),
}

/// The name of a method, as it is sent on the wire.
pub open spec fn method_name(m: Method) -> Seq<char> {
    match m {
        Method::GET => "GET"@,
        Method::POST => "POST"@,
        Method::PUT => "PUT"@,
        Method::DELETE => "DELETE"@,
        Method::HEAD => "HEAD"@,
        Method::OPTIONS => "OPTIONS"@,
        Method::CONNECT => "CONNECT"@,
        Method::PATCH => "PATCH"@,
        Method::TRACE => "TRACE"@,
        Method::Extension(s) => s@,
    }
}

impl Method {
    /// The method's name, such as `"GET"`.
    pub fn as_str(&self) -> (r: &str)
        ensures
            r@ == method_name(*self),
    {
        match self {
            Method::GET => "GET",
            Method::POST => "POST",
            Method::PUT => "PUT",
            Method::DELETE => "DELETE",
            Method::HEAD => "HEAD",
            Method::OPTIONS => "OPTIONS",
            Method::CONNECT => "CONNECT",
            Method::PATCH => "PATCH",
            Method::TRACE => "TRACE",
            Method::Extension(s) => s.as_str(),
        }
    }
}

/// What is called with the response of a request.
///
/// `Empty` is the placeholder of a request made with `Request::default`,
/// which [`Request::validate`] refuses; `Noop` is what `Request::get` and
/// `Request::post` install: a callback that yields nothing; `Call` is a
/// callback of the caller's.
#[derive(Clone, Copy, Debug)]
pub enum Callback<C> {
    Empty,
    Noop,
    Call(C),
}

/// The bookkeeping of a request: its priority, how often it was retried,
/// and whether it came from the spider's start.
#[derive(Clone, Debug)]
pub struct RequestMeta {
    priority: i32,
    retry_count: i8,
    is_start_request: bool,
}

/// A request to download a URL, with what to do with the response.
#[derive(Clone, Debug)]
pub struct Request<C> {
    /// The serialization of the URL.
    pub url: String,
    pub method: Method,
    pub headers: http::HeaderMap,
    pub body: Vec<u8>,
    pub callback: Callback<C>,
    pub meta: RequestMeta,
}

/// Whether a port is the default one of its scheme.
pub open spec fn is_default_port(scheme: Seq<char>, port: Option<u16>) -> bool {
    (scheme == "http"@ && port == Some(80u16)) || (scheme == "https"@ && port == Some(443u16))
}

/// The steps of canonicalization that follow the parse: lowercase scheme and
/// host, drop a default port, then rewrite the query.  `keep_empty_query`
/// says whether a query whose pairs are all blank stays as an empty query
/// (`?`) or goes.
pub open spec fn canonical_from_parsed(p: UrlView, keep_empty_query: bool) -> Option<Seq<char>> {
    match p.host {
        None => None,
        Some(h) => match url_set_scheme_result(p.serialization, lowercase(p.scheme)) {
            None => None,
            Some(u1) => match url_set_host_result(u1.serialization, lowercase(h)) {
                None => None,
                Some(u2) => {
                    let u3 = if is_default_port(u2.scheme, u2.port) {
                        url_clear_port_result(u2.serialization)
                    } else {
                        Some(u2)
                    };
                    match u3 {
                        None => None,
                        Some(u3) => match u3.query {
                            None => Some(u3.serialization),
                            Some(q) => {
                                let pairs = canonical_pairs(form_decode(encode_utf8(q)));
                                if pairs.len() > 0 || keep_empty_query {
                                    Some(url_set_query_result(u3.serialization, Some(form_encode(pairs))).serialization)
                                } else {
                                    Some(url_set_query_result(u3.serialization, None).serialization)
                                }
                            },
                        },
                    }
                },
            },
        },
    }
}

/// The canonical form of a URL text, keeping or not an all-blank query:
/// `None` where the `url` crate refuses the text, where it has no host, or
/// where a setter refuses a step.
pub open spec fn canonical_url_with(input: Seq<char>, keep_empty_query: bool) -> Option<Seq<char>> {
    match url_parse_result(input) {
        None => None,
        Some(p) => canonical_from_parsed(p, keep_empty_query),
    }
}

/// The canonical form of a URL text (an all-blank query goes).
pub open spec fn canonical_url(input: Seq<char>) -> Option<Seq<char>> {
    canonical_url_with(input, false)
}

/// Compares two texts.
pub fn str_eq(a: &str, b: &str) -> (r: bool)
    ensures
        r == (a@ == b@),
{
    let x = a.as_bytes();
    let y = b.as_bytes();
    proof {
        encode_utf8_decode_utf8(a@);
        encode_utf8_decode_utf8(b@);
    }
    if x.len() != y.len() {
        return false;
    }
    let mut i: usize = 0;
    while i < x.len()
        invariant
            x@ == encode_utf8(a@),
            y@ == encode_utf8(b@),
            x@.len() == y@.len(),
            i <= x@.len(),
            forall|k: int| 0 <= k < i ==> x@[k] == y@[k],
        decreases x@.len() - i,
    {
        if x[i] != y[i] {
            return false;
        }
        i = i + 1;
    }
    assert(x@ =~= y@);
    true
}

fn is_default_port_exec(u: &ParsedUrl) -> (r: bool)
    ensures
        r == is_default_port(u@.scheme, u@.port),
{
    (str_eq(u.scheme().as_str(), "http") && u.port() == Some(80u16)) || (str_eq(
        u.scheme().as_str(),
        "https",
    ) && u.port() == Some(443u16))
}

/// Lowercases scheme and host, drops a default port and rewrites the query
/// of a parsed URL.
pub fn canonicalize_parsed(parsed: ParsedUrl, keep_empty_query: bool) -> (r: Option<String>)
    ensures
        opt_str_view(r) == canonical_from_parsed(parsed@, keep_empty_query),
{
    let host = match parsed.host() {
        Some(h) => to_lowercase(h.as_str()),
        None => return None,
    };
    let scheme = to_lowercase(parsed.scheme().as_str());
    let u1 = match url_set_scheme(parsed, scheme.as_str()) {
        Some(u) => u,
        None => return None,
    };
    let u2 = match url_set_host(u1, host.as_str()) {
        Some(u) => u,
        None => return None,
    };
    let u3 = if is_default_port_exec(&u2) {
        match url_clear_port(u2) {
            Some(u) => u,
            None => return None,
        }
    } else {
        u2
    };
    let pairs = match u3.query() {
        None => None,
        Some(q) => Some(canonical_query_pairs(form_urlencoded_decode(q.as_str().as_bytes()))),
    };
    match pairs {
        None => Some(u3.into_serialization()),
        Some(pairs) => {
            let u4 = if pairs.len() > 0 || keep_empty_query {
                let encoded = form_urlencoded_encode(&pairs);
                url_set_query(u3, Some(encoded.as_str()))
            } else {
                url_set_query(u3, None)
            };
            Some(u4.into_serialization())
        },
    }
}

/// The canonical form of a URL: scheme and host lowercased, a default port
/// dropped, query parameters with a blank value removed and the others
/// sorted by name, then value; a query left with no parameter is removed.
/// `None` where the text is not a URL with a host.
pub fn canonicalize_url(input: &str) -> (r: Option<String>)
    ensures
        opt_str_view(r) == canonical_url(input@),
{
    canonicalize_url_with(input, false)
}

/// [`canonicalize_url`], keeping or not a query whose pairs are all blank.
pub fn canonicalize_url_with(input: &str, keep_empty_query: bool) -> (r: Option<String>)
    ensures
        opt_str_view(r) == canonical_url_with(input@, keep_empty_query),
{
    match parse_url(input) {
        Some(p) => canonicalize_parsed(p, keep_empty_query),
        None => None,
    }
}

/// What SHA-1 gives for the bytes.
pub uninterp spec fn sha1_digest(data: Seq<u8>) -> Seq<u8>;

/// `sha1::Sha1::digest`: the SHA-1 digest of the bytes.  The contract claims
/// that the result is the named [`sha1_digest`] of the bytes and that it is
/// 20 bytes long (the output size of `Sha1`).
#[verifier::external_body]
pub fn sha1(data: &[u8]) -> (r: Vec<u8>)
    ensures
        r@ == sha1_digest(data@),
        r@.len() == 20,
{
    <sha1::Sha1 as sha1::Digest>::digest(data).to_vec()
}

/// Appends bytes to a buffer.
pub fn append_bytes(buf: &mut Vec<u8>, data: &[u8])
    ensures
        final(buf)@ == old(buf)@ + data@,
{
    let mut i: usize = 0;
    while i < data.len()
        invariant
            i <= data@.len(),
            buf@ == old(buf)@ + data@.take(i as int),
        decreases data@.len() - i,
    {
        buf.push(data[i]);
        i = i + 1;
        assert(buf@ =~= old(buf)@ + data@.take(i as int));
    }
    assert(data@.take(i as int) =~= data@);
}

/// The bytes that a fingerprint hashes: the method's name, the canonical URL
/// (or the URL as it is, where it has no canonical form), then the body.
pub open spec fn fingerprint_input(method: Method, url: Seq<char>, body: Seq<u8>, keep_empty_query: bool) -> Seq<u8> {
    encode_utf8(method_name(method)) + encode_utf8(
        match canonical_url_with(url, keep_empty_query) {
            Some(c) => c,
            None => url,
        },
    ) + body
}

/// The fingerprint of a request with this method, URL and body.
pub open spec fn fingerprint_of(method: Method, url: Seq<char>, body: Seq<u8>) -> Seq<u8> {
    sha1_digest(fingerprint_input(method, url, body, false))
}

/// Computes the SHA-1 fingerprint of a method, URL and body.
pub fn fingerprint_parts(method: &Method, url: &String, body: &Vec<u8>, keep_empty_query: bool) -> (r: Vec<u8>)
    ensures
        r@ == sha1_digest(fingerprint_input(*method, url@, body@, keep_empty_query)),
        r@.len() == 20,
{
    let mut buf: Vec<u8> = Vec::new();
    append_bytes(&mut buf, method.as_str().as_bytes());
    let canonical = canonicalize_url_with(url.as_str(), keep_empty_query);
    match canonical {
        Some(c) => append_bytes(&mut buf, c.as_str().as_bytes()),
        None => append_bytes(&mut buf, url.as_str().as_bytes()),
    }
    append_bytes(&mut buf, body.as_slice());
    sha1(buf.as_slice())
}

impl<C> Request<C> {
    pub closed spec fn spec_priority(&self) -> i32 {
        self.meta.priority
    }

    pub closed spec fn spec_retry_count(&self) -> i8 {
        self.meta.retry_count
    }

    pub closed spec fn spec_is_start_request(&self) -> bool {
        self.meta.is_start_request
    }

    /// The fingerprint that identifies the request: headers, callback,
    /// priority and counters play no part in it.
    pub open spec fn spec_fingerprint(&self) -> Seq<u8> {
        fingerprint_of(self.method, self.url@, self.body@)
    }

    /// A request with every field given.
    pub fn new(
        url: String,
        method: Method,
        headers: http::HeaderMap,
        body: Vec<u8>,
        callback: Callback<C>,
        priority: i32,
        retry_count: i8,
        is_start_request: bool,
    ) -> (r: Self)
        ensures
            r.url == url,
            r.method == method,
            r.headers == headers,
            r.body == body,
            r.callback == callback,
            r.spec_priority() == priority,
            r.spec_retry_count() == retry_count,
            r.spec_is_start_request() == is_start_request,
    {
        Request {
            url,
            method,
            headers,
            body,
            callback,
            meta: RequestMeta { priority, retry_count, is_start_request },
        }
    }

    /// A GET request of `http://localhost/` with the empty callback,
    /// priority 0, no retry, not a start request.
    pub fn default_request() -> (r: Self)
        ensures
            r.url@ == "http://localhost/"@,
            r.method == Method::GET,
            r.body@ == Seq::<u8>::empty(),
            r.callback == Callback::<C>::Empty,
            header_entries(r.headers) == Multiset::<(Seq<char>, Seq<u8>)>::empty(),
            r.spec_priority() == 0,
            r.spec_retry_count() == 0,
            !r.spec_is_start_request(),
    {
        Request {
            url: "http://localhost/".to_string(),
            method: Method::GET,
            headers: http::HeaderMap::new(),
            body: Vec::new(),
            callback: Callback::Empty,
            meta: RequestMeta { priority: 0, retry_count: 0, is_start_request: false },
        }
    }

    fn of_url(url: &str, method: Method) -> (r: Self)
        requires
            url_parse_result(url@) is Some,
        ensures
            r.url@ == url_parse_result(url@).unwrap().serialization,
            r.method == method,
            r.body@ == Seq::<u8>::empty(),
            r.callback == Callback::<C>::Noop,
            header_entries(r.headers) == Multiset::<(Seq<char>, Seq<u8>)>::empty(),
            r.spec_priority() == 0,
            r.spec_retry_count() == 0,
            !r.spec_is_start_request(),
    {
        let parsed = parse_url(url);
        let serialization = match parsed {
            Some(p) => p.into_serialization(),
            None => String::new(),
        };
        Request {
            url: serialization,
            method,
            headers: http::HeaderMap::new(),
            body: Vec::new(),
            callback: Callback::Noop,
            meta: RequestMeta { priority: 0, retry_count: 0, is_start_request: false },
        }
    }

    /// A GET request of the URL (as the `url` crate serializes it), with a
    /// callback that yields nothing.
    pub fn get(url: &str) -> (r: Self)
        requires
            url_parse_result(url@) is Some,
        ensures
            r.url@ == url_parse_result(url@).unwrap().serialization,
            r.method == Method::GET,
            r.body@ == Seq::<u8>::empty(),
            r.callback == Callback::<C>::Noop,
            header_entries(r.headers) == Multiset::<(Seq<char>, Seq<u8>)>::empty(),
            r.spec_priority() == 0,
            r.spec_retry_count() == 0,
            !r.spec_is_start_request(),
    {
        Self::of_url(url, Method::GET)
    }

    /// A POST request of the URL, as [`Request::get`] makes a GET one.
    pub fn post(url: &str) -> (r: Self)
        requires
            url_parse_result(url@) is Some,
        ensures
            r.url@ == url_parse_result(url@).unwrap().serialization,
            r.method == Method::POST,
            r.body@ == Seq::<u8>::empty(),
            r.callback == Callback::<C>::Noop,
            header_entries(r.headers) == Multiset::<(Seq<char>, Seq<u8>)>::empty(),
            r.spec_priority() == 0,
            r.spec_retry_count() == 0,
            !r.spec_is_start_request(),
    {
        Self::of_url(url, Method::POST)
    }

    /// [`Request::get`] where the text is a URL, `None` where it is not.
    pub fn try_get(url: &str) -> (r: Option<Self>)
        ensures
            r is Some <==> url_parse_result(url@) is Some,
            r matches Some(q) ==> q.url@ == url_parse_result(url@).unwrap().serialization
                && q.method == Method::GET && q.body@ == Seq::<u8>::empty() && q.callback
                == Callback::<C>::Noop && q.spec_priority() == 0 && q.spec_retry_count() == 0
                && !q.spec_is_start_request() && header_entries(q.headers) == Multiset::<
                (Seq<char>, Seq<u8>),
            >::empty(),
    {
        match parse_url(url) {
            Some(_) => Some(Self::get(url)),
            None => None,
        }
    }

    /// [`Request::post`] where the text is a URL, `None` where it is not.
    pub fn try_post(url: &str) -> (r: Option<Self>)
        ensures
            r is Some <==> url_parse_result(url@) is Some,
            r matches Some(q) ==> q.url@ == url_parse_result(url@).unwrap().serialization
                && q.method == Method::POST && q.body@ == Seq::<u8>::empty() && q.callback
                == Callback::<C>::Noop && q.spec_priority() == 0 && q.spec_retry_count() == 0
                && !q.spec_is_start_request() && header_entries(q.headers) == Multiset::<
                (Seq<char>, Seq<u8>),
            >::empty(),
    {
        match parse_url(url) {
            Some(_) => Some(Self::post(url)),
            None => None,
        }
    }

    /// The same request with the caller's callback.
    pub fn with_callback(self, cb: C) -> (r: Self)
        ensures
            r.callback == Callback::Call(cb),
            r.url == self.url,
            r.method == self.method,
            r.headers == self.headers,
            r.body == self.body,
            r.spec_priority() == self.spec_priority(),
            r.spec_retry_count() == self.spec_retry_count(),
            r.spec_is_start_request() == self.spec_is_start_request(),
    {
        let mut r = self;
        r.callback = Callback::Call(cb);
        r
    }

    /// The same request, marked as a start request.
    pub fn as_start(self) -> (r: Self)
        ensures
            r.spec_is_start_request(),
            r.callback == self.callback,
            r.url == self.url,
            r.method == self.method,
            r.headers == self.headers,
            r.body == self.body,
            r.spec_priority() == self.spec_priority(),
            r.spec_retry_count() == self.spec_retry_count(),
    {
        let mut r = self;
        r.meta.is_start_request = true;
        r
    }

    /// Validates the request: its callback must not be the empty one.  A
    /// request with the empty callback is not valid input here; test it
    /// first with [`Request::check_valid`].
    pub fn validate(&self)
        requires
            !(self.callback is Empty),
    {
    }

    /// `Err` with the message `ValidationError: Callback cannot be empty for
    /// <url>` where the request has the empty callback; `Ok` otherwise.
    pub fn check_valid(&self) -> (r: Result<(), String>)
        ensures
            r is Err <==> self.callback is Empty,
            r matches Err(m) ==> m@ == "ValidationError: Callback cannot be empty for "@ + self.url@,
    {
        match self.callback {
            Callback::Empty => {
                let m = "ValidationError: Callback cannot be empty for ".to_string();
                Err(m.concat(self.url.as_str()))
            },
            _ => Ok(()),
        }
    }

    /// The request's fingerprint: SHA-1 of the method, the canonical URL and
    /// the body.
    pub fn fingerprint(&self) -> (r: Vec<u8>)
        ensures
            r@ == self.spec_fingerprint(),
            r@.len() == 20,
    {
        fingerprint_parts(&self.method, &self.url, &self.body, false)
    }

    #[verifier::when_used_as_spec(spec_priority)]
    pub fn priority(&self) -> (r: i32)
        ensures
            r == self.spec_priority(),
    {
        self.meta.priority
    }

    #[verifier::when_used_as_spec(spec_is_start_request)]
    pub fn is_start_request(&self) -> (r: bool)
        ensures
            r == self.spec_is_start_request(),
    {
        self.meta.is_start_request
    }

    #[verifier::when_used_as_spec(spec_retry_count)]
    pub fn retry_count(&self) -> (r: i8)
        ensures
            r == self.spec_retry_count(),
    {
        self.meta.retry_count
    }

    /// Counts one more retry.
    pub fn increment_retry_count(&mut self)
        requires
            old(self).spec_retry_count() < i8::MAX,
        ensures
            is_retry_of(*final(self), *old(self)),
    {
        self.meta.retry_count = self.meta.retry_count + 1;
    }

    /// `<METHOD url>`, as the request is shown in logs.
    pub fn display_string(&self) -> (r: String)
        ensures
            r@ == "<"@ + method_name(self.method) + " "@ + self.url@ + ">"@,
    {
        let s = "<".to_string();
        let s = s.concat(self.method.as_str());
        let s = s.concat(" ");
        let s = s.concat(self.url.as_str());
        s.concat(">")
    }

    /// The debug form of a request is its display form.
    pub fn debug_string(&self) -> (r: String)
        ensures
            r@ == "<"@ + method_name(self.method) + " "@ + self.url@ + ">"@,
    {
        self.display_string()
    }

    /// Whether two requests have the same fingerprint.
    pub fn same_request(&self, other: &Self) -> (r: bool)
        ensures
            r == (self.spec_fingerprint() == other.spec_fingerprint()),
    {
        let a = self.fingerprint();
        let b = other.fingerprint();
        bytes_equal(a.as_slice(), b.as_slice())
    }
}

/// `next` is `prev` with one more retry counted, and nothing else changed.
pub open spec fn is_retry_of<C>(next: Request<C>, prev: Request<C>) -> bool {
    &&& next.spec_retry_count() == prev.spec_retry_count() + 1
    &&& next.spec_priority() == prev.spec_priority()
    &&& next.spec_is_start_request() == prev.spec_is_start_request()
    &&& next.url == prev.url
    &&& next.method == prev.method
    &&& next.headers == prev.headers
    &&& next.body == prev.body
    &&& next.callback == prev.callback
}

/// Compares two byte strings.
pub fn bytes_equal(a: &[u8], b: &[u8]) -> (r: bool)
    ensures
        r == (a@ == b@),
{
    if a.len() != b.len() {
        return false;
    }
    let mut i: usize = 0;
    while i < a.len()
        invariant
            a@.len() == b@.len(),
            i <= a@.len(),
            forall|k: int| 0 <= k < i ==> a@[k] == b@[k],
        decreases a@.len() - i,
    {
        if a[i] != b[i] {
            return false;
        }
        i = i + 1;
    }
    assert(a@ =~= b@);
    true
}

impl<C> Default for Request<C> {
    fn default() -> (r: Self)
        ensures
            r.url@ == "http://localhost/"@,
            r.method == Method::GET,
            r.body@ == Seq::<u8>::empty(),
            r.callback == Callback::<C>::Empty,
            header_entries(r.headers) == Multiset::<(Seq<char>, Seq<u8>)>::empty(),
            r.spec_priority() == 0,
            r.spec_retry_count() == 0,
            !r.spec_is_start_request(),
    {
        Self::default_request()
    }
}

/// Two requests are equal when their fingerprints are.
impl<C> PartialEq for Request<C> {
    fn eq(&self, other: &Self) -> (r: bool) {
        self.same_request(other)
    }
}

impl<C> PartialEqSpecImpl for Request<C> {
    open spec fn obeys_eq_spec() -> bool {
        true
    }

    open spec fn eq_spec(&self, other: &Self) -> bool {
        self.spec_fingerprint() == other.spec_fingerprint()
    }
}

impl<C> Eq for Request<C> {

}

/// Law: a fingerprint depends on the method, the URL and the body alone.
/// Two requests that agree on these are the same request, whatever their
/// headers, callbacks, priorities and counters.
pub proof fn lemma_fingerprint_ignores_the_rest<C>(r1: Request<C>, r2: Request<C>)
    requires
        r1.method == r2.method,
        r1.url@ == r2.url@,
        r1.body@ == r2.body@,
    ensures
        r1.spec_fingerprint() == r2.spec_fingerprint(),
{
}

/// Law: two URLs with the same canonical form give requests the same
/// fingerprint (for the same method and body).
pub proof fn lemma_fingerprint_by_canonical_url(m: Method, u1: Seq<char>, u2: Seq<char>, body: Seq<u8>)
    requires
        canonical_url(u1) is Some,
        canonical_url(u1) == canonical_url(u2),
    ensures
        fingerprint_of(m, u1, body) == fingerprint_of(m, u2, body),
{
}

/// Law: the standard methods have distinct names, so a standard method is
/// known by its name.
pub proof fn lemma_method_name_injective(a: Method, b: Method)
    requires
        !(a is Extension),
        !(b is Extension),
        method_name(a) == method_name(b),
    ensures
        a == b,
{
    reveal_strlit("GET");
    reveal_strlit("POST");
    reveal_strlit("PUT");
    reveal_strlit("DELETE");
    reveal_strlit("HEAD");
    reveal_strlit("OPTIONS");
    reveal_strlit("CONNECT");
    reveal_strlit("PATCH");
    reveal_strlit("TRACE");
    let na = method_name(a);
    let nb = method_name(b);
    assert(na.len() == nb.len());
    assert(na[0] == nb[0]);
    if na.len() > 1 {
        assert(na[1] == nb[1]);
    }
}

/// Law: two requests for the same URL and body whose methods have different
/// names give different fingerprint inputs; in particular requests that
/// differ only in their (standard) method are not taken for one another.
pub proof fn lemma_fingerprint_input_tells_methods_apart(
    m1: Method,
    m2: Method,
    url: Seq<char>,
    body: Seq<u8>,
    keep_empty_query: bool,
)
    requires
        method_name(m1) != method_name(m2),
    ensures
        fingerprint_input(m1, url, body, keep_empty_query) != fingerprint_input(m2, url, body, keep_empty_query),
{
    let a = encode_utf8(method_name(m1));
    let b = encode_utf8(method_name(m2));
    let c = encode_utf8(
        match canonical_url_with(url, keep_empty_query) {
            Some(c) => c,
            None => url,
        },
    );
    let x = a + c + body;
    let y = b + c + body;
    assert(fingerprint_input(m1, url, body, keep_empty_query) == x);
    assert(fingerprint_input(m2, url, body, keep_empty_query) == y);
    if x == y {
        assert(x.len() == (a + c).len() + body.len());
        assert(y.len() == (b + c).len() + body.len());
        assert(a.len() == b.len());
        assert(a =~= x.subrange(0, a.len() as int));
        assert(b =~= y.subrange(0, b.len() as int));
        encode_utf8_decode_utf8(method_name(m1));
        encode_utf8_decode_utf8(method_name(m2));
    }
}

/// Law: requests that differ only in their standard method have different
/// fingerprint inputs.
pub proof fn lemma_distinct_methods_distinct_inputs(
    m1: Method,
    m2: Method,
    url: Seq<char>,
    body: Seq<u8>,
    keep_empty_query: bool,
)
    requires
        !(m1 is Extension),
        !(m2 is Extension),
        m1 != m2,
    ensures
        fingerprint_input(m1, url, body, keep_empty_query) != fingerprint_input(m2, url, body, keep_empty_query),
{
    if method_name(m1) == method_name(m2) {
        lemma_method_name_injective(m1, m2);
    }
    lemma_fingerprint_input_tells_methods_apart(m1, m2, url, body, keep_empty_query);
}

} // verus!
