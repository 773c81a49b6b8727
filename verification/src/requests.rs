//! Requests of a plainer shape: an optional callback, a redirect counter,
//! and canonical URLs that keep an emptied query.
use crate::request::{
    bytes_equal, canonical_url_with, canonicalize_url_with, fingerprint_input, fingerprint_parts,
    header_entries, sha1_digest, Method,
};
use crate::url_ops::opt_str_view;
use vstd::multiset::Multiset;
use vstd::prelude::*;
use vstd::std_specs::cmp::PartialEqSpecImpl;

verus! {

/// The bookkeeping of a request: its priority, how often it was
/// redirected, and whether it came from the spider's start.
#[derive(Clone, Debug)]
pub struct RequestMeta {
    priority: i32,
    redirect_count: i8,
    is_start_request: bool,
}

/// A request to download a URL, with an optional callback.
#[derive(Clone, Debug)]
pub struct Request<C> {
    /// The serialization of the URL.
    pub url: String,
    pub method: Method,
    pub headers: http::HeaderMap,
    pub body: Vec<u8>,
    pub callback: Option<C>,
    pub meta: RequestMeta,
}

/// The canonical form of a URL in this form of requests: as
/// [`crate::request::canonical_url`], except that a query whose pairs are
/// all blank stays as an empty query.
pub open spec fn canonical_url(input: Seq<char>) -> Option<Seq<char>> {
    canonical_url_with(input, true)
}

/// Canonicalizes a URL, keeping an emptied query.
pub fn canonicalize_url(input: &str) -> (r: Option<String>)
    ensures
        opt_str_view(r) == canonical_url(input@),
{
    canonicalize_url_with(input, true)
}

impl<C> Request<C> {
    pub closed spec fn spec_priority(&self) -> i32 {
        self.meta.priority
    }

    pub closed spec fn spec_redirect_count(&self) -> i8 {
        self.meta.redirect_count
    }

    pub closed spec fn spec_is_start_request(&self) -> bool {
        self.meta.is_start_request
    }

    /// SHA-1 of the method, the canonical URL (keeping an emptied query)
    /// and the body.
    pub open spec fn spec_fingerprint(&self) -> Seq<u8> {
        sha1_digest(fingerprint_input(self.method, self.url@, self.body@, true))
    }

    /// A request with every field given.
    pub fn new(
        url: String,
        method: Method,
        headers: http::HeaderMap,
        body: Vec<u8>,
        callback: Option<C>,
        priority: i32,
        redirect_count: i8,
        is_start_request: bool,
    ) -> (r: Self)
        ensures
            r.url == url,
            r.method == method,
            r.headers == headers,
            r.body == body,
            r.callback == callback,
            r.spec_priority() == priority,
            r.spec_redirect_count() == redirect_count,
            r.spec_is_start_request() == is_start_request,
    {
        Request {
            url,
            method,
            headers,
            body,
            callback,
            meta: RequestMeta { priority, redirect_count, is_start_request },
        }
    }

    /// The request's fingerprint.
    pub fn fingerprint(&self) -> (r: Vec<u8>)
        ensures
            r@ == self.spec_fingerprint(),
            r@.len() == 20,
    {
        fingerprint_parts(&self.method, &self.url, &self.body, true)
    }

    #[verifier::when_used_as_spec(spec_priority)]
    pub fn priority(&self) -> (r: i32)
        ensures
            r == self.spec_priority(),
    {
        self.meta.priority
    }

    #[verifier::when_used_as_spec(spec_is_start_request)]
    pub fn is_start_request(&self) -> (r: bool)
        ensures
            r == self.spec_is_start_request(),
    {
        self.meta.is_start_request
    }

    #[verifier::when_used_as_spec(spec_redirect_count)]
    pub fn redirect_count(&self) -> (r: i8)
        ensures
            r == self.spec_redirect_count(),
    {
        self.meta.redirect_count
    }
}

impl<C> Default for Request<C> {
    /// A start GET request of `http://localhost/` with no callback.
    fn default() -> (r: Self)
        ensures
            r.url@ == "http://localhost/"@,
            r.method == Method::GET,
            r.body@ == Seq::<u8>::empty(),
            r.callback == None::<C>,
            header_entries(r.headers) == Multiset::<(Seq<char>, Seq<u8>)>::empty(),
            r.spec_priority() == 0,
            r.spec_redirect_count() == 0,
            r.spec_is_start_request(),
    {
        Request {
            url: "http://localhost/".to_string(),
            method: Method::GET,
            headers: http::HeaderMap::new(),
            body: Vec::new(),
            callback: None,
            meta: RequestMeta { priority: 0, redirect_count: 0, is_start_request: true },
        }
    }
}

/// Two requests are equal when their fingerprints are.
impl<C> PartialEq for Request<C> {
    fn eq(&self, other: &Self) -> (r: bool) {
        let a = self.fingerprint();
        let b = other.fingerprint();
        bytes_equal(a.as_slice(), b.as_slice())
    }
}

impl<C> PartialEqSpecImpl for Request<C> {
    open spec fn obeys_eq_spec() -> bool {
        true
    }

    open spec fn eq_spec(&self, other: &Self) -> bool {
        self.spec_fingerprint() == other.spec_fingerprint()
    }
}

impl<C> Eq for Request<C> {

}

} // verus!
