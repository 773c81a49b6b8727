use skrapy::request::Method;
use skrapy::requests::{canonicalize_url, Request};

type Cb = fn(u8) -> u8;

fn req_with(url: &str, method: Method, body: &[u8]) -> Request<Cb> {
    Request {
        url: url.to_string(),
        method,
        headers: http::HeaderMap::new(),
        body: body.to_vec(),
        ..Default::default()
    }
}

#[test]
fn requests_test_canonical_url_sorted_query() {
    let url1 = "http://example.com/path?param2=valueB&param1=valueA";
    let url2 = "http://example.com/path?param1=valueA&param2=valueB";
    assert_eq!(canonicalize_url(url1), canonicalize_url(url2));
}

#[test]
fn requests_test_canonical_url_empty() {
    let url1 = "http://example.com/path?param1=valueA&param2=valueB";
    let url2 = "http://example.com/path?param1=valueA&param2=valueB&empty_param=";
    assert_eq!(canonicalize_url(url1), canonicalize_url(url2));
}

#[test]
fn requests_test_canonical_url_with_mixed_case() {
    let url1 = "HTTP://Example.COM/path?Param=Value";
    let url2 = "http://example.com/path?Param=Value";
    assert_eq!(canonicalize_url(url1), canonicalize_url(url2));
}

#[test]
fn requests_test_canonical_url_no_query() {
    let url = "http://example.com/path";
    let expected = Some("http://example.com/path".to_string());
    assert_eq!(canonicalize_url(url), expected);
}

#[test]
fn requests_test_canonical_url_with_default_ports() {
    let url1 = "http://example.com:80/path?param=value";
    let url2 = "http://example.com/path?param=value";
    assert_eq!(canonicalize_url(url1), canonicalize_url(url2));
}

#[test]
fn requests_test_request_default() {
    let req = Request::<Cb>::default();
    assert_eq!(req.url.as_str(), "http://localhost/");
    assert_eq!(req.method, Method::GET);
    assert!(req.headers.is_empty());
    assert_eq!(req.body.as_slice(), b"");
}

#[test]
fn requests_test_request_fingerprint_consistency() {
    let req1 = req_with("http://example.com/path?b=2&a=1", Method::POST, b"hello world");
    let req2 = req_with("http://example.com/path?a=1&b=2", Method::POST, b"hello world");
    assert_eq!(req1.fingerprint(), req2.fingerprint());
}

#[test]
fn requests_test_request_equality_via_fingerprint() {
    let req1 = req_with("http://example.com/path?a=1&b=2", Method::POST, b"data");
    let req2 = req_with("http://example.com/path?b=2&a=1", Method::POST, b"data");
    assert!(req1 == req2);
}

#[test]
fn requests_test_request_inequality_via_fingerprint() {
    let req1 = req_with("http://example.com/path?a=1&b=2", Method::POST, b"data");
    let req2 = req_with("http://example.com/path?a=1&b=2", Method::POST, b"DIFFERENT");
    assert!(req1 != req2);
}

#[test]
fn requests_canonical_url_keeps_emptied_query() {
    assert_eq!(canonicalize_url("http://example.com/?a=&b=").as_deref(), Some("http://example.com/?"));
    assert_eq!(
        skrapy::request::canonicalize_url("http://example.com/?a=&b=").as_deref(),
        Some("http://example.com/")
    );
}

#[test]
fn requests_default_is_start_request_without_callback() {
    let req = Request::<Cb>::default();
    assert!(req.is_start_request());
    assert!(req.callback.is_none());
    assert_eq!(req.priority(), 0);
    assert_eq!(req.redirect_count(), 0);
}

#[test]
fn requests_new_keeps_fields() {
    fn cb(x: u8) -> u8 {
        x
    }
    let req = Request::new(
        "http://example.com/".to_string(),
        Method::PUT,
        http::HeaderMap::new(),
        b"x".to_vec(),
        Some(cb as Cb),
        5,
        2,
        false,
    );
    assert_eq!(req.priority(), 5);
    assert_eq!(req.redirect_count(), 2);
    assert!(!req.is_start_request());
    assert_eq!(req.callback.map(|f| f as usize), Some(cb as usize));
}
