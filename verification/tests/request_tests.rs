use skrapy::url_ops::join_url;
use skrapy::request::{canonicalize_url, Callback, Method, Request};
use skrapy::response::Response;
use skrapy::spider::SpiderOutput;

#[derive(Clone, Copy, Debug)]
struct Cb(fn(Response<Cb>) -> Vec<SpiderOutput<Cb>>);

fn dummy_callback(_: Response<Cb>) -> Vec<SpiderOutput<Cb>> {
    Vec::new()
}

fn callback_ptr(req: &Request<Cb>) -> Option<usize> {
    match req.callback {
        Callback::Call(Cb(f)) => Some(f as usize),
        _ => None,
    }
}

fn req_with(url: &str, method: Method, body: &[u8]) -> Request<Cb> {
    Request {
        url: url.to_string(),
        method,
        headers: http::HeaderMap::new(),
        body: body.to_vec(),
        ..Default::default()
    }
}

#[test]
fn test_get_request_with_callback() {
    let req = Request::get("http://example.com").with_callback(Cb(dummy_callback));

    assert_eq!(req.url.as_str(), "http://example.com/");
    assert_eq!(req.method, Method::GET);
    assert!(req.headers.is_empty());
    assert_eq!(req.body.as_slice(), b"");
    assert_eq!(callback_ptr(&req), Some(dummy_callback as usize));
}

#[test]
fn test_post_request_with_callback() {
    let req = Request::post("http://example.com").with_callback(Cb(dummy_callback));

    assert_eq!(req.url.as_str(), "http://example.com/");
    assert_eq!(req.method, Method::POST);
    assert!(req.headers.is_empty());
    assert_eq!(req.body.as_slice(), b"");
    assert_eq!(callback_ptr(&req), Some(dummy_callback as usize));
}

#[test]
fn test_request_chaining_post_callback() {
    let req = Request::post("http://example.com/path").with_callback(Cb(dummy_callback));

    assert_eq!(req.url.as_str(), "http://example.com/path");
    assert_eq!(req.method, Method::POST);
    assert_eq!(callback_ptr(&req), Some(dummy_callback as usize));
}

#[test]
fn request_test_canonical_url_sorted_query() {
    let url1 = "http://example.com/path?param2=valueB&param1=valueA";
    let url2 = "http://example.com/path?param1=valueA&param2=valueB";
    assert_eq!(canonicalize_url(url1), canonicalize_url(url2));
}

#[test]
fn request_test_canonical_url_empty() {
    let url1 = "http://example.com/path?param1=valueA&param2=valueB";
    let url2 = "http://example.com/path?param1=valueA&param2=valueB&empty_param=";
    assert_eq!(canonicalize_url(url1), canonicalize_url(url2));
}

#[test]
fn request_test_canonical_url_with_mixed_case() {
    let url1 = "HTTP://Example.COM/path?Param=Value";
    let url2 = "http://example.com/path?Param=Value";
    assert_eq!(canonicalize_url(url1), canonicalize_url(url2));
}

#[test]
fn request_test_canonical_url_no_query() {
    let url = "http://example.com/path";
    let expected = Some("http://example.com/path".to_string());
    assert_eq!(canonicalize_url(url), expected);
}

#[test]
fn request_test_canonical_url_with_default_ports() {
    let url1 = "http://example.com:80/path?param=value";
    let url2 = "http://example.com/path?param=value";
    assert_eq!(canonicalize_url(url1), canonicalize_url(url2));
}

#[test]
fn request_test_request_default() {
    let req = Request::<Cb>::default();
    assert_eq!(req.url.as_str(), "http://localhost/");
    assert_eq!(req.method, Method::GET);
    assert!(req.headers.is_empty());
    assert_eq!(req.body.as_slice(), b"");
}

#[test]
fn request_test_request_fingerprint_consistency() {
    let req1 = req_with("http://example.com/path?b=2&a=1", Method::POST, b"hello world");
    let req2 = req_with("http://example.com/path?a=1&b=2", Method::POST, b"hello world");
    assert_eq!(req1.fingerprint(), req2.fingerprint());
}

#[test]
fn request_test_request_equality_via_fingerprint() {
    let req1 = req_with("http://example.com/path?a=1&b=2", Method::POST, b"data");
    let req2 = req_with("http://example.com/path?b=2&a=1", Method::POST, b"data");
    assert!(req1 == req2);
}

#[test]
fn request_test_request_inequality_via_fingerprint() {
    let req1 = req_with("http://example.com/path?a=1&b=2", Method::POST, b"data");
    let req2 = req_with("http://example.com/path?a=1&b=2", Method::POST, b"DIFFERENT");
    assert!(req1 != req2);
}

#[test]
fn test_request_as_start() {
    let req = Request::<Cb>::get("http://example.com").as_start();
    assert!(req.is_start_request());
}

#[test]
#[should_panic(expected = "ValidationError: Callback cannot be empty for http://localhost/")]
fn test_validate_panics_on_empty_callback() {
    let req = Request::<Cb>::default();
    // `validate` requires a callback; the check says why this one fails.
    match req.check_valid() {
        Err(message) => panic!("{}", message),
        Ok(()) => req.validate(),
    }
}

#[test]
fn test_increment_retry_count_increments() {
    let mut req = Request::<Cb>::default();
    assert_eq!(req.retry_count(), 0);
    req.increment_retry_count();
    assert_eq!(req.retry_count(), 1);
}

#[test]
fn test_validate_ok_with_non_empty_callback() {
    let req = Request::get("http://example.com").with_callback(Cb(dummy_callback));
    assert!(req.check_valid().is_ok());
    req.validate();
}

#[test]
fn test_is_start_request_default_false() {
    let req = Request::<Cb>::default();
    assert!(!req.is_start_request());
}

#[test]
fn test_priority_from_new() {
    let req = Request::new(
        "http://example.com/".to_string(),
        Method::GET,
        http::HeaderMap::new(),
        Vec::new(),
        Callback::Call(Cb(dummy_callback)),
        42,
        0,
        false,
    );
    assert_eq!(req.priority(), 42);
}

#[test]
fn test_chaining_with_callback_then_as_start() {
    let req = Request::get("http://example.com").with_callback(Cb(dummy_callback)).as_start();
    assert_eq!(callback_ptr(&req), Some(dummy_callback as usize));
    assert!(req.is_start_request());
}

#[test]
fn test_clone_behavior() {
    let mut headers = http::HeaderMap::new();
    headers.insert("X-Test", "1".parse().unwrap());
    let req1 = Request::new(
        "http://example.com/path".to_string(),
        Method::POST,
        headers,
        b"payload".to_vec(),
        Callback::Call(Cb(dummy_callback)),
        0,
        0,
        false,
    );
    let req2 = req1.clone();
    assert_eq!(req1.fingerprint(), req2.fingerprint());
    assert_eq!(req1.body.as_slice(), req2.body.as_slice());
    assert_eq!(callback_ptr(&req1), callback_ptr(&req2));
    assert!(req2.headers.get("X-Test").is_some());
}

#[test]
fn test_headers_ignored_in_equality() {
    let mut h1 = http::HeaderMap::new();
    h1.insert("A", "1".parse().unwrap());
    let mut h2 = http::HeaderMap::new();
    h2.insert("B", "2".parse().unwrap());
    let r1 = Request::new(
        "http://example.com/".to_string(),
        Method::GET,
        h1,
        Vec::new(),
        Callback::Call(Cb(dummy_callback)),
        0,
        0,
        false,
    );
    let r2 = Request::new(
        "http://example.com/".to_string(),
        Method::GET,
        h2,
        Vec::new(),
        Callback::Call(Cb(dummy_callback)),
        0,
        0,
        false,
    );
    assert_eq!(r1, r2);
}

#[test]
fn test_method_affects_equality() {
    let r_get = req_with("http://example.com/", Method::GET, b"");
    let r_post = req_with("http://example.com/", Method::POST, b"");
    assert_ne!(r_get, r_post);
}

#[test]
fn test_body_empty_vs_default_equal() {
    let r1 = Request::<Cb> { body: Vec::new(), ..Default::default() };
    let r2 = Request::<Cb> { body: b"".to_vec(), ..Default::default() };
    assert_eq!(r1, r2);
}

#[test]
fn test_canonical_url_invalid_returns_none() {
    assert_eq!(canonicalize_url("http://exa mple.com"), None);
}

#[test]
fn test_canonical_url_https_default_port_removed() {
    let u1 = canonicalize_url("https://example.com:443/a?b=1");
    let u2 = canonicalize_url("https://example.com/a?b=1");
    assert_eq!(u1, u2);
}

#[test]
fn test_canonical_url_non_default_port_preserved() {
    let u1 = canonicalize_url("http://example.com:8080/a");
    let u2 = canonicalize_url("http://example.com/a");
    assert_ne!(u1, u2);
}

#[test]
fn test_canonical_url_path_case_sensitivity() {
    let u1 = canonicalize_url("http://EXAMPLE.com/Foo").unwrap();
    let u2 = canonicalize_url("http://example.com/Foo").unwrap();
    assert_eq!(u1, u2);
    let u3 = canonicalize_url("http://example.com/Foo").unwrap();
    let u4 = canonicalize_url("http://example.com/foo").unwrap();
    assert_ne!(u3, u4);
}

#[test]
fn test_canonical_url_all_blank_params_removed() {
    let u = canonicalize_url("http://example.com/?a=&b=").unwrap();
    assert_eq!(u, "http://example.com/");
}

#[test]
fn test_display_format_and_debug() {
    let req = Request::<Cb>::get("http://example.com/");
    let disp = req.display_string();
    assert_eq!(disp, "<GET http://example.com/>");
    let dbg = req.debug_string();
    assert_eq!(dbg, disp);
}

#[test]
fn test_get_post_defaults_without_callback() {
    let get = Request::<Cb>::get("http://example.com/");
    assert_eq!(get.method, Method::GET);
    assert!(get.headers.is_empty());
    assert_eq!(get.body.as_slice(), b"");
    assert!(!get.is_start_request());
    assert_eq!(get.retry_count(), 0);
    assert_eq!(get.priority(), 0);

    let post = Request::<Cb>::post("http://example.com/");
    assert_eq!(post.method, Method::POST);
    assert!(post.headers.is_empty());
    assert_eq!(post.body.as_slice(), b"");
    assert!(!post.is_start_request());
    assert_eq!(post.retry_count(), 0);
    assert_eq!(post.priority(), 0);
}

#[test]
fn test_fragments_affect_fingerprint_current_behavior() {
    let r1 = Request::<Cb> { url: "http://example.com/a#x".to_string(), ..Default::default() };
    let r2 = Request::<Cb> { url: "http://example.com/a#y".to_string(), ..Default::default() };
    assert_ne!(r1, r2);
}

// Further cases of the library's own.

#[test]
fn canonical_url_exact_sorted_form() {
    assert_eq!(
        canonicalize_url("HTTP://Example.COM:80/path?b=2&a=&a=1&c=3#frag").as_deref(),
        Some("http://example.com/path?a=1&b=2&c=3#frag")
    );
}

#[test]
fn canonical_url_sorts_by_value_after_name() {
    assert_eq!(
        canonicalize_url("http://example.com/?k=b&k=a").as_deref(),
        Some("http://example.com/?k=a&k=b")
    );
}

#[test]
fn canonical_url_is_idempotent_on_example() {
    let once = canonicalize_url("https://Example.com:443/x?z=1&y=2").unwrap();
    let twice = canonicalize_url(&once).unwrap();
    assert_eq!(once, twice);
}

#[test]
fn canonical_url_without_host_is_none() {
    assert_eq!(canonicalize_url("mailto:someone@example.com"), None);
}

#[test]
fn fingerprint_exact_value() {
    let req = Request::<Cb>::get("http://example.com");
    assert_eq!(
        req.fingerprint(),
        vec![98, 135, 53, 211, 161, 107, 103, 177, 221, 95, 191, 189, 16, 161, 95, 44, 40, 54, 43, 189]
    );
    let req = req_with("http://example.com/path?b=2&a=1", Method::POST, b"data");
    assert_eq!(
        req.fingerprint(),
        vec![51, 86, 33, 234, 98, 168, 255, 222, 105, 75, 3, 119, 141, 162, 25, 246, 33, 37, 251, 191]
    );
}

#[test]
fn fingerprint_ignores_priority_and_retries() {
    let a = Request::new(
        "http://example.com/".to_string(),
        Method::GET,
        http::HeaderMap::new(),
        Vec::new(),
        Callback::Noop,
        7,
        3,
        true,
    );
    let b = Request::<Cb>::get("http://example.com/");
    assert_eq!(a, b);
}

#[test]
fn try_get_refuses_non_url() {
    assert!(Request::<Cb>::try_get("not a url").is_none());
    assert!(Request::<Cb>::try_post("::").is_none());
    let r = Request::<Cb>::try_get("http://example.com").unwrap();
    assert_eq!(r.url, "http://example.com/");
}

#[test]
fn extension_method_name_and_display() {
    let r = req_with("http://example.com/", Method::Extension("PURGE".to_string()), b"");
    assert_eq!(r.method.as_str(), "PURGE");
    assert_eq!(r.display_string(), "<PURGE http://example.com/>");
}

#[test]
fn get_installs_noop_callback_which_validates() {
    let r = Request::<Cb>::get("http://example.com/");
    assert!(matches!(r.callback, Callback::Noop));
    assert!(r.check_valid().is_ok());
    r.validate();
}

#[test]
fn canonical_url_lowercases_host_of_other_schemes() {
    assert_eq!(canonicalize_url("foo://Host.Example/x").as_deref(), Some("foo://host.example/x"));
}

#[test]
fn canonical_url_keeps_non_default_port_and_path() {
    assert_eq!(
        canonicalize_url("https://Example.com:8443/A/b?x=1").as_deref(),
        Some("https://example.com:8443/A/b?x=1")
    );
}

#[test]
fn join_url_resolves_relative_links() {
    assert_eq!(join_url("https://quotes.toscrape.com/", "/page/2/").as_deref(), Some("https://quotes.toscrape.com/page/2/"));
    assert_eq!(join_url("http://example.com/a/b", "c?x=1").as_deref(), Some("http://example.com/a/c?x=1"));
    assert_eq!(join_url("not a url", "/page/2/"), None);
}
