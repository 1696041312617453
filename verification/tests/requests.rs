use std::sync::Arc;

use agentgateway::{
    activation_service, get_host, get_pseudo_or_header_value, HeaderName, HeaderOrPseudo,
    HeaderValue, HostMissing, Method, Request, Uri, WaypointService,
};

fn request(method: &str, uri: &str, headers: &[(&str, &[u8])]) -> Option<Request> {
    let headers: Vec<(String, Vec<u8>)> =
        headers.iter().map(|(n, v)| (n.to_string(), v.to_vec())).collect();
    Request::from_raw(method, uri, &headers, None)
}

fn value(name: HeaderOrPseudo, request: &Request) -> Option<Vec<u8>> {
    get_pseudo_or_header_value(&name, request).map(|v| v.as_bytes().to_vec())
}

fn named(name: &str) -> HeaderOrPseudo {
    HeaderOrPseudo::Header(HeaderName::new(name).unwrap())
}

#[test]
fn uri_is_read_in_its_parts() {
    let uri = Uri::parse("http://user@example.com:8080/a/b?x=1&y#frag").unwrap();
    assert_eq!(uri.scheme.as_deref(), Some("http"));
    assert_eq!(uri.authority.as_deref(), Some("user@example.com:8080"));
    assert_eq!(uri.host.as_deref(), Some("example.com"));
    assert_eq!(uri.path, "/a/b");
    assert_eq!(uri.query.as_deref(), Some("x=1&y"));
}

#[test]
fn uri_without_path_has_the_root_path() {
    let uri = Uri::parse("http://lo").unwrap();
    assert_eq!(uri.host.as_deref(), Some("lo"));
    assert_eq!(uri.path, "/");
    assert_eq!(uri.query, None);
}

#[test]
fn uri_may_be_a_path_or_an_authority_alone() {
    let path = Uri::parse("/only/path?q").unwrap();
    assert_eq!(path.host, None);
    assert_eq!(path.path, "/only/path");
    assert_eq!(path.query.as_deref(), Some("q"));
    let authority = Uri::parse("example.com:443").unwrap();
    assert_eq!(authority.host.as_deref(), Some("example.com"));
    assert_eq!(authority.path, "");
}

#[test]
fn text_that_is_no_uri_is_refused() {
    assert!(Uri::parse("").is_none());
    assert!(Uri::parse("http://").is_none());
    assert!(Uri::parse("/a b").is_none());
}

#[test]
fn methods_are_tokens_in_their_own_case() {
    assert_eq!(Method::new("GET").unwrap().as_str(), "GET");
    assert_eq!(Method::new("get").unwrap().as_str(), "get");
    assert_eq!(
        Method::new("A-LONG-EXTENSION-METHOD").unwrap().as_str(),
        "A-LONG-EXTENSION-METHOD"
    );
    assert!(Method::new("").is_none());
    assert!(Method::new("GE T").is_none());
    assert!(Method::new("G\u{e9}T").is_none());
}

#[test]
fn header_names_are_lower_case() {
    assert_eq!(HeaderName::new("Content-Type").unwrap().as_str(), "content-type");
    assert_eq!(HeaderName::new("X_Custom!").unwrap().as_str(), "x_custom!");
    assert!(HeaderName::new("").is_none());
    assert!(HeaderName::new("a b").is_none());
    assert!(HeaderName::new(":path").is_none());
    assert!(HeaderName::new("\"quoted\"").is_none());
    let longest = "A".repeat(65535);
    assert_eq!(HeaderName::new(&longest).unwrap().as_str(), "a".repeat(65535));
    assert!(HeaderName::new(&"a".repeat(65536)).is_none());
}

#[test]
fn header_names_in_lower_case_may_hold_a_double_quote() {
    for name in ["content-type", "x_custom!", "\"quoted\"", "a\"b"] {
        assert_eq!(HeaderName::from_lowercase(name).unwrap().as_str(), name);
        assert_eq!(HeaderName::of_request(name).unwrap().as_str(), name);
    }
    for name in ["Content-Type", "A\"", "", "a b", ":path", "\u{e9}", "a\u{0}"] {
        assert!(HeaderName::from_lowercase(name).is_none());
    }
    let longest = "a\"".repeat(32767) + "a";
    assert_eq!(HeaderName::from_lowercase(&longest).unwrap().as_str(), longest);
    assert!(HeaderName::from_lowercase(&(longest + "\"")).is_none());
    // Each single character, against the `http` crate itself.
    for c in (0..=255u8).map(char::from) {
        let text = c.to_string();
        let expected = http::HeaderName::from_lowercase(text.as_bytes()).is_ok();
        assert_eq!(HeaderName::from_lowercase(&text).is_some(), expected);
        let lowercase = c.is_ascii_lowercase()
            || c.is_ascii_digit()
            || "!\"#$%&'*+-.^_`|~".contains(c);
        assert_eq!(expected, lowercase);
    }
}

#[test]
fn header_names_of_requests_are_those_of_any_version() {
    assert_eq!(HeaderName::of_request("Content-Type").unwrap().as_str(), "content-type");
    assert_eq!(HeaderName::of_request("a\"b").unwrap().as_str(), "a\"b");
    assert!(HeaderName::of_request("A\"B").is_none());
    assert!(HeaderName::of_request("").is_none());
    assert!(HeaderName::of_request("a b").is_none());
}

#[test]
fn request_may_have_a_double_quote_in_the_name_of_a_header() {
    let r = request("GET", "http://lo/", &[("a\"b", b"1"), ("C", b"2")]).unwrap();
    assert_eq!(r.headers[0].name.as_str(), "a\"b");
    assert_eq!(r.headers[0].value.as_bytes(), b"1");
    let name = HeaderOrPseudo::Header(HeaderName::from_lowercase("a\"b").unwrap());
    assert_eq!(value(name, &r).as_deref(), Some(&b"1"[..]));
    assert_eq!(value(named("c"), &r).as_deref(), Some(&b"2"[..]));
    let headers = vec![("\"".to_string(), b"1".to_vec())];
    let uri = Uri::parse("http://lo/").unwrap();
    assert!(Request::from_parts("GET", uri, &headers, None).is_some());
}

#[test]
fn header_values_hold_no_control_characters_but_the_tab() {
    let all: Vec<u8> = (0..=255).collect();
    for b in all {
        let fits = b == 9 || (b >= 32 && b != 127);
        assert_eq!(HeaderValue::from_bytes(&[b]).is_some(), fits);
    }
    assert_eq!(HeaderValue::from_bytes(b"").unwrap().as_bytes(), b"");
    assert_eq!(HeaderValue::from_bytes(b"a\xffb").unwrap().as_bytes(), b"a\xffb");
}

#[test]
fn header_values_are_text_where_they_are_visible_ascii() {
    let text = HeaderValue::from_bytes(b"one\ttwo three~").unwrap();
    assert_eq!(text.to_str().as_deref(), Some("one\ttwo three~"));
    assert_eq!(HeaderValue::from_bytes(b"").unwrap().to_str().as_deref(), Some(""));
    assert!(HeaderValue::from_bytes(b"caf\xc3\xa9").unwrap().to_str().is_none());
}

#[test]
fn header_values_are_equal_by_their_bytes() {
    let a = HeaderValue::from_bytes(b"a\xff").unwrap();
    assert!(a.equals(&HeaderValue::from_bytes(b"a\xff").unwrap()));
    assert!(!a.equals(&HeaderValue::from_bytes(b"a\xfe").unwrap()));
    assert!(!a.equals(&HeaderValue::from_bytes(b"a").unwrap()));
    assert!(a.equals(&a.clone()));
}

#[test]
fn raw_request_is_read() {
    let r = request("POST", "http://lo/x?y=1", &[("Accept", b"a"), ("B", b"\xff")]).unwrap();
    assert_eq!(r.method.as_str(), "POST");
    assert_eq!(r.uri.path, "/x");
    assert_eq!(r.headers.len(), 2);
    assert_eq!(r.headers[0].name.as_str(), "accept");
    assert_eq!(r.headers[0].value.as_bytes(), b"a");
    assert_eq!(r.headers[1].name.as_str(), "b");
    assert_eq!(r.headers[1].value.as_bytes(), b"\xff");
    assert!(r.waypoint.is_none());
}

#[test]
fn raw_request_keeps_its_waypoint() {
    let service = WaypointService(Arc::new(activation_service("s", "n", 1)));
    let r = Request::from_raw("GET", "/", &vec![], Some(service.clone())).unwrap();
    assert_eq!(r.waypoint.unwrap().0.hostname, "s.n.svc.cluster.local");
    assert_eq!(service.0.name, "s");
}

#[test]
fn raw_request_is_refused_for_any_of_its_parts() {
    assert!(request("", "/", &[]).is_none());
    assert!(request("GET", "", &[]).is_none());
    assert!(request("GET", "/", &[("a", b"1"), ("b c", b"2")]).is_none());
    assert!(request("GET", "/", &[("a", b"1"), ("b", b"\n")]).is_none());
}

#[test]
fn request_is_made_of_parts() {
    let uri = || Uri {
        scheme: Some("http".to_string()),
        authority: Some("lo".to_string()),
        host: Some("lo".to_string()),
        path: "*".to_string(),
        query: None,
    };
    let headers = vec![("A".to_string(), b"1".to_vec())];
    let r = Request::from_parts("GET", uri(), &headers, None).unwrap();
    assert_eq!(get_host(&r), Ok("lo"));
    assert_eq!(r.uri.path, "*");
    assert_eq!(value(named("a"), &r).as_deref(), Some(&b"1"[..]));
    assert!(Request::from_parts("", uri(), &headers, None).is_none());
    let bad = vec![("a b".to_string(), b"1".to_vec())];
    assert!(Request::from_parts("GET", uri(), &bad, None).is_none());
}

#[test]
fn host_is_that_of_the_uri() {
    let r = request("GET", "http://Example.com:80/", &[("host", b"other")]).unwrap();
    assert_eq!(get_host(&r), Ok("Example.com"));
    let r = request("GET", "/", &[("host", b"other")]).unwrap();
    assert_eq!(get_host(&r), Err(HostMissing));
}

#[test]
fn first_header_of_a_name_counts() {
    let r = request("GET", "/", &[("X-A", b"1"), ("x-b", b"2"), ("x-a", b"3")]).unwrap();
    assert_eq!(value(named("x-a"), &r).as_deref(), Some(&b"1"[..]));
    assert_eq!(value(named("X-B"), &r).as_deref(), Some(&b"2"[..]));
    assert_eq!(value(named("x-c"), &r), None);
}

#[test]
fn pseudo_headers_stand_for_the_request_line() {
    let r = request("PUT", "https://h:1/p?q=1", &[("method", b"no")]).unwrap();
    assert_eq!(value(HeaderOrPseudo::Method, &r).as_deref(), Some(&b"PUT"[..]));
    assert_eq!(value(HeaderOrPseudo::Scheme, &r).as_deref(), Some(&b"https"[..]));
    assert_eq!(value(HeaderOrPseudo::Authority, &r).as_deref(), Some(&b"h:1"[..]));
    assert_eq!(value(HeaderOrPseudo::Path, &r).as_deref(), Some(&b"/p?q=1"[..]));
    assert_eq!(value(HeaderOrPseudo::Status, &r), None);
}

#[test]
fn pseudo_headers_may_be_missing() {
    let r = request("GET", "/p", &[]).unwrap();
    assert_eq!(value(HeaderOrPseudo::Scheme, &r), None);
    assert_eq!(value(HeaderOrPseudo::Authority, &r), None);
    assert_eq!(value(HeaderOrPseudo::Path, &r).as_deref(), Some(&b"/p"[..]));
    let r = request("CONNECT", "h:1", &[]).unwrap();
    assert_eq!(value(HeaderOrPseudo::Path, &r), None);
}

#[test]
fn pseudo_headers_hold_what_header_values_hold() {
    let mut r = request("GET", "/p", &[]).unwrap();
    r.uri.scheme = Some("a\u{7f}".to_string());
    assert_eq!(value(HeaderOrPseudo::Scheme, &r), None);
    r.uri.path = "/\u{e9}".to_string();
    assert_eq!(value(HeaderOrPseudo::Path, &r).as_deref(), Some(&b"/\xc3\xa9"[..]));
}
