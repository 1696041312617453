use agentgateway::{
    collect_pairs, covers, matches_request, HeaderMatch, HeaderName, HeaderOrPseudo, HeaderValue,
    HeaderValueMatch, Method, MethodMatch, ParsedQuery, PathMatch, QueryMatch, QueryValueMatch,
    RegexPattern, Request, RequestMatchCtx, RouteMatch,
};

fn request(method: &str, uri: &str, headers: &[(&str, &[u8])]) -> Request {
    let headers: Vec<(String, Vec<u8>)> =
        headers.iter().map(|(n, v)| (n.to_string(), v.to_vec())).collect();
    Request::from_raw(method, uri, &headers, None).unwrap()
}

fn path(path: PathMatch) -> RouteMatch {
    RouteMatch { headers: vec![], path, method: None, query: vec![] }
}

fn prefix(p: &str) -> PathMatch {
    PathMatch::PathPrefix(p.to_string())
}

fn exact(p: &str) -> PathMatch {
    PathMatch::Exact(p.to_string())
}

fn regex(p: &str) -> RegexPattern {
    RegexPattern::new(p).unwrap()
}

fn accepts(m: &RouteMatch, request: &Request) -> bool {
    let mut ctx = RequestMatchCtx::from_request(request);
    matches_request(m, &mut ctx, request)
}

fn accepts_path(m: PathMatch, target: &str) -> bool {
    accepts(&path(m), &request("GET", target, &[]))
}

fn query(name: &str, value: QueryValueMatch) -> QueryMatch {
    QueryMatch { name: name.to_string(), value }
}

fn exact_query(name: &str, value: &str) -> QueryMatch {
    query(name, QueryValueMatch::Exact(value.to_string()))
}

fn header(name: &str, value: HeaderValueMatch) -> HeaderMatch {
    HeaderMatch { name: HeaderOrPseudo::Header(HeaderName::new(name).unwrap()), value }
}

fn exact_header(name: &str, value: &[u8]) -> HeaderMatch {
    header(name, HeaderValueMatch::Exact(HeaderValue::from_bytes(value).unwrap()))
}

#[test]
fn patterns_compile_or_are_refused() {
    assert_eq!(RegexPattern::new("a+").unwrap().as_str(), "a+");
    assert!(RegexPattern::new("(").is_none());
    assert!(RegexPattern::new("\\w{1000}").is_none());
}

#[test]
fn refused_patterns_are_none() {
    assert!(RegexPattern::from_outcome(Err(regex::Error::CompiledTooBig(1))).is_none());
}

#[test]
fn copies_of_a_pattern_are_the_same_pattern() {
    let one = regex("a+");
    let two = one.clone();
    assert_eq!(two.as_str(), "a+");
    assert!(two.accepts("aa"));
    assert!(!two.accepts("b"));
}

#[test]
fn patterns_accept_whole_texts_only() {
    let digits = regex("[0-9]+");
    assert!(digits.accepts("123"));
    assert!(!digits.accepts("123x"));
    assert!(!digits.accepts("x123"));
    assert!(!digits.accepts(""));
    assert!(regex("").accepts(""));
    assert!(regex(".*").accepts("\u{e9}\u{4e2d}"));
    assert!(digits.clone().accepts("7"));
}

#[test]
fn patterns_go_by_their_first_match() {
    assert!(!regex("a|ab").accepts("ab"));
    assert!(regex("ab|a").accepts("ab"));
}

#[test]
fn offsets_cover_a_text_in_bytes() {
    assert!(covers(Some((0, 2)), "\u{e9}"));
    assert!(!covers(Some((0, 1)), "\u{e9}"));
    assert!(!covers(Some((1, 2)), "ab"));
    assert!(!covers(None, ""));
    assert!(covers(Some((0, 0)), ""));
}

#[test]
fn exact_path_is_that_path() {
    assert!(accepts_path(exact("/a/b"), "/a/b"));
    assert!(!accepts_path(exact("/a/b"), "/a/b/"));
    assert!(!accepts_path(exact("/a/b"), "/a/B"));
    assert!(accepts_path(exact("/a/b"), "/a/b?c=d"));
}

#[test]
fn regex_path_is_matched_as_a_whole() {
    assert!(accepts_path(PathMatch::Regex(regex("/v[0-9]+/x")), "/v12/x"));
    assert!(!accepts_path(PathMatch::Regex(regex("/v[0-9]+")), "/v12/x"));
    assert!(!accepts_path(PathMatch::Regex(regex("v12/x")), "/v12/x"));
}

#[test]
fn prefix_accepts_whole_segments() {
    assert!(accepts_path(prefix("/foo"), "/foo"));
    assert!(accepts_path(prefix("/foo"), "/foo/bar"));
    assert!(!accepts_path(prefix("/foo"), "/foobar"));
    assert!(!accepts_path(prefix("/foo"), "/fo"));
    assert!(!accepts_path(prefix("/foo/bar"), "/foo"));
    assert!(accepts_path(prefix("/foo"), "/foo//x"));
}

#[test]
fn prefix_ignores_trailing_slashes() {
    for p in ["/foo", "/foo/", "/foo///"] {
        for target in ["/foo", "/foo/", "/foo//", "/foo/bar", "/foo/bar/"] {
            assert!(accepts_path(prefix(p), target), "{p} {target}");
        }
        assert!(!accepts_path(prefix(p), "/foobar/"));
    }
}

#[test]
fn root_prefix_accepts_every_path() {
    for target in ["/", "/a", "//", "/a/b/c"] {
        assert!(accepts_path(prefix("/"), target));
        assert!(accepts_path(prefix(""), target));
    }
    assert!(!accepts_path(prefix("/"), "*"));
    assert!(accepts_path(prefix("/"), "example.com:443"));
}

#[test]
fn method_is_told_apart_by_case() {
    let mut m = path(prefix("/"));
    m.method = Some(MethodMatch { method: Method::new("GET").unwrap() });
    assert!(accepts(&m, &request("GET", "/", &[])));
    assert!(!accepts(&m, &request("get", "/", &[])));
    assert!(!accepts(&m, &request("POST", "/", &[])));
}

#[test]
fn headers_are_all_asked_for() {
    let mut m = path(prefix("/"));
    m.headers = vec![exact_header("X-A", b"1"), exact_header("x-b", b"\xff")];
    assert!(accepts(&m, &request("GET", "/", &[("x-b", b"\xff"), ("x-a", b"1")])));
    assert!(!accepts(&m, &request("GET", "/", &[("x-a", b"1")])));
    assert!(!accepts(&m, &request("GET", "/", &[("x-a", b"1"), ("x-b", b"2")])));
    assert!(!accepts(&m, &request("GET", "/", &[("x-a", b"2"), ("x-a", b"1"), ("x-b", b"\xff")])));
}

#[test]
fn header_expressions_match_visible_text() {
    let mut m = path(prefix("/"));
    m.headers = vec![header("x-a", HeaderValueMatch::Regex(regex("(?s).*")))];
    assert!(accepts(&m, &request("GET", "/", &[("x-a", b"anything at all")])));
    assert!(!accepts(&m, &request("GET", "/", &[("x-a", b"caf\xc3\xa9")])));
    m.headers = vec![header("x-a", HeaderValueMatch::Regex(regex("v[12]")))];
    assert!(accepts(&m, &request("GET", "/", &[("x-a", b"v2")])));
    assert!(!accepts(&m, &request("GET", "/", &[("x-a", b"v22")])));
    assert!(!accepts(&m, &request("GET", "/", &[])));
}

#[test]
fn pseudo_headers_can_be_asked_for() {
    let mut m = path(prefix("/"));
    let want = HeaderValueMatch::Exact(HeaderValue::from_bytes(b"h:1").unwrap());
    m.headers = vec![HeaderMatch { name: HeaderOrPseudo::Authority, value: want }];
    assert!(accepts(&m, &request("GET", "http://h:1/", &[])));
    assert!(!accepts(&m, &request("GET", "http://h:2/", &[])));
}

#[test]
fn query_parameters_are_all_asked_for() {
    let mut m = path(prefix("/"));
    m.query = vec![
        exact_query("a", "1"),
        query("b", QueryValueMatch::Regex(regex("x+"))),
    ];
    assert!(accepts(&m, &request("GET", "/?b=xx&a=1&c=3", &[])));
    assert!(!accepts(&m, &request("GET", "/?b=xy&a=1", &[])));
    assert!(!accepts(&m, &request("GET", "/?b=xx&a=2", &[])));
    assert!(!accepts(&m, &request("GET", "/?b=xx", &[])));
    assert!(!accepts(&m, &request("GET", "/?", &[])));
    assert!(!accepts(&m, &request("GET", "/", &[])));
}

#[test]
fn query_parameters_are_decoded() {
    let mut m = path(prefix("/"));
    m.query = vec![exact_query("#first", "%try% it")];
    assert!(accepts(&m, &request("GET", "/?%23first=%25try%25+it", &[])));
    m.query = vec![exact_query("flag", "")];
    assert!(accepts(&m, &request("GET", "/?flag", &[])));
    assert!(accepts(&m, &request("GET", "/?x=1&&flag=", &[])));
}

#[test]
fn last_value_of_a_query_parameter_counts() {
    let mut m = path(prefix("/"));
    m.query = vec![exact_query("a", "2")];
    assert!(accepts(&m, &request("GET", "/?a=1&a=2", &[])));
    assert!(!accepts(&m, &request("GET", "/?a=2&a=1", &[])));
    let pair = |k: &str, v: &str| (k.to_string(), v.to_string());
    let map = collect_pairs(vec![pair("a", "1"), pair("b", "3"), pair("a", "2")]);
    assert_eq!(map.get("a").unwrap(), "2");
    assert_eq!(map.get("b").unwrap(), "3");
    assert!(map.get("c").is_none());
}

#[test]
fn asking_for_less_accepts_more() {
    let r = request("GET", "/p?q=1", &[("h", b"1")]);
    let mut m = path(exact("/p"));
    m.method = Some(MethodMatch { method: Method::new("GET").unwrap() });
    m.headers = vec![exact_header("h", b"1")];
    m.query = vec![exact_query("q", "1")];
    assert!(accepts(&m, &r));
    m.query.clear();
    assert!(accepts(&m, &r));
    m.headers.clear();
    assert!(accepts(&m, &r));
    m.method = None;
    assert!(accepts(&m, &r));
}

#[test]
fn query_is_parsed_when_it_is_first_asked_for() {
    let r = request("GET", "/?a=1", &[]);
    let mut q = ParsedQuery::from_request(&r);
    assert!(matches!(&q, ParsedQuery::Unparsed("a=1")));
    assert_eq!(q.get("b"), None);
    assert!(matches!(&q, ParsedQuery::Parsed(_)));
    assert_eq!(q.get("a").map(|v| v.as_str()), Some("1"));
    assert!(matches!(&q, ParsedQuery::Parsed(_)));
    let r = request("GET", "/", &[]);
    let mut q = ParsedQuery::from_request(&r);
    assert_eq!(q.get("a"), None);
    assert!(matches!(&q, ParsedQuery::Absent));
}

#[test]
fn query_is_parsed_only_for_matches_that_ask_for_it() {
    let r = request("POST", "/p/?a=1", &[]);
    let mut ctx = RequestMatchCtx::from_request(&r);
    assert_eq!(ctx.path, "/p/");
    assert_eq!(ctx.path_trimmed, "/p");
    assert_eq!(ctx.method, "POST");
    assert!(matches_request(&path(prefix("/p")), &mut ctx, &r));
    assert!(matches!(&ctx.parsed_query, ParsedQuery::Unparsed(_)));
    let mut other = path(prefix("/other"));
    other.query = vec![exact_query("a", "1")];
    assert!(!matches_request(&other, &mut ctx, &r));
    assert!(matches!(&ctx.parsed_query, ParsedQuery::Unparsed(_)));
    let mut asking = path(prefix("/p"));
    asking.query = vec![exact_query("a", "1")];
    assert!(matches_request(&asking, &mut ctx, &r));
    assert!(matches!(&ctx.parsed_query, ParsedQuery::Parsed(_)));
    assert!(matches_request(&asking, &mut ctx, &r));
}

#[test]
fn context_is_held_against_in_place_of_the_request() {
    let r = request("GET", "/", &[]);
    let mut ctx = RequestMatchCtx::from_request(&r);
    ctx.parsed_query =
        ParsedQuery::Parsed(collect_pairs(vec![("k".to_string(), "v".to_string())]));
    let mut m = path(prefix("/"));
    m.query = vec![exact_query("k", "v")];
    assert!(matches_request(&m, &mut ctx, &r));
    m.query = vec![exact_query("k", "w")];
    assert!(!matches_request(&m, &mut ctx, &r));
}
