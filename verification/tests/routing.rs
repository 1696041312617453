use std::collections::HashMap;
use std::sync::Arc;
use std::time::Duration;

use agentgateway::{
    activation_bind, activation_route, activation_service, activation_targeted_policy,
    default_route, find_route, is_outranking, select_best_route, ActivationPolicy, BackendPolicy,
    BackendReference, BackendTarget, Endpoint, HeaderMatch, HeaderOrPseudo, HeaderValue,
    HeaderValueMatch, HealthStatus, HostnameMatch, IpAddress, ListedRoute, Listener,
    ListenerProtocol, ListenerSet, Method, MethodMatch, NamespacedHostname, ParsedQuery, PathMatch,
    PolicyTarget, PolicyType, QueryMatch, QueryValueMatch, RegexPattern, Request, RequestMatchCtx,
    Route, RouteBackendReference, RouteMatch, RouteName, RouteSet, Service, SimpleBackendReference,
    SocketAddress, Stores, Target, TcpRouteSet, TunnelProtocol, WaypointService, BIND_KEY,
    LISTENER_KEY,
};

const DST: SocketAddress = SocketAddress { ip: IpAddress::V4([10, 0, 0, 1]), port: 8080 };

fn matcher(path: PathMatch) -> RouteMatch {
    RouteMatch { headers: vec![], path, method: None, query: vec![] }
}

fn prefix(p: &str) -> PathMatch {
    PathMatch::PathPrefix(p.to_string())
}

fn exact(p: &str) -> PathMatch {
    PathMatch::Exact(p.to_string())
}

fn with_method(mut m: RouteMatch) -> RouteMatch {
    m.method = Some(MethodMatch { method: Method::new("GET").unwrap() });
    m
}

fn with_header(mut m: RouteMatch) -> RouteMatch {
    let value = HeaderValueMatch::Exact(HeaderValue::from_bytes(b"GET").unwrap());
    m.headers.push(HeaderMatch { name: HeaderOrPseudo::Method, value });
    m
}

fn with_query(mut m: RouteMatch, name: &str, value: &str) -> RouteMatch {
    let value = QueryValueMatch::Exact(value.to_string());
    m.query.push(QueryMatch { name: name.to_string(), value });
    m
}

fn route(key: &str, hostnames: &[&str], matches: Vec<RouteMatch>) -> Route {
    Route {
        key: key.to_string(),
        service_key: None,
        name: RouteName {
            name: "route".to_string(),
            namespace: "ns".to_string(),
            rule_name: None,
            kind: None,
        },
        hostnames: hostnames.iter().map(|h| h.to_string()).collect(),
        matches,
        inline_policies: vec![],
        backends: vec![],
    }
}

fn named(key: &str, namespace: &str, name: &str, matches: Vec<RouteMatch>) -> Route {
    let mut r = route(key, &[], matches);
    r.name.namespace = namespace.to_string();
    r.name.name = name.to_string();
    r
}

fn listener(routes: Vec<Route>) -> Listener {
    Listener {
        key: "l".to_string(),
        name: String::new(),
        hostname: String::new(),
        protocol: ListenerProtocol::HTTP,
        tcp_routes: TcpRouteSet { routes: vec![] },
        routes: RouteSet::from_list(routes),
    }
}

fn get(uri: &str) -> Request {
    Request::from_raw("GET", uri, &vec![], None).unwrap()
}

fn get_by_waypoint(uri: &str, service: Service) -> Request {
    Request::from_raw("GET", uri, &vec![], Some(WaypointService(Arc::new(service)))).unwrap()
}

fn key_of(found: Option<(Arc<Route>, PathMatch)>) -> Option<String> {
    found.map(|(route, _)| route.key.clone())
}

fn selected(routes: Vec<Route>, uri: &str) -> Option<String> {
    key_of(select_best_route(&Stores::new(), DST, &listener(routes), &get(uri)))
}

fn is_selected(routes: Vec<Route>, uri: &str, key: &str) {
    assert_eq!(selected(routes, uri).as_deref(), Some(key));
}

#[test]
fn nothing_is_selected_where_nothing_accepts() {
    assert_eq!(selected(vec![], "http://h/"), None);
    assert_eq!(selected(vec![route("a", &[], vec![])], "http://h/"), None);
    assert_eq!(selected(vec![route("a", &[], vec![matcher(exact("/a"))])], "http://h/b"), None);
}

#[test]
fn request_without_a_host_is_rejected() {
    let routes = || vec![route("a", &[], vec![matcher(prefix("/"))])];
    assert_eq!(selected(routes(), "/a"), None);
    is_selected(routes(), "http://h/a", "a");
    let service = activation_service("s", "n", 1);
    let found =
        select_best_route(&Stores::new(), DST, &listener(routes()), &get_by_waypoint("/a", service));
    assert!(found.is_none());
}

#[test]
fn path_of_the_match_comes_with_the_route() {
    let l = listener(vec![
        route("a", &[], vec![matcher(prefix("/a")), matcher(exact("/b"))]),
        route("r", &[], vec![matcher(PathMatch::Regex(RegexPattern::new("/r+").unwrap()))]),
    ]);
    let select = |uri| select_best_route(&Stores::new(), DST, &l, &get(uri)).unwrap().1;
    assert!(matches!(select("http://h/a/x"), PathMatch::PathPrefix(p) if p == "/a"));
    assert!(matches!(select("http://h/b"), PathMatch::Exact(p) if p == "/b"));
    assert!(matches!(select("http://h/rr"), PathMatch::Regex(p) if p.as_str() == "/r+"));
}

#[test]
fn exact_path_comes_before_prefix_and_prefix_before_regex() {
    let regex = || matcher(PathMatch::Regex(RegexPattern::new(".*").unwrap()));
    let routes = || {
        vec![
            route("regex", &[], vec![regex()]),
            route("prefix", &[], vec![matcher(prefix("/a/very/long/one"))]),
            route("exact", &[], vec![matcher(exact("/a/very/long/one"))]),
        ]
    };
    is_selected(routes(), "http://h/a/very/long/one", "exact");
    is_selected(routes(), "http://h/a/very/long/one/x", "prefix");
    is_selected(routes(), "http://h/b", "regex");
}

#[test]
fn longer_prefix_comes_first() {
    let routes = || {
        vec![
            route("root", &[], vec![matcher(prefix("/"))]),
            route("a", &[], vec![matcher(prefix("/a"))]),
            route("ab", &[], vec![matcher(prefix("/a/b"))]),
        ]
    };
    is_selected(routes(), "http://h/a/b/c", "ab");
    is_selected(routes(), "http://h/a/c", "a");
    is_selected(routes(), "http://h/c", "root");
}

#[test]
fn method_comes_before_headers_and_headers_before_query() {
    let plain = || matcher(prefix("/"));
    let routes = || {
        vec![
            route("plain", &[], vec![plain()]),
            route("query", &[], vec![with_query(with_query(plain(), "a", "1"), "b", "2")]),
            route("header", &[], vec![with_header(plain())]),
            route("method", &[], vec![with_method(plain())]),
        ]
    };
    is_selected(routes(), "http://h/?a=1&b=2", "method");
    let mut fewer = routes();
    fewer.pop();
    is_selected(fewer, "http://h/?a=1&b=2", "header");
    let mut fewer = routes();
    fewer.truncate(2);
    is_selected(fewer, "http://h/?a=1&b=2", "query");
    let mut fewer = routes();
    fewer.truncate(2);
    is_selected(fewer, "http://h/?a=1", "plain");
}

#[test]
fn more_headers_and_more_query_parameters_come_first() {
    let plain = || matcher(prefix("/"));
    is_selected(
        vec![
            route("one", &[], vec![with_header(plain())]),
            route("two", &[], vec![with_header(with_header(plain()))]),
        ],
        "http://h/",
        "two",
    );
    is_selected(
        vec![
            route("one", &[], vec![with_query(plain(), "a", "1")]),
            route("two", &[], vec![with_query(with_query(plain(), "a", "1"), "b", "2")]),
        ],
        "http://h/?a=1&b=2",
        "two",
    );
}

#[test]
fn outranking_goes_by_what_a_match_asks_for() {
    let root = || matcher(prefix("/"));
    assert!(is_outranking(&matcher(exact("/")), &with_method(matcher(prefix("/long")))));
    assert!(is_outranking(&matcher(prefix("/ab")), &with_method(matcher(prefix("/a")))));
    assert!(is_outranking(&with_method(root()), &with_header(with_header(root()))));
    assert!(is_outranking(&with_header(root()), &with_query(root(), "a", "1")));
    assert!(is_outranking(&with_query(root(), "a", "1"), &root()));
    assert!(!is_outranking(&root(), &root()));
    assert!(!is_outranking(&matcher(exact("/a")), &matcher(exact("/abc"))));
    assert!(!is_outranking(&matcher(exact("/abc")), &matcher(exact("/a"))));
}

#[test]
fn ties_go_by_name_and_then_by_place() {
    let m = || vec![matcher(prefix("/"))];
    is_selected(vec![named("2", "b", "a", m()), named("1", "a", "z", m())], "http://h/", "1");
    is_selected(vec![named("2", "n", "b", m()), named("1", "n", "a", m())], "http://h/", "1");
    is_selected(vec![named("2", "n", "ab", m()), named("1", "n", "a", m())], "http://h/", "1");
    is_selected(vec![named("1", "n", "a", m()), named("2", "n", "a", m())], "http://h/", "1");
    // The slash that follows a namespace sorts after a dash.
    is_selected(vec![named("2", "a", "x", m()), named("1", "a-b", "x", m())], "http://h/", "1");
}

#[test]
fn older_routes_come_before_the_alphabet() {
    let m = || vec![matcher(prefix("/"))];
    let dated = |r: Route, created: u64| ListedRoute { route: Arc::new(r), created };
    let mut l = listener(vec![]);
    l.routes = RouteSet::from_listed(vec![
        dated(named("new", "a", "a", m()), 20),
        dated(named("old", "z", "z", m()), 10),
        dated(named("method", "z", "z", vec![with_method(matcher(exact("/x")))]), 30),
    ]);
    let select = |uri| key_of(select_best_route(&Stores::new(), DST, &l, &get(uri)));
    assert_eq!(select("http://h/").as_deref(), Some("old"));
    assert_eq!(select("http://h/x").as_deref(), Some("method"));
}

#[test]
fn first_of_equal_matches_within_a_route_counts() {
    let first = with_query(matcher(prefix("/")), "a", "1");
    let second = with_query(matcher(prefix("/")), "b", "2");
    let l = listener(vec![route("r", &[], vec![first, second])]);
    assert!(select_best_route(&Stores::new(), DST, &l, &get("http://h/?b=2")).is_some());
    let hosts = HostnameMatch::all_matches("h");
    let order = l.routes.get_hostname(hosts.last().unwrap()).unwrap();
    assert_eq!(order.len(), 2);
    assert_eq!((order[0].route, order[0].matcher), (0, 0));
    assert_eq!((order[1].route, order[1].matcher), (0, 1));
}

#[test]
fn routes_alone_decide_the_order() {
    let routes = || {
        vec![
            route("c", &[], vec![matcher(prefix("/")), matcher(exact("/x"))]),
            route("b", &["h"], vec![matcher(prefix("/abc"))]),
            route("a", &[], vec![matcher(prefix("/ab"))]),
        ]
    };
    let (one, two) = (RouteSet::from_list(routes()), RouteSet::from_list(routes()));
    for host in HostnameMatch::all_matches("h") {
        assert_eq!(one.get_hostname(&host), two.get_hostname(&host));
    }
    let any: Vec<(usize, usize)> =
        one.get_hostname(&HostnameMatch::Any).unwrap().iter().map(|c| (c.route, c.matcher)).collect();
    assert_eq!(any, vec![(0, 1), (2, 0), (0, 0)]);
    assert!(one.get_hostname(&HostnameMatch::Exact("other".to_string())).is_none());
}

#[test]
fn hosts_are_tried_from_the_most_specific_on() {
    let tried = HostnameMatch::all_matches("a.b.example.com");
    let want = vec![
        HostnameMatch::Exact("a.b.example.com".to_string()),
        HostnameMatch::Wildcard("b.example.com".to_string()),
        HostnameMatch::Wildcard("example.com".to_string()),
        HostnameMatch::Wildcard("com".to_string()),
        HostnameMatch::Any,
    ];
    assert_eq!(tried.len(), want.len());
    for (t, w) in tried.iter().zip(want.iter()) {
        assert!(t.equals(w));
        assert!(t.clone().equals(w));
    }
    assert_eq!(HostnameMatch::all_matches("lo").len(), 2);
    assert_eq!(HostnameMatch::all_matches("\u{e9}.b").len(), 3);
    assert!(HostnameMatch::all_matches("\u{e9}.b")[1]
        .equals(&HostnameMatch::Wildcard("b".to_string())));
}

#[test]
fn hostnames_of_routes_may_be_wildcards() {
    let of = HostnameMatch::from_hostname;
    assert!(of("*.example.com").equals(&HostnameMatch::Wildcard("example.com".to_string())));
    assert!(of("example.com").equals(&HostnameMatch::Exact("example.com".to_string())));
    assert!(of("*").equals(&HostnameMatch::Exact("*".to_string())));
    assert!(!of("a").equals(&of("*.a")));
    assert!(!of("a").equals(&HostnameMatch::Any));
}

#[test]
fn more_specific_hosts_come_before_better_matches() {
    let routes = || {
        vec![
            route("any", &[], vec![matcher(exact("/x"))]),
            route("com", &["*.com"], vec![matcher(exact("/x"))]),
            route("example", &["*.example.com"], vec![matcher(prefix("/x"))]),
            route("host", &["other.org", "a.example.com"], vec![matcher(prefix("/"))]),
        ]
    };
    is_selected(routes(), "http://a.example.com/x", "host");
    is_selected(routes(), "http://b.example.com/x", "example");
    is_selected(routes(), "http://b.example.com:81/x", "example");
    is_selected(routes(), "http://example.com/x", "com");
    is_selected(routes(), "http://other.org/", "host");
    is_selected(routes(), "http://else.org/x", "any");
    assert_eq!(selected(routes(), "http://else.org/y"), None);
    // Where no match for the host itself accepts, less specific hosts are tried.
    let mut routes = routes();
    routes[3].matches = vec![matcher(exact("/only"))];
    is_selected(routes, "http://a.example.com/x", "example");
}

#[test]
fn hostname_listed_twice_changes_nothing() {
    let l = listener(vec![route("a", &["h", "h"], vec![matcher(prefix("/"))])]);
    assert_eq!(l.routes.get_hostname(&HostnameMatch::from_hostname("h")).unwrap().len(), 1);
}

#[test]
fn chosen_hosts_can_be_tried() {
    let set = RouteSet::from_list(vec![
        route("a", &["a"], vec![with_query(matcher(prefix("/")), "q", "1")]),
        route("b", &["b"], vec![matcher(prefix("/"))]),
    ]);
    let request = get("http://a/?q=2");
    let mut ctx = RequestMatchCtx::from_request(&request);
    let b = vec![HostnameMatch::from_hostname("b")];
    assert_eq!(key_of(find_route(&set, &b, &mut ctx, &request)).as_deref(), Some("b"));
    assert!(matches!(&ctx.parsed_query, ParsedQuery::Unparsed(_)));
    let both = vec![HostnameMatch::from_hostname("a"), HostnameMatch::from_hostname("b")];
    assert_eq!(key_of(find_route(&set, &both, &mut ctx, &request)).as_deref(), Some("b"));
    assert!(matches!(&ctx.parsed_query, ParsedQuery::Parsed(_)));
    assert!(find_route(&set, &vec![], &mut ctx, &request).is_none());
}

#[test]
fn service_routes_come_before_those_of_the_listener() {
    let service = || activation_service("svc", "ns", 1);
    let mut stores = Stores::new();
    let of_service = RouteSet::from_list(vec![
        route("service", &[], vec![matcher(prefix("/a"))]),
        route("named", &["svc.ns.svc.cluster.local"], vec![matcher(exact("/n"))]),
        route("host", &["h"], vec![matcher(prefix("/"))]),
    ]);
    stores.insert_service_routes(service().namespaced_hostname(), of_service);
    let l = listener(vec![route("listener", &[], vec![matcher(prefix("/"))])]);
    let select = |request: &Request| key_of(select_best_route(&stores, DST, &l, request));
    assert_eq!(select(&get_by_waypoint("http://h/a", service())).as_deref(), Some("service"));
    assert_eq!(select(&get_by_waypoint("http://h/n", service())).as_deref(), Some("named"));
    // Service routes exist and none takes the request: it is rejected.
    assert_eq!(select(&get_by_waypoint("http://h/b", service())), None);
    // Another service, and no service at all, are not concerned.
    let other = activation_service("svc", "other", 1);
    assert_eq!(select(&get_by_waypoint("http://h/b", other)).as_deref(), Some("listener"));
    assert_eq!(select(&get("http://h/a")).as_deref(), Some("listener"));
}

#[test]
fn waypoint_falls_back_to_the_listener_by_the_hostname_of_the_service() {
    let service = activation_service("svc", "ns", 1);
    let l = listener(vec![
        route("named", &["svc.ns.svc.cluster.local"], vec![matcher(prefix("/"))]),
        route("host", &["h"], vec![matcher(exact("/x"))]),
    ]);
    let request = get_by_waypoint("http://h/x", service);
    assert_eq!(
        key_of(select_best_route(&Stores::new(), DST, &l, &request)).as_deref(),
        Some("named")
    );
}

#[test]
fn waypoint_falls_back_to_its_service() {
    let request = get_by_waypoint("http://h/x", activation_service("svc", "ns", 1));
    let l = listener(vec![route("host", &["h"], vec![matcher(prefix("/"))])]);
    let (route, path) = select_best_route(&Stores::new(), DST, &l, &request).unwrap();
    assert!(matches!(path, PathMatch::PathPrefix(p) if p == "/"));
    is_default(&route, "ns", "svc.ns.svc.cluster.local", 8080);
}

fn is_default(route: &Route, namespace: &str, hostname: &str, port: u16) {
    assert_eq!(route.key, "_waypoint-default");
    let key = route.service_key.as_ref().unwrap();
    assert_eq!((key.namespace.as_str(), key.hostname.as_str()), (namespace, hostname));
    assert_eq!(route.name.name, "_waypoint-default");
    assert_eq!(route.name.namespace, namespace);
    assert!(route.name.rule_name.is_none());
    assert!(route.name.kind.is_none());
    assert!(route.hostnames.is_empty());
    assert!(route.matches.is_empty());
    assert!(route.inline_policies.is_empty());
    assert_eq!(route.backends.len(), 1);
    assert_eq!(route.backends[0].weight, 1);
    assert!(route.backends[0].inline_policies.is_empty());
    let BackendReference::Service { name, port: p } = &route.backends[0].backend else {
        panic!("not a service")
    };
    assert_eq!((name.namespace.as_str(), name.hostname.as_str()), (namespace, hostname));
    assert_eq!(*p, port);
}

#[test]
fn default_route_leads_to_the_service() {
    is_default(&default_route(&activation_service("a", "b", 1), 9), "b", "a.b.svc.cluster.local", 9);
}

#[test]
fn service_routes_are_replaced() {
    let name = |ns: &str| NamespacedHostname { namespace: ns.to_string(), hostname: "h".to_string() };
    let set = |key: &str| RouteSet::from_list(vec![route(key, &[], vec![matcher(prefix("/"))])]);
    let mut stores = Stores::new();
    assert!(stores.get_service_routes(&name("a")).is_none());
    stores.insert_service_routes(name("a"), set("1"));
    stores.insert_service_routes(name("b"), set("2"));
    stores.insert_service_routes(name("a"), set("3"));
    let first = |ns: &str| {
        let set = stores.get_service_routes(&name(ns)).unwrap();
        let c = set.get_hostname(&HostnameMatch::Any).unwrap()[0];
        assert!(matches!(&set.matcher(c).path, PathMatch::PathPrefix(p) if p == "/"));
        set.route(c).key.clone()
    };
    assert_eq!(first("a"), "3");
    assert_eq!(first("b"), "2");
    assert!(name("a").equals(&name("a").clone()));
    assert!(!name("a").equals(&name("b")));
}

#[test]
fn last_listener_of_a_key_stays() {
    let make = |key: &str, hostname: &str| {
        let mut l = listener(vec![]);
        l.key = key.to_string();
        l.hostname = hostname.to_string();
        l
    };
    let set = ListenerSet::from_list(vec![make("a", "1"), make("b", "2"), make("a", "3")]);
    assert_eq!(set.get("a").unwrap().hostname, "3");
    assert_eq!(set.get("b").unwrap().hostname, "2");
    assert!(set.get("c").is_none());
}

#[test]
fn activation_service_has_a_port_and_an_address() {
    let service = activation_service("test-svc", "test-ns", 1234);
    assert_eq!(service.name, "test-svc");
    assert_eq!(service.namespace, "test-ns");
    assert_eq!(service.hostname, "test-svc.test-ns.svc.cluster.local");
    assert_eq!(service.vips.len(), 1);
    assert_eq!(service.vips[0].network, "");
    assert_eq!(service.vips[0].address, IpAddress::V4([10, 0, 0, 1]));
    assert_eq!(service.ports.len(), 1);
    assert_eq!(service.ports.get(&8080), Some(&1234));
    assert!(service.endpoints.is_empty());
}

#[test]
fn activation_service_can_be_given_an_endpoint() {
    let mut service = activation_service("test-svc", "test-ns", 1234);
    service.endpoints.push(Endpoint {
        workload_uid: "test-workload".to_string(),
        port: HashMap::from([(8080, 1234)]),
        status: HealthStatus::Healthy,
    });
    assert_eq!(service.endpoints.len(), 1);
    assert_eq!(service.endpoints[0].status, HealthStatus::Healthy);
}

#[test]
fn activation_bind_routes_all_requests_to_the_service() {
    let bind =
        activation_bind(activation_route("test-ns", "test-svc.test-ns.svc.cluster.local"));
    assert_eq!(bind.key, BIND_KEY);
    assert_eq!(bind.address, SocketAddress { ip: IpAddress::V4([127, 0, 0, 1]), port: 0 });
    assert_eq!(bind.tunnel_protocol, TunnelProtocol::Direct);
    let l = bind.listeners.get(LISTENER_KEY).unwrap();
    for uri in ["http://lo", "http://lo/a/b?c=d", "http://other.example.com/"] {
        let (route, path) = select_best_route(&Stores::new(), bind.address, l, &get(uri)).unwrap();
        assert_eq!(route.key, "route");
        assert!(matches!(path, PathMatch::PathPrefix(p) if p == "/"));
        let BackendReference::Service { name, port } = &route.backends[0].backend else {
            panic!("not a service")
        };
        assert_eq!(name.namespace, "test-ns");
        assert_eq!(name.hostname, "test-svc.test-ns.svc.cluster.local");
        assert_eq!(*port, 8080);
    }
}

#[test]
fn activation_policy_is_on_the_port_of_the_service() {
    let scaler = SocketAddress { ip: IpAddress::V4([127, 0, 0, 1]), port: 99 };
    let policy = activation_targeted_policy("host", "ns", scaler, Duration::from_secs(5));
    assert_eq!(policy.key, "activation");
    assert!(policy.name.is_none());
    let PolicyTarget::Backend(BackendTarget::Service { hostname, namespace, port }) = policy.target;
    assert_eq!((hostname.as_str(), namespace.as_str(), port), ("host", "ns", Some(8080)));
    let PolicyType::Backend(BackendPolicy::Activation(ActivationPolicy { backend, ready_timeout })) =
        policy.policy;
    let SimpleBackendReference::InlineBackend(Target::Address(address)) = backend;
    assert_eq!(address, scaler);
    assert_eq!(ready_timeout, Duration::from_secs(5));
}

/// A route to the host `address`.
fn to_host(key: &str, m: RouteMatch, address: &str) -> Route {
    let mut route = named(key, "", key, vec![m]);
    route.backends.push(RouteBackendReference {
        weight: 1,
        backend: BackendReference::Host(address.to_string()),
        inline_policies: vec![],
    });
    route
}

/// `n` routes, each with its own prefix and query parameter, and one for all else.
fn cycling(n: usize) -> Vec<Route> {
    let mut routes: Vec<Route> = (0..n)
        .map(|i| {
            let m = with_query(
                matcher(prefix(&format!("/svc-{i:04}"))),
                "version",
                &format!("v{i}"),
            );
            to_host(&format!("svc-{i:04}"), m, &format!("127.0.0.1:{i}"))
        })
        .collect();
    routes.push(to_host("default", matcher(prefix("/")), "127.0.0.1:1"));
    routes
}

fn all_are_hit(n: usize) {
    let l = listener(cycling(n));
    let stores = Stores::new();
    let select = |uri: &str| key_of(select_best_route(&stores, DST, &l, &get(uri))).unwrap();
    for i in 0..n {
        assert_eq!(select(&format!("http://lo/svc-{i:04}?version=v{i}")), format!("svc-{i:04}"));
    }
    if n > 0 {
        let request = get("http://lo/svc-0000?version=v0");
        let (route, _) = select_best_route(&stores, DST, &l, &request).unwrap();
        let BackendReference::Host(host) = &route.backends[0].backend else {
            panic!("not a host")
        };
        assert_eq!(host, "127.0.0.1:0");
    }
    assert_eq!(select("http://lo/"), "default");
    assert_eq!(select("http://lo/svc-0000?version=v1"), "default");
    assert_eq!(select("http://lo/svc-0000"), "default");
}

#[test]
fn catch_all_takes_what_no_other_route_does() {
    all_are_hit(0);
}

#[test]
fn each_of_a_hundred_routes_is_hit() {
    all_are_hit(100);
}

#[test]
fn each_of_a_thousand_routes_is_hit() {
    all_are_hit(1000);
}
