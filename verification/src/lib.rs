pub mod activation;
pub mod agent;
pub mod compiled;
pub mod discovery;
pub mod hostname;
pub mod laws;
pub mod listener;
pub mod matching;
pub mod pattern;
pub mod precedence;
pub mod query;
pub mod request;
pub mod route;
pub mod route_set;
pub mod stores;
pub mod text;

pub use activation::{
    activation_bind, activation_route, activation_service, activation_targeted_policy, BIND_KEY,
    LISTENER_KEY, SERVICE_PORT,
};
pub use agent::{
    ActivationPolicy, BackendPolicy, BackendReference, BackendTarget, HeaderMatch,
    HeaderValueMatch, MethodMatch, PathMatch, PolicyTarget, PolicyType, QueryMatch,
    QueryValueMatch, Route, RouteBackendReference, RouteMatch, RouteName, SimpleBackendReference,
    Target, TargetedPolicy, TrafficPolicy,
};
pub use compiled::CompiledRegex;
pub use discovery::{
    Endpoint, HealthStatus, IpAddress, NamespacedHostname, NetworkAddress, Service, SocketAddress,
};
pub use hostname::HostnameMatch;
pub use listener::{
    Bind, BindProtocol, Listener, ListenerProtocol, ListenerSet, TcpRouteSet, TunnelProtocol,
};
pub use matching::{matches_request, RequestMatchCtx};
pub use pattern::{covers, RegexPattern};
pub use precedence::{is_outranking, Candidate, ListedRoute};
pub use query::{collect_pairs, ParsedQuery};
pub use request::{
    get_host, get_pseudo_or_header_value, Header, HeaderName, HeaderOrPseudo, HeaderValue,
    HostMissing, Method, Request, Uri, WaypointService,
};
pub use route::{default_route, find_route, select_best_route};
pub use route_set::RouteSet;
pub use stores::Stores;
