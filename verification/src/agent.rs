use vstd::prelude::*;

use crate::discovery::{NamespacedHostname, SocketAddress};
use crate::pattern::RegexPattern;
use crate::request::{HeaderOrPseudo, HeaderValue, Method};

verus! {

/// What the path of a request has to be.
#[derive(Debug)]
pub enum PathMatch {
    /// This path.
    Exact(String),
    /// A path that the expression matches as a whole.
    Regex(RegexPattern),
    /// This path, or one below it.
    PathPrefix(String),
}

impl Clone for PathMatch {
    fn clone(&self) -> (copy: Self)
        ensures
            copy == *self,
    {
        match self {
            PathMatch::Exact(path) => PathMatch::Exact(path.clone()),
            PathMatch::Regex(pattern) => PathMatch::Regex(pattern.clone()),
            PathMatch::PathPrefix(prefix) => PathMatch::PathPrefix(prefix.clone()),
        }
    }
}

/// What the method of a request has to be.
#[derive(Debug)]
pub struct MethodMatch {
    pub method: Method,
}

/// What the value of a header has to be.
#[derive(Debug)]
pub enum HeaderValueMatch {
    /// This value.
    Exact(HeaderValue),
    /// Text that the expression matches as a whole.
    Regex(RegexPattern),
}

/// A header that a request has to have, and what its value has to be.
#[derive(Debug)]
pub struct HeaderMatch {
    pub name: HeaderOrPseudo,
    pub value: HeaderValueMatch,
}

/// What the value of a query parameter has to be.
#[derive(Debug)]
pub enum QueryValueMatch {
    /// This value.
    Exact(String),
    /// Text that the expression matches as a whole.
    Regex(RegexPattern),
}

/// A query parameter that a request has to have, and what its value has to be.
#[derive(Debug)]
pub struct QueryMatch {
    pub name: String,
    pub value: QueryValueMatch,
}

/// What a request has to be like for a route to take it: all of this.
#[derive(Debug)]
pub struct RouteMatch {
    pub headers: Vec<HeaderMatch>,
    pub path: PathMatch,
    pub method: Option<MethodMatch>,
    pub query: Vec<QueryMatch>,
}

/// The name of a route.
#[derive(Debug)]
pub struct RouteName {
    pub name: String,
    pub namespace: String,
    pub rule_name: Option<String>,
    pub kind: Option<String>,
}

/// A policy on the traffic of a route: its kind, and its settings as they were
/// configured. Routing carries it along and does not read it.
#[derive(Debug)]
pub struct TrafficPolicy {
    pub kind: String,
    pub settings: String,
}

/// Where requests can be sent to.
#[derive(Debug)]
pub enum BackendReference {
    /// A port of a service.
    Service { name: NamespacedHostname, port: u16 },
    /// A host, by its name or address and its port, as it was configured.
    /// Routing carries it along and does not read it.
    Host(String),
}

/// A backend of a route, with its share of the requests.
#[derive(Debug)]
pub struct RouteBackendReference {
    pub weight: usize,
    pub backend: BackendReference,
    pub inline_policies: Vec<BackendPolicy>,
}

/// A route: which requests it takes, and where they go.
#[derive(Debug)]
pub struct Route {
    pub key: String,
    /// The service the route is attached to, where it is attached to one.
    pub service_key: Option<NamespacedHostname>,
    pub name: RouteName,
    /// The hosts the route is for; all of them where none is named.
    pub hostnames: Vec<String>,
    /// The route takes a request that any of these accepts.
    pub matches: Vec<RouteMatch>,
    pub inline_policies: Vec<TrafficPolicy>,
    pub backends: Vec<RouteBackendReference>,
}

/// A destination that is given in place.
#[derive(Debug)]
pub enum Target {
    Address(SocketAddress),
}

/// A backend of something other than a route.
#[derive(Debug)]
pub enum SimpleBackendReference {
    InlineBackend(Target),
}

/// How a backend without endpoints is brought up when a request comes for it.
#[derive(Debug)]
pub struct ActivationPolicy {
    /// The scaler to call.
    pub backend: SimpleBackendReference,
    /// How long to wait for an endpoint after the call.
    pub ready_timeout: std::time::Duration,
}

/// A policy on what is sent to a backend.
#[derive(Debug)]
pub enum BackendPolicy {
    Activation(ActivationPolicy),
}

/// A backend that a policy can be attached to.
#[derive(Debug)]
pub enum BackendTarget {
    Service { hostname: String, namespace: String, port: Option<u16> },
}

/// What a policy can be attached to.
#[derive(Debug)]
pub enum PolicyTarget {
    Backend(BackendTarget),
}

/// A policy that can be attached to something.
#[derive(Debug)]
pub enum PolicyType {
    Backend(BackendPolicy),
}

/// A policy, with what it is attached to.
#[derive(Debug)]
pub struct TargetedPolicy {
    pub key: String,
    pub name: Option<String>,
    pub target: PolicyTarget,
    pub policy: PolicyType,
}

} // verus!
