use std::collections::HashMap;

use vstd::prelude::*;
use vstd::string::StringExecFns;

use crate::agent::{
    ActivationPolicy, BackendPolicy, BackendReference, BackendTarget, PathMatch, PolicyTarget,
    PolicyType, Route, RouteBackendReference, RouteMatch, RouteName, SimpleBackendReference,
    Target, TargetedPolicy,
};
use crate::discovery::{IpAddress, NamespacedHostname, NetworkAddress, Service, SocketAddress};
use crate::listener::{
    by_key, Bind, BindProtocol, Listener, ListenerProtocol, ListenerSet, TcpRouteSet, TunnelProtocol,
};
use crate::route_set::RouteSet;

verus! {

/// The key of the bind that `activation_bind` makes.
pub const BIND_KEY: &'static str = "bind";

/// The key of the listener that `activation_bind` makes.
pub const LISTENER_KEY: &'static str = "listener";

/// The port of a service that is brought up on demand.
pub const SERVICE_PORT: u16 = 8080;

/// The hostname of the service `name` in `namespace`.
pub open spec fn service_hostname(name: Seq<char>, namespace: Seq<char>) -> Seq<char> {
    name + "."@ + namespace + ".svc.cluster.local"@
}

/// A service that is brought up on demand: it has a virtual address, its port
/// maps to `backend_port`, and it has no endpoints yet.
pub fn activation_service(svc_name: &str, svc_namespace: &str, backend_port: u16) -> (service:
    Service)
    ensures
        service.name@ == svc_name@,
        service.namespace@ == svc_namespace@,
        service.hostname@ == service_hostname(svc_name@, svc_namespace@),
        service.vips@.len() == 1,
        service.vips@[0].network@.len() == 0,
        service.vips@[0].address == IpAddress::V4([10, 0, 0, 1]),
        service.ports@ == map![SERVICE_PORT => backend_port],
        service.endpoints@.len() == 0,
{
    broadcast use vstd::std_specs::hash::group_hash_axioms;

    let hostname = svc_name.to_owned().concat(".").concat(svc_namespace).concat(
        ".svc.cluster.local",
    );
    let mut vips: Vec<NetworkAddress> = Vec::new();
    vips.push(NetworkAddress { network: String::new(), address: IpAddress::V4([10, 0, 0, 1]) });
    let mut ports: HashMap<u16, u16> = HashMap::new();
    ports.insert(SERVICE_PORT, backend_port);
    assert(ports@ == map![SERVICE_PORT => backend_port]);
    Service {
        name: svc_name.to_owned(),
        namespace: svc_namespace.to_owned(),
        hostname,
        vips,
        ports,
        endpoints: Vec::new(),
    }
}

/// A route that takes all paths on all hosts to a service.
pub fn activation_route(svc_namespace: &str, svc_hostname: &str) -> (route: Route)
    ensures
        route.key@ == "route"@,
        route.service_key is None,
        route.name.name@ == "route"@,
        route.name.namespace@.len() == 0,
        route.name.rule_name is None,
        route.name.kind is None,
        route.hostnames@.len() == 0,
        route.matches@.len() == 1,
        route.matches@[0].headers@.len() == 0,
        route.matches@[0].path matches PathMatch::PathPrefix(prefix) && prefix@ == "/"@,
        route.matches@[0].method is None,
        route.matches@[0].query@.len() == 0,
        route.inline_policies@.len() == 0,
        route.backends@.len() == 1,
        route.backends@[0].weight == 1,
        route.backends@[0].backend matches BackendReference::Service { name, port }
            && name.namespace@ == svc_namespace@ && name.hostname@ == svc_hostname@ && port
            == SERVICE_PORT,
        route.backends@[0].inline_policies@.len() == 0,
{
    let mut matches: Vec<RouteMatch> = Vec::new();
    matches.push(
        RouteMatch {
            headers: Vec::new(),
            path: PathMatch::PathPrefix("/".to_owned()),
            method: None,
            query: Vec::new(),
        },
    );
    let mut backends: Vec<RouteBackendReference> = Vec::new();
    backends.push(
        RouteBackendReference {
            weight: 1,
            backend: BackendReference::Service {
                name: NamespacedHostname {
                    namespace: svc_namespace.to_owned(),
                    hostname: svc_hostname.to_owned(),
                },
                port: SERVICE_PORT,
            },
            inline_policies: Vec::new(),
        },
    );
    Route {
        key: "route".to_owned(),
        service_key: None,
        name: RouteName {
            name: "route".to_owned(),
            namespace: String::new(),
            rule_name: None,
            kind: None,
        },
        hostnames: Vec::new(),
        matches,
        inline_policies: Vec::new(),
        backends,
    }
}

/// A bind on any port of the local address, whose one listener has the one
/// route `route`.
pub fn activation_bind(route: Route) -> (bind: Bind)
    ensures
        bind.key@ == BIND_KEY@,
        bind.address.ip == IpAddress::V4([127, 0, 0, 1]),
        bind.address.port == 0,
        bind.protocol == BindProtocol::http,
        bind.tunnel_protocol == TunnelProtocol::Direct,
        bind.listeners@.dom() == set![LISTENER_KEY@],
        ({
            let listener = bind.listeners@[LISTENER_KEY@];
            &&& listener.key@ == LISTENER_KEY@
            &&& listener.name@.len() == 0
            &&& listener.hostname@.len() == 0
            &&& listener.protocol == ListenerProtocol::HTTP
            &&& listener.tcp_routes.routes@.len() == 0
            &&& listener.routes.well_formed()
            &&& listener.routes.routes().len() == 1
            &&& *listener.routes.routes()[0].route == route
            &&& listener.routes.routes()[0].created == 0
        }),
{
    let mut routes: Vec<Route> = Vec::new();
    routes.push(route);
    let listener = Listener {
        key: LISTENER_KEY.to_owned(),
        name: String::new(),
        hostname: String::new(),
        protocol: ListenerProtocol::HTTP,
        tcp_routes: TcpRouteSet { routes: Vec::new() },
        routes: RouteSet::from_list(routes),
    };
    let ghost made = listener;
    let mut listeners: Vec<Listener> = Vec::new();
    listeners.push(listener);
    assert(by_key(listeners@.drop_last()) == Map::<Seq<char>, Listener>::empty());
    let listeners = ListenerSet::from_list(listeners);
    assert(listeners@ == map![LISTENER_KEY@ => made]);
    Bind {
        key: BIND_KEY.to_owned(),
        address: SocketAddress { ip: IpAddress::V4([127, 0, 0, 1]), port: 0 },
        listeners,
        protocol: BindProtocol::http,
        tunnel_protocol: TunnelProtocol::Direct,
    }
}

/// The policy that has the scaler at `scaler_addr` called for a request to the
/// service, and then an endpoint waited for, for `ready_timeout` at most.
pub fn activation_targeted_policy(
    svc_hostname: &str,
    svc_namespace: &str,
    scaler_addr: SocketAddress,
    ready_timeout: std::time::Duration,
) -> (policy: TargetedPolicy)
    ensures
        policy.key@ == "activation"@,
        policy.name is None,
        policy.target matches PolicyTarget::Backend(
            BackendTarget::Service { hostname, namespace, port },
        ) && hostname@ == svc_hostname@ && namespace@ == svc_namespace@ && port == Some(
            SERVICE_PORT,
        ),
        policy.policy == PolicyType::Backend(
            BackendPolicy::Activation(
                ActivationPolicy {
                    backend: SimpleBackendReference::InlineBackend(Target::Address(scaler_addr)),
                    ready_timeout,
                },
            ),
        ),
{
    TargetedPolicy {
        key: "activation".to_owned(),
        name: None,
        target: PolicyTarget::Backend(
            BackendTarget::Service {
                hostname: svc_hostname.to_owned(),
                namespace: svc_namespace.to_owned(),
                port: Some(SERVICE_PORT),
            },
        ),
        policy: PolicyType::Backend(
            BackendPolicy::Activation(
                ActivationPolicy {
                    backend: SimpleBackendReference::InlineBackend(Target::Address(scaler_addr)),
                    ready_timeout,
                },
            ),
        ),
    }
}

} // verus!
