use std::sync::Arc;

use vstd::prelude::*;

use crate::agent::{BackendReference, PathMatch, Route, RouteBackendReference, RouteName};
use crate::discovery::{Service, SocketAddress};
use crate::hostname::{host_matches, hosts_view, HostnameMatch, HostnameMatchView};
use crate::listener::Listener;
use crate::matching::{accepts, asks_for_query, matches_request, RequestMatchCtx};
use crate::precedence::{is_candidate, match_at, precedes, Candidate, ListedRoute};
use crate::request::{get_host, Request};
use crate::route_set::{in_precedence_order, is_candidate_for, is_ranking, RouteSet};
use crate::stores::Stores;

verus! {

/// The first of `order` that accepts `request`.
pub open spec fn first_accepting(
    routes: Seq<ListedRoute>,
    order: Seq<Candidate>,
    request: Request,
) -> Option<Candidate>
    decreases order.len(),
{
    if order.len() == 0 {
        None
    } else if accepts(match_at(routes, order[0]), request) {
        Some(order[0])
    } else {
        first_accepting(routes, order.drop_first(), request)
    }
}

/// The match of `set` that takes `request`, if `hosts` are tried in turn: the
/// first one that accepts it among those for the first of `hosts`, else among
/// those for the second, and so on.
pub open spec fn taking(
    set: RouteSet,
    hosts: Seq<HostnameMatchView>,
    request: Request,
) -> Option<Candidate>
    decreases hosts.len(),
{
    if hosts.len() == 0 {
        None
    } else {
        match first_accepting(set.routes(), set.candidates(hosts[0]), request) {
            Some(c) => Some(c),
            None => taking(set, hosts.drop_first(), request),
        }
    }
}

/// Whether a query parameter is asked for before the first of `order` that
/// accepts `request` is found.
pub open spec fn query_asked(
    routes: Seq<ListedRoute>,
    order: Seq<Candidate>,
    request: Request,
) -> bool
    decreases order.len(),
{
    if order.len() == 0 {
        false
    } else if asks_for_query(match_at(routes, order[0]), request) {
        true
    } else if accepts(match_at(routes, order[0]), request) {
        false
    } else {
        query_asked(routes, order.drop_first(), request)
    }
}

/// Whether a query parameter is asked for before the match of `set` that takes
/// `request` is found, if `hosts` are tried in turn.
pub open spec fn query_asked_by(
    set: RouteSet,
    hosts: Seq<HostnameMatchView>,
    request: Request,
) -> bool
    decreases hosts.len(),
{
    if hosts.len() == 0 {
        false
    } else if query_asked(set.routes(), set.candidates(hosts[0]), request) {
        true
    } else if first_accepting(set.routes(), set.candidates(hosts[0]), request) is Some {
        false
    } else {
        query_asked_by(set, hosts.drop_first(), request)
    }
}

/// Whether `c` is the match of `set` that a request to `hosts` is for: it accepts
/// the request; no match for more specific hosts does; and it takes precedence
/// over all others for the same hosts that accept the request.
pub open spec fn is_best(
    set: RouteSet,
    hosts: Seq<HostnameMatchView>,
    request: Request,
    c: Candidate,
) -> bool {
    exists|k: int|
        0 <= k < hosts.len() && is_best_for(
            set.routes(),
            #[trigger] hosts[k],
            request,
            c,
        ) && none_accepts(set, hosts.take(k), request)
}

/// Whether `c` is a match for these hosts that accepts `request` and takes
/// precedence over all others for these hosts that do.
pub open spec fn is_best_for(
    routes: Seq<ListedRoute>,
    hosts: HostnameMatchView,
    request: Request,
    c: Candidate,
) -> bool {
    &&& is_candidate_for(routes, c, hosts)
    &&& accepts(match_at(routes, c), request)
    &&& forall|d: Candidate|
        #![trigger match_at(routes, d)]
        d != c && is_candidate_for(routes, d, hosts) && accepts(match_at(routes, d), request)
            ==> precedes(routes, c, d)
}

/// Whether no match of `set` for any of `hosts` accepts `request`.
pub open spec fn none_accepts(
    set: RouteSet,
    hosts: Seq<HostnameMatchView>,
    request: Request,
) -> bool {
    forall|k: int, d: Candidate|
        #![trigger hosts[k], match_at(set.routes(), d)]
        0 <= k < hosts.len() && is_candidate_for(set.routes(), d, hosts[k]) ==> !accepts(
            match_at(set.routes(), d),
            request,
        )
}

/// Whether the match of `set` that takes `request` is the best one, and one takes
/// it if any accepts it.
pub open spec fn is_best_choice(
    set: RouteSet,
    hosts: Seq<HostnameMatchView>,
    request: Request,
) -> bool {
    match taking(set, hosts, request) {
        Some(c) => is_best(set, hosts, request, c),
        None => none_accepts(set, hosts, request),
    }
}

/// The first that accepts a request is among those tried, and takes precedence
/// over the others that accept it. Where there is no first one, none does.
proof fn lemma_first_accepting(routes: Seq<ListedRoute>, order: Seq<Candidate>, request: Request)
    requires
        in_precedence_order(routes, order),
    ensures
        match first_accepting(routes, order, request) {
            Some(c) => {
                &&& order.contains(c)
                &&& accepts(match_at(routes, c), request)
                &&& forall|d: Candidate|
                    #![trigger order.contains(d)]
                    d != c && order.contains(d) && accepts(match_at(routes, d), request)
                        ==> precedes(routes, c, d)
            },
            None => forall|d: Candidate| #[trigger]
                order.contains(d) ==> !accepts(match_at(routes, d), request),
        },
    decreases order.len(),
{
    if order.len() > 0 {
        let rest = order.drop_first();
        assert forall|d: Candidate| #[trigger] order.contains(d) implies d == order[0]
            || rest.contains(d) by {
            let k = order.index_of(d);
            if k > 0 {
                assert(rest[k - 1] == d);
            }
        }
        if accepts(match_at(routes, order[0]), request) {
            assert forall|d: Candidate| #[trigger] order.contains(d) && d != order[0] implies precedes(
                routes,
                order[0],
                d,
            ) by {
                let k = order.index_of(d);
                assert(precedes(routes, order[0], order[k]));
            }
        } else {
            assert(in_precedence_order(routes, rest)) by {
                assert forall|i: int, j: int| 0 <= i < j < rest.len() implies precedes(
                    routes,
                    #[trigger] rest[i],
                    #[trigger] rest[j],
                ) by {
                    assert(precedes(routes, order[i + 1], order[j + 1]));
                }
            }
            lemma_first_accepting(routes, rest, request);
            if let Some(c) = first_accepting(routes, rest, request) {
                assert(order[rest.index_of(c) + 1] == c);
            }
        }
    }
}

/// The match that takes a request is the best one: it accepts the request, no
/// match for more specific hosts does, and it takes precedence over all others
/// for the same hosts that do. A request is left untaken only where no match for
/// any of the hosts accepts it.
pub proof fn law_best_route_is_taken(
    set: RouteSet,
    hosts: Seq<HostnameMatchView>,
    request: Request,
)
    requires
        set.well_formed(),
    ensures
        is_best_choice(set, hosts, request),
    decreases hosts.len(),
{
    if hosts.len() > 0 {
        let routes = set.routes();
        let order = set.candidates(hosts[0]);
        assert(is_ranking(routes, order, hosts[0]));
        lemma_first_accepting(routes, order, request);
        match first_accepting(routes, order, request) {
            Some(c) => {
                assert(is_candidate_for(routes, c, hosts[0]));
                assert forall|d: Candidate|
                    #![trigger match_at(routes, d)]
                    d != c && is_candidate_for(routes, d, hosts[0]) && accepts(
                        match_at(routes, d),
                        request,
                    ) implies precedes(routes, c, d) by {
                    assert(order.contains(d));
                }
                assert(is_best_for(routes, hosts[0], request, c));
                assert(none_accepts(set, hosts.take(0), request));
            },
            None => {
                let rest = hosts.drop_first();
                law_best_route_is_taken(set, rest, request);
                assert forall|d: Candidate| is_candidate_for(routes, d, hosts[0]) implies !accepts(
                    #[trigger] match_at(routes, d),
                    request,
                ) by {
                    assert(order.contains(d));
                }
                match taking(set, rest, request) {
                    Some(c) => {
                        let k = choose|k: int|
                            0 <= k < rest.len() && is_best_for(
                                routes,
                                #[trigger] rest[k],
                                request,
                                c,
                            ) && none_accepts(set, rest.take(k), request);
                        assert(hosts[k + 1] == rest[k]);
                        assert forall|l: int, d: Candidate|
                            #![trigger hosts.take(k + 1)[l], match_at(routes, d)]
                            0 <= l < hosts.take(k + 1).len() && is_candidate_for(
                                routes,
                                d,
                                hosts.take(k + 1)[l],
                            ) implies !accepts(match_at(routes, d), request) by {
                            if l > 0 {
                                assert(rest.take(k)[l - 1] == hosts.take(k + 1)[l]);
                            }
                        }
                    },
                    None => {
                        assert forall|l: int, d: Candidate|
                            #![trigger hosts[l], match_at(routes, d)]
                            0 <= l < hosts.len() && is_candidate_for(
                                routes,
                                d,
                                hosts[l],
                            ) implies !accepts(match_at(routes, d), request) by {
                            if l > 0 {
                                assert(rest[l - 1] == hosts[l]);
                            }
                        }
                    },
                }
            },
        }
    }
}

/// Whether `found` is the route of `set` that `c` stands for, with its path.
pub open spec fn is_route_of(set: RouteSet, c: Candidate, found: (Arc<Route>, PathMatch)) -> bool {
    &&& found.0 == set.routes()[c.route as int].route
    &&& found.1 == match_at(set.routes(), c).path
}

/// Whether `found` is what `c` stands for in `set`, if it stands for anything.
pub open spec fn is_choice(
    set: RouteSet,
    c: Option<Candidate>,
    found: Option<(Arc<Route>, PathMatch)>,
) -> bool {
    match c {
        Some(c) => found matches Some(f) && is_route_of(set, c, f),
        None => found is None,
    }
}

/// Whether `route` is the one that sends all requests to `port` of `service`.
pub open spec fn is_default_route(route: Route, service: Service, port: u16) -> bool {
    &&& route.key@ == "_waypoint-default"@
    &&& route.service_key matches Some(key) && key@ == service.spec_namespaced_hostname()
    &&& route.name.name@ == "_waypoint-default"@
    &&& route.name.namespace@ == service.namespace@
    &&& route.name.rule_name is None
    &&& route.name.kind is None
    &&& route.hostnames@.len() == 0
    &&& route.matches@.len() == 0
    &&& route.inline_policies@.len() == 0
    &&& route.backends@.len() == 1
    &&& route.backends@[0].weight == 1
    &&& route.backends@[0].backend matches BackendReference::Service { name, port: p } && name@
        == service.spec_namespaced_hostname() && p == port
    &&& route.backends@[0].inline_policies@.len() == 0
}

/// What becomes of a request.
pub enum Selection {
    /// No route takes it.
    Rejected,
    /// This match takes it, among the routes it is held against.
    Taken(Candidate),
    /// It goes to this service, to which it was sent.
    Default(Service),
}

/// Whether `request` came to a waypoint of a service that has routes attached to
/// it.
pub open spec fn has_service_routes(stores: Stores, request: Request) -> bool {
    request.waypoint matches Some(waypoint) && stores@.contains_key(
        waypoint.0.spec_namespaced_hostname(),
    )
}

/// The routes that `request` is held against: those attached to its service,
/// or, where it has none, those of the listener.
pub open spec fn routes_for(stores: Stores, listener: Listener, request: Request) -> RouteSet {
    if has_service_routes(stores, request) {
        stores@[(request.waypoint->0).0.spec_namespaced_hostname()]
    } else {
        listener.routes
    }
}

/// The hosts that are tried for `request`: those that take in the hostname of
/// its service, or, where it has none, the host that it names.
pub open spec fn hosts_for(request: Request) -> Seq<HostnameMatchView> {
    match request.waypoint {
        Some(waypoint) => host_matches(waypoint.0.hostname@),
        None => host_matches(request.uri.host->0@),
    }
}

/// What becomes of `request`, by the rules that `select_best_route` goes by.
pub open spec fn selection(stores: Stores, listener: Listener, request: Request) -> Selection {
    if request.uri.host is None {
        Selection::Rejected
    } else {
        match taking(routes_for(stores, listener, request), hosts_for(request), request) {
            Some(c) => Selection::Taken(c),
            None => if request.waypoint is Some && !has_service_routes(stores, request) {
                Selection::Default(*(request.waypoint->0).0)
            } else {
                Selection::Rejected
            },
        }
    }
}

/// The first of `order` that accepts `request`, off which `ctx` was read.
fn find_accepting(
    set: &RouteSet,
    order: &Vec<Candidate>,
    ctx: &mut RequestMatchCtx<'_>,
    request: &Request,
) -> (found: Option<Candidate>)
    requires
        old(ctx).agrees_with(*request),
        forall|i: int| 0 <= i < order@.len() ==> is_candidate(set.routes(), #[trigger] order@[i]),
    ensures
        found == first_accepting(set.routes(), order@, *request),
        found matches Some(c) ==> is_candidate(set.routes(), c),
        final(ctx).agrees_with(*request),
        old(ctx).left(query_asked(set.routes(), order@, *request), *final(ctx)),
{
    let mut i: usize = 0;
    let ghost mut asked = false;
    assert(order@.skip(0) == order@);
    while i < order.len()
        invariant
            i <= order.len(),
            forall|k: int|
                0 <= k < order@.len() ==> is_candidate(set.routes(), #[trigger] order@[k]),
            first_accepting(set.routes(), order@, *request) == first_accepting(
                set.routes(),
                order@.skip(i as int),
                *request,
            ),
            ctx.agrees_with(*request),
            asked ==> query_asked(set.routes(), order@, *request),
            !asked ==> query_asked(set.routes(), order@, *request) == query_asked(
                set.routes(),
                order@.skip(i as int),
                *request,
            ),
            old(ctx).left(asked, *ctx),
        decreases order.len() - i,
    {
        let c = order[i];
        assert(is_candidate(set.routes(), order@[i as int]));
        proof {
            asked = asked || asks_for_query(match_at(set.routes(), c), *request);
        }
        if matches_request(set.matcher(c), ctx, request) {
            return Some(c);
        }
        assert(order@.skip(i as int).drop_first() == order@.skip(i + 1));
        i += 1;
    }
    None
}

/// The route of `set` that takes `request`, off which `ctx` was read, if
/// `hosts` are tried in turn. The query string is not parsed unless a match that
/// is tried asks for a parameter, and not parsed again if it has been.
pub fn find_route(
    set: &RouteSet,
    hosts: &Vec<HostnameMatch>,
    ctx: &mut RequestMatchCtx<'_>,
    request: &Request,
) -> (found: Option<(Arc<Route>, PathMatch)>)
    requires
        old(ctx).agrees_with(*request),
    ensures
        is_choice(*set, taking(*set, hosts_view(hosts@), *request), found),
        is_best_choice(*set, hosts_view(hosts@), *request),
        hosts@.len() > 0 ==> set.well_formed(),
        final(ctx).agrees_with(*request),
        old(ctx).left(query_asked_by(*set, hosts_view(hosts@), *request), *final(ctx)),
{
    let mut i: usize = 0;
    let ghost mut asked = false;
    let ghost all = hosts_view(hosts@);
    assert(all.skip(0) == all);
    while i < hosts.len()
        invariant
            i <= hosts.len(),
            all == hosts_view(hosts@),
            i > 0 ==> set.well_formed(),
            taking(*set, all, *request) == taking(*set, all.skip(i as int), *request),
            ctx.agrees_with(*request),
            asked ==> query_asked_by(*set, all, *request),
            !asked ==> query_asked_by(*set, all, *request) == query_asked_by(
                *set,
                all.skip(i as int),
                *request,
            ),
            old(ctx).left(asked, *ctx),
        decreases hosts.len() - i,
    {
        assert(all.skip(i as int).drop_first() == all.skip(i + 1));
        assert(all.skip(i as int)[0] == hosts@[i as int]@);
        if let Some(order) = set.get_hostname(&hosts[i]) {
            assert forall|k: int| 0 <= k < order@.len() implies is_candidate(
                set.routes(),
                #[trigger] order@[k],
            ) by {
                assert(set.candidates(hosts@[i as int]@).contains(order@[k]));
            }
            proof {
                asked = asked || query_asked(set.routes(), order@, *request);
            }
            if let Some(c) = find_accepting(set, order, ctx, request) {
                proof {
                    law_best_route_is_taken(*set, all, *request);
                }
                return Some((set.route(c), set.matcher(c).path.clone()));
            }
        }
        i += 1;
    }
    proof {
        if hosts@.len() > 0 {
            law_best_route_is_taken(*set, all, *request);
        }
    }
    None
}

/// The route that sends all requests to `port` of `service`.
pub fn default_route(service: &Service, port: u16) -> (route: Route)
    ensures
        is_default_route(route, *service, port),
{
    let mut backends: Vec<RouteBackendReference> = Vec::new();
    backends.push(
        RouteBackendReference {
            weight: 1,
            backend: BackendReference::Service { name: service.namespaced_hostname(), port },
            inline_policies: Vec::new(),
        },
    );
    Route {
        key: "_waypoint-default".to_owned(),
        service_key: Some(service.namespaced_hostname()),
        name: RouteName {
            name: "_waypoint-default".to_owned(),
            namespace: service.namespace.clone(),
            rule_name: None,
            kind: None,
        },
        hostnames: Vec::new(),
        matches: Vec::new(),
        inline_policies: Vec::new(),
        backends,
    }
}

/// The route that takes `request`, which came to `listener` and was sent to
/// `dst`, with the path it was taken by.
///
/// The hosts that routes are for are tried from the most specific one on.
/// Within the same hosts, precedence goes
///
/// * to an exact path,
/// * to the prefix with the largest number of characters,
/// * to a match that asks for a method,
/// * to the largest number of headers asked for,
/// * to the largest number of query parameters asked for,
/// * to the oldest route,
/// * to the route that comes first in alphabetical order by
///   `{namespace}/{name}`,
/// * to the match that comes first in the list.
///
/// A request to a waypoint is taken by the routes that are attached to its
/// service; where there are such routes and none takes it, it is rejected.
/// Where there are none, the routes of the listener take it, by the hostname of
/// the service, and where none of these does, it goes to the service itself. A
/// request that names no host is rejected.
pub fn select_best_route(
    stores: &Stores,
    dst: SocketAddress,
    listener: &Listener,
    request: &Request,
) -> (found: Option<(Arc<Route>, PathMatch)>)
    ensures
        match selection(*stores, *listener, *request) {
            Selection::Rejected => found is None,
            Selection::Taken(c) => found matches Some(f) && is_route_of(
                routes_for(*stores, *listener, *request),
                c,
                f,
            ),
            Selection::Default(service) => found matches Some(f) && is_default_route(
                *f.0,
                service,
                dst.port,
            ) && (f.1 matches PathMatch::PathPrefix(prefix) && prefix@ == "/"@),
        },
        request.uri.host is Some ==> is_best_choice(
            routes_for(*stores, *listener, *request),
            hosts_for(*request),
            *request,
        ),
        request.uri.host is Some ==> routes_for(*stores, *listener, *request).well_formed(),
{
    let host = match get_host(request) {
        Ok(host) => host,
        Err(_) => {
            return None;
        },
    };
    let mut ctx = RequestMatchCtx::from_request(request);
    match &request.waypoint {
        Some(waypoint) => {
            let service: &Service = &waypoint.0;
            let hosts = HostnameMatch::all_matches(service.hostname.as_str());
            if let Some(set) = stores.get_service_routes(&service.namespaced_hostname()) {
                return find_route(set, &hosts, &mut ctx, request);
            }
            match find_route(&listener.routes, &hosts, &mut ctx, request) {
                Some(found) => Some(found),
                None => Some(
                    (
                        Arc::new(default_route(service, dst.port)),
                        PathMatch::PathPrefix("/".to_owned()),
                    ),
                ),
            }
        },
        None => {
            let hosts = HostnameMatch::all_matches(host);
            find_route(&listener.routes, &hosts, &mut ctx, request)
        },
    }
}

} // verus!
