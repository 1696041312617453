//! Which route takes a request.

use std::sync::Arc;

use vstd::prelude::*;

use super::{is_domain_after, law_hosts_are_tried_by_specificity};
use crate::agent::{BackendReference, PathMatch, Route};
use crate::discovery::{NamespacedHostnameView, Service};
use crate::hostname::{host_matches, hostname_of, HostnameMatchView};
use crate::listener::Listener;
use crate::matching::{accepts, asks_for_query};
use crate::precedence::{match_at, precedes, Candidate, ListedRoute};
use crate::request::Request;
use crate::route::{
    first_accepting, is_best, is_best_for, is_choice, is_default_route, is_route_of,
    law_best_route_is_taken, none_accepts, query_asked, query_asked_by, selection, taking,
    Selection,
};
use crate::route_set::{is_candidate_for, is_ranking, route_hosts, RouteSet};
use crate::stores::Stores;

verus! {

/// A hostname that is the host, or an asterisk and what follows from one of the
/// dots of the host on, stands for hosts that are tried for the host.
proof fn lemma_hostname(text: Seq<char>, host: Seq<char>, i: int)
    ensures
        text == host && !(host.len() >= 2 && host[0] == '*' && host[1] == '.') ==> hostname_of(text)
            == HostnameMatchView::Exact(host),
        text == host && host.len() >= 2 && host[0] == '*' && host[1] == '.' ==> hostname_of(text)
            == HostnameMatchView::Wildcard(host.skip(2)),
        0 <= i < host.len() && text == seq!['*', '.'] + host.skip(i + 1) ==> hostname_of(text)
            == HostnameMatchView::Wildcard(host.skip(i + 1)),
{
    reveal_strlit("*.");
    assert("*."@ == seq!['*', '.']);
    if text == host {
        if host.len() >= 2 && host[0] == '*' && host[1] == '.' {
            assert(text.take(2) == "*."@);
        } else if host.len() >= 2 {
            assert(text.take(2)[0] == host[0] && text.take(2)[1] == host[1]);
        }
    }
    if 0 <= i < host.len() && text == seq!['*', '.'] + host.skip(i + 1) {
        assert(text.take(2) == "*."@);
        assert(text.skip(2) == host.skip(i + 1));
    }
}

/// A hostname that stands for a host is that host; one that stands for the hosts
/// below a domain is an asterisk, a dot and the domain.
proof fn lemma_hostname_back(text: Seq<char>)
    ensures
        hostname_of(text) matches HostnameMatchView::Exact(host) ==> text == host,
        hostname_of(text) matches HostnameMatchView::Wildcard(domain) ==> text == seq!['*', '.']
            + domain,
        hostname_of(text) !is Any,
{
    reveal_strlit("*.");
    assert("*."@ == seq!['*', '.']);
    if hostname_of(text) is Wildcard {
        assert(text == text.take(2) + text.skip(2));
    }
}

/// The hosts that a route in a list is for.
spec fn listed_hosts(listed: ListedRoute) -> Seq<HostnameMatchView> {
    route_hosts(*listed.route)
}

/// A route is for every host where it names none, and otherwise for the hosts that
/// its hostnames stand for.
proof fn lemma_route_hosts(listed: ListedRoute, j: int)
    ensures
        listed.route.hostnames@.len() == 0 ==> listed_hosts(listed).contains(HostnameMatchView::Any),
        0 <= j < listed.route.hostnames@.len() ==> listed_hosts(listed).contains(
            hostname_of(listed.route.hostnames@[j]@),
        ),
        listed_hosts(listed).contains(HostnameMatchView::Any) ==> listed.route.hostnames@.len() == 0,
{
    if listed.route.hostnames@.len() == 0 {
        assert(listed_hosts(listed)[0] == HostnameMatchView::Any);
    } else {
        if 0 <= j < listed.route.hostnames@.len() {
            assert(listed_hosts(listed)[j] == hostname_of(listed.route.hostnames@[j]@));
        }
        if listed_hosts(listed).contains(HostnameMatchView::Any) {
            let k = listed_hosts(listed).index_of(HostnameMatchView::Any);
            lemma_hostname_back(listed.route.hostnames@[k]@);
        }
    }
}

/// A route that is for a host or for the hosts below a domain names it.
proof fn lemma_route_names(listed: ListedRoute, form: HostnameMatchView)
    requires
        listed_hosts(listed).contains(form),
        form !is Any,
    ensures
        form matches HostnameMatchView::Exact(host) ==> exists|j: int|
            0 <= j < listed.route.hostnames@.len() && (#[trigger] listed.route.hostnames@[j])@ == host,
        form matches HostnameMatchView::Wildcard(domain) ==> exists|j: int|
            0 <= j < listed.route.hostnames@.len() && (#[trigger] listed.route.hostnames@[j])@ == seq!['*', '.']
                + domain,
{
    let k = listed_hosts(listed).index_of(form);
    if listed.route.hostnames@.len() > 0 {
        lemma_hostname_back(listed.route.hostnames@[k]@);
        assert(listed_hosts(listed)[k] == hostname_of(listed.route.hostnames@[k]@));
    }
}

/// A match that accepts a request and is for one of the hosts that are tried has
/// the request taken: by itself or one that goes before it for the same hosts, or
/// by one for hosts that are tried before.
proof fn lemma_taken(
    set: RouteSet,
    hosts: Seq<HostnameMatchView>,
    request: Request,
    d: Candidate,
    l: int,
) -> (k: int)
    requires
        set.well_formed(),
        0 <= l < hosts.len(),
        is_candidate_for(set.routes(), d, hosts[l]),
        accepts(match_at(set.routes(), d), request),
    ensures
        taking(set, hosts, request) matches Some(c) && {
            &&& 0 <= k <= l
            &&& is_candidate_for(set.routes(), c, hosts[k])
            &&& accepts(match_at(set.routes(), c), request)
            &&& hosts[k] == hosts[l] ==> c == d || precedes(set.routes(), c, d)
        },
{
    law_best_route_is_taken(set, hosts, request);
    match taking(set, hosts, request) {
        Some(c) => {
            assert(is_best(set, hosts, request, c));
            let k = choose|k: int|
                0 <= k < hosts.len() && is_best_for(
                    set.routes(),
                    #[trigger] hosts[k],
                    request,
                    c,
                ) && none_accepts(set, hosts.take(k), request);
            if k > l {
                assert(hosts.take(k)[l] == hosts[l]);
            }
            assert(c == d || hosts[k] != hosts[l] || precedes(set.routes(), c, d)) by {
                if c != d && hosts[k] == hosts[l] {
                    assert(accepts(match_at(set.routes(), d), request));
                }
            }
            k
        },
        None => {
            assert(none_accepts(set, hosts, request));
            assert(hosts[l] == hosts[l]);
            assert(false);
            0
        },
    }
}

/// The place among the hosts that are tried for `host` of the domain after the dot
/// at `i`.
proof fn lemma_place(host: Seq<char>, i: int) -> (l: int)
    requires
        0 <= i < host.len(),
        host[i] == '.',
    ensures
        0 < l < host_matches(host).len() - 1,
        host_matches(host)[l] == HostnameMatchView::Wildcard(host.skip(i + 1)),
{
    law_hosts_are_tried_by_specificity(host);
    let hosts = host_matches(host);
    let l = hosts.index_of(HostnameMatchView::Wildcard(host.skip(i + 1)));
    l
}

/// What the hosts are that are tried at a place.
proof fn lemma_at(host: Seq<char>, k: int) -> (i: int)
    requires
        0 < k < host_matches(host).len() - 1,
    ensures
        0 <= i < host.len(),
        host[i] == '.',
        host_matches(host)[k] == HostnameMatchView::Wildcard(host.skip(i + 1)),
{
    law_hosts_are_tried_by_specificity(host);
    assert(is_domain_after(host, host_matches(host)[k], host.len() as int));
    choose|i: int|
        0 <= i < host.len() && #[trigger] host[i] == '.' && host_matches(host)[k]
            == HostnameMatchView::Wildcard(host.skip(i + 1))
}

/// Where hosts are tried for `host`, a request is taken if a match accepts it whose
/// route names no host, or names the host, or an asterisk and what follows from one
/// of the dots of the host on.
pub proof fn law_match_for_the_host_is_found(
    set: RouteSet,
    host: Seq<char>,
    request: Request,
    d: Candidate,
    j: int,
    i: int,
)
    requires
        set.well_formed(),
        d.route < set.routes().len(),
        d.matcher < set.routes()[d.route as int].route.matches@.len(),
        accepts(set.routes()[d.route as int].route.matches@[d.matcher as int], request),
        ({
            let names = set.routes()[d.route as int].route.hostnames@;
            ||| names.len() == 0
            ||| 0 <= j < names.len() && names[j]@ == host
            ||| 0 <= j < names.len() && 0 <= i < host.len() && host[i] == '.' && names[j]@ == seq![
                '*',
                '.',
            ] + host.skip(i + 1)
        }),
    ensures
        taking(set, host_matches(host), request) is Some,
{
    let hosts = host_matches(host);
    let names = set.routes()[d.route as int].route.hostnames@;
    law_hosts_are_tried_by_specificity(host);
    lemma_route_hosts(set.routes()[d.route as int], j);
    lemma_hostname(names[j]@, host, i);
    let l = if names.len() == 0 {
        hosts.len() - 1
    } else if names[j]@ == host && !(host.len() >= 2 && host[0] == '*' && host[1] == '.') {
        0
    } else if names[j]@ == host {
        lemma_place(host, 1)
    } else {
        lemma_place(host, i)
    };
    assert(is_candidate_for(set.routes(), d, hosts[l]));
    lemma_taken(set, hosts, request, d, l);
}

/// A request that names a host is taken if one of the routes that it is held
/// against accepts it and is for its host. The routes are those attached to the
/// service of the waypoint, where there are any, and otherwise those of the
/// listener. The host is that of the service, where the request came to a waypoint,
/// and otherwise the one that the request names. A route is for it that names no
/// host, or names this host, or an asterisk and what follows from one of the dots
/// of the host on.
pub proof fn law_route_for_the_host_takes(
    stores: Stores,
    listener: Listener,
    request: Request,
    set: RouteSet,
    host: Seq<char>,
    d: Candidate,
    j: int,
    i: int,
)
    requires
        request.uri.host is Some,
        match request.waypoint {
            Some(waypoint) => {
                let key = NamespacedHostnameView {
                    namespace: waypoint.0.namespace@,
                    hostname: waypoint.0.hostname@,
                };
                &&& host == waypoint.0.hostname@
                &&& stores@.contains_key(key) ==> set == stores@[key]
                &&& !stores@.contains_key(key) ==> set == listener.routes
            },
            None => host == request.uri.host->0@ && set == listener.routes,
        },
        set.well_formed(),
        d.route < set.routes().len(),
        d.matcher < set.routes()[d.route as int].route.matches@.len(),
        accepts(set.routes()[d.route as int].route.matches@[d.matcher as int], request),
        ({
            let names = set.routes()[d.route as int].route.hostnames@;
            ||| names.len() == 0
            ||| 0 <= j < names.len() && names[j]@ == host
            ||| 0 <= j < names.len() && 0 <= i < host.len() && host[i] == '.' && names[j]@ == seq![
                '*',
                '.',
            ] + host.skip(i + 1)
        }),
    ensures
        selection(stores, listener, request) is Taken,
{
    law_match_for_the_host_is_found(set, host, request, d, j, i);
}

/// What takes a request accepts it and is for its host: it is a match of one of the
/// routes that the request is held against, and that route names no host, or names
/// the host of the request, or an asterisk and what follows from one of the dots of
/// the host on.
pub proof fn law_taking_route_is_for_the_host(
    stores: Stores,
    listener: Listener,
    request: Request,
    set: RouteSet,
    host: Seq<char>,
    c: Candidate,
)
    requires
        match request.waypoint {
            Some(waypoint) => {
                let key = NamespacedHostnameView {
                    namespace: waypoint.0.namespace@,
                    hostname: waypoint.0.hostname@,
                };
                &&& host == waypoint.0.hostname@
                &&& stores@.contains_key(key) ==> set == stores@[key]
                &&& !stores@.contains_key(key) ==> set == listener.routes
            },
            None => host == request.uri.host->0@ && set == listener.routes,
        },
        set.well_formed(),
        selection(stores, listener, request) == Selection::Taken(c),
    ensures
        request.uri.host is Some,
        c.route < set.routes().len(),
        c.matcher < set.routes()[c.route as int].route.matches@.len(),
        accepts(set.routes()[c.route as int].route.matches@[c.matcher as int], request),
        ({
            let names = set.routes()[c.route as int].route.hostnames@;
            ||| names.len() == 0
            ||| exists|j: int| 0 <= j < names.len() && (#[trigger] names[j])@ == host
            ||| exists|j: int, i: int|
                0 <= j < names.len() && 0 <= i < host.len() && #[trigger] host[i] == '.' && (
                #[trigger] names[j])@ == seq!['*', '.'] + host.skip(i + 1)
        }),
{
    let hosts = host_matches(host);
    let routes = set.routes();
    law_hosts_are_tried_by_specificity(host);
    law_best_route_is_taken(set, hosts, request);
    assert(is_best(set, hosts, request, c));
    let k = choose|k: int|
        0 <= k < hosts.len() && is_best_for(routes, #[trigger] hosts[k], request, c)
            && none_accepts(set, hosts.take(k), request);
    assert(is_candidate_for(routes, c, hosts[k]));
    lemma_route_hosts(routes[c.route as int], 0);
    if hosts[k] !is Any {
        lemma_route_names(routes[c.route as int], hosts[k]);
        if 0 < k {
            let i = lemma_at(host, k);
            let names = routes[c.route as int].route.hostnames@;
            let j = choose|j: int|
                0 <= j < names.len() && (#[trigger] names[j])@ == seq!['*', '.'] + host.skip(i + 1);
            assert(host[i] == '.' && names[j]@ == seq!['*', '.'] + host.skip(i + 1));
        }
    }
}

/// Routes that name the host come before all others: where one of them accepts a
/// request, one of them takes it, and it takes precedence over the others that
/// accept it.
pub proof fn law_named_host_comes_first(
    set: RouteSet,
    host: Seq<char>,
    request: Request,
    d: Candidate,
    j: int,
)
    requires
        set.well_formed(),
        !(host.len() >= 2 && host[0] == '*' && host[1] == '.'),
        d.route < set.routes().len(),
        d.matcher < set.routes()[d.route as int].route.matches@.len(),
        accepts(set.routes()[d.route as int].route.matches@[d.matcher as int], request),
        0 <= j < set.routes()[d.route as int].route.hostnames@.len(),
        set.routes()[d.route as int].route.hostnames@[j]@ == host,
    ensures
        taking(set, host_matches(host), request) matches Some(c) && {
            let names = set.routes()[c.route as int].route.hostnames@;
            &&& exists|l: int| 0 <= l < names.len() && (#[trigger] names[l])@ == host
            &&& c == d || precedes(set.routes(), c, d)
        },
{
    let hosts = host_matches(host);
    law_hosts_are_tried_by_specificity(host);
    lemma_route_hosts(set.routes()[d.route as int], j);
    lemma_hostname(host, host, 0);
    assert(is_candidate_for(set.routes(), d, hosts[0]));
    lemma_taken(set, hosts, request, d, 0);
    let c = taking(set, hosts, request)->0;
    lemma_route_names(set.routes()[c.route as int], hosts[0]);
}

/// Of the routes for the domains that a host lies in, those for the longer domain
/// come first: where one for the domain after the dot at `i` accepts a request, it
/// is taken by one that names the host, or a domain after an earlier dot, or else
/// by one for the same domain that takes precedence over the others for that
/// domain that accept the request.
pub proof fn law_longer_domain_comes_first(
    set: RouteSet,
    host: Seq<char>,
    request: Request,
    d: Candidate,
    j: int,
    i: int,
)
    requires
        set.well_formed(),
        d.route < set.routes().len(),
        d.matcher < set.routes()[d.route as int].route.matches@.len(),
        accepts(set.routes()[d.route as int].route.matches@[d.matcher as int], request),
        0 <= j < set.routes()[d.route as int].route.hostnames@.len(),
        0 <= i < host.len(),
        host[i] == '.',
        set.routes()[d.route as int].route.hostnames@[j]@ == seq!['*', '.'] + host.skip(i + 1),
    ensures
        taking(set, host_matches(host), request) matches Some(c) && {
            let names = set.routes()[c.route as int].route.hostnames@;
            ||| exists|l: int| 0 <= l < names.len() && (#[trigger] names[l])@ == host
            ||| exists|l: int, e: int|
                0 <= l < names.len() && 0 <= e < i && #[trigger] host[e] == '.' && (
                #[trigger] names[l])@ == seq!['*', '.'] + host.skip(e + 1)
            ||| {
                &&& exists|l: int|
                    0 <= l < names.len() && (#[trigger] names[l])@ == seq!['*', '.'] + host.skip(
                        i + 1,
                    )
                &&& c == d || precedes(set.routes(), c, d)
            }
        },
{
    let hosts = host_matches(host);
    law_hosts_are_tried_by_specificity(host);
    lemma_route_hosts(set.routes()[d.route as int], j);
    lemma_hostname(set.routes()[d.route as int].route.hostnames@[j]@, host, i);
    let l = lemma_place(host, i);
    assert(is_candidate_for(set.routes(), d, hosts[l]));
    let k = lemma_taken(set, hosts, request, d, l);
    let c = taking(set, hosts, request)->0;
    lemma_route_names(set.routes()[c.route as int], hosts[k]);
    if 0 < k < l {
        let e = lemma_at(host, k);
        assert(hosts[k]->Wildcard_0.len() > hosts[l]->Wildcard_0.len());
        let names = set.routes()[c.route as int].route.hostnames@;
        let m = choose|m: int|
            0 <= m < names.len() && (#[trigger] names[m])@ == seq!['*', '.'] + host.skip(e + 1);
        assert(host[e] == '.' && names[m]@ == seq!['*', '.'] + host.skip(e + 1));
    }
}

/// Routes that name no host come last: where one of them accepts a request, it is
/// taken by one that names the host or a domain that it lies in, or else by one
/// without a host that takes precedence over the others without a host that accept
/// the request.
pub proof fn law_routes_without_a_host_come_last(
    set: RouteSet,
    host: Seq<char>,
    request: Request,
    d: Candidate,
)
    requires
        set.well_formed(),
        d.route < set.routes().len(),
        d.matcher < set.routes()[d.route as int].route.matches@.len(),
        accepts(set.routes()[d.route as int].route.matches@[d.matcher as int], request),
        set.routes()[d.route as int].route.hostnames@.len() == 0,
    ensures
        taking(set, host_matches(host), request) matches Some(c) && {
            let names = set.routes()[c.route as int].route.hostnames@;
            ||| exists|l: int| 0 <= l < names.len() && (#[trigger] names[l])@ == host
            ||| exists|l: int, e: int|
                0 <= l < names.len() && 0 <= e < host.len() && #[trigger] host[e] == '.' && (
                #[trigger] names[l])@ == seq!['*', '.'] + host.skip(e + 1)
            ||| names.len() == 0 && (c == d || precedes(set.routes(), c, d))
        },
{
    let hosts = host_matches(host);
    let last = hosts.len() - 1;
    law_hosts_are_tried_by_specificity(host);
    lemma_route_hosts(set.routes()[d.route as int], 0);
    assert(is_candidate_for(set.routes(), d, hosts[last]));
    let k = lemma_taken(set, hosts, request, d, last);
    let c = taking(set, hosts, request)->0;
    lemma_route_hosts(set.routes()[c.route as int], 0);
    if k < last {
        if k > 0 {
            assert(is_domain_after(host, hosts[k], host.len() as int));
        }
        lemma_route_names(set.routes()[c.route as int], hosts[k]);
        if 0 < k {
            let e = lemma_at(host, k);
            let names = set.routes()[c.route as int].route.hostnames@;
            let m = choose|m: int|
                0 <= m < names.len() && (#[trigger] names[m])@ == seq!['*', '.'] + host.skip(e + 1);
            assert(host[e] == '.' && names[m]@ == seq!['*', '.'] + host.skip(e + 1));
        }
    }
}

/// What takes a request is found by trying the hosts for the host of the request,
/// from the most specific one on, among the routes that the request is held
/// against: by the service of the waypoint, where it came to one, and by the host
/// that it names otherwise.
pub proof fn law_selection_goes_by_the_host(
    stores: Stores,
    listener: Listener,
    request: Request,
    set: RouteSet,
    host: Seq<char>,
)
    requires
        request.uri.host is Some,
        match request.waypoint {
            Some(waypoint) => {
                let key = NamespacedHostnameView {
                    namespace: waypoint.0.namespace@,
                    hostname: waypoint.0.hostname@,
                };
                &&& host == waypoint.0.hostname@
                &&& stores@.contains_key(key) ==> set == stores@[key]
                &&& !stores@.contains_key(key) ==> set == listener.routes
            },
            None => host == request.uri.host->0@ && set == listener.routes,
        },
    ensures
        match taking(set, host_matches(host), request) {
            Some(c) => selection(stores, listener, request) == Selection::Taken(c),
            None => selection(stores, listener, request) !is Taken,
        },
{
}

/// A request that no route takes is rejected, but for one that names a host and
/// came to the waypoint of a service without routes of its own: that one goes to
/// the service.
pub proof fn law_untaken_requests(stores: Stores, listener: Listener, request: Request)
    requires
        selection(stores, listener, request) !is Taken,
    ensures
        match request.waypoint {
            Some(waypoint) => {
                let key = NamespacedHostnameView {
                    namespace: waypoint.0.namespace@,
                    hostname: waypoint.0.hostname@,
                };
                if request.uri.host is Some && !stores@.contains_key(key) {
                    selection(stores, listener, request) == Selection::Default(*waypoint.0)
                } else {
                    selection(stores, listener, request) is Rejected
                }
            },
            None => selection(stores, listener, request) is Rejected,
        },
{
}

/// Only the routes that a request is held against count: where no routes are
/// attached to the service of a request, or it has none, what is attached to
/// services makes no difference; nor does what is attached to other services.
pub proof fn law_other_services_do_not_count(
    stores: Stores,
    others: Stores,
    listener: Listener,
    request: Request,
)
    requires
        request.waypoint matches Some(waypoint) ==> {
            let key = NamespacedHostnameView {
                namespace: waypoint.0.namespace@,
                hostname: waypoint.0.hostname@,
            };
            &&& stores@.contains_key(key) == others@.contains_key(key)
            &&& stores@.contains_key(key) ==> stores@[key] == others@[key]
        },
    ensures
        selection(stores, listener, request) == selection(others, listener, request),
{
}

/// Of a listener, only the routes count: not its name, its hostname or its key.
pub proof fn law_only_the_routes_of_a_listener_count(
    stores: Stores,
    listener: Listener,
    other: Listener,
    request: Request,
)
    requires
        listener.routes == other.routes,
    ensures
        selection(stores, listener, request) == selection(stores, other, request),
{
}

/// A request is answered with the very route that the match is one of, and the
/// path of that match.
pub proof fn law_answer_is_the_route(
    set: RouteSet,
    c: Option<Candidate>,
    found: Option<(Arc<Route>, PathMatch)>,
)
    ensures
        is_choice(set, c, found) <==> match (c, found) {
            (Some(c), Some(f)) => is_route_of(set, c, f),
            (None, None) => true,
            _ => false,
        },
        forall|c: Candidate, f: (Arc<Route>, PathMatch)| #[trigger]
            is_route_of(set, c, f) <==> f.0 == set.routes()[c.route as int].route && f.1
                == f.0.matches@[c.matcher as int].path,
{
}

/// The route to a service has one backend, which gets all requests: the service,
/// by its namespace and hostname, on the port given. It has the namespace of the
/// service, and no hosts, matches or policies.
pub proof fn law_default_route_leads_to_the_service(route: Route, service: Service, port: u16)
    requires
        is_default_route(route, service, port),
    ensures
        route.backends@.len() == 1,
        route.backends@[0].weight == 1,
        route.backends@[0].inline_policies@.len() == 0,
        route.backends@[0].backend matches BackendReference::Service { name, port: p }
            && name.namespace@ == service.namespace@ && name.hostname@ == service.hostname@ && p
            == port,
        route.service_key matches Some(key) && key.namespace@ == service.namespace@
            && key.hostname@ == service.hostname@,
        route.key@ == "_waypoint-default"@,
        route.name.name@ == "_waypoint-default"@,
        route.name.namespace@ == service.namespace@,
        route.name.rule_name is None,
        route.name.kind is None,
        route.hostnames@.len() == 0,
        route.matches@.len() == 0,
        route.inline_policies@.len() == 0,
{
}

/// The query string is parsed for a request only if some match for one of the hosts
/// that are tried asks for a parameter of it; and it is parsed if the match that
/// takes the request does.
pub proof fn law_query_is_parsed_for_those_who_ask(
    set: RouteSet,
    hosts: Seq<HostnameMatchView>,
    request: Request,
)
    requires
        set.well_formed(),
    ensures
        query_asked_by(set, hosts, request) ==> exists|d: Candidate, k: int|
            0 <= k < hosts.len() && is_candidate_for(set.routes(), d, #[trigger] hosts[k])
                && asks_for_query(#[trigger] match_at(set.routes(), d), request),
        taking(set, hosts, request) matches Some(c) && match_at(set.routes(), c).query@.len() > 0
            ==> query_asked_by(set, hosts, request),
    decreases hosts.len(),
{
    if hosts.len() > 0 {
        let routes = set.routes();
        let order = set.candidates(hosts[0]);
        let rest = hosts.drop_first();
        assert(is_ranking(routes, order, hosts[0]));
        law_query_is_parsed_for_those_who_ask(set, rest, request);
        lemma_asked(routes, order, request);
        if query_asked(routes, order, request) {
            let d = choose|d: Candidate| #[trigger]
                order.contains(d) && asks_for_query(match_at(routes, d), request);
            assert(is_candidate_for(routes, d, hosts[0]));
        } else if query_asked_by(set, hosts, request) {
            let (d, k) = choose|d: Candidate, k: int|
                0 <= k < rest.len() && is_candidate_for(routes, d, #[trigger] rest[k])
                    && asks_for_query(#[trigger] match_at(routes, d), request);
            assert(hosts[k + 1] == rest[k]);
        }
    }
}

/// The query string is asked for by one of those that are tried, and is asked for
/// if the first one that accepts the request asks for it.
proof fn lemma_asked(routes: Seq<ListedRoute>, order: Seq<Candidate>, request: Request)
    ensures
        query_asked(routes, order, request) ==> exists|d: Candidate| #[trigger]
            order.contains(d) && asks_for_query(match_at(routes, d), request),
        first_accepting(routes, order, request) matches Some(c) && match_at(
            routes,
            c,
        ).query@.len() > 0 ==> query_asked(routes, order, request),
    decreases order.len(),
{
    if order.len() > 0 {
        let rest = order.drop_first();
        lemma_asked(routes, rest, request);
        if asks_for_query(match_at(routes, order[0]), request) {
            assert(order.contains(order[0]));
        } else if query_asked(routes, order, request) {
            let d = choose|d: Candidate| #[trigger]
                rest.contains(d) && asks_for_query(match_at(routes, d), request);
            assert(order[rest.index_of(d) + 1] == d);
            assert(order.contains(d));
        }
    }
}

} // verus!
