//! What holds of the library as a whole.

use vstd::prelude::*;

use crate::agent::{PathMatch, RouteMatch};
use crate::hostname::{host_matches, wildcards, HostnameMatchView};
use crate::listener::Listener;
use crate::matching::{accepts, header_accepts, path_accepts, query_accepts, RequestMatchCtx};
use crate::precedence::{
    bytes_before, created_at, is_candidate, law_bytes_order, law_precedence_total, match_at, name_at,
    outranks, precedes, Candidate, ListedRoute,
};
use crate::query::{last_values, query_params, ParsedQuery};
use crate::request::Request;
use crate::route::{
    has_service_routes, hosts_for, law_best_route_is_taken, query_asked, query_asked_by, routes_for,
    selection, taking, Selection,
};
use crate::route_set::{in_precedence_order, is_candidate_for, is_ranking, RouteSet};
use crate::stores::Stores;
use crate::text::{starts_with, trim_slashes};

pub mod configuration;
pub mod matching;
pub mod precedence;
pub mod selection;

verus! {

/// A path is its trimmed form followed by nothing but slashes, and the trimmed
/// form does not end in one.
pub proof fn law_only_trailing_slashes_are_trimmed(s: Seq<char>)
    ensures
        trim_slashes(s).len() <= s.len(),
        trim_slashes(s) == s.take(trim_slashes(s).len() as int),
        trim_slashes(s).len() > 0 ==> trim_slashes(s).last() != '/',
        forall|i: int| trim_slashes(s).len() <= i < s.len() ==> s[i] == '/',
    decreases s.len(),
{
    if s.len() > 0 && s.last() == '/' {
        law_only_trailing_slashes_are_trimmed(s.drop_last());
        let n = trim_slashes(s).len() as int;
        assert(s.drop_last().take(n) == s.take(n));
        assert forall|i: int| n <= i < s.len() implies s[i] == '/' by {
            if i < s.len() - 1 {
                assert(s.drop_last()[i] == '/');
            }
        }
    } else {
        assert(s.take(s.len() as int) == s);
    }
}

/// A trimmed text followed by slashes trims to that text.
proof fn lemma_trim_to(s: Seq<char>, n: int)
    requires
        0 <= n <= s.len(),
        n > 0 ==> s[n - 1] != '/',
        forall|i: int| n <= i < s.len() ==> s[i] == '/',
    ensures
        trim_slashes(s) == s.take(n),
    decreases s.len(),
{
    if s.len() > n {
        lemma_trim_to(s.drop_last(), n);
        assert(s.drop_last().take(n) == s.take(n));
    } else {
        assert(s.take(n) == s);
    }
}

/// A slash at the end of a prefix, or at the end of a path that is held against
/// one, makes no difference.
pub proof fn law_prefix_ignores_trailing_slash(m: PathMatch, slashed: PathMatch, path: Seq<char>)
    requires
        m is PathPrefix,
        slashed is PathPrefix,
        slashed->PathPrefix_0@ == m->PathPrefix_0@.push('/'),
    ensures
        path_accepts(slashed, path, trim_slashes(path)) == path_accepts(
            m,
            path,
            trim_slashes(path),
        ),
        path_accepts(m, path.push('/'), trim_slashes(path.push('/'))) == path_accepts(
            m,
            path,
            trim_slashes(path),
        ),
{
    let prefix = m->PathPrefix_0@;
    assert(prefix.push('/').drop_last() == prefix);
    assert(path.push('/').drop_last() == path);
}

/// A prefix accepts whole segments: of the paths that start with it, those in
/// which a slash follows, and the prefix itself.
pub proof fn law_prefix_accepts_whole_segments(m: PathMatch, rest: Seq<char>)
    requires
        m is PathPrefix,
    ensures
        ({
            let path = trim_slashes(m->PathPrefix_0@) + rest;
            path_accepts(m, path, trim_slashes(path)) <==> rest.len() == 0 || rest[0] == '/'
        }),
{
    let prefix = trim_slashes(m->PathPrefix_0@);
    let path = prefix + rest;
    let n = prefix.len() as int;
    let trimmed = trim_slashes(path);
    law_only_trailing_slashes_are_trimmed(m->PathPrefix_0@);
    law_only_trailing_slashes_are_trimmed(path);
    assert(prefix.len() > 0 ==> path[n - 1] == prefix.last());
    if trimmed.len() < n {
        assert(path[n - 1] == '/');
    }
    assert(trimmed.take(n) == prefix);
    if trimmed.len() == n {
        assert(trimmed == prefix);
        if rest.len() > 0 {
            assert(path[n] == rest[0]);
        }
    } else {
        assert(trimmed[n] == path[n]);
        assert(rest[0] == path[n]);
        assert(trimmed.take(n + 1) == trimmed.take(n).push(trimmed[n]));
        if rest[0] == '/' {
            assert(trimmed.take(n + 1) == prefix.push('/'));
        } else {
            if starts_with(trimmed, prefix.push('/')) {
                assert(trimmed.take(n + 1)[n] == prefix.push('/')[n]);
            }
        }
    }
}

/// A prefix accepts only paths that start with it, but for the slashes at its
/// end.
pub proof fn law_prefix_accepts_only_its_paths(m: PathMatch, path: Seq<char>)
    requires
        m is PathPrefix,
        path_accepts(m, path, trim_slashes(path)),
    ensures
        starts_with(path, trim_slashes(m->PathPrefix_0@)),
{
    let prefix = trim_slashes(m->PathPrefix_0@);
    let n = prefix.len() as int;
    let trimmed = trim_slashes(path);
    law_only_trailing_slashes_are_trimmed(path);
    assert(path.take(n) == trimmed.take(n));
    if trimmed == prefix {
        assert(trimmed.take(n) == prefix);
    } else {
        assert(trimmed.take(n) == trimmed.take(n + 1).take(n));
        assert(prefix.push('/').take(n) == prefix);
    }
}

/// The prefix `/` accepts every path that starts with a slash.
pub proof fn law_root_prefix_accepts_all(m: PathMatch, path: Seq<char>)
    requires
        m is PathPrefix,
        m->PathPrefix_0@ == "/"@,
    ensures
        path_accepts(m, path, trim_slashes(path)) <==> path.len() == 0 || path[0] == '/',
{
    reveal_strlit("/");
    lemma_trim_to("/"@, 0);
    assert(trim_slashes("/"@) + path == path);
    law_prefix_accepts_whole_segments(m, path);
}

/// To ask for less of a request is to accept at least as many: if a match
/// accepts a request, so does one with the same path that asks for the same
/// method or for none, and for no other headers and query parameters.
pub proof fn law_asking_less_accepts_more(more: RouteMatch, less: RouteMatch, request: Request)
    requires
        accepts(more, request),
        less.path == more.path,
        less.method is None || less.method == more.method,
        forall|i: int| 0 <= i < less.headers@.len() ==> more.headers@.contains(
            #[trigger] less.headers@[i],
        ),
        forall|i: int| 0 <= i < less.query@.len() ==> more.query@.contains(
            #[trigger] less.query@[i],
        ),
    ensures
        accepts(less, request),
{
    assert forall|i: int| 0 <= i < less.headers@.len() implies header_accepts(
        #[trigger] less.headers@[i],
        request,
    ) by {
        let k = more.headers@.index_of(less.headers@[i]);
        assert(header_accepts(more.headers@[k], request));
    }
    let params = query_params(request.uri@.query);
    assert forall|i: int| 0 <= i < less.query@.len() implies query_accepts(
        #[trigger] less.query@[i],
        params,
    ) by {
        let k = more.query@.index_of(less.query@[i]);
        assert(query_accepts(more.query@[k], params));
    }
}

/// What is read off a request once serves as well as the request itself.
pub proof fn law_context_stands_for_request(
    ctx: RequestMatchCtx<'_>,
    m: RouteMatch,
    request: Request,
)
    requires
        ctx.agrees_with(request),
    ensures
        ctx.accepted(m, request) == accepts(m, request),
{
}

/// A match that is tried leaves behind what was read off the request: what is
/// left serves for the next one.
pub proof fn law_context_outlasts_a_try(
    ctx: RequestMatchCtx<'_>,
    m: RouteMatch,
    request: Request,
    after: RequestMatchCtx<'_>,
)
    requires
        ctx.agrees_with(request),
        ctx.tried(m, request, after),
    ensures
        after.agrees_with(request),
{
}

/// The query string is parsed at most once: after it has been asked for a
/// parameter, asking for more leaves it as it is.
pub proof fn law_query_is_parsed_once(
    query: ParsedQuery<'_>,
    once: ParsedQuery<'_>,
    twice: ParsedQuery<'_>,
)
    requires
        query.forced(once),
        once.forced(twice),
    ensures
        once !is Unparsed,
        twice == once,
        once.params() == query.params(),
{
}

/// The query string is parsed only for a match that asks for a parameter.
pub proof fn law_query_is_parsed_only_if_asked_for(
    ctx: RequestMatchCtx<'_>,
    m: RouteMatch,
    request: Request,
    after: RequestMatchCtx<'_>,
)
    requires
        ctx.tried(m, request, after),
        m.query@.len() == 0,
    ensures
        after == ctx,
{
}

/// Candidates that ask for no query parameter leave the query string unparsed.
proof fn lemma_query_not_asked(routes: Seq<ListedRoute>, order: Seq<Candidate>, request: Request)
    requires
        forall|i: int|
            0 <= i < order.len() ==> match_at(routes, #[trigger] order[i]).query@.len() == 0,
    ensures
        !query_asked(routes, order, request),
    decreases order.len(),
{
    if order.len() > 0 {
        lemma_query_not_asked(routes, order.drop_first(), request);
    }
}

/// While a route is looked for, the query string stays unparsed if no match of
/// the set asks for a query parameter.
pub proof fn law_query_is_left_where_no_route_asks(
    set: RouteSet,
    hosts: Seq<HostnameMatchView>,
    request: Request,
)
    requires
        set.well_formed(),
        forall|c: Candidate|
            is_candidate(set.routes(), c) ==> (#[trigger] match_at(
                set.routes(),
                c,
            )).query@.len() == 0,
    ensures
        !query_asked_by(set, hosts, request),
    decreases hosts.len(),
{
    if hosts.len() > 0 {
        let order = set.candidates(hosts[0]);
        assert(is_ranking(set.routes(), order, hosts[0]));
        assert forall|i: int| 0 <= i < order.len() implies match_at(
            set.routes(),
            #[trigger] order[i],
        ).query@.len() == 0 by {
            assert(order.contains(order[i]));
        }
        lemma_query_not_asked(set.routes(), order, request);
        law_query_is_left_where_no_route_asks(set, hosts.drop_first(), request);
    }
}

/// Where a query string gives a parameter more than once, the last value counts;
/// a parameter has a value if it is given at all.
pub proof fn law_last_value_counts(pairs: Seq<(Seq<char>, Seq<char>)>, name: Seq<char>)
    ensures
        last_values(pairs).contains_key(name) <==> exists|i: int|
            0 <= i < pairs.len() && (#[trigger] pairs[i]).0 == name,
        forall|i: int|
            0 <= i < pairs.len() && (#[trigger] pairs[i]).0 == name && (forall|j: int|
                i < j < pairs.len() ==> (#[trigger] pairs[j]).0 != name) ==> last_values(
                pairs,
            )[name] == pairs[i].1,
{
    if forall|i: int| 0 <= i < pairs.len() ==> (#[trigger] pairs[i]).0 != name {
        lemma_no_value(pairs, name);
    } else {
        let at = lemma_last_of_name(pairs, name);
        lemma_last_value(pairs, at);
        assert forall|i: int|
            0 <= i < pairs.len() && (#[trigger] pairs[i]).0 == name && (forall|j: int|
                i < j < pairs.len() ==> (#[trigger] pairs[j]).0 != name) implies last_values(
            pairs,
        )[name] == pairs[i].1 by {
            if i < at {
                assert(pairs[at].0 != name);
            }
            assert(i == at);
        }
    }
}

/// A name that is not listed has no value.
proof fn lemma_no_value(pairs: Seq<(Seq<char>, Seq<char>)>, name: Seq<char>)
    requires
        forall|i: int| 0 <= i < pairs.len() ==> (#[trigger] pairs[i]).0 != name,
    ensures
        !last_values(pairs).contains_key(name),
    decreases pairs.len(),
{
    if pairs.len() > 0 {
        let rest = pairs.drop_last();
        assert forall|i: int| 0 <= i < rest.len() implies (#[trigger] rest[i]).0 != name by {
            assert(pairs[i].0 != name);
        }
        lemma_no_value(rest, name);
        assert(pairs[pairs.len() - 1].0 != name);
    }
}

/// A name has the value that is listed last with it.
proof fn lemma_last_value(pairs: Seq<(Seq<char>, Seq<char>)>, at: int)
    requires
        0 <= at < pairs.len(),
        forall|j: int| at < j < pairs.len() ==> (#[trigger] pairs[j]).0 != pairs[at].0,
    ensures
        last_values(pairs).contains_key(pairs[at].0),
        last_values(pairs)[pairs[at].0] == pairs[at].1,
    decreases pairs.len(),
{
    if at < pairs.len() - 1 {
        let rest = pairs.drop_last();
        assert forall|j: int| at < j < rest.len() implies (#[trigger] rest[j]).0
            != rest[at].0 by {
            assert(pairs[j].0 != pairs[at].0);
        }
        lemma_last_value(rest, at);
        assert(pairs[pairs.len() - 1].0 != pairs[at].0);
    }
}

/// The last place at which a name is listed.
proof fn lemma_last_of_name(pairs: Seq<(Seq<char>, Seq<char>)>, name: Seq<char>) -> (at: int)
    requires
        exists|i: int| 0 <= i < pairs.len() && (#[trigger] pairs[i]).0 == name,
    ensures
        0 <= at < pairs.len(),
        pairs[at].0 == name,
        forall|j: int| at < j < pairs.len() ==> (#[trigger] pairs[j]).0 != name,
    decreases pairs.len(),
{
    if pairs.last().0 == name {
        pairs.len() - 1
    } else {
        let rest = pairs.drop_last();
        let i = choose|i: int| 0 <= i < pairs.len() && (#[trigger] pairs[i]).0 == name;
        assert(rest[i].0 == name);
        let at = lemma_last_of_name(rest, name);
        assert forall|j: int| at < j < pairs.len() implies (#[trigger] pairs[j]).0 != name by {
            if j < rest.len() {
                assert(rest[j].0 != name);
            }
        }
        at
    }
}

/// For what they ask of a request, exact paths go before prefixes; of prefixes,
/// the one with more characters goes first; and where paths make no difference,
/// a match that asks for a method goes before one that does not, then the one
/// that asks for more headers goes first, then the one that asks for more query
/// parameters.
pub proof fn law_order_of_precedence(a: RouteMatch, b: RouteMatch)
    ensures
        a.path is Exact && b.path is PathPrefix ==> outranks(a, b),
        a.path is PathPrefix && b.path is PathPrefix && a.path->PathPrefix_0@.len()
            > b.path->PathPrefix_0@.len() ==> outranks(a, b),
        a.path == b.path && a.method is Some && b.method is None ==> outranks(a, b),
        a.path == b.path && a.method is Some == b.method is Some && a.headers@.len()
            > b.headers@.len() ==> outranks(a, b),
        a.path == b.path && a.method is Some == b.method is Some && a.headers@.len()
            == b.headers@.len() && a.query@.len() > b.query@.len() ==> outranks(a, b),
{
}

/// What two matches ask of a request decides between them first; where it makes
/// no difference, the older route comes first; where their routes are of the same
/// age, the names decide, in alphabetical order; and where these make no
/// difference, the place in the list does.
pub proof fn law_ties_in_precedence(routes: Seq<ListedRoute>, a: Candidate, b: Candidate)
    ensures
        outranks(match_at(routes, a), match_at(routes, b)) ==> precedes(routes, a, b),
        !outranks(match_at(routes, a), match_at(routes, b)) && !outranks(
            match_at(routes, b),
            match_at(routes, a),
        ) ==> {
            &&& created_at(routes, a) < created_at(routes, b) ==> precedes(routes, a, b)
            &&& created_at(routes, a) == created_at(routes, b) && bytes_before(
                name_at(routes, a),
                name_at(routes, b),
            ) ==> precedes(routes, a, b)
            &&& created_at(routes, a) == created_at(routes, b) && name_at(routes, a) == name_at(
                routes,
                b,
            ) && a.route < b.route ==> precedes(routes, a, b)
            &&& a.route == b.route && a.matcher < b.matcher ==> precedes(routes, a, b)
        },
{
    law_bytes_order(name_at(routes, a), name_at(routes, b));
}

/// A match for every host that asks for nothing but a path below `/` leaves no
/// request untaken whose path starts with a slash.
pub proof fn law_catch_all_leaves_none(
    set: RouteSet,
    c: Candidate,
    host: Seq<char>,
    request: Request,
)
    requires
        set.well_formed(),
        is_candidate_for(set.routes(), c, HostnameMatchView::Any),
        match_at(set.routes(), c).path matches PathMatch::PathPrefix(prefix) && prefix@ == "/"@,
        match_at(set.routes(), c).method is None,
        match_at(set.routes(), c).headers@.len() == 0,
        match_at(set.routes(), c).query@.len() == 0,
        request.uri.path@.len() > 0,
        request.uri.path@[0] == '/',
    ensures
        taking(set, host_matches(host), request) is Some,
{
    let hosts = host_matches(host);
    let m = match_at(set.routes(), c);
    law_root_prefix_accepts_all(m.path, request.uri.path@);
    assert(accepts(m, request));
    law_best_route_is_taken(set, hosts, request);
    assert(hosts[hosts.len() - 1] == HostnameMatchView::Any);
}

/// Two lists of the same matches by precedence are the same list.
proof fn lemma_same_order(routes: Seq<ListedRoute>, a: Seq<Candidate>, b: Seq<Candidate>)
    requires
        in_precedence_order(routes, a),
        in_precedence_order(routes, b),
        forall|c: Candidate|
            #![trigger a.contains(c)]
            #![trigger b.contains(c)]
            a.contains(c) <==> b.contains(c),
    ensures
        a == b,
    decreases a.len(),
{
    if a.len() == 0 {
        if b.len() > 0 {
            assert(b.contains(b[0]));
        }
    } else {
        assert(a.contains(a[0]));
        assert(b.contains(b[0]));
        let k = b.index_of(a[0]);
        let l = a.index_of(b[0]);
        if k > 0 && l > 0 {
            assert(precedes(routes, b[0], b[k]));
            assert(precedes(routes, a[0], a[l]));
            law_precedence_total(routes, a[0], b[0]);
        }
        assert(a[0] == b[0]);
        let (ra, rb) = (a.drop_first(), b.drop_first());
        assert forall|i: int, j: int| 0 <= i < j < ra.len() implies precedes(
            routes,
            #[trigger] ra[i],
            #[trigger] ra[j],
        ) by {
            assert(precedes(routes, a[i + 1], a[j + 1]));
        }
        assert forall|i: int, j: int| 0 <= i < j < rb.len() implies precedes(
            routes,
            #[trigger] rb[i],
            #[trigger] rb[j],
        ) by {
            assert(precedes(routes, b[i + 1], b[j + 1]));
        }
        assert forall|c: Candidate|
            #![trigger ra.contains(c)]
            #![trigger rb.contains(c)]
            ra.contains(c) <==> rb.contains(c) by {
            lemma_rest(routes, a, c);
            lemma_rest(routes, b, c);
        }
        lemma_same_order(routes, ra, rb);
        assert(a == seq![a[0]] + ra);
        assert(b == seq![b[0]] + rb);
    }
}

/// What follows the first of a list by precedence is the others.
proof fn lemma_rest(routes: Seq<ListedRoute>, order: Seq<Candidate>, c: Candidate)
    requires
        in_precedence_order(routes, order),
        order.len() > 0,
    ensures
        order.drop_first().contains(c) <==> order.contains(c) && c != order[0],
{
    let rest = order.drop_first();
    if rest.contains(c) {
        let k = rest.index_of(c);
        assert(order[k + 1] == c);
        assert(precedes(routes, order[0], order[k + 1]));
        law_precedence_total(routes, order[0], order[0]);
    }
    if order.contains(c) && c != order[0] {
        let k = order.index_of(c);
        assert(rest[k - 1] == c);
    }
}

/// Which route takes a request depends on the list of routes alone: two sets of
/// the same routes take it by the same match.
pub proof fn law_routes_decide(
    a: RouteSet,
    b: RouteSet,
    hosts: Seq<HostnameMatchView>,
    request: Request,
)
    requires
        a.well_formed(),
        b.well_formed(),
        a.routes() == b.routes(),
    ensures
        taking(a, hosts, request) == taking(b, hosts, request),
    decreases hosts.len(),
{
    if hosts.len() > 0 {
        let (ca, cb) = (a.candidates(hosts[0]), b.candidates(hosts[0]));
        assert(is_ranking(a.routes(), ca, hosts[0]));
        assert(is_ranking(b.routes(), cb, hosts[0]));
        lemma_same_order(a.routes(), ca, cb);
        law_routes_decide(a, b, hosts.drop_first(), request);
    }
}

/// Routes that are attached to the service of a waypoint come before those of
/// the listener: where there are any, they alone decide, and a request that none
/// of them takes is rejected.
pub proof fn law_service_routes_decide(
    stores: Stores,
    listener: Listener,
    other: Listener,
    request: Request,
)
    requires
        has_service_routes(stores, request),
    ensures
        selection(stores, listener, request) == selection(stores, other, request),
        selection(stores, listener, request) !is Default,
        taking(routes_for(stores, listener, request), hosts_for(request), request) is None
            ==> selection(stores, listener, request) is Rejected,
{
}

/// A request that names a host and came to a waypoint whose service has no routes
/// attached to it is never rejected.
pub proof fn law_waypoint_falls_back(stores: Stores, listener: Listener, request: Request)
    requires
        request.uri.host is Some,
        request.waypoint is Some,
        !has_service_routes(stores, request),
    ensures
        selection(stores, listener, request) !is Rejected,
        selection(stores, listener, request) matches Selection::Default(service) ==> service
            == (request.waypoint->0).0,
{
}

/// A request that names no host is rejected, whatever routes there are.
pub proof fn law_host_is_needed(stores: Stores, listener: Listener, request: Request)
    requires
        request.uri.host is None,
    ensures
        selection(stores, listener, request) is Rejected,
{
}

/// The wildcards that are tried for a host are on domains that the host lies in,
/// each longer than the next.
proof fn lemma_wildcards(host: Seq<char>, n: int)
    requires
        0 <= n <= host.len(),
    ensures
        forall|k: int|
            0 <= k < wildcards(host, n).len() ==> is_domain_after(
                host,
                #[trigger] wildcards(host, n)[k],
                n,
            ),
        forall|k: int, l: int|
            0 <= k < l < wildcards(host, n).len() ==> (#[trigger] wildcards(
                host,
                n,
            )[k])->Wildcard_0.len() > (#[trigger] wildcards(host, n)[l])->Wildcard_0.len(),
        forall|i: int|
            0 <= i < n && #[trigger] host[i] == '.' ==> wildcards(host, n).contains(
                HostnameMatchView::Wildcard(host.skip(i + 1)),
            ),
    decreases n,
{
    if n > 0 {
        lemma_wildcards(host, n - 1);
        let (before, after) = (wildcards(host, n - 1), wildcards(host, n));
        let last = HostnameMatchView::Wildcard(host.skip(n));
        assert forall|i: int| 0 <= i < n && #[trigger] host[i] == '.' implies after.contains(
            HostnameMatchView::Wildcard(host.skip(i + 1)),
        ) by {
            if i == n - 1 {
                assert(after[before.len() as int] == last);
            } else {
                let k = before.index_of(HostnameMatchView::Wildcard(host.skip(i + 1)));
                assert(after[k] == before[k]);
            }
        }
        assert forall|k: int| 0 <= k < after.len() implies is_domain_after(
            host,
            #[trigger] after[k],
            n,
        ) by {
            if k < before.len() {
                assert(after[k] == before[k]);
                assert(is_domain_after(host, before[k], n - 1));
            } else {
                assert(after[k] == last);
                assert(host.skip(n) == host.skip(n - 1 + 1));
            }
        }
        assert forall|k: int, l: int| 0 <= k < l < after.len() implies (
        #[trigger] after[k])->Wildcard_0.len() > (#[trigger] after[l])->Wildcard_0.len() by {
            assert(after[k] == before[k]);
            assert(is_domain_after(host, before[k], n - 1));
            if l < before.len() {
                assert(after[l] == before[l]);
            }
        }
    }
}

/// Whether `h` is a wildcard on what follows a dot among the first `n` characters
/// of `host`.
pub open spec fn is_domain_after(host: Seq<char>, h: HostnameMatchView, n: int) -> bool {
    exists|i: int|
        0 <= i < n && #[trigger] host[i] == '.' && h == HostnameMatchView::Wildcard(
            host.skip(i + 1),
        )
}

/// The hosts that are tried for a host go from the most specific to the least:
/// the host itself, then wildcards on the domains it lies in, each longer than
/// the next, then every host. No domain that it lies in is left out.
pub proof fn law_hosts_are_tried_by_specificity(host: Seq<char>)
    ensures
        ({
            let hosts = host_matches(host);
            let n = hosts.len() as int;
            &&& n >= 2
            &&& hosts[0] == HostnameMatchView::Exact(host)
            &&& hosts[n - 1] == HostnameMatchView::Any
            &&& forall|k: int|
                0 < k < n - 1 ==> is_domain_after(host, #[trigger] hosts[k], host.len() as int)
            &&& forall|k: int, l: int|
                0 < k < l < n - 1 ==> (#[trigger] hosts[k])->Wildcard_0.len() > (
                #[trigger] hosts[l])->Wildcard_0.len()
            &&& forall|i: int|
                0 <= i < host.len() && #[trigger] host[i] == '.' ==> hosts.contains(
                    HostnameMatchView::Wildcard(host.skip(i + 1)),
                )
        }),
{
    let hosts = host_matches(host);
    let n = hosts.len() as int;
    let domains = wildcards(host, host.len() as int);
    lemma_wildcards(host, host.len() as int);
    assert(forall|k: int| 0 < k < n - 1 ==> #[trigger] hosts[k] == domains[k - 1]);
    assert forall|i: int| 0 <= i < host.len() && #[trigger] host[i] == '.' implies hosts.contains(
        HostnameMatchView::Wildcard(host.skip(i + 1)),
    ) by {
        let k = domains.index_of(HostnameMatchView::Wildcard(host.skip(i + 1)));
        assert(hosts[k + 1] == domains[k]);
    }
}

} // verus!
