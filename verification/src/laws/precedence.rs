//! Which of two matches comes first.

use vstd::prelude::*;
use vstd::utf8::encode_utf8;

use crate::agent::{PathMatch, RouteMatch};
use crate::precedence::{
    bytes_before, law_bytes_order, name_at, outranks, precedes, Candidate, ListedRoute,
};

verus! {

/// The kind of the path comes first of all, whatever else is asked for: exact
/// paths go before all others, and prefixes before regular expressions. Of two
/// prefixes, the one with more characters goes first, whatever else is asked for.
pub proof fn law_paths_rank_first(a: RouteMatch, b: RouteMatch)
    ensures
        a.path is Exact && b.path !is Exact ==> outranks(a, b) && !outranks(b, a),
        a.path is PathPrefix && b.path is Regex ==> outranks(a, b) && !outranks(b, a),
        a.path is PathPrefix && b.path is PathPrefix && a.path->PathPrefix_0@.len()
            > b.path->PathPrefix_0@.len() ==> outranks(a, b) && !outranks(b, a),
{
}

/// Between exact paths, between prefixes of as many characters and between regular
/// expressions, a match that asks for a method goes before one that does not,
/// whatever the method; then the one that asks for more headers goes first, then
/// the one that asks for more query parameters. Two that ask for as much stand on
/// the same level, whatever it is that they ask for.
pub proof fn law_demands_rank_after_paths(a: RouteMatch, b: RouteMatch)
    requires
        match a.path {
            PathMatch::Exact(_) => b.path is Exact,
            PathMatch::PathPrefix(p) => b.path matches PathMatch::PathPrefix(q) && p@.len()
                == q@.len(),
            PathMatch::Regex(_) => b.path is Regex,
        },
    ensures
        a.method is Some && b.method is None ==> outranks(a, b) && !outranks(b, a),
        a.method is Some == b.method is Some ==> {
            &&& a.headers@.len() > b.headers@.len() ==> outranks(a, b) && !outranks(b, a)
            &&& a.headers@.len() == b.headers@.len() ==> {
                &&& a.query@.len() > b.query@.len() ==> outranks(a, b) && !outranks(b, a)
                &&& a.query@.len() == b.query@.len() ==> !outranks(a, b) && !outranks(b, a)
            }
        },
{
}

/// Alphabetical order goes by the first byte in which two texts differ; one that
/// ends before there is such a byte goes first. No text goes before itself.
pub proof fn law_alphabetical_order(a: Seq<u8>, b: Seq<u8>, k: int)
    requires
        0 <= k <= a.len(),
        k < b.len(),
        forall|i: int| 0 <= i < k ==> a[i] == b[i],
        k == a.len() || a[k] < b[k],
    ensures
        bytes_before(a, b),
        !bytes_before(b, a),
        !bytes_before(a, a),
    decreases k,
{
    if k > 0 {
        let (ra, rb) = (a.drop_first(), b.drop_first());
        assert forall|i: int| 0 <= i < k - 1 implies ra[i] == rb[i] by {
            assert(a[i + 1] == b[i + 1]);
        }
        law_alphabetical_order(ra, rb, k - 1);
    }
    law_bytes_order(a, b);
}

/// What two matches ask of a request decides between them, however old their
/// routes are, whatever their names, and wherever they stand in the list.
pub proof fn law_demands_decide(routes: Seq<ListedRoute>, a: Candidate, b: Candidate)
    requires
        outranks(
            routes[a.route as int].route.matches@[a.matcher as int],
            routes[b.route as int].route.matches@[b.matcher as int],
        ),
    ensures
        precedes(routes, a, b),
        !precedes(routes, b, a),
{
}

/// Between matches that ask for as much, the older route goes first, whatever the
/// names of the routes and wherever they stand in the list.
pub proof fn law_older_route_goes_first(routes: Seq<ListedRoute>, a: Candidate, b: Candidate)
    requires
        !outranks(
            routes[a.route as int].route.matches@[a.matcher as int],
            routes[b.route as int].route.matches@[b.matcher as int],
        ),
        !outranks(
            routes[b.route as int].route.matches@[b.matcher as int],
            routes[a.route as int].route.matches@[a.matcher as int],
        ),
        routes[a.route as int].created < routes[b.route as int].created,
    ensures
        precedes(routes, a, b),
        !precedes(routes, b, a),
{
}

/// Between matches that ask for as much, of routes of the same age, the route goes
/// first whose namespace, a slash and its name come first in alphabetical order,
/// byte by byte: at the first byte in which they differ, or by ending before it.
/// The place in the list does not count.
pub proof fn law_names_go_by_the_alphabet(
    routes: Seq<ListedRoute>,
    a: Candidate,
    b: Candidate,
    k: int,
)
    requires
        !outranks(
            routes[a.route as int].route.matches@[a.matcher as int],
            routes[b.route as int].route.matches@[b.matcher as int],
        ),
        !outranks(
            routes[b.route as int].route.matches@[b.matcher as int],
            routes[a.route as int].route.matches@[a.matcher as int],
        ),
        routes[a.route as int].created == routes[b.route as int].created,
        ({
            let first = encode_utf8(
                routes[a.route as int].route.name.namespace@ + seq!['/']
                    + routes[a.route as int].route.name.name@,
            );
            let second = encode_utf8(
                routes[b.route as int].route.name.namespace@ + seq!['/']
                    + routes[b.route as int].route.name.name@,
            );
            &&& 0 <= k <= first.len()
            &&& k < second.len()
            &&& forall|i: int| 0 <= i < k ==> first[i] == second[i]
            &&& k == first.len() || first[k] < second[k]
        }),
    ensures
        precedes(routes, a, b),
        !precedes(routes, b, a),
{
    reveal_strlit("/");
    assert("/"@ == seq!['/']);
    law_alphabetical_order(name_at(routes, a), name_at(routes, b), k);
}

/// Between matches that ask for as much, of routes of the same age with the same
/// namespace and the same name, the one that stands first in the list goes first,
/// whatever else the routes hold: the names of their rules, their kinds, their
/// keys. Within a route, the list is that of its matches.
pub proof fn law_rules_go_by_their_place(routes: Seq<ListedRoute>, a: Candidate, b: Candidate)
    requires
        !outranks(
            routes[a.route as int].route.matches@[a.matcher as int],
            routes[b.route as int].route.matches@[b.matcher as int],
        ),
        !outranks(
            routes[b.route as int].route.matches@[b.matcher as int],
            routes[a.route as int].route.matches@[a.matcher as int],
        ),
        routes[a.route as int].created == routes[b.route as int].created,
        routes[a.route as int].route.name.namespace@ == routes[b.route as int].route.name.namespace@,
        routes[a.route as int].route.name.name@ == routes[b.route as int].route.name.name@,
        a.route < b.route || a.route == b.route && a.matcher < b.matcher,
    ensures
        precedes(routes, a, b),
        !precedes(routes, b, a),
{
    law_bytes_order(name_at(routes, a), name_at(routes, b));
}

/// Precedence goes by nothing but what two matches ask for, the age, the namespace
/// and the name of their routes, and their places: between lists that agree in
/// these, it is the same.
pub proof fn law_precedence_goes_by_no_more(
    routes: Seq<ListedRoute>,
    others: Seq<ListedRoute>,
    a: Candidate,
    b: Candidate,
)
    requires
        ({
            let (r, s) = (routes[a.route as int], others[a.route as int]);
            &&& r.route.matches@[a.matcher as int] == s.route.matches@[a.matcher as int]
            &&& r.created == s.created
            &&& r.route.name.namespace@ == s.route.name.namespace@
            &&& r.route.name.name@ == s.route.name.name@
        }),
        ({
            let (r, s) = (routes[b.route as int], others[b.route as int]);
            &&& r.route.matches@[b.matcher as int] == s.route.matches@[b.matcher as int]
            &&& r.created == s.created
            &&& r.route.name.namespace@ == s.route.name.namespace@
            &&& r.route.name.name@ == s.route.name.name@
        }),
    ensures
        precedes(routes, a, b) == precedes(others, a, b),
{
}

} // verus!
