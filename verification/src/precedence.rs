use std::sync::Arc;

use vstd::prelude::*;
use vstd::string::{StrSliceExecFns, StringExecFns};
use vstd::utf8::encode_utf8;

use crate::agent::{PathMatch, Route, RouteMatch};

verus! {

/// A route in a list, with the time at which it was created.
#[derive(Debug)]
pub struct ListedRoute {
    pub route: Arc<Route>,
    /// The time of creation, in seconds.
    pub created: u64,
}

/// One of the matches of a route in a list of routes, by its place.
#[derive(Clone, Copy, Debug, PartialEq, Eq, Structural)]
pub struct Candidate {
    /// The place of the route in the list.
    pub route: usize,
    /// The place of the match among those of the route.
    pub matcher: usize,
}

/// Whether `c` is a match of one of `routes`.
pub open spec fn is_candidate(routes: Seq<ListedRoute>, c: Candidate) -> bool {
    c.route < routes.len() && c.matcher < routes[c.route as int].route.matches@.len()
}

/// The match that `c` stands for.
pub open spec fn match_at(routes: Seq<ListedRoute>, c: Candidate) -> RouteMatch {
    routes[c.route as int].route.matches@[c.matcher as int]
}

/// Exact paths rank above prefixes, and prefixes above regular expressions.
pub open spec fn path_rank(path: PathMatch) -> int {
    match path {
        PathMatch::Exact(_) => 2,
        PathMatch::PathPrefix(_) => 1,
        PathMatch::Regex(_) => 0,
    }
}

/// The number of characters of a prefix.
pub open spec fn prefix_length(path: PathMatch) -> nat {
    match path {
        PathMatch::PathPrefix(prefix) => prefix@.len(),
        _ => 0,
    }
}

/// Whether `a` goes before `b` for what it asks of a request: by the kind of
/// its path, then by the number of characters of its prefix, then by whether it
/// asks for a method, then by the number of headers, then by the number of
/// query parameters that it asks for.
pub open spec fn outranks(a: RouteMatch, b: RouteMatch) -> bool {
    if path_rank(a.path) != path_rank(b.path) {
        path_rank(a.path) > path_rank(b.path)
    } else if prefix_length(a.path) != prefix_length(b.path) {
        prefix_length(a.path) > prefix_length(b.path)
    } else if a.method is Some != b.method is Some {
        a.method is Some
    } else if a.headers@.len() != b.headers@.len() {
        a.headers@.len() > b.headers@.len()
    } else {
        a.query@.len() > b.query@.len()
    }
}

/// The name of a route with its namespace, as `{namespace}/{name}`.
pub open spec fn full_name(route: Route) -> Seq<char> {
    route.name.namespace@ + "/"@ + route.name.name@
}

/// Whether `a` goes before `b` in alphabetical order, byte by byte.
pub open spec fn bytes_before(a: Seq<u8>, b: Seq<u8>) -> bool
    decreases a.len(),
{
    if b.len() == 0 {
        false
    } else if a.len() == 0 {
        true
    } else if a[0] != b[0] {
        a[0] < b[0]
    } else {
        bytes_before(a.drop_first(), b.drop_first())
    }
}

/// The bytes of the full name of the route whose match `c` stands for.
pub open spec fn name_at(routes: Seq<ListedRoute>, c: Candidate) -> Seq<u8> {
    encode_utf8(full_name(*routes[c.route as int].route))
}

/// The time at which the route was created whose match `c` stands for.
pub open spec fn created_at(routes: Seq<ListedRoute>, c: Candidate) -> u64 {
    routes[c.route as int].created
}

/// Whether `a` takes precedence over `b`: for what it asks of a request; where
/// that makes no difference, for the age of its route; where that makes none
/// either, for the name of its route; and at last for its place in the list.
pub open spec fn precedes(routes: Seq<ListedRoute>, a: Candidate, b: Candidate) -> bool {
    let (na, nb) = (name_at(routes, a), name_at(routes, b));
    let (ma, mb) = (match_at(routes, a), match_at(routes, b));
    if outranks(ma, mb) || outranks(mb, ma) {
        outranks(ma, mb)
    } else if created_at(routes, a) != created_at(routes, b) {
        created_at(routes, a) < created_at(routes, b)
    } else if bytes_before(na, nb) || bytes_before(nb, na) {
        bytes_before(na, nb)
    } else {
        a.route < b.route || a.route == b.route && a.matcher < b.matcher
    }
}

/// Alphabetical order is irreflexive.
proof fn lemma_bytes_irreflexive(a: Seq<u8>)
    ensures
        !bytes_before(a, a),
    decreases a.len(),
{
    if a.len() > 0 {
        lemma_bytes_irreflexive(a.drop_first());
    }
}

/// Alphabetical order is transitive.
proof fn lemma_bytes_transitive(a: Seq<u8>, b: Seq<u8>, c: Seq<u8>)
    requires
        bytes_before(a, b),
        bytes_before(b, c),
    ensures
        bytes_before(a, c),
    decreases a.len(),
{
    if a.len() > 0 && a[0] == b[0] && b[0] == c[0] {
        lemma_bytes_transitive(a.drop_first(), b.drop_first(), c.drop_first());
    }
}

/// Alphabetical order is total.
proof fn lemma_bytes_total(a: Seq<u8>, b: Seq<u8>)
    ensures
        a == b || bytes_before(a, b) || bytes_before(b, a),
    decreases a.len(),
{
    if a.len() == 0 && b.len() == 0 {
        assert(a == b);
    } else if a.len() > 0 && b.len() > 0 && a[0] == b[0] {
        lemma_bytes_total(a.drop_first(), b.drop_first());
        if a.drop_first() == b.drop_first() {
            assert(a == seq![a[0]] + a.drop_first());
            assert(b == seq![b[0]] + b.drop_first());
        }
    }
}

/// Alphabetical order is strict and total: none goes before itself, of two that
/// differ one goes before the other, and not the other way round.
pub proof fn law_bytes_order(a: Seq<u8>, b: Seq<u8>)
    ensures
        !bytes_before(a, a),
        a == b || bytes_before(a, b) || bytes_before(b, a),
        bytes_before(a, b) ==> !bytes_before(b, a),
{
    lemma_bytes_irreflexive(a);
    lemma_bytes_total(a, b);
    if bytes_before(a, b) && bytes_before(b, a) {
        lemma_bytes_transitive(a, b, a);
    }
}

/// Precedence is a strict total order on the matches of a list of routes: none
/// takes precedence over itself, and of any two, one takes precedence over the
/// other, and not the other way round.
pub proof fn law_precedence_total(routes: Seq<ListedRoute>, a: Candidate, b: Candidate)
    ensures
        !precedes(routes, a, a),
        a != b ==> precedes(routes, a, b) || precedes(routes, b, a),
        precedes(routes, a, b) ==> !precedes(routes, b, a),
{
    law_bytes_order(name_at(routes, a), name_at(routes, b));
    law_bytes_order(name_at(routes, a), name_at(routes, a));
}

/// Precedence is transitive.
pub proof fn law_precedence_transitive(
    routes: Seq<ListedRoute>,
    a: Candidate,
    b: Candidate,
    c: Candidate,
)
    requires
        precedes(routes, a, b),
        precedes(routes, b, c),
    ensures
        precedes(routes, a, c),
{
    let na = name_at(routes, a);
    let nb = name_at(routes, b);
    let nc = name_at(routes, c);
    law_bytes_order(na, nb);
    law_bytes_order(nb, nc);
    law_bytes_order(na, nc);
    if bytes_before(na, nb) && bytes_before(nb, nc) {
        lemma_bytes_transitive(na, nb, nc);
    }
    if bytes_before(nb, nc) && bytes_before(nc, na) {
        lemma_bytes_transitive(nb, nc, na);
    }
    if bytes_before(nc, na) && bytes_before(na, nb) {
        lemma_bytes_transitive(nc, na, nb);
    }
}

/// Whether `a` goes before `b` in alphabetical order, byte by byte.
fn is_bytes_before(a: &[u8], b: &[u8]) -> (before: bool)
    ensures
        before == bytes_before(a@, b@),
{
    let mut i: usize = 0;
    assert(a@.skip(0) == a@);
    assert(b@.skip(0) == b@);
    while i < a.len() && i < b.len()
        invariant
            i <= a.len(),
            i <= b.len(),
            bytes_before(a@, b@) == bytes_before(a@.skip(i as int), b@.skip(i as int)),
        decreases a.len() - i,
    {
        if a[i] != b[i] {
            return a[i] < b[i];
        }
        assert(a@.skip(i as int).drop_first() == a@.skip(i + 1));
        assert(b@.skip(i as int).drop_first() == b@.skip(i + 1));
        i += 1;
    }
    i < b.len()
}

/// Exact paths rank above prefixes, and prefixes above regular expressions.
fn rank_of(path: &PathMatch) -> (rank: u8)
    ensures
        rank == path_rank(*path),
{
    match path {
        PathMatch::Exact(_) => 2,
        PathMatch::PathPrefix(_) => 1,
        PathMatch::Regex(_) => 0,
    }
}

/// The number of characters of a prefix.
fn prefix_length_of(path: &PathMatch) -> (length: usize)
    ensures
        length == prefix_length(*path),
{
    match path {
        PathMatch::PathPrefix(prefix) => prefix.as_str().unicode_len(),
        _ => 0,
    }
}

/// Whether `a` goes before `b` for what it asks of a request.
pub fn is_outranking(a: &RouteMatch, b: &RouteMatch) -> (outranking: bool)
    ensures
        outranking == outranks(*a, *b),
{
    let (rank_a, rank_b) = (rank_of(&a.path), rank_of(&b.path));
    if rank_a != rank_b {
        return rank_a > rank_b;
    }
    let (length_a, length_b) = (prefix_length_of(&a.path), prefix_length_of(&b.path));
    if length_a != length_b {
        return length_a > length_b;
    }
    if a.method.is_some() != b.method.is_some() {
        return a.method.is_some();
    }
    if a.headers.len() != b.headers.len() {
        return a.headers.len() > b.headers.len();
    }
    a.query.len() > b.query.len()
}

/// The name of a route with its namespace, as `{namespace}/{name}`.
pub(crate) fn full_name_of(route: &Route) -> (name: String)
    ensures
        name@ == full_name(*route),
{
    route.name.namespace.clone().concat("/").concat(route.name.name.as_str())
}

/// Whether `a` takes precedence over `b` among `routes`, whose full names are
/// `names`.
pub(crate) fn is_preceding(
    routes: &Vec<ListedRoute>,
    names: &Vec<String>,
    a: Candidate,
    b: Candidate,
) -> (preceding: bool)
    requires
        is_candidate(routes@, a),
        is_candidate(routes@, b),
        names@.len() == routes@.len(),
        forall|i: int| 0 <= i < names@.len() ==> (#[trigger] names@[i])@ == full_name(*routes@[i].route),
    ensures
        preceding == precedes(routes@, a, b),
{
    let match_a = &routes[a.route].route.matches[a.matcher];
    let match_b = &routes[b.route].route.matches[b.matcher];
    if is_outranking(match_a, match_b) {
        return true;
    }
    if is_outranking(match_b, match_a) {
        return false;
    }
    let (created_a, created_b) = (routes[a.route].created, routes[b.route].created);
    if created_a != created_b {
        return created_a < created_b;
    }
    let name_a = names[a.route].as_str().as_bytes();
    let name_b = names[b.route].as_str().as_bytes();
    if is_bytes_before(name_a, name_b) {
        return true;
    }
    if is_bytes_before(name_b, name_a) {
        return false;
    }
    a.route < b.route || a.route == b.route && a.matcher < b.matcher
}

} // verus!
