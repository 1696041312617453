use std::sync::Arc;

use vstd::prelude::*;

use crate::agent::{Route, RouteMatch};
use crate::hostname::{hostname_of, hosts_view, HostnameMatch, HostnameMatchView};
use crate::precedence::{
    full_name, full_name_of, is_candidate, is_preceding, law_precedence_total,
    law_precedence_transitive, match_at, precedes, Candidate, ListedRoute,
};
use crate::text::share;

verus! {

/// The hosts that `route` is for: every host where it names none.
pub open spec fn route_hosts(route: Route) -> Seq<HostnameMatchView> {
    if route.hostnames@.len() == 0 {
        seq![HostnameMatchView::Any]
    } else {
        route.hostnames@.map_values(|name: String| hostname_of(name@))
    }
}

/// Whether `c` is a match of one of `routes` that is for these hosts.
pub open spec fn is_candidate_for(
    routes: Seq<ListedRoute>,
    c: Candidate,
    hosts: HostnameMatchView,
) -> bool {
    is_candidate(routes, c) && route_hosts(*routes[c.route as int].route).contains(hosts)
}

/// Whether each of `order` takes precedence over those that follow it.
pub open spec fn in_precedence_order(routes: Seq<ListedRoute>, order: Seq<Candidate>) -> bool {
    forall|i: int, j: int|
        0 <= i < j < order.len() ==> precedes(routes, #[trigger] order[i], #[trigger] order[j])
}

/// Whether `order` lists the matches of all of `routes` that are for these
/// hosts, and no others, by their precedence.
pub open spec fn is_ranking(
    routes: Seq<ListedRoute>,
    order: Seq<Candidate>,
    hosts: HostnameMatchView,
) -> bool {
    &&& forall|c: Candidate| #[trigger]
        order.contains(c) <==> is_candidate_for(routes, c, hosts)
    &&& in_precedence_order(routes, order)
}

/// The matches that are for some hosts, by their precedence.
#[derive(Debug)]
struct Bucket {
    hosts: HostnameMatch,
    order: Vec<Candidate>,
}

/// Routes, with their matches sorted by the hosts they are for and by
/// precedence.
#[derive(Debug)]
pub struct RouteSet {
    routes: Vec<ListedRoute>,
    buckets: Vec<Bucket>,
}

impl RouteSet {
    /// The routes of the set, in the order in which they were given.
    pub closed spec fn routes(&self) -> Seq<ListedRoute> {
        self.routes@
    }

    /// The matches of the set that are for these hosts, in the order in which
    /// they are tried.
    pub closed spec fn candidates(&self, hosts: HostnameMatchView) -> Seq<Candidate> {
        if self.has_bucket(hosts) {
            self.bucket(hosts).order@
        } else {
            Seq::empty()
        }
    }

    /// Whether the matches for each kind of hosts are those of the routes that
    /// are for these hosts, tried by their precedence.
    pub open spec fn well_formed(&self) -> bool {
        forall|hosts: HostnameMatchView|
            is_ranking(self.routes(), #[trigger] self.candidates(hosts), hosts)
    }

    spec fn has_bucket(&self, hosts: HostnameMatchView) -> bool {
        exists|k: int| 0 <= k < self.buckets@.len() && (#[trigger] self.buckets@[k]).hosts@ == hosts
    }

    spec fn bucket(&self, hosts: HostnameMatchView) -> Bucket {
        let k = choose|k: int|
            0 <= k < self.buckets@.len() && (#[trigger] self.buckets@[k]).hosts@ == hosts;
        self.buckets@[k]
    }

    #[verifier::type_invariant]
    spec fn sorted_out(&self) -> bool {
        &&& forall|k: int|
            0 <= k < self.buckets@.len() ==> is_ranking(
                self.routes@,
                (#[trigger] self.buckets@[k]).order@,
                self.buckets@[k].hosts@,
            )
        &&& forall|k: int, l: int|
            0 <= k < l < self.buckets@.len() ==> (#[trigger] self.buckets@[k]).hosts@ != (
            #[trigger] self.buckets@[l]).hosts@
        &&& forall|i: int, hosts: HostnameMatchView|
            0 <= i < self.routes@.len() && #[trigger] route_hosts(*self.routes@[i].route).contains(hosts)
                ==> self.has_bucket(hosts)
    }

    proof fn lemma_well_formed(&self)
        requires
            self.sorted_out(),
        ensures
            self.well_formed(),
    {
        assert forall|hosts: HostnameMatchView|
            is_ranking(self.routes(), #[trigger] self.candidates(hosts), hosts) by {
            if !self.has_bucket(hosts) {
                assert forall|c: Candidate| !is_candidate_for(self.routes(), c, hosts) by {
                    if is_candidate_for(self.routes(), c, hosts) {
                        assert(route_hosts(*self.routes@[c.route as int].route).contains(hosts));
                    }
                }
            }
        }
    }

    /// The set of these routes, all taken to be of the same age.
    pub fn from_list(list: Vec<Route>) -> (set: RouteSet)
        ensures
            set.well_formed(),
            set.routes().len() == list@.len(),
            forall|i: int|
                0 <= i < list@.len() ==> *(#[trigger] set.routes()[i]).route == list@[i]
                    && set.routes()[i].created == 0,
    {
        let mut routes: Vec<ListedRoute> = Vec::new();
        for route in it: list
            invariant
                routes@.len() == it.index(),
                it.seq() == list@,
                forall|i: int|
                    0 <= i < routes@.len() ==> *(#[trigger] routes@[i]).route == list@[i]
                        && routes@[i].created == 0,
        {
            routes.push(ListedRoute { route: Arc::new(route), created: 0 });
        }
        RouteSet::from_listed(routes)
    }

    /// The set of these routes, each with the time at which it was created.
    pub fn from_listed(routes: Vec<ListedRoute>) -> (set: RouteSet)
        ensures
            set.well_formed(),
            set.routes() == routes@,
    {
        let names = full_names(&routes);
        let hosts = all_hosts(&routes);
        let mut buckets: Vec<Bucket> = Vec::new();
        let mut k: usize = 0;
        while k < hosts.len()
            invariant
                k <= hosts.len(),
                buckets@.len() == k,
                forall|l: int|
                    0 <= l < k ==> is_ranking(
                        routes@,
                        (#[trigger] buckets@[l]).order@,
                        buckets@[l].hosts@,
                    ),
                forall|l: int| 0 <= l < k ==> (#[trigger] buckets@[l]).hosts@ == hosts@[l]@,
                names@.len() == routes@.len(),
                forall|i: int|
                    0 <= i < names@.len() ==> (#[trigger] names@[i])@ == full_name(*routes@[i].route),
            decreases hosts.len() - k,
        {
            let order = rank(&routes, &names, &hosts[k]);
            buckets.push(Bucket { hosts: hosts[k].clone(), order });
            k += 1;
        }
        let ghost made = buckets@;
        assert forall|i: int, h: HostnameMatchView|
            0 <= i < routes@.len() && #[trigger] route_hosts(*routes@[i].route).contains(h) implies exists|
            k: int,
        | 0 <= k < made.len() && (#[trigger] made[k]).hosts@ == h by {
            let l = hosts_view(hosts@).index_of(h);
            assert(made[l].hosts@ == hosts@[l]@);
        }
        assert forall|k: int, l: int| 0 <= k < l < made.len() implies (#[trigger] made[k]).hosts@ != (
        #[trigger] made[l]).hosts@ by {
            assert(hosts_view(hosts@)[k] != hosts_view(hosts@)[l]);
        }
        let set = RouteSet { routes, buckets };
        proof {
            set.lemma_well_formed();
        }
        set
    }

    /// The matches of the set that are for these hosts, in the order in which
    /// they are to be tried.
    pub fn get_hostname(&self, hosts: &HostnameMatch) -> (order: Option<&Vec<Candidate>>)
        ensures
            self.well_formed(),
            match order {
                Some(order) => order@ == self.candidates(hosts@),
                None => self.candidates(hosts@).len() == 0,
            },
    {
        proof {
            use_type_invariant(self);
            self.lemma_well_formed();
        }
        let mut k: usize = 0;
        while k < self.buckets.len()
            invariant
                k <= self.buckets.len(),
                self.sorted_out(),
                self.well_formed(),
                forall|l: int| 0 <= l < k ==> (#[trigger] self.buckets@[l]).hosts@ != hosts@,
            decreases self.buckets.len() - k,
        {
            if self.buckets[k].hosts.equals(hosts) {
                return Some(&self.buckets[k].order);
            }
            k += 1;
        }
        None
    }

    /// The route whose match `c` stands for.
    pub fn route(&self, c: Candidate) -> (route: Arc<Route>)
        requires
            is_candidate(self.routes(), c),
        ensures
            route == self.routes()[c.route as int].route,
    {
        share(&self.routes[c.route].route)
    }

    /// The match that `c` stands for.
    pub fn matcher(&self, c: Candidate) -> (matcher: &RouteMatch)
        requires
            is_candidate(self.routes(), c),
        ensures
            *matcher == match_at(self.routes(), c),
    {
        &self.routes[c.route].route.matches[c.matcher]
    }
}

/// The full names of `routes`.
fn full_names(routes: &Vec<ListedRoute>) -> (names: Vec<String>)
    ensures
        names@.len() == routes@.len(),
        forall|i: int| 0 <= i < names@.len() ==> (#[trigger] names@[i])@ == full_name(*routes@[i].route),
{
    let mut names: Vec<String> = Vec::new();
    let mut i: usize = 0;
    while i < routes.len()
        invariant
            i <= routes.len(),
            names@.len() == i,
            forall|k: int| 0 <= k < i ==> (#[trigger] names@[k])@ == full_name(*routes@[k].route),
        decreases routes.len() - i,
    {
        names.push(full_name_of(&routes[i].route));
        i += 1;
    }
    names
}

/// The hosts that `route` is for.
fn hosts_of(route: &Route) -> (hosts: Vec<HostnameMatch>)
    ensures
        hosts_view(hosts@) == route_hosts(*route),
{
    let mut hosts: Vec<HostnameMatch> = Vec::new();
    if route.hostnames.len() == 0 {
        hosts.push(HostnameMatch::Any);
        assert(hosts_view(hosts@) == route_hosts(*route));
        return hosts;
    }
    let mut i: usize = 0;
    while i < route.hostnames.len()
        invariant
            i <= route.hostnames.len(),
            hosts@.len() == i,
            forall|k: int|
                0 <= k < i ==> (#[trigger] hosts@[k])@ == hostname_of(route.hostnames@[k]@),
        decreases route.hostnames.len() - i,
    {
        hosts.push(HostnameMatch::from_hostname(route.hostnames[i].as_str()));
        i += 1;
    }
    assert(hosts_view(hosts@) == route_hosts(*route));
    hosts
}

/// Whether `host` is among `hosts`.
fn has_host(hosts: &Vec<HostnameMatch>, host: &HostnameMatch) -> (found: bool)
    ensures
        found == hosts_view(hosts@).contains(host@),
{
    let mut i: usize = 0;
    while i < hosts.len()
        invariant
            i <= hosts.len(),
            forall|k: int| 0 <= k < i ==> (#[trigger] hosts@[k])@ != host@,
        decreases hosts.len() - i,
    {
        if hosts[i].equals(host) {
            assert(hosts_view(hosts@)[i as int] == host@);
            return true;
        }
        i += 1;
    }
    false
}

/// The hosts that any of `routes` is for, each once.
fn all_hosts(routes: &Vec<ListedRoute>) -> (hosts: Vec<HostnameMatch>)
    ensures
        hosts_view(hosts@).no_duplicates(),
        forall|i: int, h: HostnameMatchView|
            0 <= i < routes@.len() && #[trigger] route_hosts(*routes@[i].route).contains(h)
                ==> hosts_view(hosts@).contains(h),
{
    let mut hosts: Vec<HostnameMatch> = Vec::new();
    let mut i: usize = 0;
    while i < routes.len()
        invariant
            i <= routes.len(),
            hosts_view(hosts@).no_duplicates(),
            forall|k: int, h: HostnameMatchView|
                0 <= k < i && #[trigger] route_hosts(*routes@[k].route).contains(h)
                    ==> hosts_view(hosts@).contains(h),
        decreases routes.len() - i,
    {
        let more = hosts_of(&routes[i].route);
        let ghost known = hosts_view(hosts@);
        let mut j: usize = 0;
        while j < more.len()
            invariant
                j <= more.len(),
                hosts_view(hosts@).no_duplicates(),
                forall|h: HostnameMatchView| #[trigger]
                    known.contains(h) ==> hosts_view(hosts@).contains(h),
                forall|k: int|
                    0 <= k < j ==> hosts_view(hosts@).contains((#[trigger] more@[k])@),
            decreases more.len() - j,
        {
            if !has_host(&hosts, &more[j]) {
                let ghost before = hosts_view(hosts@);
                hosts.push(more[j].clone());
                let ghost after = hosts_view(hosts@);
                assert(after == before.push(more@[j as int]@));
                assert forall|h: HostnameMatchView| #[trigger]
                    before.contains(h) implies after.contains(h) by {
                    assert(after[before.index_of(h)] == h);
                }
                assert(after[before.len() as int] == more@[j as int]@);
            }
            j += 1;
        }
        assert forall|h: HostnameMatchView| #[trigger]
            route_hosts(*routes@[i as int].route).contains(h) implies hosts_view(hosts@).contains(h) by {
            let k = hosts_view(more@).index_of(h);
            assert(more@[k]@ == h);
        }
        i += 1;
    }
    hosts
}

/// Puts `c` into `order`, where its precedence has it.
fn insert(
    routes: &Vec<ListedRoute>,
    names: &Vec<String>,
    order: &mut Vec<Candidate>,
    c: Candidate,
)
    requires
        names@.len() == routes@.len(),
        forall|i: int| 0 <= i < names@.len() ==> (#[trigger] names@[i])@ == full_name(*routes@[i].route),
        is_candidate(routes@, c),
        forall|i: int| 0 <= i < old(order)@.len() ==> is_candidate(
            routes@,
            #[trigger] old(order)@[i],
        ),
        in_precedence_order(routes@, old(order)@),
        !old(order)@.contains(c),
    ensures
        in_precedence_order(routes@, final(order)@),
        exists|at: int| 0 <= at <= old(order)@.len() && final(order)@ == #[trigger] old(order)@.insert(at, c),
{
    let mut low: usize = 0;
    let mut high: usize = order.len();
    while low < high
        invariant
            low <= high <= order.len(),
            *order == *old(order),
            names@.len() == routes@.len(),
            forall|i: int|
                0 <= i < names@.len() ==> (#[trigger] names@[i])@ == full_name(*routes@[i].route),
            is_candidate(routes@, c),
            forall|i: int| 0 <= i < order@.len() ==> is_candidate(routes@, #[trigger] order@[i]),
            in_precedence_order(routes@, order@),
            !order@.contains(c),
            forall|k: int| 0 <= k < low ==> precedes(routes@, #[trigger] order@[k], c),
            forall|k: int| high <= k < order@.len() ==> precedes(routes@, c, #[trigger] order@[k]),
        decreases high - low,
    {
        let middle = low + (high - low) / 2;
        if is_preceding(routes, names, c, order[middle]) {
            assert forall|k: int| middle <= k < order@.len() implies precedes(
                routes@,
                c,
                #[trigger] order@[k],
            ) by {
                if k > middle {
                    law_precedence_transitive(routes@, c, order@[middle as int], order@[k]);
                }
            }
            high = middle;
        } else {
            assert forall|k: int| 0 <= k <= middle implies precedes(
                routes@,
                #[trigger] order@[k],
                c,
            ) by {
                assert(order@[middle as int] != c);
                law_precedence_total(routes@, c, order@[middle as int]);
                if k < middle {
                    law_precedence_transitive(routes@, order@[k], order@[middle as int], c);
                }
            }
            low = middle + 1;
        }
    }
    order.insert(low, c);
    assert(order@ == old(order)@.insert(low as int, c));
}

/// The matches of `routes` that are for these hosts, by their precedence.
fn rank(routes: &Vec<ListedRoute>, names: &Vec<String>, hosts: &HostnameMatch) -> (order: Vec<
    Candidate,
>)
    requires
        names@.len() == routes@.len(),
        forall|i: int| 0 <= i < names@.len() ==> (#[trigger] names@[i])@ == full_name(*routes@[i].route),
    ensures
        is_ranking(routes@, order@, hosts@),
{
    let mut order: Vec<Candidate> = Vec::new();
    let mut i: usize = 0;
    while i < routes.len()
        invariant
            i <= routes.len(),
            names@.len() == routes@.len(),
            forall|k: int|
                0 <= k < names@.len() ==> (#[trigger] names@[k])@ == full_name(*routes@[k].route),
            in_precedence_order(routes@, order@),
            forall|c: Candidate| #[trigger]
                order@.contains(c) <==> is_candidate_for(routes@, c, hosts@) && c.route < i,
        decreases routes.len() - i,
    {
        if has_host(&hosts_of(&routes[i].route), hosts) {
            let mut j: usize = 0;
            while j < routes[i].route.matches.len()
                invariant
                    i < routes.len(),
                    j <= routes[i as int].route.matches.len(),
                    route_hosts(*routes@[i as int].route).contains(hosts@),
                    names@.len() == routes@.len(),
                    forall|k: int|
                        0 <= k < names@.len() ==> (#[trigger] names@[k])@ == full_name(*routes@[k].route),
                    in_precedence_order(routes@, order@),
                    forall|c: Candidate| #[trigger]
                        order@.contains(c) <==> is_candidate_for(routes@, c, hosts@) && (c.route < i
                            || c.route == i && c.matcher < j),
                decreases routes[i as int].route.matches.len() - j,
            {
                let c = Candidate { route: i, matcher: j };
                let ghost before = order@;
                assert forall|k: int| 0 <= k < before.len() implies is_candidate(
                    routes@,
                    #[trigger] before[k],
                ) by {
                    assert(before.contains(before[k]));
                }
                insert(routes, names, &mut order, c);
                proof {
                    let at = choose|at: int|
                        0 <= at <= before.len() && order@ == #[trigger] before.insert(at, c);
                    assert forall|d: Candidate| #[trigger]
                        order@.contains(d) <==> before.contains(d) || d == c by {
                        if before.contains(d) {
                            let k = before.index_of(d);
                            assert(order@[if k < at {
                                k
                            } else {
                                k + 1
                            }] == d);
                        }
                        if order@.contains(d) && d != c {
                            let k = order@.index_of(d);
                            assert(before[if k < at {
                                k
                            } else {
                                k - 1
                            }] == d);
                        }
                        assert(order@[at] == c);
                    }
                }
                j += 1;
            }
        }
        i += 1;
    }
    order
}

} // verus!
