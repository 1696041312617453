use vstd::prelude::*;

use crate::discovery::{NamespacedHostname, NamespacedHostnameView};
use crate::route_set::RouteSet;

verus! {

/// The routes that are attached to a service.
#[derive(Debug)]
struct ServiceRoutes {
    service: NamespacedHostname,
    routes: RouteSet,
}

/// What the gateway is configured with: the routes that are attached to
/// services.
#[derive(Debug)]
pub struct Stores {
    service_routes: Vec<ServiceRoutes>,
}

/// From each service in `entries` to its routes.
spec fn routes_by_service(entries: Seq<ServiceRoutes>) -> Map<NamespacedHostnameView, RouteSet>
    decreases entries.len(),
{
    if entries.len() == 0 {
        Map::empty()
    } else {
        routes_by_service(entries.drop_last()).insert(entries.last().service@, entries.last().routes)
    }
}

/// Whether no service has two of `entries`.
spec fn one_each(entries: Seq<ServiceRoutes>) -> bool {
    forall|i: int, j: int|
        0 <= i < j < entries.len() ==> (#[trigger] entries[i]).service@ != (
        #[trigger] entries[j]).service@
}

/// Each service maps to the routes of its entry.
proof fn lemma_entry(entries: Seq<ServiceRoutes>, i: int)
    requires
        one_each(entries),
        0 <= i < entries.len(),
    ensures
        routes_by_service(entries).contains_key(entries[i].service@),
        routes_by_service(entries)[entries[i].service@] == entries[i].routes,
    decreases entries.len(),
{
    if i < entries.len() - 1 {
        lemma_entry(entries.drop_last(), i);
    }
}

/// A service without an entry has no routes.
proof fn lemma_no_entry(entries: Seq<ServiceRoutes>, service: NamespacedHostnameView)
    requires
        forall|i: int| 0 <= i < entries.len() ==> (#[trigger] entries[i]).service@ != service,
    ensures
        !routes_by_service(entries).contains_key(service),
    decreases entries.len(),
{
    if entries.len() > 0 {
        lemma_no_entry(entries.drop_last(), service);
    }
}

/// To give an entry other routes is to map its service to them.
proof fn lemma_update(entries: Seq<ServiceRoutes>, i: int, entry: ServiceRoutes)
    requires
        one_each(entries),
        0 <= i < entries.len(),
        entries[i].service@ == entry.service@,
    ensures
        routes_by_service(entries.update(i, entry)) == routes_by_service(entries).insert(
            entry.service@,
            entry.routes,
        ),
    decreases entries.len(),
{
    let updated = entries.update(i, entry);
    if i == entries.len() - 1 {
        assert(updated.drop_last() == entries.drop_last());
    } else {
        lemma_update(entries.drop_last(), i, entry);
        assert(updated.drop_last() == entries.drop_last().update(i, entry));
        assert(entries.last().service@ != entry.service@);
    }
}

impl View for Stores {
    type V = Map<NamespacedHostnameView, RouteSet>;

    /// From each service that has routes attached to it to those routes.
    closed spec fn view(&self) -> Map<NamespacedHostnameView, RouteSet> {
        routes_by_service(self.service_routes@)
    }
}

impl Stores {
    #[verifier::type_invariant]
    spec fn well_formed(&self) -> bool {
        one_each(self.service_routes@)
    }

    /// No routes.
    pub fn new() -> (stores: Stores)
        ensures
            stores@ == Map::<NamespacedHostnameView, RouteSet>::empty(),
    {
        Stores { service_routes: Vec::new() }
    }

    /// Attaches `routes` to `service`, in place of those that were attached to
    /// it before.
    pub fn insert_service_routes(&mut self, service: NamespacedHostname, routes: RouteSet)
        ensures
            final(self)@ == old(self)@.insert(service@, routes),
    {
        proof {
            use_type_invariant(&*self);
        }
        let mut entries: Vec<ServiceRoutes> = Vec::new();
        std::mem::swap(&mut entries, &mut self.service_routes);
        let ghost before = entries@;
        match find_entry(&entries, &service) {
            Some(i) => {
                let entry = ServiceRoutes { service, routes };
                proof {
                    lemma_update(before, i as int, entry);
                }
                entries.set(i, entry);
            },
            None => {
                entries.push(ServiceRoutes { service, routes });
                assert(entries@.drop_last() == before);
            },
        }
        self.service_routes = entries;
    }

    /// The routes that are attached to `service`, if there are any.
    pub fn get_service_routes(&self, service: &NamespacedHostname) -> (routes: Option<&RouteSet>)
        ensures
            routes is Some <==> self@.contains_key(service@),
            routes matches Some(r) ==> *r == self@[service@],
    {
        proof {
            use_type_invariant(self);
        }
        match find_entry(&self.service_routes, service) {
            Some(i) => {
                proof {
                    lemma_entry(self.service_routes@, i as int);
                }
                Some(&self.service_routes[i].routes)
            },
            None => {
                proof {
                    lemma_no_entry(self.service_routes@, service@);
                }
                None
            },
        }
    }
}

/// The place of the entry of `service`.
fn find_entry(entries: &Vec<ServiceRoutes>, service: &NamespacedHostname) -> (at: Option<usize>)
    ensures
        match at {
            Some(i) => i < entries@.len() && entries@[i as int].service@ == service@,
            None => forall|i: int|
                0 <= i < entries@.len() ==> (#[trigger] entries@[i]).service@ != service@,
        },
{
    let mut i: usize = 0;
    while i < entries.len()
        invariant
            i <= entries.len(),
            forall|k: int| 0 <= k < i ==> (#[trigger] entries@[k]).service@ != service@,
        decreases entries.len() - i,
    {
        if entries[i].service.equals(service) {
            return Some(i);
        }
        i += 1;
    }
    None
}

} // verus!
