use vstd::prelude::*;

use crate::agent::RouteName;
use crate::discovery::SocketAddress;
use crate::route_set::RouteSet;
use crate::text::str_equal;

verus! {

/// What a listener speaks.
#[derive(Clone, Copy, Debug, PartialEq, Eq, Structural)]
pub enum ListenerProtocol {
    HTTP,
}

/// The TCP routes of a listener, by their names.
#[derive(Debug)]
pub struct TcpRouteSet {
    pub routes: Vec<RouteName>,
}

/// What takes requests on a bind, and the routes it takes them by.
#[derive(Debug)]
pub struct Listener {
    pub key: String,
    pub name: String,
    pub hostname: String,
    pub protocol: ListenerProtocol,
    pub tcp_routes: TcpRouteSet,
    pub routes: RouteSet,
}

/// Listeners, no two of them with the same key.
#[derive(Debug)]
pub struct ListenerSet {
    listeners: Vec<Listener>,
}

/// From each key in `list` to the last listener listed with it.
pub open spec fn by_key(list: Seq<Listener>) -> Map<Seq<char>, Listener>
    decreases list.len(),
{
    if list.len() == 0 {
        Map::empty()
    } else {
        by_key(list.drop_last()).insert(list.last().key@, list.last())
    }
}

/// Whether no two of `list` have the same key.
spec fn distinct_keys(list: Seq<Listener>) -> bool {
    forall|i: int, j: int|
        0 <= i < j < list.len() ==> (#[trigger] list[i]).key@ != (#[trigger] list[j]).key@
}

/// Each key maps to its listener.
proof fn lemma_by_key(list: Seq<Listener>, i: int)
    requires
        distinct_keys(list),
        0 <= i < list.len(),
    ensures
        by_key(list).contains_key(list[i].key@),
        by_key(list)[list[i].key@] == list[i],
    decreases list.len(),
{
    if i < list.len() - 1 {
        lemma_by_key(list.drop_last(), i);
    }
}

/// A key that no listener has maps to nothing.
proof fn lemma_no_key(list: Seq<Listener>, key: Seq<char>)
    requires
        forall|i: int| 0 <= i < list.len() ==> (#[trigger] list[i]).key@ != key,
    ensures
        !by_key(list).contains_key(key),
    decreases list.len(),
{
    if list.len() > 0 {
        lemma_no_key(list.drop_last(), key);
    }
}

/// To replace a listener by one of the same key is to map the key to it.
proof fn lemma_replace(list: Seq<Listener>, i: int, listener: Listener)
    requires
        distinct_keys(list),
        0 <= i < list.len(),
        list[i].key@ == listener.key@,
    ensures
        by_key(list.update(i, listener)) == by_key(list).insert(listener.key@, listener),
    decreases list.len(),
{
    let updated = list.update(i, listener);
    if i == list.len() - 1 {
        assert(updated.drop_last() == list.drop_last());
    } else {
        lemma_replace(list.drop_last(), i, listener);
        assert(updated.drop_last() == list.drop_last().update(i, listener));
        assert(list.last().key@ != listener.key@);
    }
}

impl View for ListenerSet {
    type V = Map<Seq<char>, Listener>;

    /// From each key to its listener.
    closed spec fn view(&self) -> Map<Seq<char>, Listener> {
        by_key(self.listeners@)
    }
}

impl ListenerSet {
    #[verifier::type_invariant]
    spec fn well_formed(&self) -> bool {
        distinct_keys(self.listeners@)
    }

    /// The set of these listeners. Of those with the same key, the last one
    /// stays.
    pub fn from_list(list: Vec<Listener>) -> (set: ListenerSet)
        ensures
            set@ == by_key(list@),
    {
        let mut listeners: Vec<Listener> = Vec::new();
        assert(list@.take(0) == listeners@);
        for listener in it: list
            invariant
                it.seq() == list@,
                distinct_keys(listeners@),
                by_key(listeners@) == by_key(list@.take(it.index())),
        {
            let ghost before = listeners@;
            assert(list@.take(it.index() + 1).drop_last() == list@.take(it.index()));
            match find_key(&listeners, listener.key.as_str()) {
                Some(i) => {
                    proof {
                        lemma_replace(before, i as int, listener);
                    }
                    listeners.set(i, listener);
                },
                None => {
                    listeners.push(listener);
                    assert(listeners@.drop_last() == before);
                },
            }
        }
        assert(list@.take(list@.len() as int) == list@);
        ListenerSet { listeners }
    }

    /// The listener with this key, if there is one.
    pub fn get(&self, key: &str) -> (listener: Option<&Listener>)
        ensures
            listener is Some <==> self@.contains_key(key@),
            listener matches Some(l) ==> *l == self@[key@],
    {
        proof {
            use_type_invariant(self);
        }
        match find_key(&self.listeners, key) {
            Some(i) => {
                proof {
                    lemma_by_key(self.listeners@, i as int);
                }
                Some(&self.listeners[i])
            },
            None => {
                proof {
                    lemma_no_key(self.listeners@, key@);
                }
                None
            },
        }
    }
}

/// The place of the listener with this key.
fn find_key(listeners: &Vec<Listener>, key: &str) -> (at: Option<usize>)
    ensures
        match at {
            Some(i) => i < listeners@.len() && listeners@[i as int].key@ == key@,
            None => forall|i: int|
                0 <= i < listeners@.len() ==> (#[trigger] listeners@[i]).key@ != key@,
        },
{
    let mut i: usize = 0;
    while i < listeners.len()
        invariant
            i <= listeners.len(),
            forall|k: int| 0 <= k < i ==> (#[trigger] listeners@[k]).key@ != key@,
        decreases listeners.len() - i,
    {
        if str_equal(listeners[i].key.as_str(), key) {
            return Some(i);
        }
        i += 1;
    }
    None
}

/// What connections to a bind carry.
#[allow(non_camel_case_types)]
#[derive(Clone, Copy, Debug, PartialEq, Eq, Structural)]
pub enum BindProtocol {
    http,
}

/// How connections to a bind are tunnelled.
#[derive(Clone, Copy, Debug, PartialEq, Eq, Structural)]
pub enum TunnelProtocol {
    /// Not at all.
    Direct,
}

/// An address that the gateway accepts connections on, with its listeners.
#[derive(Debug)]
pub struct Bind {
    pub key: String,
    pub address: SocketAddress,
    pub listeners: ListenerSet,
    pub protocol: BindProtocol,
    pub tunnel_protocol: TunnelProtocol,
}

} // verus!
