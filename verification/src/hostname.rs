use vstd::prelude::*;
use vstd::string::StrSliceExecFns;

use crate::text::{starts_with, str_equal, strip_prefix};

verus! {

/// What a `HostnameMatch` says, as text.
pub enum HostnameMatchView {
    Exact(Seq<char>),
    Wildcard(Seq<char>),
    Any,
}

/// The hosts that a route is for.
#[derive(Debug)]
pub enum HostnameMatch {
    /// This host.
    Exact(String),
    /// The hosts below this domain: `*.example.com` is a wildcard on
    /// `example.com`.
    Wildcard(String),
    /// Every host.
    Any,
}

impl View for HostnameMatch {
    type V = HostnameMatchView;

    open spec fn view(&self) -> HostnameMatchView {
        match *self {
            HostnameMatch::Exact(host) => HostnameMatchView::Exact(host@),
            HostnameMatch::Wildcard(domain) => HostnameMatchView::Wildcard(domain@),
            HostnameMatch::Any => HostnameMatchView::Any,
        }
    }
}

/// The hosts that the hostname `text` of a route stands for.
pub open spec fn hostname_of(text: Seq<char>) -> HostnameMatchView {
    if starts_with(text, "*."@) {
        HostnameMatchView::Wildcard(text.skip(2))
    } else {
        HostnameMatchView::Exact(text)
    }
}

/// Wildcards on the domains that `host` lies in, as far as they begin after a
/// dot among the first `n` characters of `host`: the longest domain first.
pub open spec fn wildcards(host: Seq<char>, n: int) -> Seq<HostnameMatchView>
    decreases n,
{
    if n <= 0 {
        Seq::empty()
    } else if host[n - 1] == '.' {
        wildcards(host, n - 1).push(HostnameMatchView::Wildcard(host.skip(n)))
    } else {
        wildcards(host, n - 1)
    }
}

/// All hostname matches that take in `host`, the most specific first: the host
/// itself, the domains it lies in from the longest on, every host.
pub open spec fn host_matches(host: Seq<char>) -> Seq<HostnameMatchView> {
    seq![HostnameMatchView::Exact(host)] + wildcards(host, host.len() as int) + seq![
        HostnameMatchView::Any,
    ]
}

/// A list of hostname matches, each as text.
pub open spec fn hosts_view(hosts: Seq<HostnameMatch>) -> Seq<HostnameMatchView> {
    hosts.map_values(|h: HostnameMatch| h@)
}

impl HostnameMatch {
    /// The hosts that the hostname `text` of a route stands for.
    pub fn from_hostname(text: &str) -> (hosts: HostnameMatch)
        ensures
            hosts@ == hostname_of(text@),
    {
        proof {
            reveal_strlit("*.");
        }
        match strip_prefix(text, "*.") {
            Some(domain) => HostnameMatch::Wildcard(domain.to_owned()),
            None => HostnameMatch::Exact(text.to_owned()),
        }
    }

    /// Whether `self` and `other` stand for the same hosts.
    pub fn equals(&self, other: &HostnameMatch) -> (equal: bool)
        ensures
            equal == (self@ == other@),
    {
        match (self, other) {
            (HostnameMatch::Exact(a), HostnameMatch::Exact(b)) => str_equal(
                a.as_str(),
                b.as_str(),
            ),
            (HostnameMatch::Wildcard(a), HostnameMatch::Wildcard(b)) => str_equal(
                a.as_str(),
                b.as_str(),
            ),
            (HostnameMatch::Any, HostnameMatch::Any) => true,
            _ => false,
        }
    }

    /// All hostname matches that take in `host`, the most specific first.
    pub fn all_matches(host: &str) -> (hosts: Vec<HostnameMatch>)
        ensures
            hosts_view(hosts@) == host_matches(host@),
    {
        let len = host.unicode_len();
        let mut hosts: Vec<HostnameMatch> = Vec::new();
        hosts.push(HostnameMatch::Exact(host.to_owned()));
        let ghost first = seq![HostnameMatchView::Exact(host@)];
        assert(hosts_view(hosts@) == first + wildcards(host@, 0));
        let mut i: usize = 0;
        for c in it: host.chars()
            invariant
                i == it.index(),
                it.seq() == host@,
                len == host@.len(),
                hosts_view(hosts@) == first + wildcards(host@, i as int),
        {
            i += 1;
            if c == '.' {
                let ghost before = hosts@;
                let domain = HostnameMatch::Wildcard(host.substring_char(i, len).to_owned());
                hosts.push(domain);
                assert(hosts_view(hosts@) == hosts_view(before).push(domain@));
            }
        }
        let ghost before = hosts@;
        hosts.push(HostnameMatch::Any);
        assert(hosts_view(hosts@) == hosts_view(before).push(HostnameMatchView::Any));
        hosts
    }
}

impl Clone for HostnameMatch {
    fn clone(&self) -> (copy: Self)
        ensures
            copy == *self,
    {
        match self {
            HostnameMatch::Exact(host) => HostnameMatch::Exact(host.clone()),
            HostnameMatch::Wildcard(domain) => HostnameMatch::Wildcard(domain.clone()),
            HostnameMatch::Any => HostnameMatch::Any,
        }
    }
}

} // verus!
