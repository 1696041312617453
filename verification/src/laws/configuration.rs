//! What the gateway is configured with, and what requests are made of.

use vstd::prelude::*;
use vstd::utf8::encode_utf8;

use super::law_hosts_are_tried_by_specificity;
use crate::activation::service_hostname;
use crate::agent::Route;
use crate::compiled::regex_find;
use crate::discovery::{NamespacedHostname, Service};
use crate::hostname::{host_matches, hostname_of, hosts_view, HostnameMatch, HostnameMatchView};
use crate::listener::{by_key, Listener};
use crate::pattern::{is_whole, regex_accepts};
use crate::query::{map_texts, pair_texts};
use crate::request::{
    is_header, is_header_byte, is_header_name, is_lowercase_header_name, is_token, is_token_char,
    lower, Uri,
};
use crate::route_set::route_hosts;

verus! {

/// Services are told apart by both their namespace and their hostname.
pub proof fn law_services_are_told_apart(
    a: NamespacedHostname,
    b: NamespacedHostname,
    service: Service,
)
    ensures
        a@ == b@ <==> a.namespace@ == b.namespace@ && a.hostname@ == b.hostname@,
        a@ == service.spec_namespaced_hostname() <==> a.namespace@ == service.namespace@
            && a.hostname@ == service.hostname@,
{
}

/// Of the listeners with the same key, the last one stays.
pub proof fn law_last_listener_of_a_key_stays(list: Seq<Listener>, i: int)
    requires
        0 <= i < list.len(),
        forall|j: int| i < j < list.len() ==> (#[trigger] list[j]).key@ != list[i].key@,
    ensures
        by_key(list).contains_key(list[i].key@),
        by_key(list)[list[i].key@] == list[i],
    decreases list.len(),
{
    if i < list.len() - 1 {
        let rest = list.drop_last();
        assert forall|j: int| i < j < rest.len() implies (#[trigger] rest[j]).key@
            != rest[i].key@ by {
            assert(list[j].key@ != list[i].key@);
        }
        law_last_listener_of_a_key_stays(rest, i);
        assert(list[list.len() - 1].key@ != list[i].key@);
    }
}

/// A key that no listener is listed with has none.
pub proof fn law_other_keys_have_no_listener(list: Seq<Listener>, key: Seq<char>)
    requires
        forall|i: int| 0 <= i < list.len() ==> (#[trigger] list[i]).key@ != key,
    ensures
        !by_key(list).contains_key(key),
    decreases list.len(),
{
    if list.len() > 0 {
        let rest = list.drop_last();
        assert forall|i: int| 0 <= i < rest.len() implies (#[trigger] rest[i]).key@ != key by {
            assert(list[i].key@ != key);
        }
        law_other_keys_have_no_listener(rest, key);
        assert(list[list.len() - 1].key@ != key);
    }
}

/// The hostname of a service is its name, a dot and the domain of its namespace.
/// So a wildcard on that domain takes it in, and services of the same namespace
/// with different names have different hostnames.
pub proof fn law_service_lies_in_its_namespace(
    name: Seq<char>,
    other: Seq<char>,
    namespace: Seq<char>,
)
    ensures
        ({
            let domain = namespace + ".svc.cluster.local"@;
            &&& service_hostname(name, namespace) == name + seq!['.'] + domain
            &&& host_matches(service_hostname(name, namespace)).contains(
                HostnameMatchView::Wildcard(domain),
            )
        }),
        service_hostname(name, namespace) == service_hostname(other, namespace) ==> name == other,
{
    reveal_strlit(".");
    assert("."@ == seq!['.']);
    let domain = namespace + ".svc.cluster.local"@;
    let host = service_hostname(name, namespace);
    let same = service_hostname(other, namespace);
    assert(host == name + seq!['.'] + domain);
    assert(same == other + seq!['.'] + domain);
    law_hosts_are_tried_by_specificity(host);
    let i = name.len() as int;
    assert(host[i] == '.');
    assert(host.skip(i + 1) == domain);
    if host == same {
        assert(host.len() == same.len());
        assert(host.take(i) == name);
        assert(same.take(i) == other);
    }
}

/// A hostname of a route that is an asterisk, a dot and a domain stands for the
/// hosts below that domain. All others stand for the host of that name.
pub proof fn law_hostnames_of_routes(text: Seq<char>, domain: Seq<char>)
    ensures
        hostname_of(seq!['*', '.'] + domain) == HostnameMatchView::Wildcard(domain),
        text.len() < 2 || text[0] != '*' || text[1] != '.' ==> hostname_of(text)
            == HostnameMatchView::Exact(text),
{
    reveal_strlit("*.");
    assert("*."@ == seq!['*', '.']);
    let wildcard = seq!['*', '.'] + domain;
    assert(wildcard.take(2) == "*."@);
    assert(wildcard.skip(2) == domain);
    if text.len() >= 2 {
        assert(text.take(2)[0] == text[0] && text.take(2)[1] == text[1]);
    }
}

/// A route is for the hosts that each of its hostnames stands for, and for every
/// host where it has no hostname.
pub proof fn law_hosts_of_a_route(route: Route, hosts: HostnameMatchView)
    ensures
        route.hostnames@.len() == 0 ==> (route_hosts(route).contains(hosts) <==> hosts is Any),
        route.hostnames@.len() > 0 ==> (route_hosts(route).contains(hosts) <==> exists|j: int|
            0 <= j < route.hostnames@.len() && hostname_of((#[trigger] route.hostnames@[j])@)
                == hosts),
{
    let all = route_hosts(route);
    if route.hostnames@.len() == 0 {
        assert(all[0] == HostnameMatchView::Any);
    } else {
        if all.contains(hosts) {
            let j = all.index_of(hosts);
            assert(hostname_of(route.hostnames@[j]@) == hosts);
        }
        if exists|j: int|
            0 <= j < route.hostnames@.len() && hostname_of((#[trigger] route.hostnames@[j])@)
                == hosts {
            let j = choose|j: int|
                0 <= j < route.hostnames@.len() && hostname_of((#[trigger] route.hostnames@[j])@)
                    == hosts;
            assert(all[j] == hosts);
        }
    }
}

/// Hosts are told apart by their kind and their text.
pub proof fn law_hosts_as_text(a: HostnameMatch, list: Seq<HostnameMatch>, i: int)
    ensures
        a matches HostnameMatch::Exact(host) ==> a@ == HostnameMatchView::Exact(host@),
        a matches HostnameMatch::Wildcard(domain) ==> a@ == HostnameMatchView::Wildcard(domain@),
        a is Any ==> a@ == HostnameMatchView::Any,
        hosts_view(list).len() == list.len(),
        0 <= i < list.len() ==> hosts_view(list)[i] == list[i]@,
{
}

/// A regular expression accepts a text if its first match in the text starts at the
/// first byte and ends at the last, and only then: a match that leaves out a part
/// at either end does not count.
pub proof fn law_expressions_match_the_whole(
    pattern: Seq<char>,
    text: Seq<char>,
    found: Option<(usize, usize)>,
)
    ensures
        regex_accepts(pattern, text) <==> (regex_find(pattern, text) matches Some((start, end))
            && start == 0 && end == encode_utf8(text).len()),
        is_whole(found, text) <==> (found matches Some((start, end)) && start == 0 && end
            == encode_utf8(text).len()),
{
}

/// A token holds one or more characters, each of them a visible ASCII character
/// that is no delimiter.
pub proof fn law_tokens(text: Seq<char>, c: char)
    ensures
        is_token_char(c) <==> {
            &&& '!' <= c <= '~'
            &&& c != '"' && c != '(' && c != ')' && c != ',' && c != '/'
            &&& !(':' <= c <= '@')
            &&& !('[' <= c <= ']')
            &&& c != '{' && c != '}'
        },
        is_token(text) <==> text.len() > 0 && forall|i: int|
            0 <= i < text.len() ==> is_token_char(#[trigger] text[i]),
{
}

/// A request can have a header if its name is a token, in any case, or a name in
/// lower case in which double quotes may stand beside the characters of tokens, of
/// one to 65535 characters; and its value, which may be empty, holds no control
/// character but the tab.
pub proof fn law_headers(header: (String, Vec<u8>))
    ensures
        is_header(header) <==> {
            let (name, value) = (header.0@, header.1@);
            &&& 1 <= name.len() <= 65535
            &&& {
                ||| forall|i: int| 0 <= i < name.len() ==> is_token_char(#[trigger] name[i])
                ||| forall|i: int|
                    0 <= i < name.len() ==> {
                        let c = #[trigger] name[i];
                        c == '"' || is_token_char(c) && !('A' <= c <= 'Z')
                    }
            }
            &&& forall|i: int|
                0 <= i < value.len() ==> {
                    let b = #[trigger] value[i];
                    b == 9 || b >= 32 && b != 127
                }
        },
{
    let (name, value) = (header.0@, header.1@);
    assert(is_header_name(name) <==> 1 <= name.len() <= 65535 && forall|i: int|
        0 <= i < name.len() ==> is_token_char(#[trigger] name[i]));
    assert(is_lowercase_header_name(name) <==> 1 <= name.len() <= 65535 && forall|i: int|
        0 <= i < name.len() ==> {
            let c = #[trigger] name[i];
            c == '"' || is_token_char(c) && !('A' <= c <= 'Z')
        });
    assert forall|i: int| 0 <= i < value.len() implies (is_header_byte(#[trigger] value[i]) <==> {
        let b = value[i];
        b == 9 || b >= 32 && b != 127
    }) by {}
}

/// To put a text in lower case is to put its letters from A to Z in lower case, one
/// by one, and to leave all else: what is in lower case stays as it is.
pub proof fn law_lower_case(text: Seq<char>, i: int)
    ensures
        lower(text).len() == text.len(),
        0 <= i < text.len() ==> {
            let (c, l) = (text[i], lower(text)[i]);
            &&& 'A' <= c <= 'Z' ==> l as int == c as int + 32
            &&& !('A' <= c <= 'Z') ==> l == c
        },
        lower(lower(text)) == lower(text),
{
    assert forall|k: int| 0 <= k < text.len() implies lower(lower(text))[k] == lower(text)[k] by {
        let c = text[k];
        assert('A' <= c <= 'Z' ==> lower(text)[k] as int == c as int + 32);
    }
    assert(lower(lower(text)) == lower(text));
}

/// A URI says what its parts hold.
pub proof fn law_uri_as_text(uri: Uri)
    ensures
        uri@.path == uri.path@,
        uri.scheme matches Some(s) ==> uri@.scheme == Some(s@),
        uri.scheme is None ==> uri@.scheme is None,
        uri.authority matches Some(a) ==> uri@.authority == Some(a@),
        uri.authority is None ==> uri@.authority is None,
        uri.host matches Some(h) ==> uri@.host == Some(h@),
        uri.host is None ==> uri@.host is None,
        uri.query matches Some(q) ==> uri@.query == Some(q@),
        uri.query is None ==> uri@.query is None,
{
}

/// Pairs and maps of strings say what the strings hold.
pub proof fn law_pairs_as_text(pairs: Seq<(String, String)>, map: Map<Seq<char>, String>, i: int)
    ensures
        pair_texts(pairs).len() == pairs.len(),
        0 <= i < pairs.len() ==> pair_texts(pairs)[i] == (pairs[i].0@, pairs[i].1@),
        map_texts(map).dom() == map.dom(),
        forall|key: Seq<char>| #[trigger]
            map.contains_key(key) ==> map_texts(map)[key] == map[key]@,
{
}

} // verus!
