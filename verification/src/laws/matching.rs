//! Which requests a match accepts.

use vstd::prelude::*;
use vstd::utf8::{encode_utf8, is_ascii_chars, is_ascii_chars_encode_utf8};

use super::{
    law_last_value_counts, law_prefix_accepts_only_its_paths, law_prefix_accepts_whole_segments,
    lemma_last_of_name, lemma_trim_to,
};
use crate::agent::{
    HeaderMatch, HeaderValueMatch, PathMatch, QueryMatch, QueryValueMatch, RouteMatch,
};
use crate::compiled::regex_find;
use crate::matching::{accepts, asks_for_query, header_accepts, query_accepts, RequestMatchCtx};
use crate::query::{form_pairs, last_values, query_params};
use crate::request::{
    ascii_text, header_value, is_header_value, is_visible, pseudo_or_header_value, text_value, Header,
    HeaderOrPseudo, Request,
};
use crate::text::{starts_with, trim_slashes};

verus! {

/// A text starts with another one if something can be put behind the other one
/// that gives the text, and only then.
pub proof fn law_starts_with(s: Seq<char>, prefix: Seq<char>, rest: Seq<char>)
    ensures
        starts_with(prefix + rest, prefix),
        starts_with(s, prefix) ==> s == prefix + s.skip(prefix.len() as int),
{
    let n = prefix.len() as int;
    assert((prefix + rest).take(n) == prefix);
    if starts_with(s, prefix) {
        assert(s == s.take(n) + s.skip(n));
    }
}

/// A match that asks for nothing but an exact path accepts the requests that have
/// this path, character by character, and no others: no slash more or less, and
/// no other case.
pub proof fn law_exact_path(m: RouteMatch, request: Request)
    requires
        m.path is Exact,
        m.method is None,
        m.headers@.len() == 0,
        m.query@.len() == 0,
    ensures
        accepts(m, request) <==> {
            let (have, want) = (request.uri.path@, m.path->Exact_0@);
            &&& have.len() == want.len()
            &&& forall|i: int| 0 <= i < want.len() ==> have[i] == want[i]
        },
{
    let (have, want) = (request.uri.path@, m.path->Exact_0@);
    if have.len() == want.len() && (forall|i: int| 0 <= i < want.len() ==> have[i] == want[i]) {
        assert(have == want);
    }
}

/// A match that asks for nothing but a path by a regular expression accepts a
/// request if the first match of the expression in the path as it came, with all
/// its slashes, goes from the first byte to the last, and only then.
pub proof fn law_regex_path(m: RouteMatch, request: Request)
    requires
        m.path is Regex,
        m.method is None,
        m.headers@.len() == 0,
        m.query@.len() == 0,
    ensures
        accepts(m, request) <==> {
            let path = request.uri.path@;
            &&& regex_find(m.path->Regex_0@, path) matches Some((start, end))
            &&& start == 0
            &&& end == encode_utf8(path).len()
        },
{
}

/// A match that asks for nothing but a path by a prefix accepts a request if its
/// path starts with the first `n` characters of the prefix, where only slashes
/// follow these in the prefix, and nothing or a slash follows them in the path;
/// and only then.
pub proof fn law_prefix_path(m: RouteMatch, request: Request, n: int)
    requires
        m.path is PathPrefix,
        m.method is None,
        m.headers@.len() == 0,
        m.query@.len() == 0,
        0 <= n <= m.path->PathPrefix_0@.len(),
        n > 0 ==> m.path->PathPrefix_0@[n - 1] != '/',
        forall|i: int|
            n <= i < m.path->PathPrefix_0@.len() ==> m.path->PathPrefix_0@[i] == '/',
    ensures
        accepts(m, request) <==> {
            let (path, prefix) = (request.uri.path@, m.path->PathPrefix_0@);
            &&& n <= path.len()
            &&& forall|i: int| 0 <= i < n ==> path[i] == prefix[i]
            &&& path.len() == n || path[n] == '/'
        },
{
    let (path, prefix) = (request.uri.path@, m.path->PathPrefix_0@);
    let kept = prefix.take(n);
    lemma_trim_to(prefix, n);
    if n <= path.len() && (forall|i: int| 0 <= i < n ==> path[i] == prefix[i]) {
        let rest = path.skip(n);
        assert(path == kept + rest);
        law_prefix_accepts_whole_segments(m.path, rest);
        assert(rest.len() > 0 ==> rest[0] == path[n]);
    } else if accepts(m, request) {
        law_prefix_accepts_only_its_paths(m.path, path);
        assert forall|i: int| 0 <= i < n implies path[i] == prefix[i] by {
            assert(path.take(n)[i] == kept[i]);
        }
    }
}

/// A match accepts a request if the request meets all that it asks for: its path,
/// as far as a match on this path alone accepts it; its method, to the letter,
/// where it asks for one; each of its headers; and each of its query parameters.
pub proof fn law_all_demands_count(m: RouteMatch, on_path: RouteMatch, request: Request)
    requires
        on_path.path == m.path,
        on_path.method is None,
        on_path.headers@.len() == 0,
        on_path.query@.len() == 0,
    ensures
        accepts(m, request) <==> {
            &&& accepts(on_path, request)
            &&& m.method matches Some(want) ==> want.method@ == request.method@
            &&& forall|i: int|
                0 <= i < m.headers@.len() ==> header_accepts(#[trigger] m.headers@[i], request)
            &&& forall|i: int|
                0 <= i < m.query@.len() ==> query_accepts(
                    #[trigger] m.query@[i],
                    query_params(request.uri@.query),
                )
        },
{
}

/// Two matches that ask for different methods never both accept a request.
pub proof fn law_methods_exclude_each_other(a: RouteMatch, b: RouteMatch, request: Request)
    requires
        a.method is Some,
        b.method is Some,
        (a.method->0).method@ != (b.method->0).method@,
    ensures
        !(accepts(a, request) && accepts(b, request)),
{
}

/// Of the headers with a name, the first counts: a request has a value under the
/// name if one of its headers has the name, and the value is that of the first
/// one that does, unchanged.
pub proof fn law_first_header_counts(name: HeaderOrPseudo, request: Request)
    requires
        name is Header,
    ensures
        pseudo_or_header_value(name, request) is Some <==> exists|i: int|
            0 <= i < request.headers@.len() && (#[trigger] request.headers@[i]).name@
                == name->Header_0@,
        forall|i: int|
            0 <= i < request.headers@.len() && (#[trigger] request.headers@[i]).name@
                == name->Header_0@ && (forall|j: int|
                0 <= j < i ==> (#[trigger] request.headers@[j]).name@ != name->Header_0@)
                ==> pseudo_or_header_value(name, request) == Some(request.headers@[i].value@),
{
    let headers = request.headers@;
    let wanted = name->Header_0@;
    lemma_header_value(headers, wanted);
    if exists|i: int| 0 <= i < headers.len() && (#[trigger] headers[i]).name@ == wanted {
        assert forall|i: int|
            0 <= i < headers.len() && (#[trigger] headers[i]).name@ == wanted && (forall|j: int|
                0 <= j < i ==> (#[trigger] headers[j]).name@ != wanted) implies header_value(
            headers,
            wanted,
        ) == Some(headers[i].value@) by {
            let k = first_of_name(headers, wanted);
            assert(headers[k].name@ == wanted);
            assert(k == i) by {
                if k < i {
                    assert(headers[k].name@ != wanted);
                }
            }
        }
    }
}

/// The place of the first of `headers` that has this name.
spec fn first_of_name(headers: Seq<Header>, name: Seq<char>) -> int
    decreases headers.len(),
{
    if headers.len() == 0 || headers[0].name@ == name {
        0
    } else {
        1 + first_of_name(headers.drop_first(), name)
    }
}

/// A name has the value of the first of the headers that has it.
proof fn lemma_header_value(headers: Seq<Header>, name: Seq<char>)
    ensures
        ({
            let k = first_of_name(headers, name);
            &&& 0 <= k <= headers.len()
            &&& forall|j: int| 0 <= j < k ==> (#[trigger] headers[j]).name@ != name
            &&& if k < headers.len() {
                headers[k].name@ == name && header_value(headers, name) == Some(headers[k].value@)
            } else {
                header_value(headers, name) is None
            }
        }),
    decreases headers.len(),
{
    if headers.len() > 0 && headers[0].name@ != name {
        let rest = headers.drop_first();
        lemma_header_value(rest, name);
        let k = first_of_name(headers, name);
        assert forall|j: int| 0 <= j < k implies (#[trigger] headers[j]).name@ != name by {
            if j > 0 {
                assert(rest[j - 1].name@ != name);
            }
        }
    }
}

/// A pseudo header has the part of the request line that it stands for as its
/// value, in UTF-8: the method; the scheme and the authority, where the target
/// has them; the path, with a question mark and the query where there is one, but
/// not where the path is empty. There is no value where a header value may not
/// hold these bytes, and a request has no status.
pub proof fn law_pseudo_headers(
    name: HeaderOrPseudo,
    request: Request,
    text: Option<Seq<char>>,
)
    requires
        name !is Header,
        text == match name {
            HeaderOrPseudo::Method => Some(request.method@),
            HeaderOrPseudo::Scheme => match request.uri.scheme {
                Some(scheme) => Some(scheme@),
                None => None,
            },
            HeaderOrPseudo::Authority => match request.uri.authority {
                Some(authority) => Some(authority@),
                None => None,
            },
            HeaderOrPseudo::Path => if request.uri.path@.len() == 0 {
                None
            } else {
                match request.uri.query {
                    Some(query) => Some(request.uri.path@ + seq!['?'] + query@),
                    None => Some(request.uri.path@),
                }
            },
            _ => None,
        },
    ensures
        pseudo_or_header_value(name, request) is Some <==> text is Some && forall|i: int|
            0 <= i < encode_utf8(text->0).len() ==> {
                let b = #[trigger] encode_utf8(text->0)[i];
                b == 9 || b >= 32 && b != 127
            },
        pseudo_or_header_value(name, request) matches Some(value) ==> value == encode_utf8(text->0),
{
    reveal_strlit("?");
    assert("?"@ == seq!['?']);
    if let Some(text) = text {
        assert(is_header_value(encode_utf8(text)) <==> forall|i: int|
            0 <= i < encode_utf8(text).len() ==> {
                let b = #[trigger] encode_utf8(text)[i];
                b == 9 || b >= 32 && b != 127
            });
    }
    assert(pseudo_or_header_value(name, request) == text_value(text));
}

/// A header match accepts a request if the request has a value under its name and
/// the match accepts the value. An exact value accepts the same bytes, as many
/// and each the same, and no others. A regular expression accepts a value that
/// holds nothing but visible ASCII characters, spaces and tabs, if its first match
/// in that text goes from the first byte to the last.
pub proof fn law_header_values(m: HeaderMatch, request: Request)
    ensures
        header_accepts(m, request) <==> {
            &&& pseudo_or_header_value(m.name, request) matches Some(have)
            &&& match m.value {
                HeaderValueMatch::Exact(want) => {
                    &&& have.len() == want@.len()
                    &&& forall|i: int| 0 <= i < have.len() ==> have[i] == want@[i]
                },
                HeaderValueMatch::Regex(want) => {
                    &&& forall|i: int|
                        0 <= i < have.len() ==> {
                            let b = #[trigger] have[i];
                            b == 9 || 32 <= b < 127
                        }
                    &&& regex_find(want@, Seq::new(have.len(), |i: int| have[i] as char)) matches Some(
                        (start, end),
                    )
                    &&& start == 0
                    &&& end == have.len()
                },
            }
        },
{
    if let Some(have) = pseudo_or_header_value(m.name, request) {
        match m.value {
            HeaderValueMatch::Exact(want) => {
                if have.len() == want@.len() && (forall|i: int|
                    0 <= i < have.len() ==> have[i] == want@[i]) {
                    assert(have == want@);
                }
            },
            HeaderValueMatch::Regex(want) => {
                let text = Seq::new(have.len(), |i: int| have[i] as char);
                assert(ascii_text(have) == text);
                if is_visible(have) {
                    assert(is_ascii_chars(text)) by {
                        assert forall|i: int| 0 <= i < text.len() implies '\0' <= #[trigger] text[i]
                            <= '\u{7f}' by {
                            assert(text[i] == have[i] as char);
                        }
                    }
                    is_ascii_chars_encode_utf8(text);
                }
            },
        }
    }
}

/// Two matches that ask for different exact values of the same header never both
/// accept a request, whatever else they ask for.
pub proof fn law_header_values_exclude_each_other(
    a: RouteMatch,
    b: RouteMatch,
    i: int,
    j: int,
    request: Request,
)
    requires
        0 <= i < a.headers@.len(),
        0 <= j < b.headers@.len(),
        a.headers@[i].name == b.headers@[j].name || {
            &&& a.headers@[i].name matches HeaderOrPseudo::Header(x)
            &&& b.headers@[j].name matches HeaderOrPseudo::Header(y)
            &&& x@ == y@
        },
        a.headers@[i].value is Exact,
        b.headers@[j].value is Exact,
        a.headers@[i].value->Exact_0@ != b.headers@[j].value->Exact_0@,
    ensures
        !(accepts(a, request) && accepts(b, request)),
{
    if accepts(a, request) && accepts(b, request) {
        assert(header_accepts(a.headers@[i], request));
        assert(header_accepts(b.headers@[j], request));
    }
}

/// A query match accepts a request if the query string, decoded, gives a parameter
/// of its name and the match accepts the last value given. An exact value accepts
/// the same characters, as many and each the same, and no others. A regular
/// expression accepts a value if its first match in it goes from the first byte to
/// the last.
pub proof fn law_query_values(m: QueryMatch, request: Request)
    ensures
        query_accepts(m, query_params(request.uri@.query)) <==> {
            &&& request.uri.query matches Some(raw)
            &&& {
                let pairs = form_pairs(raw@);
                exists|i: int|
                    {
                        &&& 0 <= i < pairs.len()
                        &&& (#[trigger] pairs[i]).0 == m.name@
                        &&& forall|j: int|
                            i < j < pairs.len() ==> (#[trigger] pairs[j]).0 != m.name@
                        &&& match m.value {
                            QueryValueMatch::Exact(want) => {
                                &&& pairs[i].1.len() == want@.len()
                                &&& forall|k: int|
                                    0 <= k < want@.len() ==> pairs[i].1[k] == want@[k]
                            },
                            QueryValueMatch::Regex(want) => {
                                &&& regex_find(want@, pairs[i].1) matches Some((start, end))
                                &&& start == 0
                                &&& end == encode_utf8(pairs[i].1).len()
                            },
                        }
                    }
            }
        },
{
    if let Some(raw) = request.uri.query {
        let pairs = form_pairs(raw@);
        let name = m.name@;
        law_last_value_counts(pairs, name);
        if last_values(pairs).contains_key(name) {
            let i = lemma_last_of_name(pairs, name);
            assert(last_values(pairs)[name] == pairs[i].1);
            if let QueryValueMatch::Exact(want) = m.value {
                if pairs[i].1.len() == want@.len() && (forall|k: int|
                    0 <= k < want@.len() ==> pairs[i].1[k] == want@[k]) {
                    assert(pairs[i].1 == want@);
                }
            }
        }
    }
}

/// Two matches that ask for different exact values of the same query parameter
/// never both accept a request, whatever else they ask for.
pub proof fn law_query_values_exclude_each_other(
    a: RouteMatch,
    b: RouteMatch,
    i: int,
    j: int,
    request: Request,
)
    requires
        0 <= i < a.query@.len(),
        0 <= j < b.query@.len(),
        a.query@[i].name@ == b.query@[j].name@,
        a.query@[i].value is Exact,
        b.query@[j].value is Exact,
        a.query@[i].value->Exact_0@ != b.query@[j].value->Exact_0@,
    ensures
        !(accepts(a, request) && accepts(b, request)),
{
    if accepts(a, request) && accepts(b, request) {
        let params = query_params(request.uri@.query);
        assert(query_accepts(a.query@[i], params));
        assert(query_accepts(b.query@[j], params));
    }
}

/// The query string is asked for if a match asks for a query parameter and would
/// accept the request were it not for the query parameters; and only then.
pub proof fn law_query_is_asked_for_last(m: RouteMatch, before: RouteMatch, request: Request)
    requires
        before.path == m.path,
        before.method == m.method,
        before.headers == m.headers,
        before.query@.len() == 0,
    ensures
        asks_for_query(m, request) <==> m.query@.len() > 0 && accepts(before, request),
{
}

/// Holding a match against a request leaves what was read off the request, but
/// for the query string: that is parsed if it is asked for, and left alone if not.
pub proof fn law_try_changes_the_query_alone(
    ctx: RequestMatchCtx<'_>,
    m: RouteMatch,
    request: Request,
    after: RequestMatchCtx<'_>,
)
    requires
        ctx.agrees_with(request),
        ctx.tried(m, request, after),
    ensures
        after.path == ctx.path,
        after.path_trimmed == ctx.path_trimmed,
        after.method == ctx.method,
        after.parsed_query.params() == ctx.parsed_query.params(),
        asks_for_query(m, request) ==> after.parsed_query !is Unparsed,
        !asks_for_query(m, request) || ctx.parsed_query !is Unparsed ==> after == ctx,
{
}

/// What is read off a request is its path, the same without the slashes at its
/// end, its method, and the last values of the parameters of its query.
pub proof fn law_context_holds_the_request(ctx: RequestMatchCtx<'_>, request: Request)
    requires
        ctx.agrees_with(request),
    ensures
        ctx.path@ == request.uri.path@,
        ctx.path_trimmed@ == trim_slashes(request.uri.path@),
        ctx.method@ == request.method@,
        request.uri.query is None ==> ctx.parsed_query.params() == Map::<
            Seq<char>,
            Seq<char>,
        >::empty(),
        request.uri.query matches Some(raw) ==> ctx.parsed_query.params() == last_values(
            form_pairs(raw@),
        ),
{
}

} // verus!
