use vstd::prelude::*;
use vstd::string::StrSliceExecFns;

use crate::agent::{
    HeaderMatch, HeaderValueMatch, MethodMatch, PathMatch, QueryMatch, QueryValueMatch, RouteMatch,
};
use crate::pattern::regex_accepts;
use crate::query::{query_params, ParsedQuery};
use crate::request::{
    ascii_text, get_pseudo_or_header_value, is_visible, pseudo_or_header_value, Request,
};
use crate::text::{starts_with, str_equal, strip_prefix, trim_end_slashes, trim_slashes};

verus! {

/// Whether `path` is `prefix` or lies below it.
pub open spec fn is_at_or_below(path: Seq<char>, prefix: Seq<char>) -> bool {
    path == prefix || starts_with(path, prefix.push('/'))
}

/// Whether `m` accepts `path`. `trimmed` is `path` without the slashes at its
/// end.
pub open spec fn path_accepts(m: PathMatch, path: Seq<char>, trimmed: Seq<char>) -> bool {
    match m {
        PathMatch::Exact(p) => path == p@,
        PathMatch::Regex(r) => regex_accepts(r@, path),
        PathMatch::PathPrefix(p) => is_at_or_below(trimmed, trim_slashes(p@)),
    }
}

/// Whether `m`, if there is one, accepts `method`.
pub open spec fn method_accepts(m: Option<MethodMatch>, method: Seq<char>) -> bool {
    match m {
        Some(m) => m.method@ == method,
        None => true,
    }
}

/// Whether `m` accepts `have` as the value of its header.
pub open spec fn header_value_accepts(m: HeaderValueMatch, have: Option<Seq<u8>>) -> bool {
    match have {
        Some(have) => match m {
            HeaderValueMatch::Exact(want) => have == want@,
            HeaderValueMatch::Regex(want) => is_visible(have) && regex_accepts(
                want@,
                ascii_text(have),
            ),
        },
        None => false,
    }
}

/// Whether `m` accepts the headers of `request`.
pub open spec fn header_accepts(m: HeaderMatch, request: Request) -> bool {
    header_value_accepts(m.value, pseudo_or_header_value(m.name, request))
}

/// Whether all of `ms` accept the headers of `request`.
pub open spec fn headers_accept(ms: Seq<HeaderMatch>, request: Request) -> bool {
    forall|i: int| 0 <= i < ms.len() ==> header_accepts(#[trigger] ms[i], request)
}

/// Whether `m` accepts the text `have` as the value of its parameter.
pub open spec fn query_value_accepts(m: QueryValueMatch, have: Seq<char>) -> bool {
    match m {
        QueryValueMatch::Exact(want) => have == want@,
        QueryValueMatch::Regex(want) => regex_accepts(want@, have),
    }
}

/// Whether `m` accepts these query parameters.
pub open spec fn query_accepts(m: QueryMatch, params: Map<Seq<char>, Seq<char>>) -> bool {
    params.contains_key(m.name@) && query_value_accepts(m.value, params[m.name@])
}

/// Whether all of `ms` accept these query parameters.
pub open spec fn queries_accept(ms: Seq<QueryMatch>, params: Map<Seq<char>, Seq<char>>) -> bool {
    forall|i: int| 0 <= i < ms.len() ==> query_accepts(#[trigger] ms[i], params)
}

/// Whether holding `m` against `request` gets as far as asking for a query
/// parameter: `m` asks for one, and accepts all that comes before.
pub open spec fn asks_for_query(m: RouteMatch, request: Request) -> bool {
    &&& path_accepts(m.path, request.uri.path@, trim_slashes(request.uri.path@))
    &&& method_accepts(m.method, request.method@)
    &&& headers_accept(m.headers@, request)
    &&& m.query@.len() > 0
}

/// Whether `m` accepts `request`.
pub open spec fn accepts(m: RouteMatch, request: Request) -> bool {
    &&& path_accepts(m.path, request.uri.path@, trim_slashes(request.uri.path@))
    &&& method_accepts(m.method, request.method@)
    &&& headers_accept(m.headers@, request)
    &&& queries_accept(m.query@, query_params(request.uri@.query))
}

/// What is read off a request once, before any route is held against it.
pub struct RequestMatchCtx<'a> {
    /// The path of the request.
    pub path: &'a str,
    /// The path without the slashes at its end, which every prefix is held
    /// against.
    pub path_trimmed: &'a str,
    /// The method of the request.
    pub method: &'a str,
    /// The query string, shared by all routes.
    pub parsed_query: ParsedQuery<'a>,
}

impl<'a> RequestMatchCtx<'a> {
    /// Whether this is what is read off `request`.
    pub open spec fn agrees_with(&self, request: Request) -> bool {
        &&& self.path@ == request.uri.path@
        &&& self.path_trimmed@ == trim_slashes(request.uri.path@)
        &&& self.method@ == request.method@
        &&& self.parsed_query.params() == query_params(request.uri@.query)
    }

    /// Whether `after` is `self` once routes have been held against the request:
    /// the query string is parsed if a parameter was `asked` for, and all else is
    /// as it was.
    pub open spec fn left(&self, asked: bool, after: Self) -> bool {
        &&& after.path == self.path
        &&& after.path_trimmed == self.path_trimmed
        &&& after.method == self.method
        &&& if asked {
            self.parsed_query.forced(after.parsed_query)
        } else {
            after.parsed_query == self.parsed_query
        }
    }

    /// Whether `m` accepts a request off which this was read, by what comes
    /// before the query string.
    pub open spec fn accepted_before_query(&self, m: RouteMatch, request: Request) -> bool {
        &&& path_accepts(m.path, self.path@, self.path_trimmed@)
        &&& method_accepts(m.method, self.method@)
        &&& headers_accept(m.headers@, request)
    }

    /// Whether `m` accepts a request off which this was read.
    pub open spec fn accepted(&self, m: RouteMatch, request: Request) -> bool {
        &&& self.accepted_before_query(m, request)
        &&& queries_accept(m.query@, self.parsed_query.params())
    }

    /// Whether `after` is `self` once `m` has been held against `request`: the
    /// query string is parsed if `m` got as far as asking for a parameter, and
    /// all else is as it was.
    pub open spec fn tried(&self, m: RouteMatch, request: Request, after: Self) -> bool {
        self.left(self.accepted_before_query(m, request) && m.query@.len() > 0, after)
    }

    /// Reads off `request` what routes are held against.
    pub fn from_request(request: &'a Request) -> (ctx: Self)
        ensures
            ctx.agrees_with(*request),
            match request.uri.query {
                Some(raw) => ctx.parsed_query matches ParsedQuery::Unparsed(q) && q@ == raw@,
                None => ctx.parsed_query is Absent,
            },
    {
        let path = request.uri.path.as_str();
        RequestMatchCtx {
            path,
            path_trimmed: trim_end_slashes(path),
            method: request.method.as_str(),
            parsed_query: ParsedQuery::from_request(request),
        }
    }
}

/// Whether `m` accepts `path`. `trimmed` is `path` without the slashes at its
/// end.
fn path_matches(m: &PathMatch, path: &str, trimmed: &str) -> (accepted: bool)
    ensures
        accepted == path_accepts(*m, path@, trimmed@),
{
    match m {
        PathMatch::Exact(p) => str_equal(path, p.as_str()),
        PathMatch::Regex(r) => r.accepts(path),
        PathMatch::PathPrefix(p) => {
            let p = trim_end_slashes(p.as_str());
            proof {
                lemma_below(trimmed@, p@);
            }
            match strip_prefix(trimmed, p) {
                Some(suffix) => suffix.is_empty() || suffix.get_char(0) == '/',
                None => false,
            }
        },
    }
}

/// A path is at or below a prefix if it starts with it, and what follows is
/// nothing or starts with a slash.
proof fn lemma_below(path: Seq<char>, prefix: Seq<char>)
    ensures
        is_at_or_below(path, prefix) <==> starts_with(path, prefix) && {
            let suffix = path.skip(prefix.len() as int);
            suffix.len() == 0 || suffix[0] == '/'
        },
{
    let n = prefix.len() as int;
    if starts_with(path, prefix) {
        if path.len() == n {
            assert(path.take(n) == path);
        } else if path[n] == '/' {
            assert(path.take(n + 1) == path.take(n).push(path[n]));
        }
    }
    if path == prefix {
        assert(path.take(n) == path);
    }
    if starts_with(path, prefix.push('/')) {
        assert(path.take(n) == path.take(n + 1).take(n));
        assert(prefix.push('/').take(n) == prefix);
        assert(path[n] == path.take(n + 1)[n]);
    }
}

/// Whether `m` accepts the headers of `request`.
fn header_matches(m: &HeaderMatch, request: &Request) -> (accepted: bool)
    ensures
        accepted == header_accepts(*m, *request),
{
    match get_pseudo_or_header_value(&m.name, request) {
        Some(have) => match &m.value {
            HeaderValueMatch::Exact(want) => have.equals(want),
            HeaderValueMatch::Regex(want) => match have.to_str() {
                Some(text) => want.accepts(text.as_str()),
                None => false,
            },
        },
        None => false,
    }
}

/// Whether `m` accepts the text `have` as the value of its parameter.
fn query_value_matches(m: &QueryValueMatch, have: &str) -> (accepted: bool)
    ensures
        accepted == query_value_accepts(*m, have@),
{
    match m {
        QueryValueMatch::Exact(want) => str_equal(have, want.as_str()),
        QueryValueMatch::Regex(want) => want.accepts(have),
    }
}

/// Whether `m` accepts the request that `ctx` was read off, by its path, its
/// method, its headers and its query parameters. The headers are those of
/// `request`. The query string is parsed if a parameter is asked for and it has
/// not been parsed before.
pub fn matches_request(m: &RouteMatch, ctx: &mut RequestMatchCtx<'_>, request: &Request) -> (
    accepted: bool)
    ensures
        accepted == old(ctx).accepted(*m, *request),
        old(ctx).tried(*m, *request, *final(ctx)),
{
    if !path_matches(&m.path, ctx.path, ctx.path_trimmed) {
        return false;
    }
    if let Some(method) = &m.method {
        if !str_equal(ctx.method, method.method.as_str()) {
            return false;
        }
    }
    let mut i: usize = 0;
    while i < m.headers.len()
        invariant
            i <= m.headers.len(),
            forall|k: int|
                0 <= k < i ==> header_accepts(#[trigger] m.headers@[k], *request),
            *ctx == *old(ctx),
        decreases m.headers.len() - i,
    {
        if !header_matches(&m.headers[i], request) {
            return false;
        }
        i += 1;
    }
    let mut j: usize = 0;
    while j < m.query.len()
        invariant
            j <= m.query.len(),
            old(ctx).accepted_before_query(*m, *request),
            forall|k: int|
                0 <= k < j ==> query_accepts(
                    #[trigger] m.query@[k],
                    old(ctx).parsed_query.params(),
                ),
            ctx.path == old(ctx).path,
            ctx.path_trimmed == old(ctx).path_trimmed,
            ctx.method == old(ctx).method,
            if j > 0 {
                old(ctx).parsed_query.forced(ctx.parsed_query)
            } else {
                ctx.parsed_query == old(ctx).parsed_query
            },
        decreases m.query.len() - j,
    {
        let q = &m.query[j];
        match ctx.parsed_query.get(q.name.as_str()) {
            Some(have) => {
                if !query_value_matches(&q.value, have.as_str()) {
                    return false;
                }
            },
            None => {
                return false;
            },
        }
        j += 1;
    }
    true
}

} // verus!
