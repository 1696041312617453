use vstd::hash_map::StringHashMap;
use vstd::prelude::*;

use crate::request::{optional_text, Request};

verus! {

/// The names and values that the form-urlencoded text `raw` lists, decoded, in
/// their order: what `url::form_urlencoded::parse` yields.
pub uninterp spec fn form_pairs(raw: Seq<char>) -> Seq<(Seq<char>, Seq<char>)>;

/// From each name in `pairs` to the last value listed with it.
pub open spec fn last_values(pairs: Seq<(Seq<char>, Seq<char>)>) -> Map<Seq<char>, Seq<char>>
    decreases pairs.len(),
{
    if pairs.len() == 0 {
        Map::empty()
    } else {
        last_values(pairs.drop_last()).insert(pairs.last().0, pairs.last().1)
    }
}

/// The parameters of a query string, if there is one.
pub open spec fn query_params(query: Option<Seq<char>>) -> Map<Seq<char>, Seq<char>> {
    match query {
        Some(raw) => last_values(form_pairs(raw)),
        None => Map::empty(),
    }
}

/// A pair of strings as a pair of texts.
pub open spec fn pair_text(pair: (String, String)) -> (Seq<char>, Seq<char>) {
    (pair.0@, pair.1@)
}

/// Pairs of strings as pairs of texts.
pub open spec fn pair_texts(pairs: Seq<(String, String)>) -> Seq<(Seq<char>, Seq<char>)> {
    pairs.map_values(|pair: (String, String)| pair_text(pair))
}

/// A map to strings as a map to texts.
pub open spec fn map_texts(map: Map<Seq<char>, String>) -> Map<Seq<char>, Seq<char>> {
    map.map_values(|value: String| value@)
}

/// The query string of a request, parsed when it is first asked for.
pub enum ParsedQuery<'a> {
    /// There is no query string: no parameter has a value.
    Absent,
    /// The query string as it came.
    Unparsed(&'a str),
    /// The parameters of the query string.
    Parsed(StringHashMap<String>),
}

impl<'a> ParsedQuery<'a> {
    /// The parameters of the query string, parsed or not.
    pub open spec fn params(&self) -> Map<Seq<char>, Seq<char>> {
        match *self {
            ParsedQuery::Absent => Map::empty(),
            ParsedQuery::Unparsed(raw) => query_params(Some(raw@)),
            ParsedQuery::Parsed(map) => map_texts(map@),
        }
    }

    /// Whether `after` is `self` once a parameter has been asked for: the same,
    /// but parsed where it was not.
    pub open spec fn forced(&self, after: Self) -> bool {
        match *self {
            ParsedQuery::Unparsed(_) => after is Parsed && after.params() == self.params(),
            _ => after == *self,
        }
    }

    /// The query string of `request`, unparsed.
    pub fn from_request(request: &'a Request) -> (query: Self)
        ensures
            match request.uri.query {
                Some(raw) => query matches ParsedQuery::Unparsed(q) && q@ == raw@,
                None => query is Absent,
            },
            query.params() == query_params(request.uri@.query),
    {
        match &request.uri.query {
            Some(q) => ParsedQuery::Unparsed(q.as_str()),
            None => ParsedQuery::Absent,
        }
    }

    /// The value of the parameter `key`. Parses the query string if that has
    /// not been done.
    pub fn get(&mut self, key: &str) -> (value: Option<&String>)
        ensures
            old(self).forced(*final(self)),
            value is Some <==> old(self).params().contains_key(key@),
            value matches Some(v) ==> v@ == old(self).params()[key@],
    {
        if let ParsedQuery::Unparsed(raw) = self {
            let map = collect_pairs(parse_form(raw));
            *self = ParsedQuery::Parsed(map);
        }
        match self {
            ParsedQuery::Parsed(map) => map.get(key),
            _ => None,
        }
    }
}

/// The map from each name in `pairs` to the last value listed with it.
pub fn collect_pairs(pairs: Vec<(String, String)>) -> (map: StringHashMap<String>)
    ensures
        map_texts(map@) == last_values(pair_texts(pairs@)),
{
    let mut map: StringHashMap<String> = StringHashMap::new();
    let mut i: usize = 0;
    assert(map_texts(map@) == last_values(pair_texts(pairs@.take(0))));
    while i < pairs.len()
        invariant
            i <= pairs.len(),
            map_texts(map@) == last_values(pair_texts(pairs@.take(i as int))),
        decreases pairs.len() - i,
    {
        let ghost before = map@;
        map.insert(pairs[i].0.clone(), pairs[i].1.clone());
        proof {
            let listed = pair_texts(pairs@.take(i + 1));
            assert(listed.drop_last() == pair_texts(pairs@.take(i as int)));
            assert(listed.last() == pair_text(pairs@[i as int]));
            assert(map_texts(map@) == map_texts(before).insert(listed.last().0, listed.last().1));
        }
        i += 1;
    }
    assert(pairs@.take(i as int) == pairs@);
    map
}

/// `url::form_urlencoded::parse`: the names and values that `raw` lists, in
/// their order. They depend on `raw` alone.
#[verifier::external_body]
fn parse_form(raw: &str) -> (pairs: Vec<(String, String)>)
    ensures
        pair_texts(pairs@) == form_pairs(raw@),
{
    url::form_urlencoded::parse(raw.as_bytes()).into_owned().collect()
}

} // verus!
