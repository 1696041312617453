use std::sync::Arc;

use vstd::prelude::*;
use vstd::utf8::encode_utf8;

use crate::discovery::Service;
use crate::text::{bytes_equal, share, str_equal};

verus! {

/// A character that HTTP allows in a token.
pub open spec fn is_token_char(c: char) -> bool {
    ||| '0' <= c <= '9'
    ||| 'A' <= c <= 'Z'
    ||| 'a' <= c <= 'z'
    ||| c == '!' || c == '#' || c == '$' || c == '%' || c == '&' || c == '\''
    ||| c == '*' || c == '+' || c == '-' || c == '.' || c == '^' || c == '_'
    ||| c == '`' || c == '|' || c == '~'
}

/// An HTTP token: one or more token characters.
pub open spec fn is_token(text: Seq<char>) -> bool {
    text.len() > 0 && forall|i: int| 0 <= i < text.len() ==> is_token_char(#[trigger] text[i])
}

/// `c`, in lower case where it is an ASCII letter.
pub open spec fn lower_char(c: char) -> char {
    if 'A' <= c <= 'Z' {
        ((c as u32) + 32) as char
    } else {
        c
    }
}

/// `text`, with its ASCII letters in lower case.
pub open spec fn lower(text: Seq<char>) -> Seq<char> {
    text.map_values(|c: char| lower_char(c))
}

/// The longest header name, in bytes.
pub const MAX_HEADER_NAME_LEN: usize = 65535;

/// Whether `text` is a header name, in any case.
pub open spec fn is_header_name(text: Seq<char>) -> bool {
    is_token(text) && text.len() <= MAX_HEADER_NAME_LEN
}

/// A character of a header name that came by HTTP/2 or HTTP/3: there, names are
/// in lower case, and may hold a double quote.
pub open spec fn is_lowercase_name_char(c: char) -> bool {
    is_token_char(c) && !('A' <= c <= 'Z') || c == '"'
}

/// Whether `text` is a header name as HTTP/2 and HTTP/3 have it.
pub open spec fn is_lowercase_header_name(text: Seq<char>) -> bool {
    &&& 0 < text.len() <= MAX_HEADER_NAME_LEN
    &&& forall|i: int| 0 <= i < text.len() ==> is_lowercase_name_char(#[trigger] text[i])
}

/// A byte that a header value may hold.
pub open spec fn is_header_byte(b: u8) -> bool {
    b >= 32 && b != 127 || b == 9
}

/// Whether `bytes` can be a header value.
pub open spec fn is_header_value(bytes: Seq<u8>) -> bool {
    forall|i: int| 0 <= i < bytes.len() ==> is_header_byte(#[trigger] bytes[i])
}

/// A visible ASCII character, a space or a tab.
pub open spec fn is_visible_byte(b: u8) -> bool {
    b >= 32 && b < 127 || b == 9
}

/// Whether `bytes` is text in visible ASCII characters.
pub open spec fn is_visible(bytes: Seq<u8>) -> bool {
    forall|i: int| 0 <= i < bytes.len() ==> is_visible_byte(#[trigger] bytes[i])
}

/// ASCII bytes as text.
pub open spec fn ascii_text(bytes: Seq<u8>) -> Seq<char> {
    bytes.map_values(|b: u8| b as char)
}

/// A request method, such as `GET`. Methods are told apart by case.
#[derive(Debug)]
pub struct Method {
    text: String,
}

impl View for Method {
    type V = Seq<char>;

    closed spec fn view(&self) -> Seq<char> {
        self.text@
    }
}

impl Method {
    /// The method `text`; `None` where `text` is no HTTP token.
    pub fn new(text: &str) -> (method: Option<Method>)
        ensures
            method is Some <==> is_token(text@),
            method matches Some(m) ==> m@ == text@,
    {
        match method_from_bytes(text) {
            Some(text) => Some(Method { text }),
            None => None,
        }
    }

    /// The method as text.
    pub fn as_str(&self) -> (text: &str)
        ensures
            text@ == self@,
    {
        self.text.as_str()
    }
}

/// `http::Method::from_bytes`, then `http::Method::as_str`: accepts HTTP tokens
/// and hands each back as it was given.
#[verifier::external_body]
fn method_from_bytes(text: &str) -> (method: Option<String>)
    ensures
        method is Some <==> is_token(text@),
        method matches Some(m) ==> m@ == text@,
{
    match http::Method::from_bytes(text.as_bytes()) {
        Ok(method) => Some(method.as_str().to_owned()),
        Err(_) => None,
    }
}

/// The name of a header, in lower case.
#[derive(Debug)]
pub struct HeaderName {
    text: String,
}

impl View for HeaderName {
    type V = Seq<char>;

    closed spec fn view(&self) -> Seq<char> {
        self.text@
    }
}

impl HeaderName {
    /// The header name `text`, whatever case it is written in; `None` where
    /// `text` is no header name.
    pub fn new(text: &str) -> (name: Option<HeaderName>)
        ensures
            name is Some <==> is_header_name(text@),
            name matches Some(n) ==> n@ == lower(text@),
    {
        match header_name_from_bytes(text) {
            Some(text) => Some(HeaderName { text }),
            None => None,
        }
    }

    /// The header name `text`, as HTTP/2 and HTTP/3 have it; `None` where `text`
    /// is no such name.
    pub fn from_lowercase(text: &str) -> (name: Option<HeaderName>)
        ensures
            name is Some <==> is_lowercase_header_name(text@),
            name matches Some(n) ==> n@ == text@,
    {
        match header_name_from_lowercase(text) {
            Some(text) => Some(HeaderName { text }),
            None => None,
        }
    }

    /// The header name `text` of a request, by whatever version of HTTP it came:
    /// a name in any case, or one as HTTP/2 and HTTP/3 have it.
    pub fn of_request(text: &str) -> (name: Option<HeaderName>)
        ensures
            name is Some <==> is_header_name(text@) || is_lowercase_header_name(text@),
            name matches Some(n) ==> n@ == lower(text@),
    {
        match HeaderName::from_lowercase(text) {
            Some(name) => {
                assert(lower(text@) == text@) by {
                    assert forall|i: int| 0 <= i < text@.len() implies lower(text@)[i]
                        == text@[i] by {
                        assert(is_lowercase_name_char(text@[i]));
                    }
                }
                Some(name)
            },
            None => HeaderName::new(text),
        }
    }

    /// The name as text, in lower case.
    pub fn as_str(&self) -> (text: &str)
        ensures
            text@ == self@,
    {
        self.text.as_str()
    }
}

/// `http::HeaderName::from_bytes`, then `http::HeaderName::as_str`: accepts
/// tokens of up to `MAX_HEADER_NAME_LEN` bytes and puts them in lower case.
#[verifier::external_body]
fn header_name_from_bytes(text: &str) -> (name: Option<String>)
    ensures
        name is Some <==> is_header_name(text@),
        name matches Some(n) ==> n@ == lower(text@),
{
    match http::HeaderName::from_bytes(text.as_bytes()) {
        Ok(name) => Some(name.as_str().to_owned()),
        Err(_) => None,
    }
}

/// `http::HeaderName::from_lowercase`, then `http::HeaderName::as_str`: accepts
/// up to `MAX_HEADER_NAME_LEN` token characters and double quotes, none of them
/// an upper case letter, and hands them back as they were given.
#[verifier::external_body]
fn header_name_from_lowercase(text: &str) -> (name: Option<String>)
    ensures
        name is Some <==> is_lowercase_header_name(text@),
        name matches Some(n) ==> n@ == text@,
{
    match http::HeaderName::from_lowercase(text.as_bytes()) {
        Ok(name) => Some(name.as_str().to_owned()),
        Err(_) => None,
    }
}

/// The value of a header: bytes, none of them a control character but the tab.
#[derive(Debug)]
pub struct HeaderValue {
    bytes: Vec<u8>,
}

impl View for HeaderValue {
    type V = Seq<u8>;

    closed spec fn view(&self) -> Seq<u8> {
        self.bytes@
    }
}

impl HeaderValue {
    #[verifier::type_invariant]
    spec fn well_formed(&self) -> bool {
        is_header_value(self.bytes@)
    }

    /// The header value `bytes`; `None` where they hold what no header value
    /// may hold.
    pub fn from_bytes(bytes: &[u8]) -> (value: Option<HeaderValue>)
        ensures
            value is Some <==> is_header_value(bytes@),
            value matches Some(v) ==> v@ == bytes@,
    {
        match header_value_from_bytes(bytes) {
            Some(bytes) => Some(HeaderValue { bytes }),
            None => None,
        }
    }

    /// The bytes of the value.
    pub fn as_bytes(&self) -> (bytes: &[u8])
        ensures
            bytes@ == self@,
    {
        self.bytes.as_slice()
    }

    /// Whether `self` and `other` hold the same bytes.
    pub fn equals(&self, other: &HeaderValue) -> (equal: bool)
        ensures
            equal == (self@ == other@),
    {
        bytes_equal(self.bytes.as_slice(), other.bytes.as_slice())
    }

    /// The value as text; `None` where it holds more than visible ASCII
    /// characters, spaces and tabs.
    pub fn to_str(&self) -> (text: Option<String>)
        ensures
            text is Some <==> is_visible(self@),
            text matches Some(t) ==> t@ == ascii_text(self@),
    {
        proof {
            use_type_invariant(self);
        }
        header_value_to_str(self.bytes.as_slice())
    }
}

impl Clone for HeaderValue {
    fn clone(&self) -> (copy: Self)
        ensures
            copy@ == self@,
    {
        proof {
            use_type_invariant(self);
        }
        let bytes = self.bytes.clone();
        assert(bytes@ == self.bytes@);
        HeaderValue { bytes }
    }
}

/// `http::HeaderValue::from_bytes`, then `http::HeaderValue::as_bytes`: accepts
/// the bytes from 32 on, without 127, and the tab, and keeps them as they are.
#[verifier::external_body]
fn header_value_from_bytes(bytes: &[u8]) -> (value: Option<Vec<u8>>)
    ensures
        value is Some <==> is_header_value(bytes@),
        value matches Some(v) ==> v@ == bytes@,
{
    match http::HeaderValue::from_bytes(bytes) {
        Ok(value) => Some(value.as_bytes().to_vec()),
        Err(_) => None,
    }
}

/// `http::HeaderValue::to_str`: the value as text where all its bytes are
/// visible ASCII characters, spaces or tabs, and an error otherwise.
#[verifier::external_body]
fn header_value_to_str(bytes: &[u8]) -> (text: Option<String>)
    requires
        is_header_value(bytes@),
    ensures
        text is Some <==> is_visible(bytes@),
        text matches Some(t) ==> t@ == ascii_text(bytes@),
{
    match http::HeaderValue::from_bytes(bytes).unwrap().to_str() {
        Ok(text) => Some(text.to_owned()),
        Err(_) => None,
    }
}

/// What a `Uri` says, as text.
pub struct UriView {
    pub scheme: Option<Seq<char>>,
    pub authority: Option<Seq<char>>,
    pub host: Option<Seq<char>>,
    pub path: Seq<char>,
    pub query: Option<Seq<char>>,
}

/// The target of a request, in its parts.
#[derive(Debug)]
pub struct Uri {
    pub scheme: Option<String>,
    /// The host, with the user and the port where they are given.
    pub authority: Option<String>,
    pub host: Option<String>,
    /// The path; empty where the target is an authority alone.
    pub path: String,
    /// What follows the question mark.
    pub query: Option<String>,
}

/// An optional string as optional text.
pub open spec fn optional_text(s: Option<String>) -> Option<Seq<char>> {
    match s {
        Some(s) => Some(s@),
        None => None,
    }
}

impl View for Uri {
    type V = UriView;

    open spec fn view(&self) -> UriView {
        UriView {
            scheme: optional_text(self.scheme),
            authority: optional_text(self.authority),
            host: optional_text(self.host),
            path: self.path@,
            query: optional_text(self.query),
        }
    }
}

/// An optional URI by what it says.
pub open spec fn optional_uri(uri: Option<Uri>) -> Option<UriView> {
    match uri {
        Some(uri) => Some(uri@),
        None => None,
    }
}

/// The parts of the URI that `text` writes, or `None` where it is not one: what
/// `text.parse::<http::Uri>()` gives.
pub uninterp spec fn http_uri(text: Seq<char>) -> Option<UriView>;

impl Uri {
    /// Reads a URI.
    pub fn parse(text: &str) -> (uri: Option<Uri>)
        ensures
            optional_uri(uri) == http_uri(text@),
    {
        parse_uri(text)
    }
}

/// `http::Uri::from_str`, with the parts that `scheme_str`, `authority`,
/// `host`, `path` and `query` then give.
#[verifier::external_body]
fn parse_uri(text: &str) -> (uri: Option<Uri>)
    ensures
        optional_uri(uri) == http_uri(text@),
{
    match text.parse::<http::Uri>() {
        Ok(uri) => Some(Uri {
            scheme: uri.scheme_str().map(str::to_owned),
            authority: uri.authority().map(|a| a.as_str().to_owned()),
            host: uri.host().map(str::to_owned),
            path: uri.path().to_owned(),
            query: uri.query().map(str::to_owned),
        }),
        Err(_) => None,
    }
}

/// The name of a header, or of one of the pseudo headers that stand for the
/// parts of the request line and the status line.
#[derive(Debug)]
pub enum HeaderOrPseudo {
    Header(HeaderName),
    Method,
    Scheme,
    Authority,
    Path,
    Status,
}

/// A header of a request.
#[derive(Debug)]
pub struct Header {
    pub name: HeaderName,
    pub value: HeaderValue,
}

/// The service that a request to a waypoint was sent to.
#[derive(Debug)]
pub struct WaypointService(pub Arc<Service>);

impl Clone for WaypointService {
    fn clone(&self) -> (copy: Self)
        ensures
            copy == *self,
    {
        WaypointService(share(&self.0))
    }
}

/// A request, without its body.
#[derive(Debug)]
pub struct Request {
    pub method: Method,
    pub uri: Uri,
    /// The headers, in the order in which they came.
    pub headers: Vec<Header>,
    /// Set where the request reached the gateway as the waypoint of a service.
    pub waypoint: Option<WaypointService>,
}

/// Whether a request can have a header of this name and value.
pub open spec fn is_header(header: (String, Vec<u8>)) -> bool {
    (is_header_name(header.0@) || is_lowercase_header_name(header.0@)) && is_header_value(header.1@)
}

impl Request {
    /// A request in its raw form: its method and its target as text, the names
    /// and values of its headers, and the service of the waypoint it reached.
    /// `None` where the method, the target or a header is not one.
    pub fn from_raw(
        method: &str,
        uri: &str,
        headers: &Vec<(String, Vec<u8>)>,
        waypoint: Option<WaypointService>,
    ) -> (request: Option<Request>)
        ensures
            request is Some <==> {
                &&& is_token(method@)
                &&& http_uri(uri@) is Some
                &&& forall|i: int| 0 <= i < headers@.len() ==> is_header(#[trigger] headers@[i])
            },
            request matches Some(r) ==> {
                &&& r.method@ == method@
                &&& Some(r.uri@) == http_uri(uri@)
                &&& r.headers@.len() == headers@.len()
                &&& forall|i: int|
                    0 <= i < headers@.len() ==> (#[trigger] r.headers@[i]).name@ == lower(
                        headers@[i].0@,
                    ) && r.headers@[i].value@ == headers@[i].1@
                &&& r.waypoint == waypoint
            },
    {
        match Uri::parse(uri) {
            Some(uri) => Request::from_parts(method, uri, headers, waypoint),
            None => None,
        }
    }

    /// A request with its target in parts: its method as text, the names and
    /// values of its headers, and the service of the waypoint it reached. `None`
    /// where the method or a header is not one.
    pub fn from_parts(
        method: &str,
        uri: Uri,
        headers: &Vec<(String, Vec<u8>)>,
        waypoint: Option<WaypointService>,
    ) -> (request: Option<Request>)
        ensures
            request is Some <==> {
                &&& is_token(method@)
                &&& forall|i: int| 0 <= i < headers@.len() ==> is_header(#[trigger] headers@[i])
            },
            request matches Some(r) ==> {
                &&& r.method@ == method@
                &&& r.uri == uri
                &&& r.headers@.len() == headers@.len()
                &&& forall|i: int|
                    0 <= i < headers@.len() ==> (#[trigger] r.headers@[i]).name@ == lower(
                        headers@[i].0@,
                    ) && r.headers@[i].value@ == headers@[i].1@
                &&& r.waypoint == waypoint
            },
    {
        let method = match Method::new(method) {
            Some(method) => method,
            None => {
                return None;
            },
        };
        let mut read: Vec<Header> = Vec::new();
        let mut i: usize = 0;
        while i < headers.len()
            invariant
                i <= headers.len(),
                read@.len() == i,
                forall|k: int| 0 <= k < i ==> is_header(#[trigger] headers@[k]),
                forall|k: int|
                    0 <= k < i ==> (#[trigger] read@[k]).name@ == lower(headers@[k].0@)
                        && read@[k].value@ == headers@[k].1@,
            decreases headers.len() - i,
        {
            match (
                HeaderName::of_request(headers[i].0.as_str()),
                HeaderValue::from_bytes(headers[i].1.as_slice()),
            ) {
                (Some(name), Some(value)) => read.push(Header { name, value }),
                _ => {
                    assert(!is_header(headers@[i as int]));
                    return None;
                },
            }
            i += 1;
        }
        Some(Request { method, uri, headers: read, waypoint })
    }
}

/// A request names no host.
#[derive(Clone, Copy, Debug, PartialEq, Eq, Structural)]
pub struct HostMissing;

/// The host that `request` asks for: the host of its URI.
pub fn get_host(request: &Request) -> (host: Result<&str, HostMissing>)
    ensures
        host is Ok <==> request.uri.host is Some,
        host matches Ok(h) ==> h@ == request.uri.host->0@,
{
    match &request.uri.host {
        Some(host) => Ok(host.as_str()),
        None => Err(HostMissing),
    }
}

/// The value of the first of `headers` that has this name.
pub open spec fn header_value(headers: Seq<Header>, name: Seq<char>) -> Option<Seq<u8>>
    decreases headers.len(),
{
    if headers.len() == 0 {
        None
    } else if headers[0].name@ == name {
        Some(headers[0].value@)
    } else {
        header_value(headers.drop_first(), name)
    }
}

/// The path of a URI with its query; nothing where the URI has no path.
pub open spec fn path_and_query(uri: UriView) -> Option<Seq<char>> {
    if uri.path.len() == 0 {
        None
    } else {
        match uri.query {
            Some(query) => Some(uri.path + "?"@ + query),
            None => Some(uri.path),
        }
    }
}

/// `text` as a header value, where it can be one.
pub open spec fn text_value(text: Option<Seq<char>>) -> Option<Seq<u8>> {
    match text {
        Some(text) => if is_header_value(encode_utf8(text)) {
            Some(encode_utf8(text))
        } else {
            None
        },
        None => None,
    }
}

/// The value that `request` has under `name`.
pub open spec fn pseudo_or_header_value(name: HeaderOrPseudo, request: Request) -> Option<Seq<u8>> {
    match name {
        HeaderOrPseudo::Header(name) => header_value(request.headers@, name@),
        HeaderOrPseudo::Method => text_value(Some(request.method@)),
        HeaderOrPseudo::Scheme => text_value(request.uri@.scheme),
        HeaderOrPseudo::Authority => text_value(request.uri@.authority),
        HeaderOrPseudo::Path => text_value(path_and_query(request.uri@)),
        HeaderOrPseudo::Status => None,
    }
}

/// The value that `request` has under `name`: that of the first header of this
/// name, or the part of the request line that the pseudo header stands for. A
/// request has no status.
pub fn get_pseudo_or_header_value(name: &HeaderOrPseudo, request: &Request) -> (value: Option<
    HeaderValue,
>)
    ensures
        value is Some <==> pseudo_or_header_value(*name, *request) is Some,
        value matches Some(v) ==> Some(v@) == pseudo_or_header_value(*name, *request),
{
    match name {
        HeaderOrPseudo::Header(name) => find_header(&request.headers, name),
        HeaderOrPseudo::Method => HeaderValue::from_bytes(request.method.as_str().as_bytes()),
        HeaderOrPseudo::Scheme => match &request.uri.scheme {
            Some(scheme) => HeaderValue::from_bytes(scheme.as_str().as_bytes()),
            None => None,
        },
        HeaderOrPseudo::Authority => match &request.uri.authority {
            Some(authority) => HeaderValue::from_bytes(authority.as_str().as_bytes()),
            None => None,
        },
        HeaderOrPseudo::Path => {
            if request.uri.path.as_str().is_empty() {
                return None;
            }
            match &request.uri.query {
                Some(query) => {
                    let target = request.uri.path.clone().concat("?").concat(query.as_str());
                    HeaderValue::from_bytes(target.as_str().as_bytes())
                },
                None => HeaderValue::from_bytes(request.uri.path.as_str().as_bytes()),
            }
        },
        HeaderOrPseudo::Status => None,
    }
}

/// The value of the first of `headers` that has this name.
fn find_header(headers: &Vec<Header>, name: &HeaderName) -> (value: Option<HeaderValue>)
    ensures
        value is Some <==> header_value(headers@, name@) is Some,
        value matches Some(v) ==> Some(v@) == header_value(headers@, name@),
{
    let mut i: usize = 0;
    assert(headers@.skip(0) == headers@);
    while i < headers.len()
        invariant
            i <= headers.len(),
            header_value(headers@, name@) == header_value(headers@.skip(i as int), name@),
        decreases headers.len() - i,
    {
        if str_equal(headers[i].name.as_str(), name.as_str()) {
            return Some(headers[i].value.clone());
        }
        assert(headers@.skip(i as int).drop_first() == headers@.skip(i + 1));
        i += 1;
    }
    None
}

} // verus!
