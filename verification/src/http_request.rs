//! HTTP requests as scripts describe them.
use crate::dt::LuaDt;
use crate::maps;
use crate::maps::{insert_text, new_text_map, text_entries};
use crate::text;
use crate::text::to_lowercase;
use crate::value;
use crate::value::{ScriptError, ScriptErrorView, ScriptTable, ScriptValue, ValueKind};
use rustc_hash::FxHashMap;
use vstd::prelude::*;
use vstd::string::*;

verus! {

/// The parts of a request that come before the body: the method, the address, and the
/// values of every header field under its name in lower case.
pub struct HttpHead {
    pub method: Seq<char>,
    pub uri: Seq<char>,
    pub headers: Map<Seq<char>, Seq<Seq<char>>>,
}

impl HttpHead {
    /// The values of a header field.
    pub open spec fn values(self, name: Seq<char>) -> Seq<Seq<char>> {
        if self.headers.contains_key(name) {
            self.headers[name]
        } else {
            Seq::empty()
        }
    }

    /// How many header fields there are, each name once.
    pub open spec fn names(self) -> nat {
        self.headers.dom().len()
    }
}

/// With fewer names of header fields than this, the table of the http crate takes one more
/// field, whatever its name.
pub const SURE_ROOM: usize = 6554;

/// The most names of header fields that the table of the http crate holds.
pub const MOST_NAMES: usize = 24576;

/// The head that a builder starts with.
pub open spec fn new_head() -> HttpHead {
    HttpHead { method: "GET"@, uri: "/"@, headers: Map::empty() }
}

/// The builder of the http crate.
#[verifier::external_type_specification]
#[verifier::external_body]
pub struct ExBuilder(http::request::Builder);

/// What a request of the http crate holds before its body.
#[verifier::external_type_specification]
#[verifier::external_body]
pub struct ExParts(http::request::Parts);

/// An error of the http crate.
#[verifier::external_type_specification]
#[verifier::external_body]
pub struct ExHttpError(http::Error);

/// What a builder holds; nothing once it has refused a part.
pub uninterp spec fn builder_head(b: http::request::Builder) -> Option<HttpHead>;

/// The method, the address and the header fields of a request.
pub uninterp spec fn request_head(p: http::request::Parts) -> HttpHead;

/// The form in which the http crate keeps an address, if it takes the address.
pub uninterp spec fn http_uri(uri: Seq<char>) -> Option<Seq<char>>;

/// Whether the http crate takes a header field with this name and this value.
pub uninterp spec fn http_takes_field(name: Seq<char>, value: Seq<char>) -> bool;

/// Calls `http::Request::builder`. The builder starts with the method `GET`, the address `/`
/// and no header fields.
#[verifier::external_body]
fn new_builder() -> (r: http::request::Builder)
    ensures
        builder_head(r) == Some(new_head()),
{
    http::Request::builder()
}

/// Calls `Builder::uri`, which parses the address. Whether the address is taken, and the form
/// in which it is kept, is named `http_uri`.
#[verifier::external_body]
fn set_uri(b: http::request::Builder, uri: &str) -> (r: http::request::Builder)
    ensures
        builder_head(r) == match (builder_head(b), http_uri(uri@)) {
            (Some(h), Some(u)) => Some(HttpHead { uri: u, ..h }),
            _ => None,
        },
{
    b.uri(uri)
}

/// Calls `Builder::method` with the name of one of the methods that the http crate knows.
#[verifier::external_body]
fn set_method(b: http::request::Builder, method: &str) -> (r: http::request::Builder)
    requires
        known_method(method@),
    ensures
        builder_head(r) == match builder_head(b) {
            Some(h) => Some(HttpHead { method: method@, ..h }),
            None => None,
        },
{
    b.method(method)
}

/// Calls `Builder::header`, which checks the name and the value, keeps the name in lower case
/// and appends the value to those of the field. Whether it takes them is named
/// `http_takes_field`. It also refuses a field for which its table would have to grow beyond its
/// limit. It never does so below `SURE_ROOM` names, and always does so rather than hold more than
/// `MOST_NAMES`. In between nothing is stated: there it depends on how the names collide in the
/// table, by a hash that differs between machines.
#[verifier::external_body]
fn add_header(b: http::request::Builder, name: &str, value: &str) -> (r: http::request::Builder)
    ensures
        builder_head(r) is Some ==> builder_head(b) is Some && http_takes_field(name@, value@),
        builder_head(r) matches Some(h) ==> h == with_field(builder_head(b).unwrap(), name@, value@),
        builder_head(r) matches Some(h) ==> h.names() <= MOST_NAMES,
        builder_head(b) is Some && http_takes_field(name@, value@)
            && builder_head(b).unwrap().names() < SURE_ROOM ==> builder_head(r) is Some,
{
    b.header(name, value)
}

/// Calls `Builder::body`, and takes the parts out of the request that it makes: there is one
/// where the builder has refused no part.
#[verifier::external_body]
fn finish(b: http::request::Builder) -> (r: Result<http::request::Parts, http::Error>)
    ensures
        r is Ok == builder_head(b) is Some,
        r matches Ok(p) ==> builder_head(b) == Some(request_head(p)),
{
    b.body(()).map(|request| request.into_parts().0)
}

/// The methods that requests are made with.
pub open spec fn known_method(m: Seq<char>) -> bool {
    m == "GET"@ || m == "POST"@ || m == "PUT"@ || m == "DELETE"@ || m == "PATCH"@
}

/// A head with one more value of a header field.
pub open spec fn with_field(h: HttpHead, name: Seq<char>, value: Seq<char>) -> HttpHead {
    let key = field_key(name);
    HttpHead { headers: h.headers.insert(key, h.values(key).push(value)), ..h }
}

/// The name of a header field in lower case.
pub open spec fn field_key(name: Seq<char>) -> Seq<char> {
    name.map_values(|c: char| text::ascii_lower(c))
}

/// A head with a list of header fields added, if the http crate takes all of them.
pub open spec fn with_fields(h: HttpHead, fields: Seq<(Seq<char>, Seq<char>)>) -> Option<HttpHead>
    decreases fields.len(),
{
    if fields.len() == 0 {
        Some(h)
    } else {
        match with_fields(h, fields.drop_last()) {
            Some(before) => if http_takes_field(fields.last().0, fields.last().1) {
                Some(with_field(before, fields.last().0, fields.last().1))
            } else {
                None
            },
            None => None,
        }
    }
}

/// Each field that is added brings at most one more name.
proof fn lemma_names_of_fields(h: HttpHead, fields: Seq<(Seq<char>, Seq<char>)>)
    requires
        h.headers.dom().finite(),
        with_fields(h, fields) is Some,
    ensures
        with_fields(h, fields).unwrap().headers.dom().finite(),
        with_fields(h, fields).unwrap().names() <= h.names() + fields.len(),
    decreases fields.len(),
{
    if fields.len() > 0 {
        lemma_names_of_fields(h, fields.drop_last());
    }
}

/// The head of a request to a host: the address and the method, the host as the first header
/// field, and the other fields after it.
pub open spec fn http_head(
    host: Seq<char>,
    method: Seq<char>,
    path: Seq<char>,
    fields: Seq<(Seq<char>, Seq<char>)>,
) -> Option<HttpHead> {
    match http_uri(path) {
        Some(uri) => if http_takes_field("host"@, host) {
            with_fields(
                with_field(HttpHead { method, uri, headers: Map::empty() }, "host"@, host),
                fields,
            )
        } else {
            None
        },
        None => None,
    }
}

/// The values that a list of header fields gives to the field with a name in lower case.
pub open spec fn values_for(fields: Seq<(Seq<char>, Seq<char>)>, key: Seq<char>) -> Seq<Seq<char>>
    decreases fields.len(),
{
    if fields.len() == 0 {
        Seq::empty()
    } else if field_key(fields.last().0) == key {
        values_for(fields.drop_last(), key).push(fields.last().1)
    } else {
        values_for(fields.drop_last(), key)
    }
}

/// Header fields that are added leave the method and the address as they were, and give each
/// field the values listed for it, in their order and after those that it had.
pub proof fn law_fields_add_their_values(
    h: HttpHead,
    fields: Seq<(Seq<char>, Seq<char>)>,
    key: Seq<char>,
)
    requires
        with_fields(h, fields) is Some,
    ensures
        with_fields(h, fields).unwrap().method == h.method,
        with_fields(h, fields).unwrap().uri == h.uri,
        with_fields(h, fields).unwrap().values(key) == h.values(key) + values_for(fields, key),
    decreases fields.len(),
{
    if fields.len() == 0 {
        assert(h.values(key) =~= h.values(key) + values_for(fields, key));
    } else {
        law_fields_add_their_values(h, fields.drop_last(), key);
        assert(with_fields(h, fields).unwrap().values(key) =~= h.values(key) + values_for(
            fields,
            key,
        ));
    }
}

/// A request goes out with the method and the address given, and with the host it is meant
/// for as the first value of the field `host`.
pub proof fn law_host_comes_first(
    host: Seq<char>,
    method: Seq<char>,
    path: Seq<char>,
    fields: Seq<(Seq<char>, Seq<char>)>,
)
    requires
        http_head(host, method, path, fields) is Some,
    ensures
        http_head(host, method, path, fields).unwrap().method == method,
        http_uri(path) == Some(http_head(host, method, path, fields).unwrap().uri),
        http_head(host, method, path, fields).unwrap().values("host"@) == seq![host] + values_for(
            fields,
            "host"@,
        ),
{
    reveal_strlit("host");
    assert(field_key("host"@) =~= "host"@);
    let bare = HttpHead { method, uri: http_uri(path).unwrap(), headers: Map::empty() };
    let first = with_field(bare, "host"@, host);
    law_fields_add_their_values(first, fields, "host"@);
    assert(first.values("host"@) =~= seq![host]);
}

/// An HTTP method.
#[derive(Clone, Copy, PartialEq, Eq, Structural, Debug)]
pub enum Method {
    Get,
    Post,
    Put,
    Delete,
    Patch,
}

impl Method {
    /// The name of the method on the wire.
    pub open spec fn wire_name(self) -> Seq<char> {
        match self {
            Method::Get => "GET"@,
            Method::Post => "POST"@,
            Method::Put => "PUT"@,
            Method::Delete => "DELETE"@,
            Method::Patch => "PATCH"@,
        }
    }

    /// The name of the method on the wire.
    pub fn name(&self) -> (r: &'static str)
        ensures
            r@ == self.wire_name(),
    {
        match self {
            Method::Get => "GET",
            Method::Post => "POST",
            Method::Put => "PUT",
            Method::Delete => "DELETE",
            Method::Patch => "PATCH",
        }
    }

    /// The method that a text in lower case names.
    pub open spec fn named(s: Seq<char>) -> Option<Method> {
        if s == "get"@ {
            Some(Method::Get)
        } else if s == "post"@ {
            Some(Method::Post)
        } else if s == "put"@ {
            Some(Method::Put)
        } else if s == "delete"@ {
            Some(Method::Delete)
        } else if s == "patch"@ {
            Some(Method::Patch)
        } else {
            None
        }
    }

    /// The method that a text in lower case names.
    pub fn from_name(s: &String) -> (r: Option<Method>)
        ensures
            r == Method::named(s@),
    {
        if *s == "get".to_owned() {
            Some(Method::Get)
        } else if *s == "post".to_owned() {
            Some(Method::Post)
        } else if *s == "put".to_owned() {
            Some(Method::Put)
        } else if *s == "delete".to_owned() {
            Some(Method::Delete)
        } else if *s == "patch".to_owned() {
            Some(Method::Patch)
        } else {
            None
        }
    }

    /// The method that a value of a script names.
    pub open spec fn of(value: ScriptValue) -> Result<Method, ScriptErrorView> {
        match value.text() {
            Ok(s) => match Method::named(text::lowercase(s)) {
                Some(m) => Ok(m),
                None => Err(ScriptErrorView::Method),
            },
            Err(e) => Err(e),
        }
    }

    /// Reads a method by its name, in small or capital letters.
    pub fn from_lua(value: &ScriptValue) -> (r: Result<Method, ScriptError>)
        ensures
            r matches Ok(m) ==> Method::of(*value) == Ok::<Method, ScriptErrorView>(m),
            r matches Err(e) ==> Method::of(*value) == Err::<Method, ScriptErrorView>(e@),
    {
        match value.read_text() {
            Ok(s) => {
                let lower = to_lowercase(s.as_str());
                match Method::from_name(&lower) {
                    Some(m) => Ok(m),
                    None => Err(ScriptError::Method),
                }
            },
            Err(e) => Err(e),
        }
    }
}

/// A request as a script describes it.
pub struct Request {
    pub path: String,
    pub method: Method,
    pub headers: Option<FxHashMap<String, String>>,
    pub body: Option<String>,
    pub timeout: Option<LuaDt>,
}

/// A request, in terms of plain values.
pub struct RequestView {
    pub path: Seq<char>,
    pub method: Method,
    pub headers: Option<Map<Seq<char>, Seq<char>>>,
    pub body: Option<Seq<char>>,
    pub timeout: Option<nat>,
}

impl View for Request {
    type V = RequestView;

    open spec fn view(&self) -> RequestView {
        RequestView {
            path: self.path@,
            method: self.method,
            headers: match self.headers {
                Some(m) => Some(maps::text_map(m)),
                None => None,
            },
            body: match self.body {
                Some(s) => Some(s@),
                None => None,
            },
            timeout: match self.timeout {
                Some(t) => Some(t@),
                None => None,
            },
        }
    }
}

/// The map that the keys and values of a table make, if all of them are text. A later value
/// of a key takes the place of an earlier one.
pub open spec fn text_pairs(pairs: Seq<(ScriptValue, ScriptValue)>) -> Option<
    Map<Seq<char>, Seq<char>>,
>
    decreases pairs.len(),
{
    if pairs.len() == 0 {
        Some(Map::empty())
    } else {
        match (text_pairs(pairs.drop_last()), pairs.last().0.text(), pairs.last().1.text()) {
            (Some(m), Ok(k), Ok(v)) => Some(m.insert(k, v)),
            _ => None,
        }
    }
}

/// The map that the keys and values of a table make.
fn read_text_pairs(pairs: &Vec<(ScriptValue, ScriptValue)>) -> (r: Option<
    FxHashMap<String, String>,
>)
    ensures
        r is Some == text_pairs(pairs@) is Some,
        r matches Some(m) ==> text_pairs(pairs@) == Some(maps::text_map(m)),
{
    let mut m = new_text_map();
    let mut i: usize = 0;
    assert(maps::text_map(m) =~= Map::<Seq<char>, Seq<char>>::empty());
    while i < pairs.len()
        invariant
            i <= pairs@.len(),
            text_pairs(pairs@.take(i as int)) == Some(maps::text_map(m)),
        decreases pairs@.len() - i,
    {
        proof {
            assert(pairs@.take(i + 1).drop_last() =~= pairs@.take(i as int));
            assert(pairs@.take(i + 1).last() == pairs@[i as int]);
        }
        match (pairs[i].0.read_text(), pairs[i].1.read_text()) {
            (Ok(k), Ok(v)) => {
                insert_text(&mut m, k, v);
            },
            _ => {
                proof {
                    lemma_text_pairs_prefix(pairs@, i + 1);
                }
                return None;
            },
        }
        i = i + 1;
    }
    assert(pairs@.take(i as int) =~= pairs@);
    Some(m)
}

/// Where a part of the keys and values is not all text, the whole is not.
proof fn lemma_text_pairs_prefix(pairs: Seq<(ScriptValue, ScriptValue)>, n: int)
    requires
        0 <= n <= pairs.len(),
        text_pairs(pairs.take(n)) is None,
    ensures
        text_pairs(pairs) is None,
    decreases pairs.len() - n,
{
    if n == pairs.len() {
        assert(pairs.take(n) =~= pairs);
    } else {
        assert(pairs.take(n + 1).drop_last() =~= pairs.take(n));
        lemma_text_pairs_prefix(pairs, n + 1);
    }
}

impl Request {
    /// The request that a table describes. All but the path may be absent, and count as
    /// absent also where they are not what they should be.
    pub open spec fn of(value: ScriptValue) -> Result<RequestView, ScriptErrorView> {
        match value.table() {
            Ok(t) => match t.required_text("path"@) {
                Ok(path) => Ok(
                    RequestView {
                        path,
                        method: match t.field("method"@) {
                            Some(v) => match Method::of(v) {
                                Ok(m) => m,
                                Err(_) => Method::Get,
                            },
                            None => Method::Get,
                        },
                        headers: match t.given("headers"@) {
                            Some(v) => match v.table() {
                                Ok(h) => text_pairs(h.pairs@),
                                Err(_) => None,
                            },
                            None => None,
                        },
                        body: match t.given("body"@) {
                            Some(v) => match v.text() {
                                Ok(s) => Some(s),
                                Err(_) => None,
                            },
                            None => None,
                        },
                        timeout: match t.given("timeout"@) {
                            Some(v) => match v.dt() {
                                Ok(d) => Some(d),
                                Err(_) => None,
                            },
                            None => None,
                        },
                    },
                ),
                Err(e) => Err(e),
            },
            Err(e) => Err(e),
        }
    }

    /// Whether reading the timeout ends with a length of time or with an error.
    pub open spec fn readable(value: ScriptValue) -> bool {
        value.table() matches Ok(t) ==> (t.required_text("path"@) is Ok ==> (t.given(
            "timeout"@,
        ) matches Some(v) ==> v.dt_readable()))
    }

    /// Tells whether a request can be read from the value.
    pub fn check_readable(value: &ScriptValue) -> (r: bool)
        ensures
            r == Request::readable(*value),
    {
        match value.read_table() {
            Ok(t) => match t.get_required_text("path") {
                Ok(_) => match t.get_given("timeout") {
                    Some(v) => v.check_dt_readable(),
                    None => true,
                },
                Err(_) => true,
            },
            Err(_) => true,
        }
    }

    /// Reads a request from a table.
    pub fn from_lua(value: &ScriptValue) -> (r: Result<Request, ScriptError>)
        requires
            Request::readable(*value),
        ensures
            r matches Ok(q) ==> Request::of(*value) == Ok::<RequestView, ScriptErrorView>(q@),
            r matches Err(e) ==> Request::of(*value) == Err::<RequestView, ScriptErrorView>(e@),
    {
        let t = match value.read_table() {
            Ok(t) => t,
            Err(e) => {
                return Err(e);
            },
        };
        let path = match t.get_required_text("path") {
            Ok(path) => path,
            Err(e) => {
                return Err(e);
            },
        };
        let method = match t.get("method") {
            Some(v) => match Method::from_lua(v) {
                Ok(m) => m,
                Err(_) => Method::Get,
            },
            None => Method::Get,
        };
        let headers = match t.get_given("headers") {
            Some(v) => match v.read_table() {
                Ok(h) => read_text_pairs(&h.pairs),
                Err(_) => None,
            },
            None => None,
        };
        let body = match t.get_given("body") {
            Some(v) => match v.read_text() {
                Ok(s) => Some(s),
                Err(_) => None,
            },
            None => None,
        };
        let timeout = match t.get_given("timeout") {
            Some(v) => match LuaDt::from_lua(v) {
                Ok(d) => Some(d),
                Err(_) => None,
            },
            None => None,
        };
        Ok(Request { path, method, headers, body, timeout })
    }
}

/// A request that is ready to be sent.
pub struct HttpRequest {
    pub parts: http::request::Parts,
    pub body: String,
}

/// Builds a request to a host out of plain values. It is built where the http crate takes all of
/// them and its table has room for the header fields.
pub fn build_http(
    host: &str,
    method: Method,
    path: &str,
    fields: &Vec<(String, String)>,
    body: String,
) -> (r: Result<HttpRequest, http::Error>)
    ensures
        r matches Ok(req) ==> http_head(
            host@,
            method.wire_name(),
            path@,
            maps::pair_texts(fields@),
        ) == Some(request_head(req.parts)) && req.body@ == body@ && request_head(req.parts).names()
            <= MOST_NAMES,
        fields@.len() < SURE_ROOM && http_head(
            host@,
            method.wire_name(),
            path@,
            maps::pair_texts(fields@),
        ) is Some ==> r is Ok,
{
    let b = set_uri(new_builder(), path);
    let b = set_method(b, method.name());
    let mut b = add_header(b, "host", host);
    let ghost texts = maps::pair_texts(fields@);
    let ghost first = builder_head(b);
    let mut i: usize = 0;
    assert(first is Some ==> first.unwrap().headers.dom() =~= set![field_key("host"@)]);
    assert(texts.take(0) =~= Seq::<(Seq<char>, Seq<char>)>::empty());
    while i < fields.len()
        invariant
            i <= fields@.len(),
            texts == maps::pair_texts(fields@),
            first is Some ==> first.unwrap().headers.dom().finite() && first.unwrap().names() == 1,
            builder_head(b) matches Some(h) ==> first is Some && with_fields(
                first.unwrap(),
                texts.take(i as int),
            ) == Some(h) && h.names() <= MOST_NAMES,
            first is Some && fields@.len() < SURE_ROOM && with_fields(
                first.unwrap(),
                texts.take(i as int),
            ) is Some ==> builder_head(b) is Some,
        decreases fields@.len() - i,
    {
        proof {
            assert(texts.take(i + 1).drop_last() =~= texts.take(i as int));
            assert(texts.take(i + 1).last() == texts[i as int]);
            if builder_head(b) is Some {
                lemma_names_of_fields(first.unwrap(), texts.take(i as int));
            }
        }
        b = add_header(b, fields[i].0.as_str(), fields[i].1.as_str());
        i = i + 1;
    }
    assert(texts.take(i as int) =~= texts);
    match finish(b) {
        Ok(parts) => Ok(HttpRequest { parts, body }),
        Err(e) => Err(e),
    }
}

/// The header fields of a request, listed in some order.
pub open spec fn lists_headers(
    fields: Seq<(Seq<char>, Seq<char>)>,
    headers: Option<Map<Seq<char>, Seq<char>>>,
) -> bool {
    match headers {
        Some(m) => maps::lists(fields, m),
        None => fields.len() == 0,
    }
}

/// Builds the request to a host that a script describes. Its header fields come in an order
/// that is left open. It is built where the http crate takes all of it and its table has room for
/// the header fields.
pub fn script_request_to_http(host: &str, request: Request) -> (r: Result<HttpRequest, http::Error>)
    ensures
        exists|fields: Seq<(Seq<char>, Seq<char>)>| #[trigger]
            lists_headers(fields, request@.headers) && (r matches Ok(req) ==> http_head(
                host@,
                request@.method.wire_name(),
                request@.path,
                fields,
            ) == Some(request_head(req.parts)) && req.body@ == match request@.body {
                Some(body) => body,
                None => Seq::empty(),
            } && request_head(req.parts).names() <= MOST_NAMES) && (fields.len() < SURE_ROOM
                && http_head(
                host@,
                request@.method.wire_name(),
                request@.path,
                fields,
            ) is Some ==> r is Ok),
{
    let fields: Vec<(String, String)> = match &request.headers {
        Some(m) => text_entries(m),
        None => Vec::new(),
    };
    let body = match request.body {
        Some(body) => body,
        None => String::new(),
    };
    assert(lists_headers(maps::pair_texts(fields@), request@.headers));
    build_http(host, request.method, request.path.as_str(), &fields, body)
}

/// Why there is no response.
#[derive(Clone, Copy, PartialEq, Eq, Structural, Debug)]
pub enum ResponseError {
    TimedOut,
    Disconnected,
}

/// What a script learns of the answer to a request.
#[derive(Clone, Copy, PartialEq, Eq, Debug)]
pub struct Response {
    pub status: u16,
    pub error: Option<ResponseError>,
}

impl Response {
    /// Tells whether the time for the answer ran out.
    pub fn is_timeout(&self) -> (r: bool)
        ensures
            r == (self.error == Some(ResponseError::TimedOut)),
    {
        match self.error {
            Some(ResponseError::TimedOut) => true,
            _ => false,
        }
    }

    /// Tells whether the connection was lost before the answer came.
    pub fn is_disconnect(&self) -> (r: bool)
        ensures
            r == (self.error == Some(ResponseError::Disconnected)),
    {
        match self.error {
            Some(ResponseError::Disconnected) => true,
            _ => false,
        }
    }
}

/// The name of a method in small letters.
pub open spec fn small_name(m: Method) -> Seq<char> {
    field_key(m.wire_name())
}

/// The names of the methods in small letters, which all differ.
proof fn lemma_small_names()
    ensures
        small_name(Method::Get) == "get"@,
        small_name(Method::Post) == "post"@,
        small_name(Method::Put) == "put"@,
        small_name(Method::Delete) == "delete"@,
        small_name(Method::Patch) == "patch"@,
        forall|a: Method, b: Method| #[trigger] small_name(a) == #[trigger] small_name(b) ==> a == b,
{
    reveal_strlit("GET");
    reveal_strlit("POST");
    reveal_strlit("PUT");
    reveal_strlit("DELETE");
    reveal_strlit("PATCH");
    reveal_strlit("get");
    reveal_strlit("post");
    reveal_strlit("put");
    reveal_strlit("delete");
    reveal_strlit("patch");
    assert(small_name(Method::Get) =~= "get"@);
    assert(small_name(Method::Post) =~= "post"@);
    assert(small_name(Method::Put) =~= "put"@);
    assert(small_name(Method::Delete) =~= "delete"@);
    assert(small_name(Method::Patch) =~= "patch"@);
    assert("get"@[0] == 'g' && "delete"@[0] == 'd');
    assert("post"@[1] == 'o' && "put"@[1] == 'u' && "patch"@[1] == 'a');
    assert("post"@[0] == 'p' && "put"@[0] == 'p' && "patch"@[0] == 'p');
}

/// A method is read by the name that it has on the wire, in small or capital letters, and by no
/// other text.
pub proof fn law_methods_by_name(v: ScriptValue, m: Method, r: Result<Method, ScriptError>)
    requires
        call_ensures(Method::from_lua, (&v,), r),
    ensures
        r == Ok::<Method, ScriptError>(m) <==> (v.as_text matches Ok(s) && text::lowercase(s@)
            == small_name(m)),
{
    lemma_small_names();
}

/// Each part of a request depends on the field of its name alone. The path is the text of `path`.
/// The body is the text of `body`, whatever the method, and the timeout the length of time of
/// `timeout`; they are absent where the field is, or is nil, or is no text or length of time. The
/// method is the one that `method` names, and GET where it names none.
pub proof fn law_request_is_what_its_fields_are(
    v: ScriptValue,
    t: ScriptTable,
    r: Result<Request, ScriptError>,
)
    requires
        v.kind == ValueKind::Table(t),
        call_ensures(Request::from_lua, (&v,), r),
    ensures
        match t.field("path"@) {
            None => r matches Err(ScriptError::Missing(n)) && n@ == "path"@,
            Some(p) => match p.as_text {
                Err(m) => r matches Err(ScriptError::Conversion(c)) && c@ == m@,
                Ok(s) => r matches Ok(q) && q.path@ == s@,
            },
        },
        r matches Ok(q) ==> {
            &&& forall|m: Method|
                (t.field("method"@) matches Some(x) && (x.as_text matches Ok(s) && text::lowercase(
                    s@,
                ) == #[trigger] small_name(m))) ==> q.method == m
            &&& (forall|m: Method|
                !(t.field("method"@) matches Some(x) && (x.as_text matches Ok(s) && text::lowercase(
                    s@,
                ) == #[trigger] small_name(m)))) ==> q.method == Method::Get
            &&& match t.field("body"@) {
                None => q.body is None,
                Some(b) => match b.as_text {
                    Ok(s) => if b.kind is Nil {
                        q.body is None
                    } else {
                        q.body matches Some(x) && x@ == s@
                    },
                    Err(_) => q.body is None,
                },
            }
            &&& match t.field("timeout"@) {
                None => q.timeout is None,
                Some(d) => match d.dt() {
                    Ok(length) => q.timeout matches Some(x) && x@ == length,
                    Err(_) => q.timeout is None,
                },
            }
        },
{
    lemma_small_names();
    if let Ok(q) = r {
        assert(small_name(Method::Get) == "get"@);
        assert(small_name(Method::Post) == "post"@);
        assert(small_name(Method::Put) == "put"@);
        assert(small_name(Method::Delete) == "delete"@);
        assert(small_name(Method::Patch) == "patch"@);
        assert(q@.method == q.method);
    }
}

/// The header fields of a request are those of the table in its field `headers`, the last one
/// where a key comes more than once, and no others. They are absent where the field is, or is no
/// table, or where one of its keys or values is not text.
pub proof fn law_request_has_the_headers_listed(
    v: ScriptValue,
    t: ScriptTable,
    q: Request,
)
    requires
        v.kind == ValueKind::Table(t),
        call_ensures(Request::from_lua, (&v,), Ok::<Request, ScriptError>(q)),
    ensures
        !(t.field("headers"@) matches Some(h) && h.kind is Table) ==> q.headers is None,
        t.field("headers"@) matches Some(h) ==> (h.kind matches ValueKind::Table(list) ==> {
            let pairs = list.pairs@;
            &&& q.headers is Some == (forall|i: int|
                0 <= i < pairs.len() ==> (#[trigger] pairs[i]).0.as_text is Ok
                    && pairs[i].1.as_text is Ok)
            &&& q.headers matches Some(m) ==> {
                &&& forall|i: int|
                    0 <= i < pairs.len() ==> maps::text_map(m).contains_key(
                        value::key_text(#[trigger] pairs[i]),
                    ) && (value::last_of_its_key(pairs, i) ==> maps::text_map(
                        m,
                    )[value::key_text(pairs[i])] == pairs[i].1.as_text->Ok_0@)
                &&& forall|key: Seq<char>| #[trigger]
                    maps::text_map(m).contains_key(key) ==> exists|i: int|
                        0 <= i < pairs.len() && value::key_text(#[trigger] pairs[i]) == key
            }
        }),
{
    if let Some(h) = t.field("headers"@) {
        if let ValueKind::Table(list) = h.kind {
            let pairs = list.pairs@;
            lemma_all_text(pairs);
            if let Some(m) = q.headers {
                assert forall|i: int| 0 <= i < pairs.len() implies maps::text_map(m).contains_key(
                    value::key_text(#[trigger] pairs[i]),
                ) && (value::last_of_its_key(pairs, i) ==> maps::text_map(
                    m,
                )[value::key_text(pairs[i])] == pairs[i].1.as_text->Ok_0@) by {
                    lemma_text_under_key(pairs, i);
                }
                assert forall|key: Seq<char>| #[trigger]
                    maps::text_map(m).contains_key(key) implies exists|i: int|
                    0 <= i < pairs.len() && value::key_text(#[trigger] pairs[i]) == key by {
                    lemma_text_keys(pairs, key);
                }
            }
        }
    }
}

/// Keys and values make a map where all of them are text.
proof fn lemma_all_text(pairs: Seq<(ScriptValue, ScriptValue)>)
    ensures
        text_pairs(pairs) is Some == (forall|i: int|
            0 <= i < pairs.len() ==> (#[trigger] pairs[i]).0.as_text is Ok && pairs[i].1.as_text
                is Ok),
    decreases pairs.len(),
{
    if pairs.len() > 0 {
        let less = pairs.drop_last();
        lemma_all_text(less);
        assert(pairs[pairs.len() - 1] == pairs.last());
        if text_pairs(pairs) is Some {
            assert forall|i: int| 0 <= i < pairs.len() implies (#[trigger] pairs[i]).0.as_text is Ok
                && pairs[i].1.as_text is Ok by {
                if i < less.len() {
                    assert(less[i] == pairs[i]);
                }
            }
        }
        if forall|i: int|
            0 <= i < pairs.len() ==> (#[trigger] pairs[i]).0.as_text is Ok && pairs[i].1.as_text
                is Ok {
            assert forall|i: int| 0 <= i < less.len() implies (#[trigger] less[i]).0.as_text is Ok
                && less[i].1.as_text is Ok by {
                assert(less[i] == pairs[i]);
            }
        }
    }
}

/// A text stands under its key.
proof fn lemma_text_under_key(pairs: Seq<(ScriptValue, ScriptValue)>, i: int)
    requires
        text_pairs(pairs) is Some,
        0 <= i < pairs.len(),
    ensures
        text_pairs(pairs).unwrap().contains_key(value::key_text(pairs[i])),
        value::last_of_its_key(pairs, i) ==> text_pairs(pairs).unwrap()[value::key_text(pairs[i])]
            == pairs[i].1.as_text->Ok_0@,
    decreases pairs.len(),
{
    let less = pairs.drop_last();
    let n = less.len() as int;
    if i < n {
        lemma_text_under_key(less, i);
        assert(less[i] == pairs[i]);
        if value::last_of_its_key(pairs, i) {
            assert(value::key_text(pairs[n]) != value::key_text(pairs[i]));
            assert(value::last_of_its_key(less, i)) by {
                assert forall|j: int| i < j < less.len() implies value::key_text(
                    #[trigger] less[j],
                ) != value::key_text(less[i]) by {
                    assert(less[j] == pairs[j]);
                }
            }
        }
    }
}

/// There are no texts but those under the keys.
proof fn lemma_text_keys(pairs: Seq<(ScriptValue, ScriptValue)>, key: Seq<char>)
    requires
        text_pairs(pairs) is Some,
        text_pairs(pairs).unwrap().contains_key(key),
    ensures
        exists|i: int| 0 <= i < pairs.len() && value::key_text(#[trigger] pairs[i]) == key,
    decreases pairs.len(),
{
    let less = pairs.drop_last();
    let n = less.len() as int;
    if value::key_text(pairs[n]) != key {
        lemma_text_keys(less, key);
        let i = choose|i: int| 0 <= i < less.len() && value::key_text(#[trigger] less[i]) == key;
        assert(value::key_text(pairs[i]) == key);
    }
}

/// Whether one of some header fields has this name, in lower case, and this value.
pub open spec fn among_headers(
    headers: Option<Map<Seq<char>, Seq<char>>>,
    key: Seq<char>,
    v: Seq<char>,
) -> bool {
    headers matches Some(m) && exists|name: Seq<char>| #[trigger]
        m.contains_key(name) && field_key(name) == key && m[name] == v
}

/// Whether the head of a request is all that a script describes: the method, the path, the host as
/// the first value of the field `host`, and every one of the header fields; and no other header
/// field.
pub open spec fn is_whole_head(host: Seq<char>, request: RequestView, head: HttpHead) -> bool {
    &&& head.method == request.method.wire_name()
    &&& http_uri(request.path) == Some(head.uri)
    &&& head.values("host"@).len() > 0
    &&& head.values("host"@)[0] == host
    &&& request.headers matches Some(m) ==> forall|name: Seq<char>| #[trigger]
        m.contains_key(name) ==> head.values(field_key(name)).contains(m[name])
    &&& forall|key: Seq<char>, i: int|
        0 <= i < head.values(key).len() ==> (key == "host"@ && i == 0) || among_headers(
            request.headers,
            key,
            #[trigger] head.values(key)[i],
        )
}

/// The head of a request with the header fields of a script, in whatever order.
pub proof fn lemma_whole_head(
    host: Seq<char>,
    request: RequestView,
    fields: Seq<(Seq<char>, Seq<char>)>,
    head: HttpHead,
)
    requires
        lists_headers(fields, request.headers),
        http_head(host, request.method.wire_name(), request.path, fields) == Some(head),
    ensures
        is_whole_head(host, request, head),
{
    law_host_comes_first(host, request.method.wire_name(), request.path, fields);
    reveal_strlit("host");
    assert(field_key("host"@) =~= "host"@);
    let bare = HttpHead {
        method: request.method.wire_name(),
        uri: http_uri(request.path).unwrap(),
        headers: Map::empty(),
    };
    let first = with_field(bare, "host"@, host);
    if let Some(m) = request.headers {
        assert forall|name: Seq<char>| #[trigger] m.contains_key(name) implies head.values(
            field_key(name),
        ).contains(m[name]) by {
            let i = choose|i: int| 0 <= i < fields.len() && (#[trigger] fields[i]).0 == name;
            law_fields_add_their_values(first, fields, field_key(name));
            let j = lemma_value_is_listed(fields, i);
            let all = values_for(fields, field_key(name));
            let before = first.values(field_key(name));
            assert(head.values(field_key(name))[before.len() + j] == all[j]);
        }
    }
    assert forall|key: Seq<char>, i: int| 0 <= i < head.values(key).len() implies (key == "host"@
        && i == 0) || among_headers(request.headers, key, #[trigger] head.values(key)[i]) by {
        law_fields_add_their_values(first, fields, key);
        let n = first.values(key).len() as int;
        assert(first.values(key).len() <= 1);
        if i >= n {
            let k = lemma_listed_value(fields, key, i - n);
            let m = request.headers.unwrap();
            assert(m.contains_key(fields[k].0));
        }
    }
}

/// A request goes out as the script describes it: with its method, its path, the host as the first
/// value of the field `host`, every one of its header fields and no other, and its body, or an
/// empty one where it has none.
pub proof fn law_request_goes_out_whole(host: &str, request: Request, sent: HttpRequest)
    requires
        call_ensures(
            script_request_to_http,
            (host, request),
            Ok::<HttpRequest, http::Error>(sent),
        ),
    ensures
        is_whole_head(host@, request@, request_head(sent.parts)),
        match request.body {
            Some(body) => sent.body@ == body@,
            None => sent.body@.len() == 0,
        },
{
    let fields = choose|fields: Seq<(Seq<char>, Seq<char>)>| #[trigger]
        lists_headers(fields, request@.headers) && http_head(
            host@,
            request@.method.wire_name(),
            request@.path,
            fields,
        ) == Some(request_head(sent.parts));
    lemma_whole_head(host@, request@, fields, request_head(sent.parts));
}

/// A field of a list is among the values for its name.
proof fn lemma_value_is_listed(fields: Seq<(Seq<char>, Seq<char>)>, i: int) -> (j: int)
    requires
        0 <= i < fields.len(),
    ensures
        0 <= j < values_for(fields, field_key(fields[i].0)).len(),
        values_for(fields, field_key(fields[i].0))[j] == fields[i].1,
    decreases fields.len(),
{
    let less = fields.drop_last();
    let key = field_key(fields[i].0);
    if i < less.len() {
        assert(less[i] == fields[i]);
        lemma_value_is_listed(less, i)
    } else {
        values_for(less, key).len() as int
    }
}

/// A value for a name is that of a field of the list.
proof fn lemma_listed_value(fields: Seq<(Seq<char>, Seq<char>)>, key: Seq<char>, j: int) -> (k: int)
    requires
        0 <= j < values_for(fields, key).len(),
    ensures
        0 <= k < fields.len(),
        field_key(fields[k].0) == key,
        fields[k].1 == values_for(fields, key)[j],
    decreases fields.len(),
{
    let less = fields.drop_last();
    if j < values_for(less, key).len() {
        let k = lemma_listed_value(less, key, j);
        assert(less[k] == fields[k]);
        k
    } else {
        fields.len() - 1
    }
}

/// Whether the http crate takes the path, the host and each of the header fields of a request.
pub open spec fn http_takes(host: Seq<char>, request: RequestView) -> bool {
    &&& http_uri(request.path) is Some
    &&& http_takes_field("host"@, host)
    &&& request.headers matches Some(m) ==> forall|name: Seq<char>| #[trigger]
        m.contains_key(name) ==> http_takes_field(name, m[name])
}

/// Whether a request has fewer header fields than always find room.
pub open spec fn has_few_headers(request: RequestView) -> bool {
    request.headers matches Some(m) ==> m.dom().len() < SURE_ROOM
}

/// There is a head for a request where the http crate takes all of it.
pub proof fn lemma_head_exists(
    host: Seq<char>,
    request: RequestView,
    fields: Seq<(Seq<char>, Seq<char>)>,
)
    requires
        lists_headers(fields, request.headers),
    ensures
        http_head(host, request.method.wire_name(), request.path, fields) is Some == http_takes(
            host,
            request,
        ),
        has_few_headers(request) ==> fields.len() < SURE_ROOM,
{
    let bare = HttpHead {
        method: request.method.wire_name(),
        uri: http_uri(request.path).unwrap(),
        headers: Map::empty(),
    };
    lemma_fields_taken(with_field(bare, "host"@, host), fields);
    if let Some(m) = request.headers {
        lemma_listed_once(fields, m);
        if http_head(host, request.method.wire_name(), request.path, fields) is Some {
            assert forall|name: Seq<char>| #[trigger] m.contains_key(name) implies http_takes_field(
                name,
                m[name],
            ) by {
                let i = choose|i: int| 0 <= i < fields.len() && (#[trigger] fields[i]).0 == name;
                assert(http_takes_field(fields[i].0, fields[i].1));
            }
        }
    }
}

/// A request is refused where the http crate does not take its path, the host or one of its header
/// fields; and where the http crate takes all of them and there are not too many of them, it is
/// built.
pub proof fn law_request_is_built_where_http_takes_it(
    host: &str,
    request: Request,
    r: Result<HttpRequest, http::Error>,
)
    requires
        call_ensures(script_request_to_http, (host, request), r),
    ensures
        r is Ok ==> http_takes(host@, request@),
        http_takes(host@, request@) && has_few_headers(request@) ==> r is Ok,
{
    let fields = choose|fields: Seq<(Seq<char>, Seq<char>)>| #[trigger]
        lists_headers(fields, request@.headers) && (r matches Ok(req) ==> http_head(
            host@,
            request@.method.wire_name(),
            request@.path,
            fields,
        ) == Some(request_head(req.parts))) && (fields.len() < SURE_ROOM && http_head(
            host@,
            request@.method.wire_name(),
            request@.path,
            fields,
        ) is Some ==> r is Ok);
    lemma_head_exists(host@, request@, fields);
}

/// Fields are added where all of them are taken.
proof fn lemma_fields_taken(h: HttpHead, fields: Seq<(Seq<char>, Seq<char>)>)
    ensures
        with_fields(h, fields) is Some == (forall|i: int|
            0 <= i < fields.len() ==> http_takes_field((#[trigger] fields[i]).0, fields[i].1)),
    decreases fields.len(),
{
    if fields.len() > 0 {
        let less = fields.drop_last();
        lemma_fields_taken(h, less);
        assert(fields[fields.len() - 1] == fields.last());
        if with_fields(h, fields) is Some {
            assert forall|i: int| 0 <= i < fields.len() implies http_takes_field(
                (#[trigger] fields[i]).0,
                fields[i].1,
            ) by {
                if i < less.len() {
                    assert(less[i] == fields[i]);
                }
            }
        }
        if forall|i: int|
            0 <= i < fields.len() ==> http_takes_field((#[trigger] fields[i]).0, fields[i].1) {
            assert forall|i: int| 0 <= i < less.len() implies http_takes_field(
                (#[trigger] less[i]).0,
                less[i].1,
            ) by {
                assert(less[i] == fields[i]);
            }
        }
    }
}

/// A list that holds each key of a map once is as long as the map.
pub proof fn lemma_listed_once(
    fields: Seq<(Seq<char>, Seq<char>)>,
    m: Map<Seq<char>, Seq<char>>,
)
    requires
        maps::lists(fields, m),
    ensures
        m.dom().finite(),
        m.dom().len() == fields.len(),
{
    let keys = fields.map_values(|f: (Seq<char>, Seq<char>)| f.0);
    assert(keys.no_duplicates()) by {
        assert forall|i: int, j: int| 0 <= i < keys.len() && 0 <= j < keys.len() && i
            != j implies keys[i] != keys[j] by {
            assert(fields[i].0 != fields[j].0);
        }
    }
    keys.unique_seq_to_set();
    vstd::seq_lib::seq_to_set_is_finite(keys);
    assert(keys.to_set() =~= m.dom()) by {
        assert forall|k: Seq<char>| keys.to_set().contains(k) implies m.dom().contains(k) by {
            let i = choose|i: int| 0 <= i < keys.len() && keys[i] == k;
            assert(fields[i].0 == k);
        }
        assert forall|k: Seq<char>| m.dom().contains(k) implies keys.to_set().contains(k) by {
            assert(m.contains_key(k));
            let i = choose|i: int| 0 <= i < fields.len() && (#[trigger] fields[i]).0 == k;
            assert(keys[i] == k);
        }
    }
}

/// What a script learns of an answer tells a timeout from a lost connection, and both from an
/// answer that came.
pub proof fn law_response_errors_are_told_apart(response: Response, timeout: bool, lost: bool)
    requires
        call_ensures(Response::is_timeout, (&response,), timeout),
        call_ensures(Response::is_disconnect, (&response,), lost),
    ensures
        !(timeout && lost),
        (timeout || lost) == (response.error is Some),
        timeout ==> response.error == Some(ResponseError::TimedOut),
        lost ==> response.error == Some(ResponseError::Disconnected),
{
    match response.error {
        Some(ResponseError::TimedOut) => {},
        Some(ResponseError::Disconnected) => {},
        None => {},
    }
}

/// A request can be read, or refused, wherever its timeout can.
pub proof fn law_which_requests_can_be_read(v: ScriptValue, r: bool)
    requires
        call_ensures(Request::check_readable, (&v,), r),
    ensures
        match v.kind {
            ValueKind::Table(t) => match t.field("timeout"@) {
                Some(d) => d.dt_readable() ==> r,
                None => r,
            },
            _ => r,
        },
{
}

} // verus!
