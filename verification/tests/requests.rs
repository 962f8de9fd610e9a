use rustc_hash::FxHashMap;
use wrk3::dt::{Binary64, LuaDt};
use wrk3::http_request::{
    build_http, script_request_to_http, Method, Request, Response, ResponseError, MOST_NAMES,
    SURE_ROOM,
};
use wrk3::metric::MetricData;
use wrk3::reactor::{disconnection, Action, Event, FatalError, Reactor, RuntimeMsg};
use wrk3::value::{ScriptError, ScriptTable, ScriptValue, ValueKind};
use wrk3::vu::{first_request, get_first_msg, EffectError, FirstEffect};

fn value(kind: ValueKind) -> ScriptValue {
    ScriptValue {
        kind,
        as_int: Err("no integer".to_string()),
        as_float: Err("no number".to_string()),
        as_text: Err("no text".to_string()),
    }
}

fn nil() -> ScriptValue {
    value(ValueKind::Nil)
}

fn text(s: &str) -> ScriptValue {
    ScriptValue { as_text: Ok(s.to_string()), ..value(ValueKind::Text) }
}

fn table(fields: Vec<(&str, ScriptValue)>) -> ScriptValue {
    let fields = fields.into_iter().map(|(k, v)| (k.to_string(), v)).collect();
    value(ValueKind::Table(ScriptTable { fields, items: vec![], pairs: vec![] }))
}

fn dictionary(pairs: Vec<(ScriptValue, ScriptValue)>) -> ScriptValue {
    value(ValueKind::Table(ScriptTable { fields: vec![], items: vec![], pairs }))
}

fn plain(path: &str) -> Request {
    Request {
        path: path.to_string(),
        method: Method::Get,
        headers: None,
        body: None,
        timeout: None,
    }
}

#[test]
fn a_request_needs_only_a_path() {
    let request = Request::from_lua(&table(vec![("path", text("/a"))])).ok().unwrap();
    assert_eq!(request.path, "/a");
    assert_eq!(request.method, Method::Get);
    assert!(request.headers.is_none() && request.body.is_none() && request.timeout.is_none());
}

#[test]
fn a_full_request() {
    let v = table(vec![
        ("path", text("/a?b=c")),
        ("method", text("PoSt")),
        ("headers", dictionary(vec![(text("x-a"), text("1")), (text("x-b"), text("2"))])),
        ("body", text("hello")),
        ("timeout", text("250ms")),
    ]);
    assert!(Request::check_readable(&v));
    let request = Request::from_lua(&v).ok().unwrap();
    assert_eq!(request.method, Method::Post);
    let headers = request.headers.unwrap();
    assert_eq!(headers.len(), 2);
    assert_eq!(headers.get("x-a").unwrap(), "1");
    assert_eq!(headers.get("x-b").unwrap(), "2");
    assert_eq!(request.body.as_deref(), Some("hello"));
    assert_eq!(request.timeout, Some(LuaDt::from_parts(0, 250_000_000)));
}

#[test]
fn what_is_not_right_counts_as_absent() {
    let v = table(vec![
        ("path", text("/a")),
        ("method", text("fetch")),
        ("headers", dictionary(vec![(text("x-a"), text("1")), (text("x-b"), nil())])),
        ("body", value(ValueKind::Boolean(true))),
        ("timeout", text("soon")),
    ]);
    let request = Request::from_lua(&v).ok().unwrap();
    assert_eq!(request.method, Method::Get);
    assert!(request.headers.is_none() && request.body.is_none() && request.timeout.is_none());
    let v = table(vec![
        ("path", text("/a")),
        ("method", nil()),
        ("headers", text("none")),
        ("body", nil()),
        ("timeout", nil()),
    ]);
    let request = Request::from_lua(&v).ok().unwrap();
    assert_eq!(request.method, Method::Get);
    assert!(request.headers.is_none() && request.body.is_none() && request.timeout.is_none());
}

#[test]
fn a_request_without_a_path_is_refused() {
    assert!(matches!(
        Request::from_lua(&text("/a")),
        Err(ScriptError::NotTable(t)) if t == "string"
    ));
    assert!(matches!(
        Request::from_lua(&table(vec![("path", nil())])),
        Err(ScriptError::Conversion(m)) if m == "no text"
    ));
    assert!(matches!(
        Request::from_lua(&table(vec![])),
        Err(ScriptError::Missing(name)) if name == "path"
    ));
}

#[test]
fn a_timeout_out_of_range_is_told() {
    let huge = || value(ValueKind::Number(Binary64 { bits: 1e300f64.to_bits() }));
    let with_path = table(vec![("path", text("/a")), ("timeout", huge())]);
    assert!(!Request::check_readable(&with_path));
    let without = table(vec![("path", nil()), ("timeout", huge())]);
    assert!(Request::check_readable(&without));
    assert!(Request::from_lua(&without).is_err());
}

#[test]
fn methods_by_name() {
    for (name, method, wire) in [
        ("get", Method::Get, "GET"),
        ("POST", Method::Post, "POST"),
        ("Put", Method::Put, "PUT"),
        ("delete", Method::Delete, "DELETE"),
        ("pATCH", Method::Patch, "PATCH"),
    ] {
        assert_eq!(Method::from_lua(&text(name)).ok(), Some(method));
        assert_eq!(method.name(), wire);
    }
    assert!(matches!(Method::from_lua(&text("head")), Err(ScriptError::Method)));
    assert_eq!(
        Method::from_lua(&text("")).err().and_then(|e| e.message()).unwrap(),
        "expected a valid HTTP method"
    );
    assert!(matches!(Method::from_lua(&nil()), Err(ScriptError::Conversion(_))));
}

#[test]
fn the_host_is_the_first_header_field() {
    let mut headers = FxHashMap::default();
    headers.insert("X-Thing".to_string(), "one".to_string());
    headers.insert("Host".to_string(), "other".to_string());
    let request = Request {
        path: "/p?q=1".to_string(),
        method: Method::Put,
        headers: Some(headers),
        body: Some("content".to_string()),
        timeout: None,
    };
    let built = script_request_to_http("example.org:80", request).ok().unwrap();
    assert_eq!(built.parts.method.as_str(), "PUT");
    assert_eq!(built.parts.uri.to_string(), "/p?q=1");
    let hosts: Vec<&str> =
        built.parts.headers.get_all("host").iter().map(|v| v.to_str().unwrap()).collect();
    assert_eq!(hosts, ["example.org:80", "other"]);
    assert_eq!(built.parts.headers.get("x-thing").unwrap(), "one");
    assert_eq!(built.parts.headers.len(), 3);
    assert_eq!(built.body, "content");
}

#[test]
fn a_plain_request_has_an_empty_body() {
    let built = script_request_to_http("h", plain("/")).ok().unwrap();
    assert_eq!(built.parts.method.as_str(), "GET");
    assert_eq!(built.body, "");
    assert_eq!(built.parts.headers.len(), 1);
}

#[test]
fn values_of_a_field_keep_their_order() {
    let fields = vec![
        ("A".to_string(), "1".to_string()),
        ("b".to_string(), "2".to_string()),
        ("a".to_string(), "3".to_string()),
    ];
    let built = build_http("h", Method::Delete, "/x", &fields, String::new()).ok().unwrap();
    let values: Vec<&str> =
        built.parts.headers.get_all("a").iter().map(|v| v.to_str().unwrap()).collect();
    assert_eq!(values, ["1", "3"]);
    assert_eq!(built.parts.headers.get("b").unwrap(), "2");
}

#[test]
fn what_http_does_not_take_is_refused() {
    let none = vec![];
    assert!(build_http("h", Method::Get, "not a path", &none, String::new()).is_err());
    assert!(build_http("bad\nhost", Method::Get, "/", &none, String::new()).is_err());
    let bad_name = vec![("bad name".to_string(), "1".to_string())];
    assert!(build_http("h", Method::Get, "/", &bad_name, String::new()).is_err());
    let bad_value = vec![("name".to_string(), "a\nb".to_string())];
    assert!(build_http("h", Method::Get, "/", &bad_value, String::new()).is_err());
}

#[test]
fn many_header_fields_are_taken() {
    let fields: Vec<(String, String)> =
        (1..SURE_ROOM).map(|i| (format!("x-{}", i), i.to_string())).collect();
    let built = build_http("h", Method::Get, "/", &fields, String::new()).ok().unwrap();
    assert_eq!(built.parts.headers.len(), SURE_ROOM);
    let mut request = plain("/");
    request.headers = Some(fields.into_iter().collect());
    let built = script_request_to_http("h", request).ok().unwrap();
    assert_eq!(built.parts.headers.len(), SURE_ROOM);
}

#[test]
fn too_many_header_fields_are_refused() {
    let fields: Vec<(String, String)> =
        (0..MOST_NAMES).map(|i| (format!("x-{}", i), i.to_string())).collect();
    assert!(build_http("h", Method::Get, "/", &fields, String::new()).is_err());
    let mut request = plain("/");
    request.headers = Some(fields.into_iter().collect());
    assert!(script_request_to_http("h", request).is_err());
}

#[test]
fn responses_tell_what_went_wrong() {
    let fine = Response { status: 200, error: None };
    assert!(!fine.is_timeout() && !fine.is_disconnect());
    let late = Response { status: 0, error: Some(ResponseError::TimedOut) };
    assert!(late.is_timeout() && !late.is_disconnect());
    let gone = Response { status: 0, error: Some(ResponseError::Disconnected) };
    assert!(!gone.is_timeout() && gone.is_disconnect());
}

fn connected() -> Reactor {
    let (mut reactor, first) = Reactor::new("example.org".to_string());
    assert!(matches!(first, Action::Connect));
    connect(&mut reactor);
    reactor
}

fn connect(reactor: &mut Reactor) {
    assert!(matches!(step(reactor, Event::Connected), Action::Handshake));
    let now = LuaDt::from_secs(3);
    match step(reactor, Event::HandshakeDone { now }) {
        Action::Announce(point) => {
            assert_eq!(point.metric, "wrk3.tcp_connections.d");
            assert_eq!(point.timestamp, now);
            assert!(matches!(point.values.get("value"), Some(MetricData::Int(1))));
        }
        _ => panic!("the connection is not announced"),
    }
    assert!(matches!(step(reactor, Event::Announced), Action::Receive));
}

fn step(reactor: &mut Reactor, event: Event) -> Action {
    assert!(reactor.accepts(&event));
    reactor.step(event)
}

fn request(path: &str) -> Event {
    Event::Message(RuntimeMsg::Request { request: plain(path) })
}

#[test]
fn a_request_is_sent_and_answered() {
    let mut reactor = connected();
    let timeout = LuaDt::from_secs(2);
    let message = RuntimeMsg::Request {
        request: Request { timeout: Some(timeout), ..plain("/x") },
    };
    match step(&mut reactor, Event::Message(message)) {
        Action::Send { request, timeout: limit } => {
            assert_eq!(request.parts.uri.to_string(), "/x");
            assert_eq!(request.parts.headers.get("host").unwrap(), "example.org");
            assert_eq!(limit, Some(timeout));
        }
        _ => panic!("nothing is sent"),
    }
    match step(&mut reactor, Event::Answered { status: 404 }) {
        Action::Reply(reply) => assert_eq!(reply, Response { status: 404, error: None }),
        _ => panic!("no reply"),
    }
    assert!(matches!(step(&mut reactor, Event::Delivered), Action::Receive));
    assert!(matches!(step(&mut reactor, Event::Closed), Action::Stop));
    assert!(!reactor.accepts(&Event::Closed));
}

#[test]
fn a_lost_connection_is_replaced() {
    for error in [ResponseError::TimedOut, ResponseError::Disconnected] {
        let mut reactor = connected();
        assert!(matches!(step(&mut reactor, request("/x")), Action::Send { timeout: None, .. }));
        match step(&mut reactor, Event::NoAnswer(error)) {
            Action::Reply(reply) => assert_eq!(reply, Response { status: 0, error: Some(error) }),
            _ => panic!("no reply"),
        }
        assert!(matches!(step(&mut reactor, Event::Delivered), Action::Connect));
        connect(&mut reactor);
        assert!(matches!(step(&mut reactor, request("/y")), Action::Send { .. }));
    }
}

#[test]
fn a_script_sleeps_and_wakes() {
    let mut reactor = connected();
    let duration = LuaDt::from_secs(9);
    let sleep = Event::Message(RuntimeMsg::Sleep { duration });
    assert!(matches!(step(&mut reactor, sleep), Action::Sleep(d) if d == duration));
    assert!(matches!(step(&mut reactor, Event::Slept), Action::Wake));
    assert!(matches!(step(&mut reactor, Event::Delivered), Action::Receive));
}

#[test]
fn what_ends_a_virtual_user() {
    let failure = |action| match action {
        Action::Fail(e) => e.message(),
        _ => panic!("it goes on"),
    };
    let (mut reactor, _) = Reactor::new("h".to_string());
    let reason = "connection refused".to_string();
    assert_eq!(
        failure(step(&mut reactor, Event::ConnectFailed { reason })),
        "connection to server: connection refused"
    );
    assert!(!reactor.accepts(&Event::Connected));

    let (mut reactor, _) = Reactor::new("h".to_string());
    step(&mut reactor, Event::Connected);
    let reason = "closed".to_string();
    assert_eq!(failure(step(&mut reactor, Event::HandshakeFailed { reason })), "http handshake");

    let (mut reactor, _) = Reactor::new("h".to_string());
    step(&mut reactor, Event::Connected);
    step(&mut reactor, Event::HandshakeDone { now: LuaDt::zero() });
    assert_eq!(failure(step(&mut reactor, Event::CollectorGone)), "metrics collector stopped");

    let mut reactor = connected();
    assert_eq!(failure(step(&mut reactor, request("not a path"))), "request formatting");

    let mut reactor = connected();
    step(&mut reactor, request("/"));
    step(&mut reactor, Event::Answered { status: 200 });
    assert_eq!(failure(step(&mut reactor, Event::VuGone)), "vu worker stopped");

    let mut reactor = connected();
    step(&mut reactor, Event::Message(RuntimeMsg::Sleep { duration: LuaDt::zero() }));
    step(&mut reactor, Event::Slept);
    assert!(matches!(step(&mut reactor, Event::VuGone), Action::Fail(FatalError::VuDisconnected)));
}

#[test]
fn events_out_of_place_are_not_accepted() {
    let (mut reactor, _) = Reactor::new("h".to_string());
    assert!(!reactor.accepts(&Event::Announced));
    assert!(!reactor.accepts(&Event::Delivered));
    step(&mut reactor, Event::Connected);
    assert!(!reactor.accepts(&Event::Connected));
    assert!(!reactor.accepts(&Event::Slept));
}

#[test]
fn every_message_is_answered_once() {
    let mut reactor = connected();
    let mut replies = 0;
    for i in 0..6 {
        step(&mut reactor, request("/"));
        let event = if i % 3 == 2 {
            Event::NoAnswer(ResponseError::TimedOut)
        } else {
            Event::Answered { status: 200 }
        };
        assert!(matches!(step(&mut reactor, event), Action::Reply(_)));
        replies += 1;
        if i % 3 == 2 {
            assert!(matches!(step(&mut reactor, Event::Delivered), Action::Connect));
            connect(&mut reactor);
        } else {
            assert!(matches!(step(&mut reactor, Event::Delivered), Action::Receive));
        }
    }
    assert_eq!(replies, 6);
}

#[test]
fn the_end_of_a_connection_is_reported() {
    let point = disconnection(LuaDt::from_secs(5));
    assert_eq!(point.metric, "wrk3.tcp_disconnections.d");
    assert_eq!(point.timestamp, LuaDt::from_secs(5));
    assert_eq!(point.values.len(), 1);
    assert!(matches!(point.values.get("value"), Some(MetricData::Int(1))));
}

#[test]
fn the_first_effect_must_be_a_request() {
    let message = |r: Result<Request, EffectError>| r.err().unwrap().message();
    assert_eq!(
        message(first_request(FirstEffect::Completed)),
        "main completed before causing any effects"
    );
    assert_eq!(
        message(first_request(FirstEffect::Closed)),
        "main completed before causing any effects"
    );
    let sleep = || RuntimeMsg::Sleep { duration: LuaDt::zero() };
    assert_eq!(
        message(first_request(FirstEffect::Message(sleep()))),
        "the first effect must be a request"
    );
    assert!(get_first_msg(FirstEffect::Message(sleep())).is_ok());
    let request = RuntimeMsg::Request { request: plain("/first") };
    let first = first_request(FirstEffect::Message(request)).ok().unwrap();
    assert_eq!(first.path, "/first");
}
