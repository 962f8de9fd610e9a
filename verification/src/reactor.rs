//! The connection of a virtual user: it takes the messages of a script and carries them out.
use crate::dt::LuaDt;
use crate::http_request;
use crate::http_request::{
    script_request_to_http, HttpRequest, Request, RequestView, Response, ResponseError,
};
use crate::metric;
use crate::metric::DataPoint;
use crate::text::concat;
use vstd::prelude::*;
use vstd::string::*;

verus! {

/// What a script asks for.
pub enum RuntimeMsg {
    /// To send a request and to be told of the answer.
    Request { request: Request },
    /// To be woken after a time.
    Sleep { duration: LuaDt },
}

/// Why a virtual user cannot go on.
pub enum FatalError {
    VuDisconnected,
    MetricsDisconnected,
    /// The server could not be connected to, for this reason.
    Connect(String),
    /// The connection could not be set up, for this reason.
    Handshake(String),
    RequestFormat(http::Error),
}

impl FatalError {
    /// The message of the error.
    pub fn message(&self) -> (r: String)
        ensures
            r@ == match self {
                FatalError::VuDisconnected => "vu worker stopped"@,
                FatalError::MetricsDisconnected => "metrics collector stopped"@,
                FatalError::Connect(reason) => "connection to server: "@ + reason@,
                FatalError::Handshake(_) => "http handshake"@,
                FatalError::RequestFormat(_) => "request formatting"@,
            },
    {
        match self {
            FatalError::VuDisconnected => "vu worker stopped".to_owned(),
            FatalError::MetricsDisconnected => "metrics collector stopped".to_owned(),
            FatalError::Connect(reason) => concat("connection to server: ", reason.as_str()),
            FatalError::Handshake(_) => "http handshake".to_owned(),
            FatalError::RequestFormat(_) => "request formatting".to_owned(),
        }
    }
}

/// What a reactor is about.
#[derive(Clone, Copy, PartialEq, Eq, Structural, Debug)]
pub enum ReactorState {
    Connecting,
    Handshaking,
    /// A new connection is being reported.
    Announcing,
    /// Waiting for a message of the script.
    Waiting,
    /// A request is on its way.
    Requesting,
    /// The script is being told of the answer, or that the connection is lost.
    Replying { lost: bool },
    Sleeping,
    /// The script is being woken.
    Waking,
    Stopped,
    Failed,
}

/// What has happened.
pub enum Event {
    Connected,
    ConnectFailed { reason: String },
    /// The connection is set up, at this time since the start.
    HandshakeDone { now: LuaDt },
    HandshakeFailed { reason: String },
    Announced,
    /// The collector of the metrics is gone.
    CollectorGone,
    Message(RuntimeMsg),
    /// The script sends no more messages.
    Closed,
    /// An answer has come, with this status.
    Answered { status: u16 },
    /// No answer has come.
    NoAnswer(ResponseError),
    /// The script has been told.
    Delivered,
    /// The script is gone.
    VuGone,
    Slept,
}

/// What is to be done next.
pub enum Action {
    Connect,
    Handshake,
    /// Report the connection, and watch it until it ends.
    Announce(DataPoint),
    Receive,
    /// Send a request, and wait for its answer no longer than this.
    Send { request: HttpRequest, timeout: Option<LuaDt> },
    Reply(Response),
    Sleep(LuaDt),
    Wake,
    Stop,
    Fail(FatalError),
}

/// Whether an event can happen in a state.
pub open spec fn fits(state: ReactorState, event: Event) -> bool {
    match state {
        ReactorState::Connecting => event is Connected || event is ConnectFailed,
        ReactorState::Handshaking => event is HandshakeDone || event is HandshakeFailed,
        ReactorState::Announcing => event is Announced || event is CollectorGone,
        ReactorState::Waiting => event is Message || event is Closed,
        ReactorState::Requesting => event is Answered || event is NoAnswer,
        ReactorState::Replying { .. } => event is Delivered || event is VuGone,
        ReactorState::Sleeping => event is Slept,
        ReactorState::Waking => event is Delivered || event is VuGone,
        ReactorState::Stopped => false,
        ReactorState::Failed => false,
    }
}

/// The state after an event. A request that cannot be built fails.
pub open spec fn after(state: ReactorState, event: Event, built: bool) -> ReactorState {
    match event {
        Event::Connected => ReactorState::Handshaking,
        Event::HandshakeDone { .. } => ReactorState::Announcing,
        Event::Announced => ReactorState::Waiting,
        Event::Message(RuntimeMsg::Request { .. }) => if built {
            ReactorState::Requesting
        } else {
            ReactorState::Failed
        },
        Event::Message(RuntimeMsg::Sleep { .. }) => ReactorState::Sleeping,
        Event::Closed => ReactorState::Stopped,
        Event::Answered { .. } => ReactorState::Replying { lost: false },
        Event::NoAnswer(_) => ReactorState::Replying { lost: true },
        Event::Delivered => if state == (ReactorState::Replying { lost: true }) {
            ReactorState::Connecting
        } else {
            ReactorState::Waiting
        },
        Event::Slept => ReactorState::Waking,
        _ => ReactorState::Failed,
    }
}

/// The point that reports a new connection.
pub open spec fn connection_point(now: nat) -> metric::DataPointView {
    metric::counted(now, "wrk3.tcp_connections.d"@)
}

/// The point that reports the end of a connection.
pub open spec fn disconnection_point(now: nat) -> metric::DataPointView {
    metric::counted(now, "wrk3.tcp_disconnections.d"@)
}

/// Whether an action answers a request of a script to a host: it sends the request that the
/// script describes, with its timeout, its header fields in some order, or it fails because
/// the request cannot be built.
pub open spec fn sends(host: Seq<char>, request: RequestView, action: Action) -> bool {
    exists|fields: Seq<(Seq<char>, Seq<char>)>|
        {
            &&& #[trigger] http_request::lists_headers(fields, request.headers)
            &&& match action {
                Action::Send { request: sent, timeout } => {
                    &&& http_request::http_head(
                        host,
                        request.method.wire_name(),
                        request.path,
                        fields,
                    ) == Some(http_request::request_head(sent.parts))
                    &&& sent.body@ == match request.body {
                        Some(body) => body,
                        None => Seq::empty(),
                    }
                    &&& request.timeout == match timeout {
                        Some(t) => Some(t@),
                        None => None,
                    }
                },
                Action::Fail(FatalError::RequestFormat(_)) => fields.len()
                    < http_request::SURE_ROOM ==> http_request::http_head(
                    host,
                    request.method.wire_name(),
                    request.path,
                    fields,
                ) is None,
                _ => false,
            }
        }
}

/// Whether an action is what an event calls for.
pub open spec fn answers(
    host: Seq<char>,
    state: ReactorState,
    event: Event,
    action: Action,
) -> bool {
    match event {
        Event::Connected => action is Handshake,
        Event::ConnectFailed { reason } => action matches Action::Fail(FatalError::Connect(why))
            && why@ == reason@,
        Event::HandshakeDone { now } => action matches Action::Announce(point) && point@
            == connection_point(now@),
        Event::HandshakeFailed { reason } => action matches Action::Fail(
            FatalError::Handshake(why),
        ) && why@ == reason@,
        Event::Announced => action is Receive,
        Event::CollectorGone => action matches Action::Fail(FatalError::MetricsDisconnected),
        Event::Message(RuntimeMsg::Request { request }) => sends(host, request@, action),
        Event::Message(RuntimeMsg::Sleep { duration }) => action matches Action::Sleep(d) && d@
            == duration@,
        Event::Closed => action is Stop,
        Event::Answered { status } => action matches Action::Reply(reply) && reply.status == status
            && reply.error is None,
        Event::NoAnswer(e) => action matches Action::Reply(reply) && reply.status == 0
            && reply.error == Some(e),
        Event::Delivered => if state == (ReactorState::Replying { lost: true }) {
            action is Connect
        } else {
            action is Receive
        },
        Event::VuGone => action matches Action::Fail(FatalError::VuDisconnected),
        Event::Slept => action is Wake,
    }
}

/// Carries out the messages of a script, one after the other, over one connection at a time.
pub struct Reactor {
    host: String,
    state: ReactorState,
}

impl Reactor {
    /// The host that the requests are for.
    pub closed spec fn host(&self) -> Seq<char> {
        self.host@
    }

    /// What the reactor is about.
    pub closed spec fn state(&self) -> ReactorState {
        self.state
    }

    /// A reactor for a host. Its first action is to connect.
    pub fn new(host: String) -> (r: (Reactor, Action))
        ensures
            r.0.host() == host@,
            r.0.state() == ReactorState::Connecting,
            r.1 is Connect,
    {
        (Reactor { host, state: ReactorState::Connecting }, Action::Connect)
    }

    /// Tells whether an event can happen now.
    pub fn accepts(&self, event: &Event) -> (r: bool)
        ensures
            r == fits(self.state(), *event),
    {
        match (self.state, event) {
            (ReactorState::Connecting, Event::Connected) => true,
            (ReactorState::Connecting, Event::ConnectFailed { .. }) => true,
            (ReactorState::Handshaking, Event::HandshakeDone { .. }) => true,
            (ReactorState::Handshaking, Event::HandshakeFailed { .. }) => true,
            (ReactorState::Announcing, Event::Announced) => true,
            (ReactorState::Announcing, Event::CollectorGone) => true,
            (ReactorState::Waiting, Event::Message(_)) => true,
            (ReactorState::Waiting, Event::Closed) => true,
            (ReactorState::Requesting, Event::Answered { .. }) => true,
            (ReactorState::Requesting, Event::NoAnswer(_)) => true,
            (ReactorState::Replying { .. }, Event::Delivered) => true,
            (ReactorState::Replying { .. }, Event::VuGone) => true,
            (ReactorState::Sleeping, Event::Slept) => true,
            (ReactorState::Waking, Event::Delivered) => true,
            (ReactorState::Waking, Event::VuGone) => true,
            _ => false,
        }
    }

    /// Fails.
    fn fail(&mut self, e: FatalError) -> (r: Action)
        ensures
            final(self).host() == old(self).host(),
            final(self).state() == ReactorState::Failed,
            r == Action::Fail(e),
    {
        self.state = ReactorState::Failed;
        Action::Fail(e)
    }

    /// Sends a request of the script.
    fn send(&mut self, request: Request) -> (r: Action)
        ensures
            final(self).host() == old(self).host(),
            final(self).state() == if r is Fail {
                ReactorState::Failed
            } else {
                ReactorState::Requesting
            },
            sends(old(self).host(), request@, r),
    {
        let timeout = request.timeout;
        match script_request_to_http(self.host.as_str(), request) {
            Ok(request) => {
                self.state = ReactorState::Requesting;
                Action::Send { request, timeout }
            },
            Err(e) => self.fail(FatalError::RequestFormat(e)),
        }
    }

    /// Takes in what has happened, and tells what is to be done next.
    pub fn step(&mut self, event: Event) -> (r: Action)
        requires
            fits(old(self).state(), event),
        ensures
            final(self).host() == old(self).host(),
            final(self).state() == after(old(self).state(), event, !(r is Fail)),
            answers(old(self).host(), old(self).state(), event, r),
    {
        match event {
            Event::Connected => {
                self.state = ReactorState::Handshaking;
                Action::Handshake
            },
            Event::ConnectFailed { reason } => self.fail(FatalError::Connect(reason)),
            Event::HandshakeDone { now } => {
                self.state = ReactorState::Announcing;
                Action::Announce(DataPoint::count(now, "wrk3.tcp_connections.d"))
            },
            Event::HandshakeFailed { reason } => self.fail(FatalError::Handshake(reason)),
            Event::Announced => {
                self.state = ReactorState::Waiting;
                Action::Receive
            },
            Event::CollectorGone => self.fail(FatalError::MetricsDisconnected),
            Event::Message(RuntimeMsg::Request { request }) => self.send(request),
            Event::Message(RuntimeMsg::Sleep { duration }) => {
                self.state = ReactorState::Sleeping;
                Action::Sleep(duration)
            },
            Event::Closed => {
                self.state = ReactorState::Stopped;
                Action::Stop
            },
            Event::Answered { status } => {
                self.state = ReactorState::Replying { lost: false };
                Action::Reply(Response { status, error: None })
            },
            Event::NoAnswer(e) => {
                self.state = ReactorState::Replying { lost: true };
                Action::Reply(Response { status: 0, error: Some(e) })
            },
            Event::Delivered => {
                if let ReactorState::Replying { lost: true } = self.state {
                    self.state = ReactorState::Connecting;
                    Action::Connect
                } else {
                    self.state = ReactorState::Waiting;
                    Action::Receive
                }
            },
            Event::VuGone => self.fail(FatalError::VuDisconnected),
            Event::Slept => {
                self.state = ReactorState::Waking;
                Action::Wake
            },
        }
    }
}

/// The point that reports the end of a connection.
pub fn disconnection(now: LuaDt) -> (r: DataPoint)
    ensures
        r@ == disconnection_point(now@),
{
    DataPoint::count(now, "wrk3.tcp_disconnections.d")
}

/// The state after some events from the beginning on. With each comes whether a request that
/// it holds could be built.
pub open spec fn state_after(history: Seq<(Event, bool)>) -> ReactorState
    decreases history.len(),
{
    if history.len() == 0 {
        ReactorState::Connecting
    } else {
        after(state_after(history.drop_last()), history.last().0, history.last().1)
    }
}

/// Whether events can happen one after the other.
pub open spec fn possible(history: Seq<(Event, bool)>) -> bool {
    forall|i: int|
        0 <= i < history.len() ==> fits(state_after(history.take(i)), (#[trigger] history[i]).0)
}

/// How many of the events are messages of the script.
pub open spec fn messages(history: Seq<(Event, bool)>) -> nat
    decreases history.len(),
{
    if history.len() == 0 {
        0
    } else {
        messages(history.drop_last()) + if history.last().0 is Message {
            1nat
        } else {
            0
        }
    }
}

/// How many times the script has been told that a message was carried out.
pub open spec fn deliveries(history: Seq<(Event, bool)>) -> nat
    decreases history.len(),
{
    if history.len() == 0 {
        0
    } else {
        deliveries(history.drop_last()) + if history.last().0 is Delivered {
            1nat
        } else {
            0
        }
    }
}

/// How many connections were made.
pub open spec fn connections(history: Seq<(Event, bool)>) -> nat
    decreases history.len(),
{
    if history.len() == 0 {
        0
    } else {
        connections(history.drop_last()) + if history.last().0 is Connected {
            1nat
        } else {
            0
        }
    }
}

/// How many requests got no answer.
pub open spec fn losses(history: Seq<(Event, bool)>) -> nat
    decreases history.len(),
{
    if history.len() == 0 {
        0
    } else {
        losses(history.drop_last()) + if history.last().0 is NoAnswer {
            1nat
        } else {
            0
        }
    }
}

/// What can happen before the last event can happen without it.
proof fn lemma_possible_before(history: Seq<(Event, bool)>)
    requires
        possible(history),
        history.len() > 0,
    ensures
        possible(history.drop_last()),
        fits(state_after(history.drop_last()), history.last().0),
{
    let before = history.drop_last();
    assert forall|i: int| 0 <= i < before.len() implies fits(
        state_after(before.take(i)),
        (#[trigger] before[i]).0,
    ) by {
        assert(before.take(i) =~= history.take(i));
        assert(before[i] == history[i]);
    }
    assert(history.take(history.len() - 1) =~= before);
    assert(history[history.len() - 1] == history.last());
}

/// Every message of the script is answered once, before the next one is taken: while the
/// reactor waits for a message, it has answered as many as it has taken, and at no time is
/// more than one left to answer.
pub proof fn law_every_message_is_answered_once(history: Seq<(Event, bool)>)
    requires
        possible(history),
    ensures
        deliveries(history) <= messages(history) <= deliveries(history) + 1,
        state_after(history) == ReactorState::Waiting || state_after(history)
            == ReactorState::Stopped ==> messages(history) == deliveries(history),
    decreases history.len(),
{
    lemma_books_balance(history);
}

/// A connection serves until a request gets no answer, and is replaced only then: while the
/// reactor waits for a message, it has made one connection and one for each loss.
pub proof fn law_connection_is_replaced_when_lost(history: Seq<(Event, bool)>)
    requires
        possible(history),
    ensures
        connections(history) <= losses(history) + 1,
        state_after(history) == ReactorState::Waiting || state_after(history)
            == ReactorState::Stopped ==> connections(history) == losses(history) + 1,
{
    lemma_books_balance(history);
}

/// What is counted, in each state.
proof fn lemma_books_balance(history: Seq<(Event, bool)>)
    requires
        possible(history),
    ensures
        deliveries(history) <= messages(history) <= deliveries(history) + 1,
        connections(history) <= losses(history) + 1,
        match state_after(history) {
            ReactorState::Connecting => messages(history) == deliveries(history) && connections(
                history,
            ) == losses(history),
            ReactorState::Handshaking
            | ReactorState::Announcing
            | ReactorState::Waiting
            | ReactorState::Stopped => messages(history) == deliveries(history) && connections(
                history,
            ) == losses(history) + 1,
            ReactorState::Requesting | ReactorState::Sleeping | ReactorState::Waking => messages(
                history,
            ) == deliveries(history) + 1 && connections(history) == losses(history) + 1,
            ReactorState::Replying { lost } => messages(history) == deliveries(history) + 1
                && connections(history) == losses(history) + if lost {
                0nat
            } else {
                1
            },
            ReactorState::Failed => true,
        },
    decreases history.len(),
{
    if history.len() > 0 {
        lemma_possible_before(history);
        lemma_books_balance(history.drop_last());
    }
}

/// What a reactor waits for after an action: what the action brings about, one way or the other.
pub open spec fn brought_about(action: Action, event: Event) -> bool {
    match action {
        Action::Connect => event is Connected || event is ConnectFailed,
        Action::Handshake => event is HandshakeDone || event is HandshakeFailed,
        Action::Announce(_) => event is Announced || event is CollectorGone,
        Action::Receive => event is Message || event is Closed,
        Action::Send { .. } => event is Answered || event is NoAnswer,
        Action::Reply(_) => event is Delivered || event is VuGone,
        Action::Sleep(_) => event is Slept,
        Action::Wake => event is Delivered || event is VuGone,
        Action::Stop => false,
        Action::Fail(_) => false,
    }
}

/// After each action a reactor accepts exactly what the action brings about, and after it has
/// stopped or failed nothing more. This holds from the beginning on.
pub proof fn law_reactor_waits_for_what_it_does(
    host: String,
    begun: (Reactor, Action),
    reactor: &mut Reactor,
    event: Event,
    action: Action,
    next: Event,
    accepted_first: bool,
)
    requires
        call_ensures(Reactor::new, (host,), begun),
        call_ensures(Reactor::accepts, (&begun.0, &next), accepted_first),
        fits(old(reactor).state(), event),
        call_ensures(Reactor::step, (reactor, event), action),
    ensures
        accepted_first == brought_about(begun.1, next),
        begun.0.host() == host@,
        fits(final(reactor).state(), next) == brought_about(action, next),
        final(reactor).host() == old(reactor).host(),
{
}

/// A script learns of an answer by its status and without an error. Where no answer came, it
/// learns the reason, with the status zero. It is woken after exactly the time that it asked for,
/// and the reasons for which a virtual user cannot go on are passed on.
pub proof fn law_script_learns_what_happened(reactor: &mut Reactor, event: Event, action: Action)
    requires
        fits(old(reactor).state(), event),
        call_ensures(Reactor::step, (reactor, event), action),
    ensures
        match event {
            Event::Answered { status } => action matches Action::Reply(reply) && reply.status
                == status && reply.error is None,
            Event::NoAnswer(why) => action matches Action::Reply(reply) && reply.status == 0
                && reply.error == Some(why),
            Event::Message(RuntimeMsg::Sleep { duration }) => action matches Action::Sleep(d) && d@
                == duration@,
            Event::Slept => action is Wake,
            Event::Closed => action is Stop,
            Event::Connected => action is Handshake,
            Event::Announced => action is Receive,
            Event::HandshakeDone { now } => action matches Action::Announce(point) && {
                &&& point.metric@ == "wrk3.tcp_connections.d"@
                &&& point.timestamp@ == now@
                &&& metric::data_map(point.values).dom() =~= set!["value"@]
                &&& metric::data_map(point.values)["value"@] == metric::MetricView::Int(1)
            },
            Event::ConnectFailed { reason } => action matches Action::Fail(FatalError::Connect(why))
                && why@ == reason@,
            Event::HandshakeFailed { reason } => action matches Action::Fail(
                FatalError::Handshake(why),
            ) && why@ == reason@,
            Event::CollectorGone => action matches Action::Fail(FatalError::MetricsDisconnected),
            Event::VuGone => action matches Action::Fail(FatalError::VuDisconnected),
            _ => true,
        },
{
}

/// A request of a script is sent whole, to the host of the reactor and with its own timeout. It
/// fails only where the http crate does not take all of it, or where it has too many header fields.
pub proof fn law_script_request_is_sent_whole(
    reactor: &mut Reactor,
    request: Request,
    action: Action,
)
    requires
        fits(old(reactor).state(), Event::Message(RuntimeMsg::Request { request })),
        call_ensures(
            Reactor::step,
            (reactor, Event::Message(RuntimeMsg::Request { request })),
            action,
        ),
    ensures
        match action {
            Action::Send { request: sent, timeout } => {
                &&& http_request::is_whole_head(
                    old(reactor).host(),
                    request@,
                    http_request::request_head(sent.parts),
                )
                &&& match request.body {
                    Some(body) => sent.body@ == body@,
                    None => sent.body@.len() == 0,
                }
                &&& match request.timeout {
                    Some(t) => timeout matches Some(x) && x@ == t@,
                    None => timeout is None,
                }
            },
            Action::Fail(FatalError::RequestFormat(_)) => !(http_request::http_takes(
                old(reactor).host(),
                request@,
            ) && http_request::has_few_headers(request@)),
            _ => false,
        },
{
    let host = old(reactor).host();
    let fields = choose|fields: Seq<(Seq<char>, Seq<char>)>| #[trigger]
        http_request::lists_headers(fields, request@.headers) && (match action {
            Action::Send { request: sent, .. } => http_request::http_head(
                host,
                request@.method.wire_name(),
                request@.path,
                fields,
            ) == Some(http_request::request_head(sent.parts)),
            _ => fields.len() < http_request::SURE_ROOM ==> http_request::http_head(
                host,
                request@.method.wire_name(),
                request@.path,
                fields,
            ) is None,
        });
    assert(sends(host, request@, action));
    http_request::lemma_head_exists(host, request@, fields);
    if let Action::Send { request: sent, .. } = action {
        http_request::lemma_whole_head(
            host,
            request@,
            fields,
            http_request::request_head(sent.parts),
        );
    }
}

/// Once the script has been told that a request got no answer, a new connection is made, whatever
/// the reason; after an answer the connection is kept, and so it is after a sleep.
pub proof fn law_connection_after_a_reply(
    first: &mut Reactor,
    event: Event,
    reply: Action,
    second: &mut Reactor,
    action: Action,
)
    requires
        fits(old(first).state(), event),
        event is Answered || event is NoAnswer || event is Slept,
        call_ensures(Reactor::step, (first, event), reply),
        *old(second) == *final(first),
        call_ensures(Reactor::step, (second, Event::Delivered), action),
    ensures
        event is NoAnswer ==> action is Connect,
        event is Answered || event is Slept ==> action is Receive,
{
}

/// The end of a connection is reported as one, at its time.
pub proof fn law_disconnection_counts_one(now: LuaDt, point: DataPoint)
    requires
        call_ensures(disconnection, (now,), point),
    ensures
        point.metric@ == "wrk3.tcp_disconnections.d"@,
        point.timestamp@ == now@,
        metric::data_map(point.values).dom() =~= set!["value"@],
        metric::data_map(point.values)["value"@] == metric::MetricView::Int(1),
{
}

/// The error of a connection that cannot be made ends with the reason, and each other error has a
/// message of its own.
pub proof fn law_fatal_errors_tell_what_failed(e: FatalError, r: String)
    requires
        call_ensures(FatalError::message, (&e,), r),
    ensures
        match e {
            FatalError::Connect(reason) => r@ == "connection to server: "@ + reason@,
            FatalError::Handshake(_) => r@ == "http handshake"@,
            FatalError::RequestFormat(_) => r@ == "request formatting"@,
            FatalError::VuDisconnected => r@ == "vu worker stopped"@,
            FatalError::MetricsDisconnected => r@ == "metrics collector stopped"@,
        },
{
}

} // verus!
