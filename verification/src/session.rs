//! The broker's side of one connection: what a test puts at the far end,
//! and what the playground stands up in place of a broker.
//!
//! Not a broker. One session serves one client over one channel and keeps
//! its queues in memory: what is published is stored under the queue it
//! names, or delivered at once where the client consumes that queue, and
//! is handed up as a Stream either way; what is given is delivered to the
//! consumer or kept for one. No exchanges, no bindings, nothing on disk.
//! A Location that needs those talks to a broker through
//! [`crate::client::Client`].
//!
//! The session does no I/O. What it says, it returns as bytes to write;
//! what the client says is handed to [`Session::hear`] frame by frame until
//! something comes of it.

use vstd::prelude::*;
use vstd::slice::slice_to_vec;
use vstd::string::*;

use crate::arrived::{Arrived, ArrivedView};
use crate::client::{Login, LoginView};
use crate::content;
use crate::content::{content_frames, content_takes, Content, ContentView, Progress, ProgressView};
use crate::error::{protocol_error, refusal, seen, Error, ErrorView};
use crate::hearing::{Hears, Said};
use crate::method;
use crate::method::{
    bare_of, channel_open_ok_method, close_method, consume_in, consume_ok_method, declare_ok_method,
    deliver_method, delivery_tag_in, label_of, login_in, method_bytes, method_in, open_ok_method,
    publish_in, queue_in, sayable, start_method, tune_method, virtual_host_in, Id, Method,
    MethodView, BASIC_ACK, BASIC_CONSUME, BASIC_PUBLISH, CHANNEL_CLOSE, CHANNEL_CLOSE_OK,
    CHANNEL_OPEN, CONNECTION_CLOSE, CONNECTION_CLOSE_OK, CONNECTION_OPEN, CONNECTION_START_OK,
    CONNECTION_TUNE, CONNECTION_TUNE_OK, QUEUE_DECLARE,
};
use crate::queues::{bodies, held_under, Queues};
use crate::text::{decimal, decimal_of, same};
use crate::wire::{
    frames_bytes, heard_view, heartbeat, heartbeat_bytes, len32, len32_of, name_of, put_bytes,
    Frame, FrameView, Kind, MAX_FRAME, PROTOCOL_HEADER,
};

verus! {

/// What the client did, as [`Session::hear`] reports it.
#[derive(Clone, Debug, PartialEq, Eq)]
pub enum Event {
    /// The client published; here is the Stream.
    Published(Arrived),
    /// The client declared this queue.
    Declared(String),
    /// The client started consuming this queue.
    Consuming(String),
    /// The client acknowledged this delivery tag.
    Acked(u64),
}

/// An [`Event`] as contracts speak of it.
pub enum EventView {
    Published(ArrivedView),
    Declared(Seq<char>),
    Consuming(Seq<char>),
    Acked(u64),
}

impl View for Event {
    type V = EventView;

    open spec fn view(&self) -> EventView {
        match self {
            Event::Published(arrived) => EventView::Published(arrived@),
            Event::Declared(queue) => EventView::Declared(queue@),
            Event::Consuming(queue) => EventView::Consuming(queue@),
            Event::Acked(delivery_tag) => EventView::Acked(*delivery_tag),
        }
    }
}

/// What comes next for whoever drives a session.
#[derive(Debug, PartialEq, Eq)]
pub enum Outcome {
    /// Read the next frame and have the session hear it.
    Read,
    /// The handshake is done, and the client is who was expected.
    Accepted,
    /// The client did this.
    Happened(Event),
    /// The client closed.
    Gone,
    /// The client was refused, or said what is not served here.
    Failed(Error),
}

/// An [`Outcome`] as contracts speak of it.
pub enum OutcomeView {
    Read,
    Accepted,
    Happened(EventView),
    Gone,
    Failed(ErrorView),
}

impl View for Outcome {
    type V = OutcomeView;

    open spec fn view(&self) -> OutcomeView {
        match self {
            Outcome::Read => OutcomeView::Read,
            Outcome::Accepted => OutcomeView::Accepted,
            Outcome::Happened(event) => OutcomeView::Happened(event@),
            Outcome::Gone => OutcomeView::Gone,
            Outcome::Failed(error) => OutcomeView::Failed(error@),
        }
    }
}

/// What hearing a frame comes to: bytes to write first, then what is next.
/// A write that fails is the failure, whatever was next.
#[derive(Debug, PartialEq, Eq)]
pub struct Answer {
    pub write: Vec<u8>,
    pub next: Outcome,
}

/// An [`Answer`] as contracts speak of it.
pub type AnswerView = Said<OutcomeView>;

impl View for Answer {
    type V = AnswerView;

    open spec fn view(&self) -> AnswerView {
        AnswerView { write: self.write@, next: self.next@ }
    }
}

/// The one consumer a session serves: its tag, queue and channel.
struct Consumer {
    tag: String,
    queue: String,
    channel: u16,
}

/// The one consumer a session serves, as contracts speak of it.
pub struct ConsumerView {
    pub tag: Seq<char>,
    pub queue: Seq<char>,
    pub channel: u16,
}

/// How far a session has come with its client.
enum Stage {
    StartOk,
    TuneOk,
    Open,
    Serving,
    Content { queue: String, content: Content },
    Over,
}

/// How far a session has come with its client: connection.start-ok,
/// tune-ok or open awaited, the client served, the content of its publish
/// to a queue awaited, or the client refused.
pub enum StageView {
    StartOk,
    TuneOk,
    Open,
    Serving,
    Content { queue: Seq<char>, content: ContentView },
    Over,
}

/// One client and what is held for it.
pub struct Session {
    peer: String,
    port: u16,
    expected: Login,
    user: String,
    virtual_host: String,
    queues: Queues,
    consumer: Option<Consumer>,
    delivery_tag: u64,
    publishes_only: bool,
    stage: Stage,
}

/// A [`Session`] as contracts speak of it: the client's address and port,
/// the login that is expected of it, the user and virtual host it named,
/// what is held, who consumes, the last delivery tag given out, whether
/// only what is published is reported, and how far it has come.
pub struct SessionView {
    pub peer: Seq<char>,
    pub port: u16,
    pub expected: LoginView,
    pub user: Seq<char>,
    pub virtual_host: Seq<char>,
    pub queues: Map<Seq<char>, Seq<Seq<u8>>>,
    pub consumer: Option<ConsumerView>,
    pub delivery_tag: nat,
    pub publishes_only: bool,
    pub stage: StageView,
}

impl View for Session {
    type V = SessionView;

    closed spec fn view(&self) -> SessionView {
        SessionView {
            peer: self.peer@,
            port: self.port,
            expected: self.expected@,
            user: self.user@,
            virtual_host: self.virtual_host@,
            queues: self.queues@,
            consumer: match self.consumer {
                Some(consumer) => Some(
                    ConsumerView {
                        tag: consumer.tag@,
                        queue: consumer.queue@,
                        channel: consumer.channel,
                    },
                ),
                None => None,
            },
            delivery_tag: self.delivery_tag as nat,
            publishes_only: self.publishes_only,
            stage: match self.stage {
                Stage::StartOk => StageView::StartOk,
                Stage::TuneOk => StageView::TuneOk,
                Stage::Open => StageView::Open,
                Stage::Serving => StageView::Serving,
                Stage::Content { queue, content } => StageView::Content {
                    queue: queue@,
                    content: content@,
                },
                Stage::Over => StageView::Over,
            },
        }
    }
}

/// A session with a client that has just connected.
pub open spec fn accepted(peer: Seq<char>, port: u16, expected: LoginView) -> SessionView {
    SessionView {
        peer,
        port,
        expected,
        user: Seq::empty(),
        virtual_host: Seq::empty(),
        queues: Map::empty(),
        consumer: None,
        delivery_tag: 0,
        publishes_only: false,
        stage: StageView::StartOk,
    }
}

/// The same session at another stage.
pub open spec fn staged(session: SessionView, stage: StageView) -> SessionView {
    SessionView { stage, ..session }
}

/// The session says `write` and reads on.
pub open spec fn hears_on(session: SessionView, write: Seq<u8>) -> (SessionView, AnswerView) {
    (session, AnswerView { write, next: OutcomeView::Read })
}

/// What is said, and the failure it goes with.
pub open spec fn ends(session: SessionView, write: Seq<u8>, error: ErrorView) -> (
    SessionView,
    AnswerView,
) {
    (session, AnswerView { write, next: OutcomeView::Failed(error) })
}

/// The client opened with `header`: what is expected, answered with
/// connection.start, or something else, answered with the header that is.
pub open spec fn session_greets(session: SessionView, header: Seq<u8>) -> (
    SessionView,
    AnswerView,
) {
    if header == PROTOCOL_HEADER@ {
        hears_on(session, method_bytes(start_method(), 0))
    } else {
        ends(
            staged(session, StageView::Over),
            PROTOCOL_HEADER@,
            refusal("the client did not open with AMQP 0-9-1"@),
        )
    }
}

/// The method `id` that must come next, on channel 0, or why what came is
/// not it.
pub open spec fn expected_in(heard: Option<FrameView>, id: Id, what: Seq<char>) -> Result<
    MethodView,
    ErrorView,
> {
    match heard {
        None => Err(refusal("the client closed before "@ + what)),
        Some(frame) => if frame.kind == Kind::Method && frame.channel == 0 {
            match method_in(frame) {
                Err(error) => Err(error),
                Ok(method) => if method.id == id {
                    Ok(method)
                } else {
                    Err(
                        refusal(
                            "method "@ + label_of(method.id) + " where "@ + what
                                + " was expected"@,
                        ),
                    )
                },
            }
        } else {
            Err(
                refusal(
                    "a "@ + name_of(frame.kind) + " frame on channel "@ + decimal(
                        frame.channel as nat,
                    ) + " where "@ + what + " was expected"@,
                ),
            )
        },
    }
}

/// connection.close with `code`, and the refusal it is.
pub open spec fn refuses(session: SessionView, code: u16, text: Seq<char>) -> (
    SessionView,
    AnswerView,
) {
    ends(
        staged(session, StageView::Over),
        method_bytes(close_method(CONNECTION_CLOSE, code, text), 0),
        refusal("the client was refused: "@ + decimal(code as nat) + " "@ + text),
    )
}

/// connection.start-ok is awaited: the login it presents is the one that is
/// expected, or is refused with 403.
pub open spec fn session_checks_login(session: SessionView, heard: Option<FrameView>) -> (
    SessionView,
    AnswerView,
) {
    let over = staged(session, StageView::Over);
    match expected_in(heard, CONNECTION_START_OK, "connection.start-ok"@) {
        Err(error) => ends(over, Seq::empty(), error),
        Ok(start_ok) => match login_in(start_ok.arguments) {
            Err(error) => ends(over, Seq::empty(), error),
            Ok((user, password)) => if user != session.expected.user || password
                != session.expected.password {
                refuses(session, 403, "ACCESS_REFUSED - login was refused"@)
            } else {
                hears_on(
                    SessionView { user, stage: StageView::TuneOk, ..session },
                    method_bytes(tune_method(CONNECTION_TUNE, 1, MAX_FRAME as u32), 0),
                )
            },
        },
    }
}

/// connection.open is awaited: its virtual host is the one that is
/// expected, or is refused with 530.
pub open spec fn session_checks_host(session: SessionView, heard: Option<FrameView>) -> (
    SessionView,
    AnswerView,
) {
    let over = staged(session, StageView::Over);
    match expected_in(heard, CONNECTION_OPEN, "connection.open"@) {
        Err(error) => ends(over, Seq::empty(), error),
        Ok(open) => match virtual_host_in(open.arguments) {
            Err(error) => ends(over, Seq::empty(), error),
            Ok(virtual_host) => if virtual_host != session.expected.virtual_host {
                refuses(
                    SessionView { virtual_host, ..session },
                    530,
                    "NOT_ALLOWED - access to the virtual host was refused"@,
                )
            } else {
                (
                    SessionView { virtual_host, stage: StageView::Serving, ..session },
                    AnswerView {
                        write: method_bytes(open_ok_method(), 0),
                        next: OutcomeView::Accepted,
                    },
                )
            },
        },
    }
}

/// The client did this, which is reported unless only what is published is.
pub open spec fn happens(session: SessionView, write: Seq<u8>, event: EventView) -> (
    SessionView,
    AnswerView,
) {
    if session.publishes_only && event !is Published {
        hears_on(session, write)
    } else {
        (session, AnswerView { write, next: OutcomeView::Happened(event) })
    }
}

/// Whether the client consumes `queue`.
pub open spec fn consumes(session: SessionView, queue: Seq<char>) -> bool {
    session.consumer is Some && session.consumer->0.queue == queue
}

/// `body` given on `queue`: a basic.deliver under the next tag and the
/// content after it where the client consumes that queue, else kept at the
/// end of the queue and nothing said.
pub open spec fn session_delivers(session: SessionView, queue: Seq<char>, body: Seq<u8>) -> (
    SessionView,
    Seq<u8>,
) {
    if consumes(session, queue) {
        let consumer = session.consumer->0;
        let delivery_tag = session.delivery_tag + 1;
        (
            SessionView { delivery_tag, ..session },
            method_bytes(
                deliver_method(consumer.tag, delivery_tag as u64, Seq::empty(), queue),
                consumer.channel,
            ) + frames_bytes(content_frames(consumer.channel, body, MAX_FRAME as nat)),
        )
    } else {
        (
            SessionView {
                queues: session.queues.insert(
                    queue,
                    held_under(session.queues, queue).push(body),
                ),
                ..session
            },
            Seq::empty(),
        )
    }
}

/// Messages given on `queue` one after the other.
pub open spec fn session_delivers_all(
    session: SessionView,
    queue: Seq<char>,
    messages: Seq<Seq<u8>>,
) -> (SessionView, Seq<u8>)
    decreases messages.len(),
{
    if messages.len() == 0 {
        (session, Seq::empty())
    } else {
        let (after_first, first) = session_delivers(session, queue, messages[0]);
        let (after_all, others) = session_delivers_all(after_first, queue, messages.skip(1));
        (after_all, first + others)
    }
}

/// The tag a consumer goes by: the one it asks for, or one made of the
/// client's port.
pub open spec fn tag_for(session: SessionView, tag: Seq<char>) -> Seq<char> {
    if tag.len() == 0 {
        "xmip."@ + decimal(session.port as nat)
    } else {
        tag
    }
}

/// The queue a publish names: the routing key through the default exchange,
/// else the exchange and the routing key.
pub open spec fn queue_for(exchange: Seq<char>, routing_key: Seq<char>) -> Seq<char> {
    if exchange.len() == 0 {
        routing_key
    } else {
        exchange + "/"@ + routing_key
    }
}

/// queue.declare: answered with how many messages the queue holds.
pub open spec fn session_declares(session: SessionView, channel: u16, arguments: Seq<u8>) -> (
    SessionView,
    AnswerView,
) {
    match queue_in(arguments) {
        Err(error) => ends(session, Seq::empty(), error),
        Ok(queue) => {
            let held = len32_of(held_under(session.queues, queue).len());
            happens(
                session,
                method_bytes(declare_ok_method(queue, held as u32), channel),
                EventView::Declared(queue),
            )
        },
    }
}

/// basic.consume: answered, the client the one consumer from here on, and
/// what the queue held delivered to it in the order it came.
pub open spec fn session_consumes(session: SessionView, channel: u16, arguments: Seq<u8>) -> (
    SessionView,
    AnswerView,
) {
    match consume_in(arguments) {
        Err(error) => ends(session, Seq::empty(), error),
        Ok((queue, asked)) => {
            let tag = tag_for(session, asked);
            let consuming = SessionView {
                consumer: Some(ConsumerView { tag, queue, channel }),
                queues: session.queues.remove(queue),
                ..session
            };
            let (after, delivered) = session_delivers_all(
                consuming,
                queue,
                held_under(session.queues, queue),
            );
            happens(
                after,
                method_bytes(consume_ok_method(tag), channel) + delivered,
                EventView::Consuming(queue),
            )
        },
    }
}

/// The client said `method` on `channel` where it is served.
pub open spec fn session_serves(session: SessionView, channel: u16, method: MethodView) -> (
    SessionView,
    AnswerView,
) {
    if method.id == CHANNEL_OPEN {
        hears_on(session, method_bytes(channel_open_ok_method(), channel))
    } else if method.id == CHANNEL_CLOSE {
        hears_on(
            SessionView { consumer: None, ..session },
            method_bytes(bare_of(CHANNEL_CLOSE_OK), channel),
        )
    } else if method.id == QUEUE_DECLARE {
        session_declares(session, channel, method.arguments)
    } else if method.id == BASIC_CONSUME {
        session_consumes(session, channel, method.arguments)
    } else if method.id == BASIC_PUBLISH {
        match publish_in(method.arguments) {
            Err(error) => ends(session, Seq::empty(), error),
            Ok((exchange, routing_key)) => hears_on(
                staged(
                    session,
                    StageView::Content {
                        queue: queue_for(exchange, routing_key),
                        content: ContentView::Header,
                    },
                ),
                Seq::empty(),
            ),
        }
    } else if method.id == BASIC_ACK {
        match delivery_tag_in(method.arguments) {
            Err(error) => ends(session, Seq::empty(), error),
            Ok(delivery_tag) => happens(session, Seq::empty(), EventView::Acked(delivery_tag)),
        }
    } else if method.id == CONNECTION_CLOSE {
        (
            session,
            AnswerView {
                write: method_bytes(bare_of(CONNECTION_CLOSE_OK), 0),
                next: OutcomeView::Gone,
            },
        )
    } else {
        ends(
            session,
            method_bytes(close_method(CONNECTION_CLOSE, 540, "NOT_IMPLEMENTED"@), 0),
            refusal("method "@ + label_of(method.id) + " is not served here"@),
        )
    }
}

/// The next frame, or the client closing, where it is served: a heartbeat
/// is answered with one, and content has no publish before it.
pub open spec fn session_hears_frame(session: SessionView, heard: Option<FrameView>) -> (
    SessionView,
    AnswerView,
) {
    match heard {
        None => (session, AnswerView { write: Seq::empty(), next: OutcomeView::Gone }),
        Some(frame) => match frame.kind {
            Kind::Heartbeat => hears_on(session, heartbeat_bytes()),
            Kind::Header | Kind::Body => ends(
                session,
                Seq::empty(),
                refusal("content with no publish before it"@),
            ),
            Kind::Method => match method_in(frame) {
                Err(error) => ends(session, Seq::empty(), error),
                Ok(method) => session_serves(session, frame.channel, method),
            },
        },
    }
}

/// The next frame, or the client closing, where the content of a publish to
/// `queue` is awaited: once it is whole it is given on the queue, and is a
/// Stream from the client.
pub open spec fn session_hears_content(
    session: SessionView,
    queue: Seq<char>,
    content: ContentView,
    heard: Option<FrameView>,
) -> (SessionView, AnswerView) {
    let serving = staged(session, StageView::Serving);
    match content_takes(content, heard) {
        Err(error) => ends(serving, Seq::empty(), error),
        Ok(ProgressView::More(more)) => hears_on(
            staged(session, StageView::Content { queue, content: more }),
            Seq::empty(),
        ),
        Ok(ProgressView::Whole(body)) => {
            let (after, delivered) = session_delivers(serving, queue, body);
            let origin_uri = "rabbitmq://"@ + session.peer + "/"@ + queue;
            happens(
                after,
                delivered,
                EventView::Published(ArrivedView { origin_uri, bytes: body }),
            )
        },
    }
}

/// What the next frame, or the client closing, comes to. A session that is
/// over lets everything pass.
pub open spec fn session_hears(session: SessionView, heard: Option<FrameView>) -> (
    SessionView,
    AnswerView,
) {
    match session.stage {
        StageView::StartOk => session_checks_login(session, heard),
        StageView::TuneOk => match expected_in(heard, CONNECTION_TUNE_OK, "connection.tune-ok"@) {
            Err(error) => ends(staged(session, StageView::Over), Seq::empty(), error),
            Ok(_) => hears_on(staged(session, StageView::Open), Seq::empty()),
        },
        StageView::Open => session_checks_host(session, heard),
        StageView::Serving => session_hears_frame(session, heard),
        StageView::Content { queue, content } => session_hears_content(
            session,
            queue,
            content,
            heard,
        ),
        StageView::Over => hears_on(session, Seq::empty()),
    }
}

/// A session that waits for what the client does next, any of it or only
/// what it publishes: no longer for the content of a publish.
pub open spec fn awaited(session: SessionView, publishes_only: bool) -> SessionView {
    let stage = if session.stage is Content {
        StageView::Serving
    } else {
        session.stage
    };
    SessionView { publishes_only, stage, ..session }
}

impl Hears for SessionView {
    type Next = OutcomeView;

    open spec fn hears(self, heard: Option<FrameView>) -> (Self, Said<OutcomeView>) {
        session_hears(self, heard)
    }

    open spec fn reads_on() -> OutcomeView {
        OutcomeView::Read
    }

    open spec fn failed(error: ErrorView) -> OutcomeView {
        OutcomeView::Failed(error)
    }
}

/// Whether there is a delivery tag left for a message given on `queue`,
/// where it takes one.
pub open spec fn tag_left(session: SessionView, queue: Seq<char>) -> bool {
    consumes(session, queue) ==> session.delivery_tag < u64::MAX
}

/// Whether there are delivery tags left for what the next frame, or the
/// client closing, sets off.
pub open spec fn tags_last(session: SessionView, heard: Option<FrameView>) -> bool {
    session_hears(session, heard).0.delivery_tag <= u64::MAX
}

/// Delivering to a consumer spends a tag for each message and changes
/// nothing else; delivering to nobody changes what is held and nothing else.
pub(crate) proof fn lemma_delivering_keeps(
    session: SessionView,
    queue: Seq<char>,
    messages: Seq<Seq<u8>>,
)
    ensures
        ({
            let after = session_delivers_all(session, queue, messages).0;
            &&& after == (SessionView {
                queues: after.queues,
                delivery_tag: after.delivery_tag,
                ..session
            })
            &&& consumes(session, queue) ==> after.queues == session.queues
            &&& after.delivery_tag == if consumes(session, queue) {
                session.delivery_tag + messages.len()
            } else {
                session.delivery_tag
            }
        }),
    decreases messages.len(),
{
    if messages.len() > 0 {
        let after = session_delivers(session, queue, messages[0]).0;
        lemma_delivering_keeps(after, queue, messages.skip(1));
    }
}

/// basic.consume spends a tag for each message that its queue holds.
pub(crate) proof fn lemma_consuming_counts(session: SessionView, channel: u16, arguments: Seq<u8>)
    ensures
        session_consumes(session, channel, arguments).0.delivery_tag == session.delivery_tag + (
        match consume_in(arguments) {
            Ok((queue, _)) => held_under(session.queues, queue).len(),
            Err(_) => 0,
        }),
{
    if let Ok((queue, asked)) = consume_in(arguments) {
        let tag = tag_for(session, asked);
        let consuming = SessionView {
            consumer: Some(ConsumerView { tag, queue, channel }),
            queues: session.queues.remove(queue),
            ..session
        };
        lemma_delivering_keeps(consuming, queue, held_under(session.queues, queue));
    }
}

/// An answer with nothing to write.
fn quietly(next: Outcome) -> (answer: Answer)
    ensures
        answer@ == (AnswerView { write: Seq::empty(), next: next@ }),
{
    Answer { write: Vec::new(), next }
}

/// An answer that says `method` on `channel`.
fn saying(channel: u16, method: &Method, next: Outcome) -> (answer: Answer)
    requires
        sayable(method@),
    ensures
        answer@ == (AnswerView { write: method_bytes(method@, channel), next: next@ }),
{
    Answer { write: method.encode(channel), next }
}

/// The method that must come next, on channel 0.
///
/// # Errors
/// Another method, another frame, or a client that closed.
fn expect(heard: Option<Frame>, id: Id, what: &str) -> (result: Result<Method, Error>)
    ensures
        seen(result) == expected_in(heard_view(heard), id, what@),
{
    match heard {
        Some(frame) if frame.kind == Kind::Method && frame.channel == 0 => {
            let method = Method::of(&frame)?;
            if method.is(id) {
                return Ok(method);
            }
            let mut message = "method ".to_owned();
            message.append(method.label().as_str());
            message.append(" where ");
            message.append(what);
            message.append(" was expected");
            Err(protocol_error(message))
        },
        Some(frame) => {
            let mut message = "a ".to_owned();
            message.append(frame.kind.name());
            message.append(" frame on channel ");
            message.append(decimal_of(frame.channel as u64).as_str());
            message.append(" where ");
            message.append(what);
            message.append(" was expected");
            Err(protocol_error(message))
        },
        None => {
            let mut message = "the client closed before ".to_owned();
            message.append(what);
            Err(protocol_error(message))
        },
    }
}

/// Whether `header` is the protocol header a connection opens with.
fn opens_with_amqp(header: &[u8; 8]) -> (result: bool)
    ensures
        result == (header@ == PROTOCOL_HEADER@),
{
    let mut at: usize = 0;
    while at < 8
        invariant
            at <= 8,
            forall|i: int| 0 <= i < at ==> header@[i] == PROTOCOL_HEADER@[i],
        decreases 8 - at,
    {
        if header[at] != PROTOCOL_HEADER[at] {
            return false;
        }
        at = at + 1;
    }
    assert(header@ =~= PROTOCOL_HEADER@);
    true
}

impl Session {
    /// Accept a client that connected from `peer`, `port` being the port in
    /// that address, and opened with `header`: the session, and what comes
    /// of the header. The handshake goes on as the session hears the
    /// client, closing with 403 where its login is not `expected` and 530
    /// where its virtual host is not.
    pub fn accept(peer: &str, port: u16, expected: &Login, header: &[u8; 8]) -> (started: (
        Self,
        Answer,
    ))
        ensures
            (started.0@, started.1@) == session_greets(
                accepted(peer@, port, expected@),
                header@,
            ),
    {
        let mut session = Session {
            peer: peer.to_owned(),
            port,
            expected: expected.clone(),
            user: String::new(),
            virtual_host: String::new(),
            queues: Queues::new(),
            consumer: None,
            delivery_tag: 0,
            publishes_only: false,
            stage: Stage::StartOk,
        };
        if !opens_with_amqp(header) {
            session.stage = Stage::Over;
            let known: [u8; 8] = PROTOCOL_HEADER;
            let mut write: Vec<u8> = Vec::new();
            put_bytes(&mut write, known.as_slice());
            assert(write@ =~= PROTOCOL_HEADER@);
            let error = protocol_error("the client did not open with AMQP 0-9-1".to_owned());
            return (session, Answer { write, next: Outcome::Failed(error) });
        }
        (session, saying(0, &method::connection_start(), Outcome::Read))
    }

    /// Hold these queues, the way one session hands its state to the next.
    pub fn with_queues(self, queues: Queues) -> (session: Self)
        ensures
            session@ == (SessionView { queues: queues@, ..self@ }),
    {
        let mut session = self;
        session.queues = queues;
        session
    }

    /// Who connected, as the PLAIN response named them.
    pub fn user(&self) -> (user: &str)
        ensures
            user@ == self@.user,
    {
        self.user.as_str()
    }

    /// The virtual host the client opened.
    pub fn virtual_host(&self) -> (virtual_host: &str)
        ensures
            virtual_host@ == self@.virtual_host,
    {
        self.virtual_host.as_str()
    }

    /// What is queued and not yet delivered.
    pub fn queues(&self) -> (queues: &Queues)
        ensures
            queues@ == self@.queues,
    {
        &self.queues
    }

    /// The queues, for the next session to carry on with.
    pub fn into_queues(self) -> (queues: Queues)
        ensures
            queues@ == self@.queues,
    {
        self.queues
    }

    /// Whether there is a delivery tag left for a message given on `queue`,
    /// where it takes one.
    pub fn tag_left(&self, queue: &str) -> (result: bool)
        ensures
            result == tag_left(self@, queue@),
    {
        match &self.consumer {
            Some(consumer) => !same(consumer.queue.as_str(), queue) || self.delivery_tag
                < u64::MAX,
            None => true,
        }
    }

    /// Whether there are delivery tags left for what the next frame, or
    /// `None` where the client closed, sets off.
    pub fn tags_last(&self, heard: &Option<Frame>) -> (result: bool)
        ensures
            result == tags_last(self@, heard_view(*heard)),
    {
        match &self.stage {
            Stage::Content { queue, content } => !content.completes(heard) || self.tag_left(
                queue.as_str(),
            ),
            Stage::Serving => match heard {
                Some(frame) => match Method::of(frame) {
                    Ok(method) => !method.is(BASIC_CONSUME) || self.tags_last_for(
                        frame.channel,
                        &method,
                    ),
                    Err(_) => true,
                },
                None => true,
            },
            _ => true,
        }
    }

    /// Whether there are delivery tags left for what a basic.consume is given.
    fn tags_last_for(&self, channel: u16, method: &Method) -> (result: bool)
        ensures
            result == (session_consumes(self@, channel, method@.arguments).0.delivery_tag
                <= u64::MAX),
    {
        match method::consume_of(method) {
            Ok((queue, _)) => {
                let held: usize = match self.queues.get(queue.as_str()) {
                    Some(messages) => messages.len(),
                    None => 0,
                };
                proof {
                    lemma_consuming_counts(self@, channel, method@.arguments);
                    assert(held == held_under(self@.queues, queue@).len());
                }
                held as u64 <= u64::MAX - self.delivery_tag
            },
            Err(_) => true,
        }
    }

    /// Wait for the next thing the client does, or for it to close. What
    /// there was of a content is forgotten.
    pub fn next_event(&mut self)
        ensures
            final(self)@ == awaited(old(self)@, false),
    {
        self.publishes_only = false;
        if matches!(self.stage, Stage::Content { .. }) {
            self.stage = Stage::Serving;
        }
    }

    /// Wait for the next message the client publishes, or for it to close.
    /// Channels, declarations, consumers and acks are answered on the way.
    pub fn next_publish(&mut self)
        ensures
            final(self)@ == awaited(old(self)@, true),
    {
        self.publishes_only = true;
        if matches!(self.stage, Stage::Content { .. }) {
            self.stage = Stage::Serving;
        }
    }

    /// Hear the next frame, or `None` where the client closed. There must be
    /// delivery tags left for what it sets off, which [`Session::tags_last`]
    /// tells.
    pub fn hear(&mut self, heard: Option<Frame>) -> (answer: Answer)
        requires
            tags_last(old(self)@, heard_view(heard)),
        ensures
            (final(self)@, answer@) == session_hears(old(self)@, heard_view(heard)),
    {
        let mut stage = Stage::Over;
        std::mem::swap(&mut stage, &mut self.stage);
        match stage {
            Stage::StartOk => self.check_login(heard),
            Stage::TuneOk => match expect(heard, CONNECTION_TUNE_OK, "connection.tune-ok") {
                Err(error) => quietly(Outcome::Failed(error)),
                Ok(_) => {
                    self.stage = Stage::Open;
                    quietly(Outcome::Read)
                },
            },
            Stage::Open => self.check_host(heard),
            Stage::Serving => {
                self.stage = Stage::Serving;
                self.serve(heard)
            },
            Stage::Content { queue, content } => {
                self.stage = Stage::Serving;
                assert(self@.queues == old(self)@.queues);
                self.hear_content(queue, content, heard)
            },
            Stage::Over => quietly(Outcome::Read),
        }
    }

    /// connection.close with `code`, and the refusal it is.
    fn refuse(&self, code: u16, text: &str) -> (answer: Answer)
        ensures
            (staged(self@, StageView::Over), answer@) == refuses(self@, code, text@),
    {
        let mut message = "the client was refused: ".to_owned();
        message.append(decimal_of(code as u64).as_str());
        message.append(" ");
        message.append(text);
        let close = method::close(CONNECTION_CLOSE, code, text);
        saying(0, &close, Outcome::Failed(protocol_error(message)))
    }

    /// connection.start-ok, from the one whose login is expected.
    fn check_login(&mut self, heard: Option<Frame>) -> (answer: Answer)
        requires
            old(self)@.stage is Over,
        ensures
            (final(self)@, answer@) == session_checks_login(
                staged(old(self)@, StageView::StartOk),
                heard_view(heard),
            ),
    {
        let start_ok = match expect(heard, CONNECTION_START_OK, "connection.start-ok") {
            Err(error) => {
                return quietly(Outcome::Failed(error));
            },
            Ok(start_ok) => start_ok,
        };
        match method::login_of(&start_ok) {
            Err(error) => quietly(Outcome::Failed(error)),
            Ok((user, password)) => {
                if !same(user.as_str(), self.expected.user.as_str()) || !same(
                    password.as_str(),
                    self.expected.password.as_str(),
                ) {
                    return self.refuse(403, "ACCESS_REFUSED - login was refused");
                }
                self.user = user;
                self.stage = Stage::TuneOk;
                let tune = method::tune(CONNECTION_TUNE, 1, len32(MAX_FRAME));
                saying(0, &tune, Outcome::Read)
            },
        }
    }

    /// connection.open, on the virtual host that is expected.
    fn check_host(&mut self, heard: Option<Frame>) -> (answer: Answer)
        requires
            old(self)@.stage is Over,
        ensures
            (final(self)@, answer@) == session_checks_host(
                staged(old(self)@, StageView::Open),
                heard_view(heard),
            ),
    {
        let open = match expect(heard, CONNECTION_OPEN, "connection.open") {
            Err(error) => {
                return quietly(Outcome::Failed(error));
            },
            Ok(open) => open,
        };
        match method::virtual_host_of(&open) {
            Err(error) => quietly(Outcome::Failed(error)),
            Ok(virtual_host) => {
                self.virtual_host = virtual_host;
                if !same(self.virtual_host.as_str(), self.expected.virtual_host.as_str()) {
                    return self.refuse(
                        530,
                        "NOT_ALLOWED - access to the virtual host was refused",
                    );
                }
                self.stage = Stage::Serving;
                saying(0, &method::connection_open_ok(), Outcome::Accepted)
            },
        }
    }

    /// What the client did, unless only what is published is reported.
    fn happened(&self, write: Vec<u8>, event: Event) -> (answer: Answer)
        ensures
            (self@, answer@) == happens(self@, write@, event@),
    {
        if self.publishes_only && !matches!(event, Event::Published(_)) {
            Answer { write, next: Outcome::Read }
        } else {
            Answer { write, next: Outcome::Happened(event) }
        }
    }

    /// The next frame where the client is served.
    fn serve(&mut self, heard: Option<Frame>) -> (answer: Answer)
        requires
            session_hears_frame(old(self)@, heard_view(heard)).0.delivery_tag <= u64::MAX,
            old(self)@.stage is Serving,
        ensures
            (final(self)@, answer@) == session_hears_frame(old(self)@, heard_view(heard)),
    {
        let frame = match heard {
            None => {
                return quietly(Outcome::Gone);
            },
            Some(frame) => frame,
        };
        match frame.kind {
            Kind::Heartbeat => Answer { write: heartbeat(), next: Outcome::Read },
            Kind::Header | Kind::Body => {
                let error = protocol_error("content with no publish before it".to_owned());
                quietly(Outcome::Failed(error))
            },
            Kind::Method => match Method::of(&frame) {
                Err(error) => quietly(Outcome::Failed(error)),
                Ok(method) => self.serve_method(frame.channel, &method),
            },
        }
    }

    /// A method where the client is served.
    fn serve_method(&mut self, channel: u16, method: &Method) -> (answer: Answer)
        requires
            session_serves(old(self)@, channel, method@).0.delivery_tag <= u64::MAX,
            old(self)@.stage is Serving,
        ensures
            (final(self)@, answer@) == session_serves(old(self)@, channel, method@),
    {
        match method.id {
            CHANNEL_OPEN => saying(channel, &method::channel_open_ok(), Outcome::Read),
            CHANNEL_CLOSE => {
                self.consumer = None;
                saying(channel, &Method::bare(CHANNEL_CLOSE_OK), Outcome::Read)
            },
            QUEUE_DECLARE => self.declare(channel, method),
            BASIC_CONSUME => self.consume(channel, method),
            BASIC_PUBLISH => match method::publish_of(method) {
                Err(error) => quietly(Outcome::Failed(error)),
                Ok((exchange, routing_key)) => {
                    let queue = if exchange.as_str().is_empty() {
                        routing_key
                    } else {
                        let mut queue = exchange;
                        queue.append("/");
                        queue.append(routing_key.as_str());
                        queue
                    };
                    self.stage = Stage::Content { queue, content: Content::Header };
                    quietly(Outcome::Read)
                },
            },
            BASIC_ACK => match method::delivery_tag_of(method) {
                Err(error) => quietly(Outcome::Failed(error)),
                Ok(delivery_tag) => self.happened(Vec::new(), Event::Acked(delivery_tag)),
            },
            CONNECTION_CLOSE => saying(0, &Method::bare(CONNECTION_CLOSE_OK), Outcome::Gone),
            _ => {
                let mut message = "method ".to_owned();
                message.append(method.label().as_str());
                message.append(" is not served here");
                let close = method::close(CONNECTION_CLOSE, 540, "NOT_IMPLEMENTED");
                saying(0, &close, Outcome::Failed(protocol_error(message)))
            },
        }
    }

    /// queue.declare, answered.
    fn declare(&self, channel: u16, method: &Method) -> (answer: Answer)
        ensures
            (self@, answer@) == session_declares(self@, channel, method@.arguments),
    {
        match method::queue_of(method) {
            Err(error) => quietly(Outcome::Failed(error)),
            Ok(queue) => {
                let held: usize = match self.queues.get(queue.as_str()) {
                    Some(messages) => messages.len(),
                    None => 0,
                };
                let write = method::queue_declare_ok(queue.as_str(), len32(held)).encode(channel);
                self.happened(write, Event::Declared(queue))
            },
        }
    }

    /// basic.consume, answered, and what the queue held delivered.
    fn consume(&mut self, channel: u16, method: &Method) -> (answer: Answer)
        requires
            session_consumes(old(self)@, channel, method@.arguments).0.delivery_tag <= u64::MAX,
        ensures
            (final(self)@, answer@) == session_consumes(old(self)@, channel, method@.arguments),
    {
        let (queue, asked) = match method::consume_of(method) {
            Err(error) => {
                return quietly(Outcome::Failed(error));
            },
            Ok(named) => named,
        };
        let tag = if asked.as_str().is_empty() {
            let mut tag = "xmip.".to_owned();
            tag.append(decimal_of(self.port as u64).as_str());
            tag
        } else {
            asked
        };
        let mut write = method::basic_consume_ok(tag.as_str()).encode(channel);
        self.consumer = Some(Consumer { tag, queue: queue.as_str().to_owned(), channel });
        let messages = match self.queues.remove(queue.as_str()) {
            Some(messages) => messages,
            None => Vec::new(),
        };
        proof {
            lemma_consuming_counts(old(self)@, channel, method@.arguments);
        }
        let ghost held = bodies(messages@);
        let ghost consuming = self@;
        let ghost confirmed = write@;
        let ghost all = session_delivers_all(consuming, queue@, held);
        assert(held =~= held_under(old(self)@.queues, queue@));
        assert(held.skip(0) =~= held);
        let mut at: usize = 0;
        while at < messages.len()
            invariant
                at <= messages@.len(),
                held == bodies(messages@),
                consuming.delivery_tag + held.len() <= u64::MAX,
                consumes(consuming, queue@),
                self@ == (SessionView {
                    delivery_tag: consuming.delivery_tag + at as nat,
                    ..consuming
                }),
                all.0 == session_delivers_all(self@, queue@, held.skip(at as int)).0,
                confirmed + all.1 == write@ + session_delivers_all(
                    self@,
                    queue@,
                    held.skip(at as int),
                ).1,
            decreases messages@.len() - at,
        {
            let ghost said = write@;
            let ghost left = held.skip(at as int);
            let ghost others = session_delivers_all(
                session_delivers(self@, queue@, left[0]).0,
                queue@,
                left.skip(1),
            );
            let delivered = self.deliver(queue.as_str(), messages[at].as_slice());
            put_bytes(&mut write, delivered.as_slice());
            at = at + 1;
            proof {
                assert(left.skip(1) =~= held.skip(at as int));
                assert(said + (delivered@ + others.1) =~= write@ + others.1);
            }
        }
        assert(write@ + Seq::<u8>::empty() =~= write@);
        self.happened(write, Event::Consuming(queue))
    }

    /// The next frame of the content of a publish to `queue`.
    fn hear_content(&mut self, queue: String, content: Content, heard: Option<Frame>) -> (answer:
        Answer)
        requires
            session_hears_content(
                old(self)@,
                queue@,
                content@,
                heard_view(heard),
            ).0.delivery_tag <= u64::MAX,
            old(self)@.stage is Serving,
        ensures
            (final(self)@, answer@) == session_hears_content(
                old(self)@,
                queue@,
                content@,
                heard_view(heard),
            ),
    {
        match content.take(heard) {
            Err(error) => quietly(Outcome::Failed(error)),
            Ok(Progress::More(content)) => {
                self.stage = Stage::Content { queue, content };
                quietly(Outcome::Read)
            },
            Ok(Progress::Whole(body)) => {
                let write = self.deliver(queue.as_str(), body.as_slice());
                let mut origin = "rabbitmq://".to_owned();
                origin.append(self.peer.as_str());
                origin.append("/");
                origin.append(queue.as_str());
                self.happened(write, Event::Published(Arrived::new(origin, body)))
            },
        }
    }

    /// Deliver `body` on `queue`: as a basic.deliver where the client
    /// consumes that queue, else into the queue for when it does. The bytes
    /// to write. There must be a delivery tag left where it takes one, which
    /// [`Session::tag_left`] tells.
    pub fn deliver(&mut self, queue: &str, body: &[u8]) -> (write: Vec<u8>)
        requires
            tag_left(old(self)@, queue@),
        ensures
            (final(self)@, write@) == session_delivers(old(self)@, queue@, body@),
    {
        if let Some(consumer) = &self.consumer {
            if same(consumer.queue.as_str(), queue) {
                let delivery_tag: u64 = self.delivery_tag + 1;
                let no_exchange = String::new();
                let deliver = method::basic_deliver(
                    consumer.tag.as_str(),
                    delivery_tag,
                    no_exchange.as_str(),
                    queue,
                );
                let mut write = deliver.encode(consumer.channel);
                let content = content::encode(consumer.channel, body, MAX_FRAME);
                put_bytes(&mut write, content.as_slice());
                self.delivery_tag = delivery_tag;
                return write;
            }
        }
        self.queues.push(queue, slice_to_vec(body));
        Vec::new()
    }
}

} // verus!
