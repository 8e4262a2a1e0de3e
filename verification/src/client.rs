//! The client's side of one connection to a broker: the handshake with
//! PLAIN, one channel, declare, publish, consume, deliver, acknowledge.
//!
//! A queue is what a client speaks about. Publishing goes through the
//! default exchange under the queue's own name, which is how `RabbitMQ`
//! routes straight to a queue; the queue is declared durable before
//! anything is published to it, because the default exchange drops what
//! it cannot route and says nothing.
//!
//! The client does no I/O. What it says, it returns as bytes to write;
//! what the broker says is handed to [`Client::hear`] frame by frame until
//! something comes of it.

use vstd::prelude::*;
use vstd::string::*;

use crate::arrived::{Arrived, ArrivedView};
use crate::content;
use crate::content::{content_frames, content_takes, Content, ContentView, Progress, ProgressView};
use crate::error::{protocol_error, refusal, Error, ErrorView};
use crate::hearing::{Hears, Said};
use crate::method;
use crate::method::{
    ack_method, bare_of, channel_open_method, close_in, close_method, consume_method,
    declare_method, declare_ok_in, deliver_in, frameable, method_bytes, method_in, open_method,
    publish_method, sayable, start_ok_method, tag_in, tune_in, tune_method, Id, Method, MethodView,
    BASIC_CONSUME_OK, BASIC_DELIVER, CHANNEL_CLOSE, CHANNEL_CLOSE_OK, CHANNEL_OPEN_OK,
    CONNECTION_CLOSE, CONNECTION_CLOSE_OK, CONNECTION_OPEN_OK, CONNECTION_START, CONNECTION_TUNE,
    CONNECTION_TUNE_OK, QUEUE_DECLARE_OK,
};
use crate::text::{decimal, decimal_of};
use crate::wire::{
    frames_bytes, heard_view, heartbeat, heartbeat_bytes, len32, put_bytes, Frame, FrameView, Kind,
    MAX_FRAME, PROTOCOL_HEADER,
};

verus! {

/// What a Location presents when it connects.
#[derive(Debug, PartialEq, Eq)]
pub struct Login {
    pub user: String,
    pub password: String,
    pub virtual_host: String,
}

/// A [`Login`] as contracts speak of it.
pub struct LoginView {
    pub user: Seq<char>,
    pub password: Seq<char>,
    pub virtual_host: Seq<char>,
}

impl View for Login {
    type V = LoginView;

    open spec fn view(&self) -> LoginView {
        LoginView {
            user: self.user@,
            password: self.password@,
            virtual_host: self.virtual_host@,
        }
    }
}

impl Clone for Login {
    fn clone(&self) -> (login: Self)
        ensures
            login@ == self@,
    {
        Login {
            user: self.user.as_str().to_owned(),
            password: self.password.as_str().to_owned(),
            virtual_host: self.virtual_host.as_str().to_owned(),
        }
    }
}

impl Login {
    /// `user` and `password` on the default virtual host `/`.
    pub fn new(user: &str, password: &str) -> (login: Self)
        ensures
            login@ == (LoginView { user: user@, password: password@, virtual_host: "/"@ }),
    {
        Login {
            user: user.to_owned(),
            password: password.to_owned(),
            virtual_host: "/".to_owned(),
        }
    }

    /// The same login on `virtual_host`.
    pub fn on(self, virtual_host: &str) -> (login: Self)
        ensures
            login@ == (LoginView { virtual_host: virtual_host@, ..self@ }),
    {
        Login { user: self.user, password: self.password, virtual_host: virtual_host.to_owned() }
    }
}

/// What a fresh broker accepts from the local machine.
pub open spec fn guest() -> LoginView {
    LoginView { user: "guest"@, password: "guest"@, virtual_host: "/"@ }
}

impl Default for Login {
    /// What a fresh broker accepts from the local machine.
    fn default() -> (login: Self)
        ensures
            login@ == guest(),
    {
        Login::new("guest", "guest")
    }
}

/// One basic.deliver as the broker sent it: the Stream, and the tag to
/// acknowledge it by.
#[derive(Clone, Debug, PartialEq, Eq)]
pub struct Delivery {
    pub arrived: Arrived,
    pub delivery_tag: u64,
}

/// A [`Delivery`] as contracts speak of it.
pub struct DeliveryView {
    pub arrived: ArrivedView,
    pub delivery_tag: u64,
}

impl View for Delivery {
    type V = DeliveryView;

    open spec fn view(&self) -> DeliveryView {
        DeliveryView { arrived: self.arrived@, delivery_tag: self.delivery_tag }
    }
}

/// What a client waits for.
#[derive(Debug)]
pub enum Waiting {
    /// Nothing: what it hears passes by.
    Idle,
    Start,
    Tune,
    OpenOk,
    ChannelOpenOk,
    DeclareOk,
    ConsumeOk { queue: String },
    /// A basic.deliver.
    Delivery,
    /// The content that follows a basic.deliver.
    Content { delivery_tag: u64, routing_key: String, content: Content },
    ChannelCloseOk,
    ConnectionCloseOk,
}

/// A [`Waiting`] as contracts speak of it.
pub enum WaitingView {
    Idle,
    Start,
    Tune,
    OpenOk,
    ChannelOpenOk,
    DeclareOk,
    ConsumeOk { queue: Seq<char> },
    Delivery,
    Content { delivery_tag: u64, routing_key: Seq<char>, content: ContentView },
    ChannelCloseOk,
    ConnectionCloseOk,
}

impl View for Waiting {
    type V = WaitingView;

    open spec fn view(&self) -> WaitingView {
        match self {
            Waiting::Idle => WaitingView::Idle,
            Waiting::Start => WaitingView::Start,
            Waiting::Tune => WaitingView::Tune,
            Waiting::OpenOk => WaitingView::OpenOk,
            Waiting::ChannelOpenOk => WaitingView::ChannelOpenOk,
            Waiting::DeclareOk => WaitingView::DeclareOk,
            Waiting::ConsumeOk { queue } => WaitingView::ConsumeOk { queue: queue@ },
            Waiting::Delivery => WaitingView::Delivery,
            Waiting::Content { delivery_tag, routing_key, content } => WaitingView::Content {
                delivery_tag: *delivery_tag,
                routing_key: routing_key@,
                content: content@,
            },
            Waiting::ChannelCloseOk => WaitingView::ChannelCloseOk,
            Waiting::ConnectionCloseOk => WaitingView::ConnectionCloseOk,
        }
    }
}

/// The method a client waits for, the channel it must come on, and what a
/// diagnostic calls it; nothing where it waits for none.
pub open spec fn awaited(waiting: WaitingView) -> Option<(u16, Id, Seq<char>)> {
    match waiting {
        WaitingView::Idle | WaitingView::Content { .. } | WaitingView::Delivery => None,
        WaitingView::Start => Some((0, CONNECTION_START, "connection.start"@)),
        WaitingView::Tune => Some((0, CONNECTION_TUNE, "connection.tune"@)),
        WaitingView::OpenOk => Some((0, CONNECTION_OPEN_OK, "connection.open-ok"@)),
        WaitingView::ChannelOpenOk => Some((1, CHANNEL_OPEN_OK, "channel.open-ok"@)),
        WaitingView::DeclareOk => Some((1, QUEUE_DECLARE_OK, "queue.declare-ok"@)),
        WaitingView::ConsumeOk { .. } => Some((1, BASIC_CONSUME_OK, "basic.consume-ok"@)),
        WaitingView::ChannelCloseOk => Some((1, CHANNEL_CLOSE_OK, "channel.close-ok"@)),
        WaitingView::ConnectionCloseOk => Some((0, CONNECTION_CLOSE_OK, "connection.close-ok"@)),
    }
}

/// What a diagnostic calls what a client waits for.
pub open spec fn called(waiting: WaitingView) -> Seq<char> {
    match awaited(waiting) {
        Some((_, _, what)) => what,
        None => "a delivery"@,
    }
}

impl Waiting {
    /// The method that is waited for, its channel, and what a diagnostic
    /// calls it.
    fn method(&self) -> (method: Option<(u16, Id, &'static str)>)
        ensures
            match awaited(self@) {
                Some((channel, id, what)) => method matches Some(found) && found.0 == channel
                    && found.1 == id && found.2@ == what,
                None => method is None,
            },
    {
        match self {
            Waiting::Idle | Waiting::Content { .. } | Waiting::Delivery => None,
            Waiting::Start => Some((0, CONNECTION_START, "connection.start")),
            Waiting::Tune => Some((0, CONNECTION_TUNE, "connection.tune")),
            Waiting::OpenOk => Some((0, CONNECTION_OPEN_OK, "connection.open-ok")),
            Waiting::ChannelOpenOk => Some((1, CHANNEL_OPEN_OK, "channel.open-ok")),
            Waiting::DeclareOk => Some((1, QUEUE_DECLARE_OK, "queue.declare-ok")),
            Waiting::ConsumeOk { .. } => Some((1, BASIC_CONSUME_OK, "basic.consume-ok")),
            Waiting::ChannelCloseOk => Some((1, CHANNEL_CLOSE_OK, "channel.close-ok")),
            Waiting::ConnectionCloseOk => Some((0, CONNECTION_CLOSE_OK, "connection.close-ok")),
        }
    }

    /// What a diagnostic calls what is waited for.
    fn what(&self) -> (what: &'static str)
        ensures
            what@ == called(self@),
    {
        match self.method() {
            Some((_, _, what)) => what,
            None => "a delivery",
        }
    }
}

/// What comes next for whoever drives a client.
#[derive(Debug, PartialEq, Eq)]
pub enum Next {
    /// Read the next frame and have the client hear it.
    Read,
    /// The handshake is done and channel 1 is open.
    Connected,
    /// The queue is declared and holds this many messages.
    Declared(u32),
    /// The queue is consumed under this consumer tag.
    Consuming(String),
    /// A delivery came.
    Delivered(Delivery),
    /// The broker closed where a delivery was awaited.
    Ended,
    /// The channel and the connection are closed, each answered.
    Closed,
    /// What was asked for failed.
    Failed(Error),
}

/// A [`Next`] as contracts speak of it.
pub enum NextView {
    Read,
    Connected,
    Declared(u32),
    Consuming(Seq<char>),
    Delivered(DeliveryView),
    Ended,
    Closed,
    Failed(ErrorView),
}

impl View for Next {
    type V = NextView;

    open spec fn view(&self) -> NextView {
        match self {
            Next::Read => NextView::Read,
            Next::Connected => NextView::Connected,
            Next::Declared(messages) => NextView::Declared(*messages),
            Next::Consuming(tag) => NextView::Consuming(tag@),
            Next::Delivered(delivery) => NextView::Delivered(delivery@),
            Next::Ended => NextView::Ended,
            Next::Closed => NextView::Closed,
            Next::Failed(error) => NextView::Failed(error@),
        }
    }
}

/// What hearing a frame comes to: bytes to write first, then what is next.
/// Where the client ended or failed, the bytes answer a broker that is
/// closing, and a write that fails there changes nothing.
#[derive(Debug, PartialEq, Eq)]
pub struct Step {
    pub write: Vec<u8>,
    pub next: Next,
}

/// A [`Step`] as contracts speak of it.
pub type StepView = Said<NextView>;

impl View for Step {
    type V = StepView;

    open spec fn view(&self) -> StepView {
        StepView { write: self.write@, next: self.next@ }
    }
}

/// One open connection with channel 1 open on it, or on the way there.
pub struct Client {
    broker: String,
    login: Login,
    frame_max: usize,
    queue: Option<String>,
    waiting: Waiting,
}

/// A [`Client`] as contracts speak of it.
pub struct ClientView {
    pub broker: Seq<char>,
    pub login: LoginView,
    pub frame_max: nat,
    pub queue: Option<Seq<char>>,
    pub waiting: WaitingView,
}

impl View for Client {
    type V = ClientView;

    closed spec fn view(&self) -> ClientView {
        ClientView {
            broker: self.broker@,
            login: self.login@,
            frame_max: self.frame_max as nat,
            queue: match self.queue {
                Some(queue) => Some(queue@),
                None => None,
            },
            waiting: self.waiting@,
        }
    }
}

/// Whether a client's frame size is one that peers read: at most the limit,
/// and not nothing.
pub open spec fn framed(client: ClientView) -> bool {
    0 < client.frame_max <= MAX_FRAME
}

/// A client that has said the protocol header and waits for
/// connection.start.
pub open spec fn connecting(broker: Seq<char>, login: LoginView) -> ClientView {
    ClientView {
        broker,
        login,
        frame_max: MAX_FRAME as nat,
        queue: None,
        waiting: WaitingView::Start,
    }
}

/// The same client, waiting for `waiting`.
pub open spec fn awaiting(client: ClientView, waiting: WaitingView) -> ClientView {
    ClientView { waiting, ..client }
}

/// The client has what it waited for, or never will: it waits for nothing.
pub open spec fn done(client: ClientView, write: Seq<u8>, next: NextView) -> (
    ClientView,
    StepView,
) {
    (awaiting(client, WaitingView::Idle), StepView { write, next })
}

/// What was asked for failed, with nothing left to say.
pub open spec fn fails(client: ClientView, error: ErrorView) -> (ClientView, StepView) {
    done(client, Seq::empty(), NextView::Failed(error))
}

/// The client says `write` and reads on, waiting for `waiting`.
pub open spec fn reads_on(client: ClientView, write: Seq<u8>, waiting: WaitingView) -> (
    ClientView,
    StepView,
) {
    (awaiting(client, waiting), StepView { write, next: NextView::Read })
}

/// The frame size settled on where the broker proposes `proposed`, zero
/// being no limit.
pub open spec fn settled(proposed: u32) -> u32 {
    if proposed == 0 || proposed > MAX_FRAME {
        MAX_FRAME as u32
    } else {
        proposed
    }
}

/// A publish of `body` to `queue` through the default exchange: the method,
/// then the content at the frame size that was settled on.
pub open spec fn published(client: ClientView, queue: Seq<char>, body: Seq<u8>) -> Seq<u8> {
    method_bytes(publish_method(Seq::empty(), queue), 1) + frames_bytes(
        content_frames(1, body, client.frame_max),
    )
}

/// What declaring `queue` says: queue.declare on channel 1.
pub open spec fn declare_said(queue: Seq<char>) -> Seq<u8> {
    method_bytes(declare_method(queue), 1)
}

/// What consuming `queue` says: basic.consume on channel 1, the tag left to
/// the broker.
pub open spec fn consume_said(queue: Seq<char>) -> Seq<u8> {
    method_bytes(consume_method(queue, Seq::empty()), 1)
}

/// What acknowledging a delivery says: basic.ack on channel 1.
pub open spec fn ack_said(delivery_tag: u64) -> Seq<u8> {
    method_bytes(ack_method(delivery_tag), 1)
}

/// What closing says first: channel.close on channel 1.
pub open spec fn close_said() -> Seq<u8> {
    method_bytes(close_method(CHANNEL_CLOSE, 200, "bye"@), 1)
}

/// The method the client waited for came, and the client goes on from it.
pub open spec fn client_goes_on(client: ClientView, method: MethodView) -> (ClientView, StepView) {
    match client.waiting {
        WaitingView::Start => if frameable(client.login.user, client.login.password) {
            reads_on(
                client,
                method_bytes(start_ok_method(client.login.user, client.login.password), 0),
                WaitingView::Tune,
            )
        } else {
            fails(client, refusal("a login too long to frame"@))
        },
        WaitingView::Tune => match tune_in(method.arguments) {
            Err(error) => fails(client, error),
            Ok((channel_max, proposed)) => reads_on(
                ClientView { frame_max: settled(proposed) as nat, ..client },
                method_bytes(tune_method(CONNECTION_TUNE_OK, channel_max, settled(proposed)), 0)
                    + method_bytes(open_method(client.login.virtual_host), 0),
                WaitingView::OpenOk,
            ),
        },
        WaitingView::OpenOk => reads_on(
            client,
            method_bytes(channel_open_method(), 1),
            WaitingView::ChannelOpenOk,
        ),
        WaitingView::ChannelOpenOk => done(client, Seq::empty(), NextView::Connected),
        WaitingView::DeclareOk => match declare_ok_in(method.arguments) {
            Err(error) => fails(client, error),
            Ok((_, messages)) => done(client, Seq::empty(), NextView::Declared(messages)),
        },
        WaitingView::ConsumeOk { queue } => {
            let consuming = ClientView { queue: Some(queue), ..client };
            match tag_in(method.arguments) {
                Err(error) => fails(consuming, error),
                Ok(tag) => done(consuming, Seq::empty(), NextView::Consuming(tag)),
            }
        },
        WaitingView::ChannelCloseOk => reads_on(
            client,
            method_bytes(close_method(CONNECTION_CLOSE, 200, "bye"@), 0),
            WaitingView::ConnectionCloseOk,
        ),
        WaitingView::ConnectionCloseOk => done(client, Seq::empty(), NextView::Closed),
        _ => (client, StepView { write: Seq::empty(), next: NextView::Read }),
    }
}

/// A close from the broker, of the connection or of the channel: answered
/// on the channel it came on, and the failure it is.
pub open spec fn client_closed(
    client: ClientView,
    channel: u16,
    arguments: Seq<u8>,
    reply: Id,
    which: Seq<char>,
) -> (ClientView, StepView) {
    match close_in(arguments) {
        Err(error) => fails(client, error),
        Ok((code, text)) => done(
            client,
            method_bytes(bare_of(reply), channel),
            NextView::Failed(
                refusal(
                    "the broker closed the "@ + which + " while "@ + called(client.waiting)
                        + " was awaited: "@ + decimal(code as nat) + " "@ + text,
                ),
            ),
        ),
    }
}

/// The broker said `method` on `channel`: what the client waited for, a
/// close, or something that passes by.
pub open spec fn client_hears_method(client: ClientView, channel: u16, method: MethodView) -> (
    ClientView,
    StepView,
) {
    let expected = match awaited(client.waiting) {
        Some((on, id, _)) => on == channel && id == method.id,
        None => false,
    };
    if expected {
        client_goes_on(client, method)
    } else if client.waiting is Delivery && method.id == BASIC_DELIVER {
        match deliver_in(method.arguments) {
            Err(error) => fails(client, error),
            Ok((delivery_tag, _, routing_key)) => reads_on(
                client,
                Seq::empty(),
                WaitingView::Content { delivery_tag, routing_key, content: ContentView::Header },
            ),
        }
    } else if client.waiting is Delivery && method.id == CONNECTION_CLOSE {
        done(client, method_bytes(bare_of(CONNECTION_CLOSE_OK), 0), NextView::Ended)
    } else if method.id == CONNECTION_CLOSE {
        client_closed(client, channel, method.arguments, CONNECTION_CLOSE_OK, "connection"@)
    } else if method.id == CHANNEL_CLOSE {
        client_closed(client, channel, method.arguments, CHANNEL_CLOSE_OK, "channel"@)
    } else {
        (client, StepView { write: Seq::empty(), next: NextView::Read })
    }
}

/// The URI of a delivery: the broker, the queue, and the tag.
pub open spec fn delivery_uri(broker: Seq<char>, queue: Seq<char>, delivery_tag: u64) -> Seq<char> {
    "rabbitmq://"@ + broker + "/"@ + queue + "?delivery-tag="@ + decimal(delivery_tag as nat)
}

/// Where a delivery came from: the broker, the queue that is consumed or
/// else the routing key, and the tag.
pub open spec fn origin_of(client: ClientView, delivery_tag: u64, routing_key: Seq<char>) -> Seq<
    char,
> {
    let queue = match client.queue {
        Some(queue) => queue,
        None => routing_key,
    };
    delivery_uri(client.broker, queue, delivery_tag)
}

/// The next frame, or the broker closing, where the content of a delivery
/// is awaited.
pub open spec fn client_hears_content(
    client: ClientView,
    delivery_tag: u64,
    routing_key: Seq<char>,
    content: ContentView,
    heard: Option<FrameView>,
) -> (ClientView, StepView) {
    match content_takes(content, heard) {
        Err(error) => fails(client, error),
        Ok(ProgressView::More(more)) => reads_on(
            client,
            Seq::empty(),
            WaitingView::Content { delivery_tag, routing_key, content: more },
        ),
        Ok(ProgressView::Whole(body)) => done(
            client,
            Seq::empty(),
            NextView::Delivered(
                DeliveryView {
                    arrived: ArrivedView {
                        origin_uri: origin_of(client, delivery_tag, routing_key),
                        bytes: body,
                    },
                    delivery_tag,
                },
            ),
        ),
    }
}

/// What the next frame, or the broker closing, comes to. A client that
/// waits for nothing lets everything pass. Content takes its frames as they
/// are; otherwise a heartbeat is answered with one, content passes by, and
/// a close between frames ends the wait for a delivery and fails any other.
pub open spec fn client_hears(client: ClientView, heard: Option<FrameView>) -> (
    ClientView,
    StepView,
) {
    match client.waiting {
        WaitingView::Idle => (client, StepView { write: Seq::empty(), next: NextView::Read }),
        WaitingView::Content { delivery_tag, routing_key, content } => client_hears_content(
            client,
            delivery_tag,
            routing_key,
            content,
            heard,
        ),
        _ => match heard {
            None => if client.waiting is Delivery {
                done(client, Seq::empty(), NextView::Ended)
            } else {
                fails(client, refusal("the broker closed before "@ + called(client.waiting)))
            },
            Some(frame) => match frame.kind {
                Kind::Heartbeat => (
                    client,
                    StepView { write: heartbeat_bytes(), next: NextView::Read },
                ),
                Kind::Header | Kind::Body => (
                    client,
                    StepView { write: Seq::empty(), next: NextView::Read },
                ),
                Kind::Method => match method_in(frame) {
                    Err(error) => fails(client, error),
                    Ok(method) => client_hears_method(client, frame.channel, method),
                },
            },
        },
    }
}

impl Hears for ClientView {
    type Next = NextView;

    open spec fn hears(self, heard: Option<FrameView>) -> (Self, Said<NextView>) {
        client_hears(self, heard)
    }

    open spec fn reads_on() -> NextView {
        NextView::Read
    }

    open spec fn failed(error: ErrorView) -> NextView {
        NextView::Failed(error)
    }
}

/// A step with nothing to write.
fn quietly(next: Next) -> (step: Step)
    ensures
        step@ == (StepView { write: Seq::empty(), next: next@ }),
{
    Step { write: Vec::new(), next }
}

/// A step that says `method` on `channel`.
fn saying(channel: u16, method: &Method, next: Next) -> (step: Step)
    requires
        sayable(method@),
    ensures
        step@ == (StepView { write: method_bytes(method@, channel), next: next@ }),
{
    Step { write: method.encode(channel), next }
}

impl Client {
    /// The frame size is one that peers read.
    #[verifier::type_invariant]
    spec fn settled_within_limit(self) -> bool {
        framed(self@)
    }

    /// Start connecting to `broker` as `login`: the client, and the
    /// protocol header to write to it.
    pub fn connect(broker: &str, login: &Login) -> (started: (Self, Vec<u8>))
        ensures
            started.0@ == connecting(broker@, login@),
            started.1@ == PROTOCOL_HEADER@,
    {
        let client = Client {
            broker: broker.to_owned(),
            login: login.clone(),
            frame_max: MAX_FRAME,
            queue: None,
            waiting: Waiting::Start,
        };
        let header: [u8; 8] = PROTOCOL_HEADER;
        let mut write: Vec<u8> = Vec::new();
        put_bytes(&mut write, header.as_slice());
        assert(write@ =~= PROTOCOL_HEADER@);
        (client, write)
    }

    /// The frame size settled on in tune.
    pub fn frame_max(&self) -> (frame_max: usize)
        ensures
            frame_max == self@.frame_max,
            0 < frame_max <= MAX_FRAME,
    {
        proof {
            use_type_invariant(self);
        }
        self.frame_max
    }

    /// Declare `queue`, durable: the bytes to write. How many messages it
    /// holds is what hearing the broker then comes to.
    pub fn declare(&mut self, queue: &str) -> (write: Vec<u8>)
        ensures
            write@ == method_bytes(declare_method(queue@), 1),
            write@ == declare_said(queue@),
            final(self)@ == awaiting(old(self)@, WaitingView::DeclareOk),
    {
        proof {
            use_type_invariant(&*self);
        }
        self.waiting = Waiting::DeclareOk;
        method::queue_declare(queue).encode(1)
    }

    /// Publish `body` to `queue` through the default exchange, with its
    /// content header, the body split at the negotiated frame size: the
    /// bytes to write. The broker does not answer.
    pub fn publish(&self, queue: &str, body: &[u8]) -> (write: Vec<u8>)
        ensures
            write@ == published(self@, queue@, body@),
    {
        let default_exchange = String::new();
        let mut write = method::basic_publish(default_exchange.as_str(), queue).encode(1);
        let content = content::encode(1, body, self.frame_max);
        put_bytes(&mut write, content.as_slice());
        write
    }

    /// Consume `queue`, each delivery acknowledged by [`Client::ack`]: the
    /// bytes to write. The consumer tag the broker confirms is what hearing
    /// it then comes to.
    pub fn consume(&mut self, queue: &str) -> (write: Vec<u8>)
        ensures
            write@ == method_bytes(consume_method(queue@, Seq::empty()), 1),
            write@ == consume_said(queue@),
            final(self)@ == awaiting(old(self)@, WaitingView::ConsumeOk { queue: queue@ }),
    {
        proof {
            use_type_invariant(&*self);
        }
        self.waiting = Waiting::ConsumeOk { queue: queue.to_owned() };
        let no_tag = String::new();
        method::basic_consume(queue, no_tag.as_str()).encode(1)
    }

    /// Wait for the next delivery, or for the broker to close.
    pub fn next_delivery(&mut self)
        ensures
            final(self)@ == awaiting(old(self)@, WaitingView::Delivery),
    {
        proof {
            use_type_invariant(&*self);
        }
        self.waiting = Waiting::Delivery;
    }

    /// Whether the client waits for a delivery and none is under way.
    pub fn awaits_delivery(&self) -> (result: bool)
        ensures
            result == (self@.waiting is Delivery),
    {
        matches!(self.waiting, Waiting::Delivery)
    }

    /// basic.ack the delivery under `delivery_tag`: the bytes to write. The
    /// broker does not answer.
    pub fn ack(&self, delivery_tag: u64) -> (write: Vec<u8>)
        ensures
            write@ == method_bytes(ack_method(delivery_tag), 1),
            write@ == ack_said(delivery_tag),
    {
        method::basic_ack(delivery_tag).encode(1)
    }

    /// Close the channel and then the connection, each answered: the bytes
    /// to write.
    pub fn close(&mut self) -> (write: Vec<u8>)
        ensures
            write@ == method_bytes(close_method(CHANNEL_CLOSE, 200, "bye"@), 1),
            write@ == close_said(),
            final(self)@ == awaiting(old(self)@, WaitingView::ChannelCloseOk),
    {
        proof {
            use_type_invariant(&*self);
        }
        self.waiting = Waiting::ChannelCloseOk;
        method::close(CHANNEL_CLOSE, 200, "bye").encode(1)
    }

    /// Hear the next frame, or `None` where the broker closed.
    pub fn hear(&mut self, heard: Option<Frame>) -> (step: Step)
        ensures
            (final(self)@, step@) == client_hears(old(self)@, heard_view(heard)),
    {
        proof {
            use_type_invariant(&*self);
        }
        if matches!(self.waiting, Waiting::Idle) {
            return quietly(Next::Read);
        }
        if matches!(self.waiting, Waiting::Content { .. }) {
            return self.hear_content(heard);
        }
        let frame = match heard {
            None => {
                if matches!(self.waiting, Waiting::Delivery) {
                    self.waiting = Waiting::Idle;
                    return quietly(Next::Ended);
                }
                let mut message = "the broker closed before ".to_owned();
                message.append(self.waiting.what());
                self.waiting = Waiting::Idle;
                return quietly(Next::Failed(protocol_error(message)));
            },
            Some(frame) => frame,
        };
        match frame.kind {
            Kind::Heartbeat => Step { write: heartbeat(), next: Next::Read },
            Kind::Header | Kind::Body => quietly(Next::Read),
            Kind::Method => match Method::of(&frame) {
                Err(error) => {
                    self.waiting = Waiting::Idle;
                    quietly(Next::Failed(error))
                },
                Ok(method) => self.hear_method(frame.channel, &method),
            },
        }
    }

    /// A method from the broker where something is waited for.
    fn hear_method(&mut self, channel: u16, method: &Method) -> (step: Step)
        requires
            old(self)@.waiting !is Idle,
            old(self)@.waiting !is Content,
        ensures
            (final(self)@, step@) == client_hears_method(old(self)@, channel, method@),
    {
        proof {
            use_type_invariant(&*self);
        }
        if let Some((on, id, _)) = self.waiting.method() {
            if on == channel && method.is(id) {
                return self.go_on(method);
            }
        }
        if matches!(self.waiting, Waiting::Delivery) {
            if method.is(BASIC_DELIVER) {
                return match method::deliver_of(method) {
                    Err(error) => {
                        self.waiting = Waiting::Idle;
                        quietly(Next::Failed(error))
                    },
                    Ok((delivery_tag, _, routing_key)) => {
                        self.waiting =
                        Waiting::Content { delivery_tag, routing_key, content: Content::Header };
                        quietly(Next::Read)
                    },
                };
            }
            if method.is(CONNECTION_CLOSE) {
                self.waiting = Waiting::Idle;
                return saying(0, &Method::bare(CONNECTION_CLOSE_OK), Next::Ended);
            }
        }
        if method.is(CONNECTION_CLOSE) {
            self.closed_by(channel, method, CONNECTION_CLOSE_OK, "connection")
        } else if method.is(CHANNEL_CLOSE) {
            self.closed_by(channel, method, CHANNEL_CLOSE_OK, "channel")
        } else {
            quietly(Next::Read)
        }
    }

    /// The method that was waited for.
    fn go_on(&mut self, method: &Method) -> (step: Step)
        ensures
            (final(self)@, step@) == client_goes_on(old(self)@, method@),
    {
        proof {
            use_type_invariant(&*self);
        }
        let mut waiting = Waiting::Idle;
        std::mem::swap(&mut waiting, &mut self.waiting);
        match waiting {
            Waiting::Start => {
                if !method::can_frame(self.login.user.as_str(), self.login.password.as_str()) {
                    let error = protocol_error("a login too long to frame".to_owned());
                    return quietly(Next::Failed(error));
                }
                self.waiting = Waiting::Tune;
                let start_ok = method::connection_start_ok(
                    self.login.user.as_str(),
                    self.login.password.as_str(),
                );
                saying(0, &start_ok, Next::Read)
            },
            Waiting::Tune => match method::tune_of(method) {
                Err(error) => quietly(Next::Failed(error)),
                Ok((channel_max, proposed)) => {
                    let limit: u32 = len32(MAX_FRAME);
                    let frame_max: u32 = if proposed == 0 || proposed > limit {
                        limit
                    } else {
                        proposed
                    };
                    self.frame_max = frame_max as usize;
                    self.waiting = Waiting::OpenOk;
                    let tune_ok = method::tune(CONNECTION_TUNE_OK, channel_max, frame_max);
                    let mut write = tune_ok.encode(0);
                    let open = method::connection_open(self.login.virtual_host.as_str());
                    put_bytes(&mut write, open.encode(0).as_slice());
                    Step { write, next: Next::Read }
                },
            },
            Waiting::OpenOk => {
                self.waiting = Waiting::ChannelOpenOk;
                saying(1, &method::channel_open(), Next::Read)
            },
            Waiting::ChannelOpenOk => quietly(Next::Connected),
            Waiting::DeclareOk => match method::declare_ok_of(method) {
                Err(error) => quietly(Next::Failed(error)),
                Ok((_, messages)) => quietly(Next::Declared(messages)),
            },
            Waiting::ConsumeOk { queue } => {
                self.queue = Some(queue);
                match method::tag_of(method) {
                    Err(error) => quietly(Next::Failed(error)),
                    Ok(tag) => quietly(Next::Consuming(tag)),
                }
            },
            Waiting::ChannelCloseOk => {
                self.waiting = Waiting::ConnectionCloseOk;
                saying(0, &method::close(CONNECTION_CLOSE, 200, "bye"), Next::Read)
            },
            Waiting::ConnectionCloseOk => quietly(Next::Closed),
            other => {
                self.waiting = other;
                quietly(Next::Read)
            },
        }
    }

    /// A close from the broker: answered, and the failure it is.
    fn closed_by(&mut self, channel: u16, method: &Method, reply: Id, which: &str) -> (step: Step)
        ensures
            (final(self)@, step@) == client_closed(
                old(self)@,
                channel,
                method@.arguments,
                reply,
                which@,
            ),
    {
        proof {
            use_type_invariant(&*self);
        }
        let what = self.waiting.what();
        self.waiting = Waiting::Idle;
        match method::close_of(method) {
            Err(error) => quietly(Next::Failed(error)),
            Ok((code, text)) => {
                let mut message = "the broker closed the ".to_owned();
                message.append(which);
                message.append(" while ");
                message.append(what);
                message.append(" was awaited: ");
                message.append(decimal_of(code as u64).as_str());
                message.append(" ");
                message.append(text.as_str());
                saying(channel, &Method::bare(reply), Next::Failed(protocol_error(message)))
            },
        }
    }

    /// The next frame of the content a delivery carries.
    fn hear_content(&mut self, heard: Option<Frame>) -> (step: Step)
        requires
            old(self)@.waiting is Content,
        ensures
            (final(self)@, step@) == client_hears(old(self)@, heard_view(heard)),
    {
        proof {
            use_type_invariant(&*self);
        }
        let mut waiting = Waiting::Idle;
        std::mem::swap(&mut waiting, &mut self.waiting);
        match waiting {
            Waiting::Content { delivery_tag, routing_key, content } => match content.take(heard) {
                Err(error) => quietly(Next::Failed(error)),
                Ok(Progress::More(content)) => {
                    self.waiting = Waiting::Content { delivery_tag, routing_key, content };
                    quietly(Next::Read)
                },
                Ok(Progress::Whole(body)) => {
                    let origin = self.origin(delivery_tag, routing_key.as_str());
                    let arrived = Arrived::new(origin, body);
                    quietly(Next::Delivered(Delivery { arrived, delivery_tag }))
                },
            },
            _ => quietly(Next::Read),
        }
    }

    /// Where a delivery came from.
    fn origin(&self, delivery_tag: u64, routing_key: &str) -> (origin: String)
        ensures
            origin@ == origin_of(self@, delivery_tag, routing_key@),
    {
        let queue = match &self.queue {
            Some(queue) => queue.as_str(),
            None => routing_key,
        };
        delivery_origin(self.broker.as_str(), queue, delivery_tag)
    }
}

/// The URI of a delivery.
pub fn delivery_origin(broker: &str, queue: &str, delivery_tag: u64) -> (origin: String)
    ensures
        origin@ == delivery_uri(broker@, queue@, delivery_tag),
{
    let mut origin = "rabbitmq://".to_owned();
    origin.append(broker);
    origin.append("/");
    origin.append(queue);
    origin.append("?delivery-tag=");
    origin.append(decimal_of(delivery_tag).as_str());
    origin
}

/// A client starts with a frame size that peers read, and keeps one
/// whatever the broker proposes and says.
pub proof fn law_frame_max_is_within_the_limit(
    broker: Seq<char>,
    login: LoginView,
    client: ClientView,
    heard: Option<FrameView>,
)
    requires
        framed(client),
    ensures
        framed(connecting(broker, login)),
        framed(client_hears(client, heard).0),
{
}

} // verus!
