//! `RabbitMQ`'s idiom over AMQP 0-9-1: the queue as the Location, the
//! default exchange, the durable declaration before a publish, persistence,
//! and the `rabbitmq://` URIs.
//!
//! `RabbitMQ` listens for AMQP 0-9-1 on port 5672, and a queue is the
//! Location: a Receive Location connects with PLAIN, declares its queue
//! durable, consumes it and acknowledges each delivery once it is a Stream;
//! a Send Location declares the queue and publishes to it through the
//! default exchange under the queue's own name, with a content header that
//! marks the message persistent. Either may instead accept clients directly
//! through a [`Session`], one client's worth of broker on one channel.
//!
//! A send target is `rabbitmq://host:5672/orders`, `rabbitmq://host:5672`
//! for this transport's queue on another broker, or a queue name alone on
//! this transport's broker. The origin URI carries what the frame knew:
//! `rabbitmq://broker/orders?delivery-tag=1`.

use std::time::Duration;

use vstd::prelude::*;
use vstd::slice::slice_to_vec;
use vstd::string::*;

use crate::arrived::{Arrived, ArrivedView};
use crate::client::{
    awaiting, client_hears, connecting, delivery_origin, delivery_uri, guest, published, Client,
    ClientView, Login, LoginView, Next, NextView, Step, StepView, WaitingView,
};
use crate::error::{protocol_error, refusal, ErrorView};
use crate::hearing::{Hears, Said};
use crate::method::{
    ack_method, close_method, consume_method, declare_method, method_bytes, CHANNEL_CLOSE,
};
use crate::session::{
    accepted, awaited, lemma_delivering_keeps, session_delivers_all, session_greets, session_hears,
    tags_last, Answer, AnswerView, Event, EventView, Outcome, OutcomeView, Session, SessionView,
};
use crate::text::{after, before, cut, lemma_before, past, strip};
use crate::wire::{heard_view, put_bytes, Frame, FrameView, PROTOCOL_HEADER};

verus! {

/// What a send target names under `scheme`: what stands before the first
/// slash after `scheme://`, and what stands after that slash, nothing where
/// there is none. A target that does not start so names neither.
pub open spec fn target_in(scheme: Seq<char>, target: Seq<char>) -> Option<
    (Seq<char>, Seq<char>),
> {
    match past(target, scheme + "://"@) {
        None => None,
        Some(named) => Some(
            (
                before(named, '/'),
                match after(named, '/') {
                    Some(queue) => queue,
                    None => Seq::empty(),
                },
            ),
        ),
    }
}

/// The broker and the queue a send target names under `scheme`, the queue
/// empty where it names the broker alone.
pub fn target<'a>(scheme: &str, to: &'a str) -> (named: Option<(&'a str, &'a str)>)
    ensures
        match target_in(scheme@, to@) {
            None => named is None,
            Some((broker, queue)) => named matches Some(found) && found.0@ == broker && found.1@
                == queue,
        },
{
    let mut prefix = scheme.to_owned();
    prefix.append("://");
    match strip(to, prefix.as_str()) {
        None => None,
        Some(named) => {
            let (broker, queue) = cut(named, '/');
            match queue {
                Some(queue) => Some((broker, queue)),
                None => {
                    let count: usize = named.unicode_len();
                    let nothing = named.substring_char(count, count);
                    assert(nothing@ =~= Seq::empty());
                    Some((broker, nothing))
                },
            }
        },
    }
}

/// Which way Streams go through a transport.
#[derive(Clone, Copy, Debug, PartialEq, Eq)]
pub struct Directions {
    receives: bool,
    sends: bool,
}

impl Directions {
    /// Whether Streams arrive.
    pub closed spec fn arrive(self) -> bool {
        self.receives
    }

    /// Whether Streams leave.
    pub closed spec fn leave(self) -> bool {
        self.sends
    }

    /// Both ways.
    pub fn both() -> (directions: Self)
        ensures
            directions.arrive(),
            directions.leave(),
    {
        Directions { receives: true, sends: true }
    }

    /// Whether Streams arrive.
    pub fn receives(self) -> (result: bool)
        ensures
            result == self.arrive(),
    {
        self.receives
    }

    /// Whether Streams leave.
    pub fn sends(self) -> (result: bool)
        ensures
            result == self.leave(),
    {
        self.sends
    }
}

/// A queue on a broker, and who to be there.
pub struct RabbitMqTransport {
    broker: String,
    queue: String,
    login: Login,
    timeout: Option<Duration>,
}

/// A [`RabbitMqTransport`] as contracts speak of it.
pub struct TransportView {
    pub broker: Seq<char>,
    pub queue: Seq<char>,
    pub login: LoginView,
    pub timeout: Option<Duration>,
}

impl View for RabbitMqTransport {
    type V = TransportView;

    closed spec fn view(&self) -> TransportView {
        TransportView {
            broker: self.broker@,
            queue: self.queue@,
            login: self.login@,
            timeout: self.timeout,
        }
    }
}

impl Clone for RabbitMqTransport {
    fn clone(&self) -> (transport: Self)
        ensures
            transport@ == self@,
    {
        RabbitMqTransport {
            broker: self.broker.as_str().to_owned(),
            queue: self.queue.as_str().to_owned(),
            login: self.login.clone(),
            timeout: self.timeout,
        }
    }
}

/// Where a target sends to: the broker and queue it names, the broker it
/// names and this transport's queue, or this transport's broker and the
/// queue that is the whole target.
pub open spec fn resolved(
    transport: TransportView,
    named: Option<(Seq<char>, Seq<char>)>,
    target: Seq<char>,
) -> (Seq<char>, Seq<char>) {
    match named {
        Some((broker, queue)) => if queue.len() == 0 {
            (broker, transport.queue)
        } else {
            (broker, queue)
        },
        None => (transport.broker, target),
    }
}

/// A send of `body` to `queue` over a client: declare, publish, close.
pub struct Sending {
    client: Client,
    broker: String,
    queue: String,
    body: Vec<u8>,
}

/// A [`Sending`] as contracts speak of it.
pub struct SendingView {
    pub client: ClientView,
    pub broker: Seq<char>,
    pub queue: Seq<char>,
    pub body: Seq<u8>,
}

impl View for Sending {
    type V = SendingView;

    closed spec fn view(&self) -> SendingView {
        SendingView {
            client: self.client@,
            broker: self.broker@,
            queue: self.queue@,
            body: self.body@,
        }
    }
}

/// A send that starts connecting.
pub open spec fn sending(
    transport: TransportView,
    target: Seq<char>,
    body: Seq<u8>,
) -> SendingView {
    let (broker, queue) = resolved(transport, target_in("rabbitmq"@, target), target);
    SendingView { client: connecting(broker, transport.login), broker, queue, body }
}

/// A client that closes: its channel first.
pub open spec fn bye() -> Seq<u8> {
    method_bytes(close_method(CHANNEL_CLOSE, 200, "bye"@), 1)
}

/// What the next frame, or the broker closing, comes to for a send: once
/// connected the queue is declared; once it is declared the body is
/// published to it and the client closes; once it is closed the send is
/// done.
pub open spec fn sending_hears(sending: SendingView, heard: Option<FrameView>) -> (
    SendingView,
    StepView,
) {
    let (client, step) = client_hears(sending.client, heard);
    match step.next {
        NextView::Connected => (
            SendingView { client: awaiting(client, WaitingView::DeclareOk), ..sending },
            StepView {
                write: step.write + method_bytes(declare_method(sending.queue), 1),
                next: NextView::Read,
            },
        ),
        NextView::Declared(_) => (
            SendingView { client: awaiting(client, WaitingView::ChannelCloseOk), ..sending },
            StepView {
                write: step.write + published(client, sending.queue, sending.body) + bye(),
                next: NextView::Read,
            },
        ),
        _ => (SendingView { client, ..sending }, step),
    }
}

impl Hears for SendingView {
    type Next = NextView;

    open spec fn hears(self, heard: Option<FrameView>) -> (Self, Said<NextView>) {
        sending_hears(self, heard)
    }

    open spec fn reads_on() -> NextView {
        NextView::Read
    }

    open spec fn failed(error: ErrorView) -> NextView {
        NextView::Failed(error)
    }
}

impl Sending {
    /// The broker to connect to.
    pub fn broker(&self) -> (broker: &str)
        ensures
            broker@ == self@.broker,
    {
        self.broker.as_str()
    }

    /// Hear the next frame, or `None` where the broker closed. The send is
    /// done where the client is closed.
    pub fn hear(&mut self, heard: Option<Frame>) -> (step: Step)
        ensures
            (final(self)@, step@) == sending_hears(old(self)@, heard_view(heard)),
    {
        let step = self.client.hear(heard);
        match step.next {
            Next::Connected => {
                let mut write = step.write;
                let declare = self.client.declare(self.queue.as_str());
                put_bytes(&mut write, declare.as_slice());
                Step { write, next: Next::Read }
            },
            Next::Declared(_) => {
                let mut write = step.write;
                let publish = self.client.publish(self.queue.as_str(), self.body.as_slice());
                put_bytes(&mut write, publish.as_slice());
                let close = self.client.close();
                put_bytes(&mut write, close.as_slice());
                Step { write, next: Next::Read }
            },
            _ => step,
        }
    }
}

/// Streams, each taken by its view.
pub open spec fn arrived_views(arrived: Seq<Arrived>) -> Seq<ArrivedView> {
    arrived.map_values(|each: Arrived| each@)
}

/// A receive from `queue` over a client: declare, consume, and take each
/// delivery until the queue is quiet or the broker closes.
pub struct Receiving {
    client: Client,
    broker: String,
    queue: String,
    arrived: Vec<Arrived>,
}

/// A [`Receiving`] as contracts speak of it.
pub struct ReceivingView {
    pub client: ClientView,
    pub broker: Seq<char>,
    pub queue: Seq<char>,
    pub arrived: Seq<ArrivedView>,
}

impl View for Receiving {
    type V = ReceivingView;

    closed spec fn view(&self) -> ReceivingView {
        ReceivingView {
            client: self.client@,
            broker: self.broker@,
            queue: self.queue@,
            arrived: arrived_views(self.arrived@),
        }
    }
}

/// A receive that starts connecting.
pub open spec fn receiving(transport: TransportView) -> ReceivingView {
    ReceivingView {
        client: connecting(transport.broker, transport.login),
        broker: transport.broker,
        queue: transport.queue,
        arrived: Seq::empty(),
    }
}

/// What a receive does about what its client came to: once connected the
/// queue is declared, once it is declared it is consumed, and from then on
/// each delivery is a Stream, acknowledged, and the next one awaited. A
/// broker that closes then ends the receive.
pub open spec fn receiving_reacts(
    receiving: ReceivingView,
    client: ClientView,
    step: StepView,
) -> (ReceivingView, StepView) {
    match step.next {
        NextView::Connected => (
            ReceivingView { client: awaiting(client, WaitingView::DeclareOk), ..receiving },
            StepView {
                write: step.write + method_bytes(declare_method(receiving.queue), 1),
                next: NextView::Read,
            },
        ),
        NextView::Declared(_) => (
            ReceivingView {
                client: awaiting(client, WaitingView::ConsumeOk { queue: receiving.queue }),
                ..receiving
            },
            StepView {
                write: step.write + method_bytes(
                    consume_method(receiving.queue, Seq::empty()),
                    1,
                ),
                next: NextView::Read,
            },
        ),
        NextView::Consuming(_) => (
            ReceivingView { client: awaiting(client, WaitingView::Delivery), ..receiving },
            StepView { write: step.write, next: NextView::Read },
        ),
        NextView::Delivered(delivery) => (
            ReceivingView {
                client: awaiting(client, WaitingView::Delivery),
                arrived: receiving.arrived.push(
                    ArrivedView {
                        origin_uri: delivery_uri(
                            receiving.broker,
                            receiving.queue,
                            delivery.delivery_tag,
                        ),
                        bytes: delivery.arrived.bytes,
                    },
                ),
                ..receiving
            },
            StepView {
                write: step.write + method_bytes(ack_method(delivery.delivery_tag), 1),
                next: NextView::Read,
            },
        ),
        _ => (ReceivingView { client, ..receiving }, step),
    }
}

/// What the next frame, or the broker closing, comes to for a receive.
pub open spec fn receiving_hears(receiving: ReceivingView, heard: Option<FrameView>) -> (
    ReceivingView,
    StepView,
) {
    let (client, step) = client_hears(receiving.client, heard);
    receiving_reacts(receiving, client, step)
}

impl Hears for ReceivingView {
    type Next = NextView;

    open spec fn hears(self, heard: Option<FrameView>) -> (Self, Said<NextView>) {
        receiving_hears(self, heard)
    }

    open spec fn reads_on() -> NextView {
        NextView::Read
    }

    open spec fn failed(error: ErrorView) -> NextView {
        NextView::Failed(error)
    }
}

impl Receiving {
    /// Hear the next frame, or `None` where the broker closed. The receive
    /// is done where the client is closed, or ended.
    pub fn hear(&mut self, heard: Option<Frame>) -> (step: Step)
        ensures
            (final(self)@, step@) == receiving_hears(old(self)@, heard_view(heard)),
    {
        let step = self.client.hear(heard);
        match step.next {
            Next::Connected => {
                let mut write = step.write;
                let declare = self.client.declare(self.queue.as_str());
                put_bytes(&mut write, declare.as_slice());
                Step { write, next: Next::Read }
            },
            Next::Declared(_) => {
                let mut write = step.write;
                let consume = self.client.consume(self.queue.as_str());
                put_bytes(&mut write, consume.as_slice());
                Step { write, next: Next::Read }
            },
            Next::Consuming(_) => {
                self.client.next_delivery();
                Step { write: step.write, next: Next::Read }
            },
            Next::Delivered(delivery) => {
                let mut write = step.write;
                let delivery_tag: u64 = delivery.delivery_tag;
                let origin = delivery_origin(
                    self.broker.as_str(),
                    self.queue.as_str(),
                    delivery_tag,
                );
                let ghost before = self.arrived@;
                self.arrived.push(Arrived::new(origin, delivery.arrived.bytes));
                proof {
                    let last = self.arrived@.last()@;
                    assert(arrived_views(self.arrived@) =~= arrived_views(before).push(last));
                }
                let ack = self.client.ack(delivery_tag);
                put_bytes(&mut write, ack.as_slice());
                self.client.next_delivery();
                Step { write, next: Next::Read }
            },
            _ => step,
        }
    }

    /// Whether deliveries are awaited, and none is under way: where a quiet
    /// queue ends the receive, and is no failure.
    pub fn awaits_delivery(&self) -> (result: bool)
        ensures
            result == (self@.client.waiting is Delivery),
    {
        self.client.awaits_delivery()
    }

    /// The queue has been quiet for the timeout: the bytes to write, which
    /// close the client.
    pub fn quiet(&mut self) -> (write: Vec<u8>)
        ensures
            write@ == bye(),
            final(self)@ == (ReceivingView {
                client: awaiting(old(self)@.client, WaitingView::ChannelCloseOk),
                ..old(self)@
            }),
    {
        self.client.close()
    }

    /// What arrived, in the order it was delivered.
    pub fn into_arrived(self) -> (arrived: Vec<Arrived>)
        ensures
            arrived_views(arrived@) == self@.arrived,
    {
        self.arrived
    }
}

/// One message taken from one client: its first publish, and then the client
/// served until it is gone.
pub struct Taking {
    session: Session,
    published: Option<Arrived>,
}

/// A [`Taking`] as contracts speak of it.
pub struct TakingView {
    pub session: SessionView,
    pub published: Option<ArrivedView>,
}

impl View for Taking {
    type V = TakingView;

    closed spec fn view(&self) -> TakingView {
        TakingView {
            session: self.session@,
            published: match self.published {
                Some(arrived) => Some(arrived@),
                None => None,
            },
        }
    }
}

/// What the next frame, or the client closing, comes to for a take: once the
/// client is accepted its publishes are awaited; the first is kept, and is
/// what the take comes to when the client publishes again or closes. A
/// client that closes before it published fails the take.
pub open spec fn taking_hears(taking: TakingView, heard: Option<FrameView>) -> (
    TakingView,
    AnswerView,
) {
    let (session, answer) = session_hears(taking.session, heard);
    let write = answer.write;
    let taken = TakingView { session, ..taking };
    match answer.next {
        OutcomeView::Accepted => (
            TakingView { session: awaited(session, true), ..taking },
            AnswerView { write, next: OutcomeView::Read },
        ),
        OutcomeView::Happened(EventView::Published(arrived)) => match taking.published {
            None => (
                TakingView { session: awaited(session, true), published: Some(arrived) },
                AnswerView { write, next: OutcomeView::Read },
            ),
            Some(first) => (
                TakingView { session, published: None },
                AnswerView { write, next: OutcomeView::Happened(EventView::Published(first)) },
            ),
        },
        OutcomeView::Gone => match taking.published {
            None => (
                taken,
                AnswerView {
                    write,
                    next: OutcomeView::Failed(
                        refusal("the client closed without publishing"@),
                    ),
                },
            ),
            Some(first) => (
                TakingView { session, published: None },
                AnswerView { write, next: OutcomeView::Happened(EventView::Published(first)) },
            ),
        },
        _ => (taken, answer),
    }
}

impl Hears for TakingView {
    type Next = OutcomeView;

    open spec fn hears(self, heard: Option<FrameView>) -> (Self, Said<OutcomeView>) {
        taking_hears(self, heard)
    }

    open spec fn reads_on() -> OutcomeView {
        OutcomeView::Read
    }

    open spec fn failed(error: ErrorView) -> OutcomeView {
        OutcomeView::Failed(error)
    }
}

impl Taking {
    /// Whether there are delivery tags left for what the next frame, or
    /// `None` where the client closed, sets off.
    pub fn tags_last(&self, heard: &Option<Frame>) -> (result: bool)
        ensures
            result == tags_last(self@.session, heard_view(*heard)),
    {
        self.session.tags_last(heard)
    }

    /// Hear the next frame, or `None` where the client closed. The take is
    /// done where it reports what was published. There must be delivery tags
    /// left for what the frame sets off, which [`Taking::tags_last`] tells.
    pub fn hear(&mut self, heard: Option<Frame>) -> (answer: Answer)
        requires
            tags_last(old(self)@.session, heard_view(heard)),
        ensures
            (final(self)@, answer@) == taking_hears(old(self)@, heard_view(heard)),
    {
        let answer = self.session.hear(heard);
        match answer.next {
            Outcome::Accepted => {
                self.session.next_publish();
                Answer { write: answer.write, next: Outcome::Read }
            },
            Outcome::Happened(Event::Published(arrived)) => match self.published.take() {
                None => {
                    self.published = Some(arrived);
                    self.session.next_publish();
                    Answer { write: answer.write, next: Outcome::Read }
                },
                Some(first) => Answer {
                    write: answer.write,
                    next: Outcome::Happened(Event::Published(first)),
                },
            },
            Outcome::Gone => match self.published.take() {
                None => {
                    let error = protocol_error("the client closed without publishing".to_owned());
                    Answer { write: answer.write, next: Outcome::Failed(error) }
                },
                Some(first) => Answer {
                    write: answer.write,
                    next: Outcome::Happened(Event::Published(first)),
                },
            },
            _ => answer,
        }
    }
}

impl RabbitMqTransport {
    /// Speak to the broker at `broker` about `queue`, as guest until
    /// [`RabbitMqTransport::logging_in`] says otherwise.
    pub fn new(broker: &str, queue: &str) -> (transport: Self)
        ensures
            transport@ == (TransportView {
                broker: broker@,
                queue: queue@,
                login: guest(),
                timeout: None,
            }),
    {
        RabbitMqTransport {
            broker: broker.to_owned(),
            queue: queue.to_owned(),
            login: Login::default(),
            timeout: None,
        }
    }

    /// Both ends on this machine: an ephemeral local port, `timeout`, one
    /// queue called `probe`, guest at both ends.
    pub fn loopback(timeout: Duration) -> (transport: Self)
        ensures
            transport@ == (TransportView {
                broker: "127.0.0.1:0"@,
                queue: "probe"@,
                login: guest(),
                timeout: Some(timeout),
            }),
    {
        RabbitMqTransport::new("127.0.0.1:0", "probe").timing_out_after(timeout)
    }

    /// Present this login when connecting, and expect it when accepting.
    pub fn logging_in(self, login: Login) -> (transport: Self)
        ensures
            transport@ == (TransportView { login: login@, ..self@ }),
    {
        let mut transport = self;
        transport.login = login;
        transport
    }

    /// Give up on a peer that stops mid-frame, and stop receiving when
    /// the queue has been quiet this long.
    pub fn timing_out_after(self, timeout: Duration) -> (transport: Self)
        ensures
            transport@ == (TransportView { timeout: Some(timeout), ..self@ }),
    {
        let mut transport = self;
        transport.timeout = Some(timeout);
        transport
    }

    /// What this transport is called.
    pub fn name(&self) -> (name: &'static str)
        ensures
            name@ == "rabbitmq"@,
    {
        "rabbitmq"
    }

    /// Streams go both ways.
    pub fn directions(&self) -> (directions: Directions)
        ensures
            directions.arrive(),
            directions.leave(),
    {
        Directions::both()
    }

    /// The broker to connect to, or the address to bind.
    pub fn broker(&self) -> (broker: &str)
        ensures
            broker@ == self@.broker,
    {
        self.broker.as_str()
    }

    /// How long a peer may stop mid-frame, and a queue be quiet.
    pub fn timeout(&self) -> (timeout: Option<Duration>)
        ensures
            timeout == self@.timeout,
    {
        self.timeout
    }

    /// Start connecting to the broker as a client: the client, and the bytes
    /// to write to it.
    pub fn connect(&self) -> (started: (Client, Vec<u8>))
        ensures
            started.0@ == connecting(self@.broker, self@.login),
            started.1@ == PROTOCOL_HEADER@,
    {
        Client::connect(self.broker.as_str(), &self.login)
    }

    /// Accept one client that connected from `peer`, `port` being the port
    /// in that address, and opened with `header`, expecting this transport's
    /// login.
    pub fn accept_one(&self, peer: &str, port: u16, header: &[u8; 8]) -> (started: (
        Session,
        Answer,
    ))
        ensures
            (started.0@, started.1@) == session_greets(
                accepted(peer@, port, self@.login),
                header@,
            ),
    {
        Session::accept(peer, port, &self.login, header)
    }

    /// Where a target names the broker and queue itself,
    /// `rabbitmq://host:5672/orders`, or the broker alone, or is a queue
    /// name alone on this transport's broker.
    pub fn resolve<'a>(&'a self, to: &'a str) -> (place: (&'a str, &'a str))
        ensures
            (place.0@, place.1@) == resolved(
                self@,
                target_in("rabbitmq"@, to@),
                to@,
            ),
    {
        match target("rabbitmq", to) {
            Some((broker, queue)) => {
                if queue.is_empty() {
                    (broker, self.queue.as_str())
                } else {
                    (broker, queue)
                }
            },
            None => (self.broker.as_str(), to),
        }
    }

    /// Declare and consume the queue and take what is delivered, each
    /// acknowledged, until it has been quiet for the timeout or the broker
    /// closes: the receive, and the bytes to write first. A quiet queue is
    /// no Streams, not an error.
    pub fn receive(&self) -> (started: (Receiving, Vec<u8>))
        ensures
            started.0@ == receiving(self@),
            started.1@ == PROTOCOL_HEADER@,
    {
        let (client, write) = self.connect();
        let receiving = Receiving {
            client,
            broker: self.broker.as_str().to_owned(),
            queue: self.queue.as_str().to_owned(),
            arrived: Vec::new(),
        };
        assert(receiving@.arrived =~= Seq::empty());
        (receiving, write)
    }

    /// Declare the queue durable, because the default exchange drops what
    /// it cannot route and says nothing, and publish to it through that
    /// exchange under the queue's own name, persistent: the send, and the
    /// bytes to write first.
    pub fn send(&self, to: &str, bytes: &[u8]) -> (started: (Sending, Vec<u8>))
        ensures
            started.0@ == sending(self@, to@, bytes@),
            started.1@ == PROTOCOL_HEADER@,
    {
        let (broker, queue) = self.resolve(to);
        let (client, write) = Client::connect(broker, &self.login);
        let sending = Sending {
            client,
            broker: broker.to_owned(),
            queue: queue.to_owned(),
            body: slice_to_vec(bytes),
        };
        (sending, write)
    }

    /// Take one message from one client that connected from `peer`, `port`
    /// being the port in that address, and opened with `header`: the take,
    /// and what comes of the header.
    pub fn take_one(&self, peer: &str, port: u16, header: &[u8; 8]) -> (started: (Taking, Answer))
        ensures
            (started.0@.session, started.1@) == session_greets(
                accepted(peer@, port, self@.login),
                header@,
            ),
            started.0@.published is None,
    {
        let (session, answer) = self.accept_one(peer, port, header);
        (Taking { session, published: None }, answer)
    }

    /// Send `payload` to this transport's queue on the broker at `address`:
    /// the send, and the bytes to write first.
    pub fn send_to(&self, address: &str, payload: &[u8]) -> (started: (Sending, Vec<u8>))
        ensures
            started.0@ == sending(
                TransportView { broker: address@, ..self@ },
                self@.queue,
                payload@,
            ),
            started.1@ == PROTOCOL_HEADER@,
    {
        let mut there = self.clone();
        there.broker = address.to_owned();
        there.send(self.queue.as_str(), payload)
    }
}

/// A target that names a broker and a queue resolves to them, one that names
/// a broker alone to this transport's queue there, and one that is no
/// `rabbitmq://` URI to itself as a queue on this transport's broker.
pub proof fn law_targets_resolve(
    transport: TransportView,
    broker: Seq<char>,
    queue: Seq<char>,
    plain: Seq<char>,
)
    requires
        !broker.contains('/'),
        queue.len() > 0,
        !"rabbitmq://"@.is_prefix_of(plain),
    ensures
        ({
            let both = "rabbitmq://"@ + broker + seq!['/'] + queue;
            resolved(transport, target_in("rabbitmq"@, both), both) == (broker, queue)
        }),
        ({
            let alone = "rabbitmq://"@ + broker;
            resolved(transport, target_in("rabbitmq"@, alone), alone) == (
                broker,
                transport.queue,
            )
        }),
        resolved(transport, target_in("rabbitmq"@, plain), plain) == (transport.broker, plain),
{
    let prefix = "rabbitmq"@ + "://"@;
    let both = "rabbitmq://"@ + broker + seq!['/'] + queue;
    let named = broker + seq!['/'] + queue;
    let alone = "rabbitmq://"@ + broker;
    reveal_strlit("rabbitmq");
    reveal_strlit("://");
    reveal_strlit("rabbitmq://");
    assert(prefix =~= "rabbitmq://"@);
    assert(both.skip(prefix.len() as int) =~= named);
    assert(alone.skip(prefix.len() as int) =~= broker);
    assert forall|i: int| 0 <= i < broker.len() implies named[i] != '/' && broker[i] != '/' by {
        assert(broker.contains(broker[i]));
    }
    assert(named[broker.len() as int] == '/');
    lemma_before(named, '/', broker.len() as int);
    assert(named.take(broker.len() as int) =~= broker);
    assert(named.skip(broker.len() as int + 1) =~= queue);
    lemma_before(broker, '/', broker.len() as int);
    assert(broker.take(broker.len() as int) =~= broker);
}

/// Nothing of what is sent is said before the queue is declared: whatever
/// the broker says before that, two sends that differ only in what they send
/// say the same, and go on waiting for the same.
pub proof fn law_nothing_is_published_before_it_is_declared(
    sending: SendingView,
    other: Seq<u8>,
    heard: Option<FrameView>,
)
    requires
        client_hears(sending.client, heard).1.next !is Declared,
    ensures
        ({
            let (after, step) = sending_hears(sending, heard);
            sending_hears(SendingView { body: other, ..sending }, heard) == (
                SendingView { body: other, ..after },
                step,
            )
        }),
        sending.client.waiting !is DeclareOk ==> client_hears(sending.client, heard).1.next
            !is Declared,
{
}

/// One delivery is one Stream, acknowledged as it becomes one: what a
/// receive has stays as it is, a frame adds at most one Stream at the end,
/// and one that does is answered with the acknowledgement of its tag.
pub proof fn law_one_delivery_is_one_stream(receiving: ReceivingView, heard: Option<FrameView>)
    ensures
        ({
            let (after, step) = receiving_hears(receiving, heard);
            match client_hears(receiving.client, heard).1.next {
                NextView::Delivered(delivery) => {
                    &&& after.arrived.len() == receiving.arrived.len() + 1
                    &&& after.arrived.drop_last() == receiving.arrived
                    &&& after.arrived.last().bytes == delivery.arrived.bytes
                    &&& step.write == method_bytes(ack_method(delivery.delivery_tag), 1)
                },
                _ => after.arrived == receiving.arrived,
            }
        }),
{
    let (client, step) = client_hears(receiving.client, heard);
    if let NextView::Delivered(delivery) = step.next {
        let ack = method_bytes(ack_method(delivery.delivery_tag), 1);
        assert(step.write + ack =~= ack);
        assert(receiving_hears(receiving, heard).0.arrived.drop_last() =~= receiving.arrived);
    }
}

/// A take comes to the first message the client published and no other: it
/// reports nothing before there is one, and once there is one it keeps it
/// until it reports it.
pub proof fn law_the_first_publish_is_taken(taking: TakingView, heard: Option<FrameView>)
    requires
        taking.session.publishes_only,
    ensures
        ({
            let (after, answer) = taking_hears(taking, heard);
            match taking.published {
                None => answer.next !is Happened,
                Some(first) => {
                    ||| answer.next == OutcomeView::Happened(EventView::Published(first))
                    ||| after.published == Some(first)
                },
            }
        }),
        taking_hears(taking, heard).0.session.publishes_only,
{
    lemma_reports_only_publishes(taking.session, heard);
}

/// A session that reports only what is published goes on so, and reports
/// nothing else.
proof fn lemma_reports_only_publishes(session: SessionView, heard: Option<FrameView>)
    requires
        session.publishes_only,
    ensures
        session_hears(session, heard).0.publishes_only,
        session_hears(session, heard).1.next matches OutcomeView::Happened(event) ==> event
            is Published,
{
    assert forall|consuming: SessionView, queue: Seq<char>, messages: Seq<Seq<u8>>| #[trigger]
        session_delivers_all(consuming, queue, messages).0.publishes_only
            == consuming.publishes_only by {
        lemma_delivering_keeps(consuming, queue, messages);
    }
}

} // verus!
