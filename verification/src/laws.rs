//! What the two ends of a connection make of what the other says: the
//! handshake that succeeds and the ones that are refused, and what is
//! published, kept, delivered, declared, acknowledged and closed.

use vstd::prelude::*;
use vstd::string::*;
use vstd::utf8::{encode_utf8, is_ascii_chars, is_ascii_chars_encode_utf8};

use crate::arrived::ArrivedView;
use crate::client::{
    awaited, awaiting, called, client_hears, client_hears_method, connecting, framed, origin_of,
    published, ClientView, Delivery, DeliveryView, LoginView, NextView, StepView, WaitingView,
};
use crate::content::{
    content_frames, content_in, content_left, content_takes, law_content_round_trips, Content,
    ContentView, ProgressView, MAX_BODY,
};
use crate::error::{refusal, ErrorView};
use crate::hearing::{follows, lemma_reads_method, lemma_reads_nothing, lemma_reads_one, reads_all};
use crate::method::{
    ack_method, bare_of, channel_open_method, channel_open_ok_method, close_method, consume_method,
    consume_ok_method, declare_method, declare_ok_method, deliver_method, frame_of_method,
    frameable, label_of, law_ack_round_trips, law_close_round_trips, law_consume_ok_round_trips,
    law_consume_round_trips, law_declare_ok_round_trips, law_declare_round_trips,
    law_deliver_round_trips, law_login_round_trips, law_method_is_carried, law_open_round_trips,
    law_publish_round_trips, law_tune_round_trips, lemma_close_length, lemma_consume_length,
    lemma_declare_length, lemma_deliver_length, lemma_publish_length, lemma_start_length,
    lemma_tune_length, method_bytes, open_method, open_ok_method, plain_response, publish_method,
    start_method, start_ok_method, tune_method, MethodView, BASIC_ACK, BASIC_CONSUME, BASIC_PUBLISH,
    CHANNEL_CLOSE, CHANNEL_CLOSE_OK, CHANNEL_OPEN, CONNECTION_CLOSE, CONNECTION_CLOSE_OK,
    CONNECTION_TUNE, CONNECTION_TUNE_OK, QUEUE_DECLARE,
};
use crate::queues::held_under;
use crate::session::{
    accepted, consumes, hears_on, lemma_delivering_keeps, refuses, session_delivers,
    session_delivers_all, session_greets, session_hears, session_serves, staged, tag_for,
    AnswerView, ConsumerView, EventView, OutcomeView, SessionView, StageView,
};
use crate::text::decimal;
use crate::wire::{
    frame_in, frames_bytes, heartbeat_bytes, kind_of, lemma_grouped, lemma_nothing,
    lemma_short_string_length, lemma_width, len32_of, FrameView, Kind, MAX_FRAME, PROTOCOL_HEADER,
};

verus! {

/// A client hears the method that a method's own frame carries.
pub(crate) proof fn lemma_client_hears_its_method(
    client: ClientView,
    method: MethodView,
    channel: u16,
)
    requires
        client.waiting !is Idle,
        client.waiting !is Content,
    ensures
        client_hears(client, Some(frame_of_method(method, channel))) == client_hears_method(
            client,
            channel,
            method,
        ),
{
    law_method_is_carried(method, channel);
}

/// A session that serves its client hears the method that a method's own
/// frame carries.
pub(crate) proof fn lemma_session_hears_its_method(
    session: SessionView,
    method: MethodView,
    channel: u16,
)
    requires
        session.stage is Serving,
    ensures
        session_hears(session, Some(frame_of_method(method, channel))) == session_serves(
            session,
            channel,
            method,
        ),
{
    law_method_is_carried(method, channel);
}

/// A client reads a method that was written as the method it is, and then
/// what follows it.
proof fn lemma_client_reads_method(
    client: ClientView,
    method: MethodView,
    channel: u16,
    rest: Seq<u8>,
)
    requires
        client.waiting !is Idle,
        client.waiting !is Content,
        method.arguments.len() + 4 <= MAX_FRAME,
    ensures
        reads_all(client, method_bytes(method, channel) + rest) == follows(
            client_hears_method(client, channel, method),
            rest,
        ),
{
    lemma_reads_method(client, method, channel, rest);
    lemma_client_hears_its_method(client, method, channel);
}

/// A session reads a method that was written as the method it is, and then
/// what follows it.
pub(crate) proof fn lemma_session_reads_method(
    session: SessionView,
    method: MethodView,
    channel: u16,
    rest: Seq<u8>,
)
    requires
        session.stage is Serving,
        method.arguments.len() + 4 <= MAX_FRAME,
    ensures
        reads_all(session, method_bytes(method, channel) + rest) == follows(
            session_serves(session, channel, method),
            rest,
        ),
{
    lemma_reads_method(session, method, channel, rest);
    lemma_session_hears_its_method(session, method, channel);
}

/// What a publish of `body` to `queue` comes to once it is whole: the body
/// given on the queue, and a Stream from the client.
pub open spec fn publish_happened(session: SessionView, queue: Seq<char>, body: Seq<u8>) -> (
    SessionView,
    AnswerView,
) {
    let (after, delivered) = session_delivers(session, queue, body);
    let origin_uri = "rabbitmq://"@ + session.peer + "/"@ + queue;
    (
        after,
        AnswerView {
            write: delivered,
            next: OutcomeView::Happened(
                EventView::Published(ArrivedView { origin_uri, bytes: body }),
            ),
        },
    )
}

/// A session that awaits content reads the body that is there.
proof fn lemma_session_reads_content(
    session: SessionView,
    queue: Seq<char>,
    content: ContentView,
    bytes: Seq<u8>,
    body: Seq<u8>,
)
    requires
        session.stage == (StageView::Content { queue, content }),
        content_in(content, bytes) == Ok::<Seq<u8>, ErrorView>(body),
    ensures
        reads_all(session, bytes) == {
            let (after, answer) = publish_happened(
                staged(session, StageView::Serving),
                queue,
                body,
            );
            (after, answer, content_left(content, bytes))
        },
    decreases bytes.len(),
{
    reveal(reads_all);
    let (heard, rest) = frame_in(bytes)->Ok_0;
    match content_takes(content, heard)->Ok_0 {
        ProgressView::Whole(_) => {},
        ProgressView::More(more) => {
            let next = staged(session, StageView::Content { queue, content: more });
            lemma_session_reads_content(next, queue, more, rest, body);
            let later = reads_all(next, rest).1;
            assert(staged(next, StageView::Serving) == staged(session, StageView::Serving));
            lemma_nothing(later.write);
        },
    }
}

/// What a client publishes is what arrives: the bytes of a publish, read by
/// a session that serves the client, are the body given on the queue that
/// was named and a Stream with exactly that body, and what follows them is
/// left unread. For every queue whose name fits a short string and every
/// body within the limit.
pub proof fn law_publish_arrives(
    client: ClientView,
    session: SessionView,
    queue: Seq<char>,
    body: Seq<u8>,
    rest: Seq<u8>,
)
    requires
        framed(client),
        session.stage is Serving,
        encode_utf8(queue).len() <= 255,
        body.len() <= MAX_BODY,
    ensures
        reads_all(session, published(client, queue, body) + rest) == {
            let (after, answer) = publish_happened(session, queue, body);
            (after, answer, rest)
        },
{
    let method = publish_method(Seq::empty(), queue);
    let content = frames_bytes(content_frames(1, body, client.frame_max)) + rest;
    let awaiting_content = staged(
        session,
        StageView::Content { queue, content: ContentView::Header },
    );
    is_ascii_chars_encode_utf8(Seq::empty());
    lemma_publish_length(Seq::empty(), queue);
    law_publish_round_trips(Seq::empty(), queue);
    law_content_round_trips(1, body, client.frame_max, rest);
    lemma_grouped(
        method_bytes(method, 1),
        frames_bytes(content_frames(1, body, client.frame_max)),
        rest,
    );
    lemma_session_reads_method(session, method, 1, content);
    lemma_session_reads_content(awaiting_content, queue, ContentView::Header, content, body);
    let later = reads_all(awaiting_content, content).1;
    assert(staged(awaiting_content, StageView::Serving) == session);
    lemma_nothing(later.write);
}

/// What is given on a queue that nobody consumes is kept at its end, with
/// nothing said and no tag spent; what the other queues hold stays as it is.
pub proof fn law_what_nobody_consumes_is_kept(
    session: SessionView,
    queue: Seq<char>,
    other: Seq<char>,
    body: Seq<u8>,
)
    requires
        !consumes(session, queue),
        other != queue,
    ensures
        session_delivers(session, queue, body).1 == Seq::<u8>::empty(),
        ({
            let after = session_delivers(session, queue, body).0;
            &&& held_under(after.queues, queue) == held_under(session.queues, queue).push(body)
            &&& held_under(after.queues, other) == held_under(session.queues, other)
            &&& after == SessionView { queues: after.queues, ..session }
        }),
{
}

/// A delivery as the client sees it that consumes a queue.
pub open spec fn delivery_of(
    client: ClientView,
    queue: Seq<char>,
    delivery_tag: u64,
    body: Seq<u8>,
) -> DeliveryView {
    DeliveryView {
        arrived: ArrivedView {
            origin_uri: origin_of(client, delivery_tag, queue),
            bytes: body,
        },
        delivery_tag,
    }
}

/// A client that awaits content reads the body that is there.
proof fn lemma_client_reads_content(
    client: ClientView,
    delivery_tag: u64,
    routing_key: Seq<char>,
    content: ContentView,
    bytes: Seq<u8>,
    body: Seq<u8>,
)
    requires
        client.waiting == (WaitingView::Content { delivery_tag, routing_key, content }),
        content_in(content, bytes) == Ok::<Seq<u8>, ErrorView>(body),
    ensures
        reads_all(client, bytes) == (
            awaiting(client, WaitingView::Idle),
            StepView {
                write: Seq::empty(),
                next: NextView::Delivered(delivery_of(client, routing_key, delivery_tag, body)),
            },
            content_left(content, bytes),
        ),
    decreases bytes.len(),
{
    reveal(reads_all);
    let (heard, rest) = frame_in(bytes)->Ok_0;
    match content_takes(content, heard)->Ok_0 {
        ProgressView::Whole(_) => {},
        ProgressView::More(more) => {
            let next = awaiting(
                client,
                WaitingView::Content { delivery_tag, routing_key, content: more },
            );
            lemma_client_reads_content(next, delivery_tag, routing_key, more, rest, body);
            let later = reads_all(next, rest).1;
            assert(awaiting(next, WaitingView::Idle) == awaiting(client, WaitingView::Idle));
            lemma_nothing(later.write);
        },
    }
}

/// Whether a session's consumer can be told of what is given on its queue:
/// its tag and its queue each fit a short string.
pub open spec fn reachable(session: SessionView) -> bool {
    session.consumer matches Some(consumer) ==> encode_utf8(consumer.tag).len() <= 255
        && encode_utf8(consumer.queue).len() <= 255
}

/// What is given on a queue that the client consumes is what it receives:
/// the bytes the session says, read by a client that waits for a delivery,
/// are one delivery with exactly that body under the next tag, and what
/// follows them is left unread. For every body within the limit.
pub proof fn law_delivery_arrives(
    session: SessionView,
    client: ClientView,
    queue: Seq<char>,
    body: Seq<u8>,
    rest: Seq<u8>,
)
    requires
        consumes(session, queue),
        reachable(session),
        session.delivery_tag < u64::MAX,
        client.waiting is Delivery,
        body.len() <= MAX_BODY,
    ensures
        session_delivers(session, queue, body).0 == (SessionView {
            delivery_tag: session.delivery_tag + 1,
            ..session
        }),
        reads_all(client, session_delivers(session, queue, body).1 + rest) == (
            awaiting(client, WaitingView::Idle),
            StepView {
                write: Seq::empty(),
                next: NextView::Delivered(
                    delivery_of(client, queue, (session.delivery_tag + 1) as u64, body),
                ),
            },
            rest,
        ),
{
    let consumer = session.consumer->0;
    let delivery_tag = (session.delivery_tag + 1) as u64;
    let method = deliver_method(consumer.tag, delivery_tag, Seq::empty(), queue);
    let content = frames_bytes(content_frames(consumer.channel, body, MAX_FRAME as nat));
    let awaiting_content = awaiting(
        client,
        WaitingView::Content { delivery_tag, routing_key: queue, content: ContentView::Header },
    );
    lemma_client_reads_deliver(
        client,
        consumer.tag,
        delivery_tag,
        queue,
        consumer.channel,
        content + rest,
    );
    law_content_round_trips(consumer.channel, body, MAX_FRAME as nat, rest);
    lemma_grouped(method_bytes(method, consumer.channel), content, rest);
    lemma_client_reads_content(
        awaiting_content,
        delivery_tag,
        queue,
        ContentView::Header,
        content + rest,
        body,
    );
}

/// A client that waits for a delivery and reads a deliver awaits the content
/// that follows it.
proof fn lemma_client_reads_deliver(
    client: ClientView,
    tag: Seq<char>,
    delivery_tag: u64,
    queue: Seq<char>,
    channel: u16,
    rest: Seq<u8>,
)
    requires
        client.waiting is Delivery,
        encode_utf8(tag).len() <= 255,
        encode_utf8(queue).len() <= 255,
    ensures
        reads_all(
            client,
            method_bytes(deliver_method(tag, delivery_tag, Seq::empty(), queue), channel) + rest,
        ) == reads_all(
            awaiting(
                client,
                WaitingView::Content {
                    delivery_tag,
                    routing_key: queue,
                    content: ContentView::Header,
                },
            ),
            rest,
        ),
{
    let method = deliver_method(tag, delivery_tag, Seq::empty(), queue);
    let next = awaiting(
        client,
        WaitingView::Content { delivery_tag, routing_key: queue, content: ContentView::Header },
    );
    is_ascii_chars_encode_utf8(Seq::empty());
    lemma_deliver_length(tag, delivery_tag, Seq::empty(), queue);
    law_deliver_round_trips(tag, delivery_tag, Seq::empty(), queue);
    lemma_client_reads_method(client, method, channel, rest);
    lemma_nothing(reads_all(next, rest).1.write);
}

/// The first `count` deliveries a client reads from `bytes`, each awaited
/// in turn; fewer where something else comes first.
pub open spec fn client_receives(client: ClientView, bytes: Seq<u8>, count: nat) -> Seq<
    DeliveryView,
>
    decreases count,
{
    if count == 0 {
        Seq::empty()
    } else {
        let (after, step, left) = reads_all(awaiting(client, WaitingView::Delivery), bytes);
        match step.next {
            NextView::Delivered(delivery) => seq![delivery] + client_receives(
                after,
                left,
                (count - 1) as nat,
            ),
            _ => Seq::empty(),
        }
    }
}

/// Messages that are given one after the other on a queue that the client
/// consumes are the deliveries it receives, in that order and whole, under
/// the tags that follow the last one given out; nothing else about the
/// session changes.
pub proof fn law_deliveries_arrive_in_order(
    session: SessionView,
    client: ClientView,
    queue: Seq<char>,
    messages: Seq<Seq<u8>>,
    rest: Seq<u8>,
)
    requires
        consumes(session, queue),
        reachable(session),
        session.delivery_tag + messages.len() <= u64::MAX,
        forall|i: int| 0 <= i < messages.len() ==> (#[trigger] messages[i]).len() <= MAX_BODY,
    ensures
        session_delivers_all(session, queue, messages).0 == (SessionView {
            delivery_tag: session.delivery_tag + messages.len(),
            ..session
        }),
        client_receives(
            client,
            session_delivers_all(session, queue, messages).1 + rest,
            messages.len(),
        ) == Seq::new(
            messages.len(),
            |i: int|
                delivery_of(
                    client,
                    queue,
                    (session.delivery_tag + 1 + i) as u64,
                    messages[i],
                ),
        ),
    decreases messages.len(),
{
    let all = session_delivers_all(session, queue, messages);
    let expected = Seq::new(
        messages.len(),
        |i: int|
            delivery_of(client, queue, (session.delivery_tag + 1 + i) as u64, messages[i]),
    );
    let received = client_receives(client, all.1 + rest, messages.len());
    if messages.len() > 0 {
        let (after, first) = session_delivers(session, queue, messages[0]);
        let others = session_delivers_all(after, queue, messages.skip(1));
        let waiting = awaiting(client, WaitingView::Delivery);
        let idle = awaiting(waiting, WaitingView::Idle);
        lemma_grouped(first, others.1, rest);
        law_delivery_arrives(session, waiting, queue, messages[0], others.1 + rest);
        assert forall|i: int| 0 <= i < messages.skip(1).len() implies (#[trigger] messages.skip(
            1,
        )[i]).len() <= MAX_BODY by {
            assert(messages.skip(1)[i] == messages[i + 1]);
        }
        law_deliveries_arrive_in_order(after, idle, queue, messages.skip(1), rest);
        let later = client_receives(idle, others.1 + rest, (messages.len() - 1) as nat);
        let tag = (session.delivery_tag + 1) as u64;
        assert(received == seq![delivery_of(waiting, queue, tag, messages[0])] + later);
        assert(received.len() == expected.len());
        assert forall|i: int| 0 <= i < received.len() implies received[i] == expected[i] by {
            if i > 0 {
                assert(received[i] == later[i - 1]);
                assert(messages.skip(1)[i - 1] == messages[i]);
            }
        }
    }
    assert(received =~= expected);
}

/// A port in decimal is at most five octets of text.
pub(crate) proof fn lemma_port_length(port: u16)
    ensures
        encode_utf8("xmip."@ + decimal(port as nat)).len() <= 10,
{
    let text = decimal(port as nat);
    reveal_strlit("xmip.");
    reveal_with_fuel(decimal, 6);
    assert(text.len() <= 5);
    assert(is_ascii_chars("xmip."@ + text));
    is_ascii_chars_encode_utf8("xmip."@ + text);
}

/// A client that starts consuming a queue is given what the queue held: the
/// session confirms the consumer, takes the queue out and delivers all of
/// it, and the client reads the confirmation and then each message, whole
/// and in the order it came, under consecutive tags. The other queues stay
/// as they are.
pub proof fn law_consuming_drains_the_queue(
    client: ClientView,
    session: SessionView,
    queue: Seq<char>,
    rest: Seq<u8>,
)
    requires
        client.waiting == (WaitingView::ConsumeOk { queue }),
        session.stage is Serving,
        !session.publishes_only,
        encode_utf8(queue).len() <= 255,
        session.delivery_tag + held_under(session.queues, queue).len() <= u64::MAX,
        forall|i: int|
            0 <= i < held_under(session.queues, queue).len() ==> (#[trigger] held_under(
                session.queues,
                queue,
            )[i]).len() <= MAX_BODY,
    ensures
        ({
            let messages = held_under(session.queues, queue);
            let tag = tag_for(session, Seq::empty());
            let said = method_bytes(consume_method(queue, Seq::empty()), 1);
            let (after, answer, left) = reads_all(session, said + rest);
            let (consuming, step, deliveries) = reads_all(client, answer.write);
            &&& answer.next == OutcomeView::Happened(EventView::Consuming(queue))
            &&& left == rest
            &&& after == (SessionView {
                consumer: Some(ConsumerView { tag, queue, channel: 1 }),
                queues: session.queues.remove(queue),
                delivery_tag: session.delivery_tag + messages.len(),
                ..session
            })
            &&& step == (StepView { write: Seq::empty(), next: NextView::Consuming(tag) })
            &&& consuming == (ClientView {
                queue: Some(queue),
                waiting: WaitingView::Idle,
                ..client
            })
            &&& deliveries == session_delivers_all(
                SessionView { delivery_tag: session.delivery_tag, ..after },
                queue,
                messages,
            ).1
            &&& client_receives(consuming, deliveries, messages.len()) == Seq::new(
                messages.len(),
                |i: int|
                    delivery_of(
                        consuming,
                        queue,
                        (session.delivery_tag + 1 + i) as u64,
                        messages[i],
                    ),
            )
        }),
{
    let messages = held_under(session.queues, queue);
    let tag = tag_for(session, Seq::empty());
    let asked = consume_method(queue, Seq::empty());
    let confirmed = consume_ok_method(tag);
    let consumer = SessionView {
        consumer: Some(ConsumerView { tag, queue, channel: 1 }),
        queues: session.queues.remove(queue),
        ..session
    };
    let delivered = session_delivers_all(consumer, queue, messages).1;
    let consuming = ClientView { queue: Some(queue), waiting: WaitingView::Idle, ..client };
    lemma_port_length(session.port);
    is_ascii_chars_encode_utf8(Seq::empty());
    lemma_consume_length(queue, Seq::empty());
    law_consume_round_trips(queue, Seq::empty());
    lemma_session_reads_method(session, asked, 1, rest);
    lemma_short_string_length(tag);
    law_consume_ok_round_trips(tag);
    lemma_client_reads_method(client, confirmed, 1, delivered);
    law_deliveries_arrive_in_order(consumer, consuming, queue, messages, Seq::empty());
    lemma_nothing(delivered);
}

/// What a session declares is what the client is told: the queue is
/// reported, and the client learns how many messages it holds. Nothing about
/// the session changes.
pub proof fn law_declare_counts_what_is_held(
    client: ClientView,
    session: SessionView,
    queue: Seq<char>,
    rest: Seq<u8>,
)
    requires
        client.waiting is DeclareOk,
        session.stage is Serving,
        !session.publishes_only,
        encode_utf8(queue).len() <= 255,
    ensures
        ({
            let held = len32_of(held_under(session.queues, queue).len());
            let said = method_bytes(declare_method(queue), 1);
            let (after, answer, left) = reads_all(session, said + rest);
            &&& answer.next == OutcomeView::Happened(EventView::Declared(queue))
            &&& after == session
            &&& left == rest
            &&& reads_all(client, answer.write) == (
                awaiting(client, WaitingView::Idle),
                StepView { write: Seq::empty(), next: NextView::Declared(held as u32) },
                Seq::<u8>::empty(),
            )
        }),
{
    let held = len32_of(held_under(session.queues, queue).len());
    let declared = declare_ok_method(queue, held as u32);
    lemma_declare_length(queue, held as u32);
    law_declare_round_trips(queue);
    lemma_session_reads_method(session, declare_method(queue), 1, rest);
    law_declare_ok_round_trips(queue, held as u32);
    lemma_client_reads_method(client, declared, 1, Seq::empty());
    lemma_nothing(method_bytes(declared, 1));
}

/// The tag a client acknowledges is the tag the session reports, with
/// nothing said and nothing about the session changed.
pub proof fn law_ack_is_reported(session: SessionView, delivery_tag: u64, rest: Seq<u8>)
    requires
        session.stage is Serving,
        !session.publishes_only,
    ensures
        reads_all(session, method_bytes(ack_method(delivery_tag), 1) + rest) == (
            session,
            AnswerView {
                write: Seq::empty(),
                next: OutcomeView::Happened(EventView::Acked(delivery_tag)),
            },
            rest,
        ),
{
    lemma_width(delivery_tag as nat, 8);
    law_ack_round_trips(delivery_tag);
    lemma_session_reads_method(session, ack_method(delivery_tag), 1, rest);
}

/// The first `count` things a session reads from `bytes` that the client
/// did, each awaited in turn; fewer where something else comes first.
pub open spec fn session_events(session: SessionView, bytes: Seq<u8>, count: nat) -> Seq<EventView>
    decreases count,
{
    if count == 0 {
        Seq::empty()
    } else {
        let (after, answer, left) = reads_all(session, bytes);
        match answer.next {
            OutcomeView::Happened(event) => seq![event] + session_events(
                after,
                left,
                (count - 1) as nat,
            ),
            _ => Seq::empty(),
        }
    }
}

/// A client that reads one method, and nothing after it.
pub(crate) proof fn lemma_client_reads_one(client: ClientView, method: MethodView, channel: u16)
    requires
        client.waiting !is Idle,
        client.waiting !is Content,
        method.arguments.len() + 4 <= MAX_FRAME,
    ensures
        reads_all(client, method_bytes(method, channel)) == {
            let (after, step) = client_hears_method(client, channel, method);
            (after, step, Seq::<u8>::empty())
        },
{
    lemma_reads_one(client, method, channel);
    lemma_client_hears_its_method(client, method, channel);
}

/// Whether a user and password can be presented as they are: neither holds
/// a NUL, and connection.start-ok fits a frame with them.
pub open spec fn presentable(login: LoginView) -> bool {
    &&& !login.user.contains('\0')
    &&& !login.password.contains('\0')
    &&& start_ok_method(login.user, login.password).arguments.len() + 4 <= MAX_FRAME
}

/// Whether a virtual host can be named as it is: it fits a short string.
pub open spec fn nameable(virtual_host: Seq<char>) -> bool {
    encode_utf8(virtual_host).len() <= 255
}

/// A client that connects is greeted, and presents its login.
pub(crate) proof fn lemma_client_is_greeted(broker: Seq<char>, login: LoginView)
    requires
        frameable(login.user, login.password),
    ensures
        reads_all(connecting(broker, login), method_bytes(start_method(), 0)) == (
            awaiting(connecting(broker, login), WaitingView::Tune),
            StepView {
                write: method_bytes(start_ok_method(login.user, login.password), 0),
                next: NextView::Read,
            },
            Seq::<u8>::empty(),
        ),
{
    lemma_start_length(login.user, login.password);
    lemma_client_reads_one(connecting(broker, login), start_method(), 0);
}

/// A session hears the login a client presents.
pub(crate) proof fn lemma_login_is_heard(session: SessionView, login: LoginView)
    requires
        session.stage is StartOk,
        presentable(login),
    ensures
        session_hears(
            session,
            Some(frame_of_method(start_ok_method(login.user, login.password), 0)),
        ) == if login.user != session.expected.user || login.password
            != session.expected.password {
            refuses(session, 403, "ACCESS_REFUSED - login was refused"@)
        } else {
            hears_on(
                SessionView { user: login.user, stage: StageView::TuneOk, ..session },
                method_bytes(tune_method(CONNECTION_TUNE, 1, MAX_FRAME as u32), 0),
            )
        },
{
    let start_ok = start_ok_method(login.user, login.password);
    let response = encode_utf8(plain_response(login.user, login.password));
    assert(response.len() <= start_ok.arguments.len());
    law_login_round_trips(login.user, login.password);
    law_method_is_carried(start_ok, 0);
}

/// A client settles what the session proposes, and opens its virtual host.
pub(crate) proof fn lemma_client_settles(client: ClientView)
    requires
        client.waiting is Tune,
    ensures
        reads_all(
            client,
            method_bytes(tune_method(CONNECTION_TUNE, 1, MAX_FRAME as u32), 0),
        ) == (
            ClientView {
                frame_max: MAX_FRAME as nat,
                waiting: WaitingView::OpenOk,
                ..client
            },
            StepView {
                write: method_bytes(
                    tune_method(CONNECTION_TUNE_OK, 1, MAX_FRAME as u32),
                    0,
                ) + method_bytes(open_method(client.login.virtual_host), 0),
                next: NextView::Read,
            },
            Seq::<u8>::empty(),
        ),
{
    lemma_tune_length(CONNECTION_TUNE, 1, MAX_FRAME as u32);
    law_tune_round_trips(CONNECTION_TUNE, 1, MAX_FRAME as u32);
    lemma_client_reads_one(client, tune_method(CONNECTION_TUNE, 1, MAX_FRAME as u32), 0);
}

/// A session hears what the client settled.
pub(crate) proof fn lemma_tune_ok_is_heard(session: SessionView)
    requires
        session.stage is TuneOk,
    ensures
        session_hears(
            session,
            Some(frame_of_method(tune_method(CONNECTION_TUNE_OK, 1, MAX_FRAME as u32), 0)),
        ) == hears_on(staged(session, StageView::Open), Seq::empty()),
{
    law_method_is_carried(tune_method(CONNECTION_TUNE_OK, 1, MAX_FRAME as u32), 0);
}

/// A session hears the virtual host the client opens.
pub(crate) proof fn lemma_host_is_heard(session: SessionView, virtual_host: Seq<char>)
    requires
        session.stage is Open,
        nameable(virtual_host),
    ensures
        open_method(virtual_host).arguments.len() <= 1000,
        session_hears(session, Some(frame_of_method(open_method(virtual_host), 0))) == if (
        virtual_host != session.expected.virtual_host) {
            refuses(
                SessionView { virtual_host, ..session },
                530,
                "NOT_ALLOWED - access to the virtual host was refused"@,
            )
        } else {
            (
                SessionView { virtual_host, stage: StageView::Serving, ..session },
                AnswerView {
                    write: method_bytes(open_ok_method(), 0),
                    next: OutcomeView::Accepted,
                },
            )
        },
{
    lemma_short_string_length(virtual_host);
    lemma_short_string_length(Seq::empty());
    law_open_round_trips(virtual_host);
    law_method_is_carried(open_method(virtual_host), 0);
}

/// A session reads what the client settled and the virtual host it opens.
pub(crate) proof fn lemma_host_is_read(session: SessionView, virtual_host: Seq<char>)
    requires
        session.stage is TuneOk,
        nameable(virtual_host),
    ensures
        reads_all(
            session,
            method_bytes(tune_method(CONNECTION_TUNE_OK, 1, MAX_FRAME as u32), 0)
                + method_bytes(open_method(virtual_host), 0),
        ) == {
            let opening = staged(session, StageView::Open);
            let (after, answer) = session_hears(
                opening,
                Some(frame_of_method(open_method(virtual_host), 0)),
            );
            (after, answer, Seq::<u8>::empty())
        },
{
    let tune_ok = tune_method(CONNECTION_TUNE_OK, 1, MAX_FRAME as u32);
    let open = open_method(virtual_host);
    let opening = staged(session, StageView::Open);
    lemma_tune_length(CONNECTION_TUNE_OK, 1, MAX_FRAME as u32);
    lemma_tune_ok_is_heard(session);
    lemma_reads_method(session, tune_ok, 0, method_bytes(open, 0));
    lemma_host_is_heard(opening, virtual_host);
    lemma_reads_one(opening, open, 0);
    lemma_nothing(reads_all(opening, method_bytes(open, 0)).1.write);
}

/// A client that presents the login a session expects is connected, and the
/// session serves the user and virtual host the client named: whatever the
/// broker is called and wherever the client is. The frame size is the limit.
pub proof fn law_handshake_succeeds(
    broker: Seq<char>,
    login: LoginView,
    peer: Seq<char>,
    port: u16,
)
    requires
        presentable(login),
        nameable(login.virtual_host),
    ensures
        ({
            let (greeted, start) = session_greets(accepted(peer, port, login), PROTOCOL_HEADER@);
            let (c1, start_ok, _) = reads_all(connecting(broker, login), start.write);
            let (s1, tune, _) = reads_all(greeted, start_ok.write);
            let (c2, tune_ok, _) = reads_all(c1, tune.write);
            let (s2, open_ok, _) = reads_all(s1, tune_ok.write);
            let (c3, channel, _) = reads_all(c2, open_ok.write);
            let (s3, channel_ok, _) = reads_all(s2, channel.write);
            let (c4, connected, _) = reads_all(c3, channel_ok.write);
            &&& open_ok.next is Accepted
            &&& channel_ok.next is Read
            &&& s3 == (SessionView {
                user: login.user,
                virtual_host: login.virtual_host,
                stage: StageView::Serving,
                ..accepted(peer, port, login)
            })
            &&& connected == (StepView { write: Seq::empty(), next: NextView::Connected })
            &&& c4 == awaiting(connecting(broker, login), WaitingView::Idle)
            &&& c4.frame_max == MAX_FRAME
        }),
{
    let s0 = accepted(peer, port, login);
    let c0 = connecting(broker, login);
    let c2 = awaiting(c0, WaitingView::OpenOk);
    let c3 = awaiting(c0, WaitingView::ChannelOpenOk);
    let s1 = SessionView { user: login.user, stage: StageView::TuneOk, ..s0 };
    let s2 = SessionView {
        virtual_host: login.virtual_host,
        stage: StageView::Serving,
        ..s1
    };
    lemma_start_length(login.user, login.password);
    lemma_client_is_greeted(broker, login);
    lemma_login_is_heard(s0, login);
    lemma_reads_one(s0, start_ok_method(login.user, login.password), 0);
    lemma_client_settles(awaiting(c0, WaitingView::Tune));
    lemma_host_is_read(s1, login.virtual_host);
    lemma_host_is_heard(staged(s1, StageView::Open), login.virtual_host);
    lemma_short_string_length(Seq::empty());
    lemma_client_reads_one(c2, open_ok_method(), 0);
    lemma_session_reads_method(s2, channel_open_method(), 1, Seq::empty());
    lemma_reads_nothing(s2);
    lemma_nothing(method_bytes(channel_open_method(), 1));
    lemma_nothing(method_bytes(channel_open_ok_method(), 1));
    lemma_width(0, 4);
    lemma_client_reads_one(c3, channel_open_ok_method(), 1);
}

/// The failure of a client that waited for something when the broker closed.
pub open spec fn closed_on(
    client: ClientView,
    which: Seq<char>,
    code: u16,
    text: Seq<char>,
) -> ErrorView {
    refusal(
        "the broker closed the "@ + which + " while "@ + called(client.waiting)
            + " was awaited: "@ + decimal(code as nat) + " "@ + text,
    )
}

/// A broker that closes the connection or the channel while a client waits
/// for a method is answered on the channel it closed on, and the client
/// fails for good with the code and text of the close.
pub proof fn law_close_is_answered(client: ClientView, channel: u16, code: u16, text: Seq<char>)
    requires
        awaited(client.waiting) is Some,
        encode_utf8(text).len() <= 255,
    ensures
        reads_all(
            client,
            method_bytes(close_method(CONNECTION_CLOSE, code, text), channel),
        ) == (
            awaiting(client, WaitingView::Idle),
            StepView {
                write: method_bytes(bare_of(CONNECTION_CLOSE_OK), channel),
                next: NextView::Failed(closed_on(client, "connection"@, code, text)),
            },
            Seq::<u8>::empty(),
        ),
        reads_all(client, method_bytes(close_method(CHANNEL_CLOSE, code, text), channel)) == (
            awaiting(client, WaitingView::Idle),
            StepView {
                write: method_bytes(bare_of(CHANNEL_CLOSE_OK), channel),
                next: NextView::Failed(closed_on(client, "channel"@, code, text)),
            },
            Seq::<u8>::empty(),
        ),
{
    lemma_close_length(CONNECTION_CLOSE, code, text);
    lemma_close_length(CHANNEL_CLOSE, code, text);
    law_close_round_trips(CONNECTION_CLOSE, code, text);
    law_close_round_trips(CHANNEL_CLOSE, code, text);
    lemma_client_reads_one(client, close_method(CONNECTION_CLOSE, code, text), channel);
    lemma_client_reads_one(client, close_method(CHANNEL_CLOSE, code, text), channel);
}

/// A client that presents another login than the session expects is closed
/// on with 403: both ends fail for good, each naming the code and text.
pub proof fn law_wrong_login_is_refused(
    broker: Seq<char>,
    login: LoginView,
    peer: Seq<char>,
    port: u16,
    expected: LoginView,
)
    requires
        presentable(login),
        login.user != expected.user || login.password != expected.password,
    ensures
        ({
            let text = "ACCESS_REFUSED - login was refused"@;
            let (greeted, start) = session_greets(
                accepted(peer, port, expected),
                PROTOCOL_HEADER@,
            );
            let (presented, start_ok, _) = reads_all(
                connecting(broker, login),
                start.write,
            );
            let (over, refused, _) = reads_all(greeted, start_ok.write);
            let (_, failed, _) = reads_all(presented, refused.write);
            &&& over.stage is Over
            &&& refused.next == OutcomeView::Failed(
                refusal("the client was refused: "@ + decimal(403) + " "@ + text),
            )
            &&& failed == (StepView {
                write: method_bytes(bare_of(CONNECTION_CLOSE_OK), 0),
                next: NextView::Failed(closed_on(presented, "connection"@, 403, text)),
            })
            &&& called(presented.waiting) == "connection.tune"@
        }),
{
    let text = "ACCESS_REFUSED - login was refused"@;
    let s0 = accepted(peer, port, expected);
    reveal_strlit("ACCESS_REFUSED - login was refused");
    is_ascii_chars_encode_utf8(text);
    lemma_start_length(login.user, login.password);
    lemma_client_is_greeted(broker, login);
    lemma_login_is_heard(s0, login);
    lemma_reads_one(s0, start_ok_method(login.user, login.password), 0);
    law_close_is_answered(
        awaiting(connecting(broker, login), WaitingView::Tune),
        0,
        403,
        text,
    );
}

/// A client that opens another virtual host than the session expects is
/// closed on with 530: both ends fail for good, each naming the code and
/// text.
#[verifier::spinoff_prover]
#[verifier::rlimit(60)]
pub proof fn law_wrong_host_is_refused(
    broker: Seq<char>,
    login: LoginView,
    peer: Seq<char>,
    port: u16,
    expected: LoginView,
)
    requires
        presentable(login),
        nameable(login.virtual_host),
        login.user == expected.user,
        login.password == expected.password,
        login.virtual_host != expected.virtual_host,
    ensures
        ({
            let text = "NOT_ALLOWED - access to the virtual host was refused"@;
            let (greeted, start) = session_greets(
                accepted(peer, port, expected),
                PROTOCOL_HEADER@,
            );
            let (c1, start_ok, _) = reads_all(connecting(broker, login), start.write);
            let (s1, tune, _) = reads_all(greeted, start_ok.write);
            let (opened, open, _) = reads_all(c1, tune.write);
            let (over, refused, _) = reads_all(s1, open.write);
            let (_, failed, _) = reads_all(opened, refused.write);
            &&& over.stage is Over
            &&& refused.next == OutcomeView::Failed(
                refusal("the client was refused: "@ + decimal(530) + " "@ + text),
            )
            &&& failed == (StepView {
                write: method_bytes(bare_of(CONNECTION_CLOSE_OK), 0),
                next: NextView::Failed(closed_on(opened, "connection"@, 530, text)),
            })
            &&& called(opened.waiting) == "connection.open-ok"@
        }),
{
    let text = "NOT_ALLOWED - access to the virtual host was refused"@;
    let s0 = accepted(peer, port, expected);
    let c1 = awaiting(connecting(broker, login), WaitingView::Tune);
    reveal_strlit("NOT_ALLOWED - access to the virtual host was refused");
    is_ascii_chars_encode_utf8(text);
    lemma_start_length(login.user, login.password);
    lemma_client_is_greeted(broker, login);
    lemma_login_is_heard(s0, login);
    lemma_reads_one(s0, start_ok_method(login.user, login.password), 0);
    lemma_client_settles(c1);
    let s1 = SessionView { user: login.user, stage: StageView::TuneOk, ..s0 };
    lemma_host_is_read(s1, login.virtual_host);
    lemma_host_is_heard(staged(s1, StageView::Open), login.virtual_host);
    law_close_is_answered(awaiting(c1, WaitingView::OpenOk), 0, 530, text);
}

/// Whether a session serves the method `id` names.
pub open spec fn served(id: (u16, u16)) -> bool {
    id == CHANNEL_OPEN || id == CHANNEL_CLOSE || id == QUEUE_DECLARE || id == BASIC_CONSUME || id
        == BASIC_PUBLISH || id == BASIC_ACK || id == CONNECTION_CLOSE
}

/// A client that says a method the session does not serve is closed on with
/// 540: both ends fail for good, and the session keeps what it held.
pub proof fn law_unserved_method_is_refused(
    client: ClientView,
    session: SessionView,
    method: MethodView,
    channel: u16,
    rest: Seq<u8>,
)
    requires
        session.stage is Serving,
        !served(method.id),
        method.arguments.len() + 4 <= MAX_FRAME,
        awaited(client.waiting) is Some,
    ensures
        ({
            let (after, refused, left) = reads_all(
                session,
                method_bytes(method, channel) + rest,
            );
            let (_, failed, _) = reads_all(client, refused.write);
            &&& after == session
            &&& left == rest
            &&& refused.next == OutcomeView::Failed(
                refusal("method "@ + label_of(method.id) + " is not served here"@),
            )
            &&& failed == (StepView {
                write: method_bytes(bare_of(CONNECTION_CLOSE_OK), 0),
                next: NextView::Failed(
                    closed_on(client, "connection"@, 540, "NOT_IMPLEMENTED"@),
                ),
            })
        }),
{
    reveal_strlit("NOT_IMPLEMENTED");
    is_ascii_chars_encode_utf8("NOT_IMPLEMENTED"@);
    lemma_session_reads_method(session, method, channel, rest);
    law_close_is_answered(client, 0, 540, "NOT_IMPLEMENTED"@);
}

/// A broker that does not speak AMQP 0-9-1 is a permanent failure, whatever
/// the client waited for and however much follows: nothing is said to it.
/// The header a session answers a stranger with is one such opening.
pub proof fn law_what_is_not_amqp_is_permanent(client: ClientView, bytes: Seq<u8>)
    requires
        bytes.len() >= 7,
        kind_of(bytes[0]) is None,
    ensures
        ({
            let (_, step, _) = reads_all(client, bytes);
            step == (StepView {
                write: Seq::empty(),
                next: NextView::Failed(
                    refusal("a frame type AMQP does not define: "@ + decimal(bytes[0] as nat)),
                ),
            })
        }),
        PROTOCOL_HEADER@.len() >= 7 && kind_of(PROTOCOL_HEADER@[0]) is None,
{
    reveal(reads_all);
    assert(bytes.take(7)[0] == bytes[0]);
}

/// A client that closes is answered: the session lets its consumer go and
/// answers the channel and then the connection, and sees the client gone;
/// the client is closed. What the session holds stays.
pub proof fn law_closing_is_answered(client: ClientView, session: SessionView)
    requires
        client.waiting is ChannelCloseOk,
        session.stage is Serving,
    ensures
        ({
            let bye = method_bytes(close_method(CHANNEL_CLOSE, 200, "bye"@), 1);
            let (s1, close_ok, _) = reads_all(session, bye);
            let (c1, close, _) = reads_all(client, close_ok.write);
            let (s2, gone, _) = reads_all(s1, close.write);
            let (c2, closed, _) = reads_all(c1, gone.write);
            &&& gone.next is Gone
            &&& s2 == (SessionView { consumer: None, ..session })
            &&& closed == (StepView { write: Seq::empty(), next: NextView::Closed })
            &&& c2 == awaiting(client, WaitingView::Idle)
        }),
{
    let channel_close = close_method(CHANNEL_CLOSE, 200, "bye"@);
    let connection_close = close_method(CONNECTION_CLOSE, 200, "bye"@);
    let s1 = SessionView { consumer: None, ..session };
    lemma_close_length(CHANNEL_CLOSE, 200, "bye"@);
    lemma_close_length(CONNECTION_CLOSE, 200, "bye"@);
    lemma_session_reads_method(session, channel_close, 1, Seq::empty());
    lemma_reads_nothing(s1);
    lemma_nothing(method_bytes(channel_close, 1));
    lemma_nothing(method_bytes(bare_of(CHANNEL_CLOSE_OK), 1));
    lemma_client_reads_one(client, bare_of(CHANNEL_CLOSE_OK), 1);
    lemma_session_reads_method(s1, connection_close, 0, Seq::empty());
    lemma_nothing(method_bytes(connection_close, 0));
    lemma_client_reads_one(
        awaiting(client, WaitingView::ConnectionCloseOk),
        bare_of(CONNECTION_CLOSE_OK),
        0,
    );
}

/// Either end answers a heartbeat with a heartbeat and is otherwise as it
/// was: a client that waits for a method or a delivery, and a session that
/// serves its client.
pub proof fn law_heartbeat_is_answered(
    client: ClientView,
    session: SessionView,
    channel: u16,
    payload: Seq<u8>,
)
    requires
        client.waiting !is Idle,
        client.waiting !is Content,
        session.stage is Serving,
    ensures
        client_hears(client, Some(FrameView { kind: Kind::Heartbeat, channel, payload })) == (
            client,
            StepView { write: heartbeat_bytes(), next: NextView::Read },
        ),
        session_hears(session, Some(FrameView { kind: Kind::Heartbeat, channel, payload })) == (
            session,
            AnswerView { write: heartbeat_bytes(), next: OutcomeView::Read },
        ),
{
}

/// A session that has come past a check has a client that passed it: past
/// the login, the user is the one expected; once it is served, the virtual
/// host is too.
pub open spec fn admitted(session: SessionView) -> bool {
    match session.stage {
        StageView::StartOk | StageView::Over => true,
        StageView::TuneOk | StageView::Open => session.user == session.expected.user,
        StageView::Serving | StageView::Content { .. } => session.user == session.expected.user
            && session.virtual_host == session.expected.virtual_host,
    }
}

/// A session serves nobody but who was expected: it starts so, and stays so
/// whatever the client says and whatever is given to it to deliver.
pub proof fn law_only_the_expected_are_served(
    peer: Seq<char>,
    port: u16,
    expected: LoginView,
    header: Seq<u8>,
    session: SessionView,
    heard: Option<FrameView>,
    queue: Seq<char>,
    body: Seq<u8>,
)
    requires
        admitted(session),
    ensures
        admitted(session_greets(accepted(peer, port, expected), header).0),
        admitted(session_hears(session, heard).0),
        admitted(session_delivers(session, queue, body).0),
{
    assert forall|consuming: SessionView, queue: Seq<char>, messages: Seq<Seq<u8>>| #[trigger]
        session_delivers_all(consuming, queue, messages).0 == {
            let after = session_delivers_all(consuming, queue, messages).0;
            SessionView {
                queues: after.queues,
                delivery_tag: after.delivery_tag,
                ..consuming
            }
        } by {
        lemma_delivering_keeps(consuming, queue, messages);
    }
}

/// Whether nothing is held under the queue that the client consumes.
pub open spec fn dry(session: SessionView) -> bool {
    session.consumer matches Some(consumer) ==> !session.queues.dom().contains(consumer.queue)
}

/// Nothing waits under a queue that is consumed: a session starts so, and
/// stays so whatever the client says and whatever is given to it to
/// deliver.
pub proof fn law_a_consumed_queue_is_dry(
    peer: Seq<char>,
    port: u16,
    expected: LoginView,
    header: Seq<u8>,
    session: SessionView,
    heard: Option<FrameView>,
    queue: Seq<char>,
    body: Seq<u8>,
)
    requires
        dry(session),
    ensures
        dry(session_greets(accepted(peer, port, expected), header).0),
        dry(session_hears(session, heard).0),
        dry(session_delivers(session, queue, body).0),
{
    assert forall|consuming: SessionView, queue: Seq<char>, messages: Seq<Seq<u8>>|
        #![trigger session_delivers_all(consuming, queue, messages)]
        consumes(consuming, queue) implies {
        let after = session_delivers_all(consuming, queue, messages).0;
        after.queues == consuming.queues && after.consumer == consuming.consumer
    } by {
        lemma_delivering_keeps(consuming, queue, messages);
    }
}

/// What a client does not wait for passes it by: another method than the one
/// awaited, or that one on another channel, where it is no close and no
/// delivery; and content that follows nothing. Nothing is said, and the
/// client waits on.
pub proof fn law_what_is_not_awaited_passes_by(
    client: ClientView,
    frame: FrameView,
    method: MethodView,
    channel: u16,
)
    requires
        awaited(client.waiting) is Some,
        frame.kind == Kind::Header || frame.kind == Kind::Body,
        method.id != CONNECTION_CLOSE,
        method.id != CHANNEL_CLOSE,
        (awaited(client.waiting)->0).0 != channel || (awaited(client.waiting)->0).1 != method.id,
    ensures
        client_hears(client, Some(frame)) == (
            client,
            StepView { write: Seq::empty(), next: NextView::Read },
        ),
        client_hears(client, Some(frame_of_method(method, channel))) == (
            client,
            StepView { write: Seq::empty(), next: NextView::Read },
        ),
{
    lemma_client_hears_its_method(client, method, channel);
}

} // verus!
