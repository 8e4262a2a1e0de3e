//! Whole rounds between the two ends: a send that the far end takes, and a
//! receive of what a session holds.

use vstd::prelude::*;
use vstd::string::*;
use vstd::utf8::is_ascii_chars_encode_utf8;

use crate::arrived::ArrivedView;
use crate::client::{
    awaiting, client_hears, client_hears_method, connecting, delivery_uri, framed, published,
    ClientView, Delivery, LoginView, NextView, StepView, WaitingView,
};
use crate::content::{
    content_frames, content_in, content_left, content_takes, law_content_round_trips, Content,
    ContentView, ProgressView, MAX_BODY,
};
use crate::error::ErrorView;
use crate::hearing::{follows, lemma_reads_method, lemma_reads_nothing, lemma_reads_one, reads_all};
use crate::laws::{
    law_ack_is_reported, law_consuming_drains_the_queue, law_declare_counts_what_is_held,
    law_delivery_arrives, lemma_client_hears_its_method, lemma_client_is_greeted,
    lemma_client_reads_one, lemma_client_settles, lemma_host_is_heard, lemma_host_is_read,
    lemma_login_is_heard, lemma_port_length, lemma_session_hears_its_method,
    lemma_session_reads_method, lemma_tune_ok_is_heard, nameable, presentable, reachable,
    session_events,
};
use crate::method::{
    ack_method, bare_of, channel_open_method, channel_open_ok_method, close_method, consume_method,
    declare_method, declare_ok_method, frame_of_method, frameable, law_declare_ok_round_trips,
    law_declare_round_trips, law_publish_round_trips, law_tune_round_trips, lemma_close_length,
    lemma_declare_length, lemma_publish_length, lemma_start_length, lemma_tune_length, method_bytes,
    open_method, open_ok_method, publish_method, start_method, start_ok_method, tune_method,
    MethodView, CHANNEL_CLOSE, CHANNEL_CLOSE_OK, CONNECTION_CLOSE, CONNECTION_CLOSE_OK,
    CONNECTION_TUNE, CONNECTION_TUNE_OK,
};
use crate::queues::held_under;
use crate::session::{
    accepted, awaited, consumes, session_delivers, session_delivers_all, session_greets, staged,
    tag_for, AnswerView, ConsumerView, EventView, OutcomeView, SessionView, StageView,
};
use crate::transport::{
    bye, receiving, receiving_reacts, resolved, sending, sending_hears, target_in, ReceivingView,
    SendingView, TakingView, TransportView,
};
use crate::wire::{
    frame_in, frames_bytes, lemma_grouped, lemma_nothing, lemma_short_string_length, lemma_width,
    len32_of, MAX_FRAME, PROTOCOL_HEADER,
};

verus! {

/// A send that reads one method, and nothing after it.
proof fn lemma_sending_reads_one(sending: SendingView, method: MethodView, channel: u16)
    requires
        sending.client.waiting !is Idle,
        sending.client.waiting !is Content,
        method.arguments.len() + 4 <= MAX_FRAME,
    ensures
        reads_all(sending, method_bytes(method, channel)) == {
            let (after, step) = sending_hears(sending, Some(frame_of_method(method, channel)));
            (after, step, Seq::<u8>::empty())
        },
        client_hears(sending.client, Some(frame_of_method(method, channel)))
            == client_hears_method(sending.client, channel, method),
{
    lemma_reads_one(sending, method, channel);
    lemma_client_hears_its_method(sending.client, method, channel);
}

/// What a client published on `queue`, as a session reports it.
pub open spec fn stream_from(session: SessionView, queue: Seq<char>, body: Seq<u8>) -> ArrivedView {
    ArrivedView { origin_uri: "rabbitmq://"@ + session.peer + "/"@ + queue, bytes: body }
}

/// A take that awaits the content of the first publish reads the body that
/// is there, keeps it, and reads on.
proof fn lemma_taking_reads_content(
    taking: TakingView,
    queue: Seq<char>,
    content: ContentView,
    bytes: Seq<u8>,
    body: Seq<u8>,
)
    requires
        taking.session.stage == (StageView::Content { queue, content }),
        taking.published is None,
        content_in(content, bytes) == Ok::<Seq<u8>, ErrorView>(body),
    ensures
        reads_all(taking, bytes) == {
            let serving = staged(taking.session, StageView::Serving);
            let (after, delivered) = session_delivers(serving, queue, body);
            follows(
                (
                    TakingView {
                        session: awaited(after, true),
                        published: Some(stream_from(serving, queue, body)),
                    },
                    AnswerView { write: delivered, next: OutcomeView::Read },
                ),
                content_left(content, bytes),
            )
        },
    decreases bytes.len(),
{
    reveal(reads_all);
    let (heard, rest) = frame_in(bytes)->Ok_0;
    match content_takes(content, heard)->Ok_0 {
        ProgressView::Whole(_) => {},
        ProgressView::More(more) => {
            let next = TakingView {
                session: staged(taking.session, StageView::Content { queue, content: more }),
                ..taking
            };
            lemma_taking_reads_content(next, queue, more, rest, body);
            assert(staged(next.session, StageView::Serving) == staged(
                taking.session,
                StageView::Serving,
            ));
            lemma_nothing(reads_all(next, rest).1.write);
        },
    }
}

/// A send over a client that waits for `waiting`.
pub open spec fn sending_at(sending: SendingView, waiting: WaitingView) -> SendingView {
    SendingView { client: awaiting(sending.client, waiting), ..sending }
}

/// A send is greeted, and presents its login.
proof fn lemma_send_is_greeted(sending: SendingView)
    requires
        sending.client.waiting is Start,
        frameable(sending.client.login.user, sending.client.login.password),
    ensures
        reads_all(sending, method_bytes(start_method(), 0)) == (
            sending_at(sending, WaitingView::Tune),
            StepView {
                write: method_bytes(
                    start_ok_method(sending.client.login.user, sending.client.login.password),
                    0,
                ),
                next: NextView::Read,
            },
            Seq::<u8>::empty(),
        ),
{
    lemma_start_length(sending.client.login.user, sending.client.login.password);
    lemma_sending_reads_one(sending, start_method(), 0);
}

/// A send settles what the far end proposes, and opens its virtual host.
proof fn lemma_send_settles(sending: SendingView)
    requires
        sending.client.waiting is Tune,
        sending.client.frame_max == MAX_FRAME,
    ensures
        reads_all(
            sending,
            method_bytes(tune_method(CONNECTION_TUNE, 1, MAX_FRAME as u32), 0),
        ) == (
            sending_at(sending, WaitingView::OpenOk),
            StepView {
                write: method_bytes(tune_method(CONNECTION_TUNE_OK, 1, MAX_FRAME as u32), 0)
                    + method_bytes(open_method(sending.client.login.virtual_host), 0),
                next: NextView::Read,
            },
            Seq::<u8>::empty(),
        ),
{
    lemma_tune_length(CONNECTION_TUNE, 1, MAX_FRAME as u32);
    law_tune_round_trips(CONNECTION_TUNE, 1, MAX_FRAME as u32);
    lemma_sending_reads_one(sending, tune_method(CONNECTION_TUNE, 1, MAX_FRAME as u32), 0);
}

/// A send opens its channel, and declares its queue once it is open.
proof fn lemma_send_opens(sending: SendingView)
    ensures
        sending.client.waiting is OpenOk ==> reads_all(
            sending,
            method_bytes(open_ok_method(), 0),
        ) == (
            sending_at(sending, WaitingView::ChannelOpenOk),
            StepView { write: method_bytes(channel_open_method(), 1), next: NextView::Read },
            Seq::<u8>::empty(),
        ),
        sending.client.waiting is ChannelOpenOk ==> reads_all(
            sending,
            method_bytes(channel_open_ok_method(), 1),
        ) == (
            sending_at(sending, WaitingView::DeclareOk),
            StepView {
                write: method_bytes(declare_method(sending.queue), 1),
                next: NextView::Read,
            },
            Seq::<u8>::empty(),
        ),
{
    lemma_short_string_length(Seq::empty());
    lemma_width(0, 4);
    lemma_nothing(method_bytes(declare_method(sending.queue), 1));
    if sending.client.waiting is OpenOk {
        lemma_sending_reads_one(sending, open_ok_method(), 0);
    }
    if sending.client.waiting is ChannelOpenOk {
        lemma_sending_reads_one(sending, channel_open_ok_method(), 1);
    }
}

/// A send publishes and closes once its queue is declared.
proof fn lemma_send_publishes(sending: SendingView, messages: u32)
    requires
        sending.client.waiting is DeclareOk,
        nameable(sending.queue),
    ensures
        reads_all(sending, method_bytes(declare_ok_method(sending.queue, messages), 1)) == (
            sending_at(sending, WaitingView::ChannelCloseOk),
            StepView {
                write: published(sending.client, sending.queue, sending.body) + bye(),
                next: NextView::Read,
            },
            Seq::<u8>::empty(),
        ),
{
    let declared = declare_ok_method(sending.queue, messages);
    lemma_declare_length(sending.queue, messages);
    law_declare_ok_round_trips(sending.queue, messages);
    lemma_nothing(published(sending.client, sending.queue, sending.body));
    lemma_sending_reads_one(sending, declared, 1);
}

/// A send closes the connection once the channel is closed, and is done once
/// that is closed too.
proof fn lemma_send_closes(sending: SendingView)
    ensures
        sending.client.waiting is ChannelCloseOk ==> reads_all(
            sending,
            method_bytes(bare_of(CHANNEL_CLOSE_OK), 1),
        ) == (
            sending_at(sending, WaitingView::ConnectionCloseOk),
            StepView {
                write: method_bytes(close_method(CONNECTION_CLOSE, 200, "bye"@), 0),
                next: NextView::Read,
            },
            Seq::<u8>::empty(),
        ),
        sending.client.waiting is ConnectionCloseOk ==> reads_all(
            sending,
            method_bytes(bare_of(CONNECTION_CLOSE_OK), 0),
        ) == (
            sending_at(sending, WaitingView::Idle),
            StepView { write: Seq::empty(), next: NextView::Closed },
            Seq::<u8>::empty(),
        ),
{
    if sending.client.waiting is ChannelCloseOk {
        lemma_sending_reads_one(sending, bare_of(CHANNEL_CLOSE_OK), 1);
    }
    if sending.client.waiting is ConnectionCloseOk {
        lemma_sending_reads_one(sending, bare_of(CONNECTION_CLOSE_OK), 0);
    }
}

/// A take admits a client that presents the login that is expected, and
/// awaits what it publishes.
proof fn lemma_take_admits(taking: TakingView, login: LoginView)
    requires
        taking.session.stage is StartOk,
        taking.session.expected == login,
        presentable(login),
        nameable(login.virtual_host),
    ensures
        ({
            let tune_ok = method_bytes(tune_method(CONNECTION_TUNE_OK, 1, MAX_FRAME as u32), 0);
            let open = method_bytes(open_method(login.virtual_host), 0);
            let (tuning, tune, _) = reads_all(
                taking,
                method_bytes(start_ok_method(login.user, login.password), 0),
            );
            let (serving, open_ok, _) = reads_all(tuning, tune_ok + open);
            &&& tune == (AnswerView {
                write: method_bytes(tune_method(CONNECTION_TUNE, 1, MAX_FRAME as u32), 0),
                next: OutcomeView::Read,
            })
            &&& open_ok == (AnswerView {
                write: method_bytes(open_ok_method(), 0),
                next: OutcomeView::Read,
            })
            &&& serving == (TakingView {
                session: SessionView {
                    user: login.user,
                    virtual_host: login.virtual_host,
                    publishes_only: true,
                    stage: StageView::Serving,
                    ..taking.session
                },
                ..taking
            })
        }),
{
    let start_ok = start_ok_method(login.user, login.password);
    let tune_ok = tune_method(CONNECTION_TUNE_OK, 1, MAX_FRAME as u32);
    let open = open_method(login.virtual_host);
    let tuning = TakingView {
        session: SessionView {
            user: login.user,
            stage: StageView::TuneOk,
            ..taking.session
        },
        ..taking
    };
    let opening = TakingView { session: staged(tuning.session, StageView::Open), ..taking };
    lemma_login_is_heard(taking.session, login);
    lemma_reads_one(taking, start_ok, 0);
    lemma_tune_length(CONNECTION_TUNE_OK, 1, MAX_FRAME as u32);
    lemma_tune_ok_is_heard(tuning.session);
    lemma_reads_method(tuning, tune_ok, 0, method_bytes(open, 0));
    lemma_host_is_heard(opening.session, login.virtual_host);
    lemma_reads_one(opening, open, 0);
    lemma_nothing(reads_all(opening, method_bytes(open, 0)).1.write);
}

/// A take opens the channel and answers the declaration of a queue.
proof fn lemma_take_answers(taking: TakingView, queue: Seq<char>)
    requires
        taking.session.stage is Serving,
        taking.session.publishes_only,
        nameable(queue),
    ensures
        reads_all(taking, method_bytes(channel_open_method(), 1)) == (
            taking,
            AnswerView {
                write: method_bytes(channel_open_ok_method(), 1),
                next: OutcomeView::Read,
            },
            Seq::<u8>::empty(),
        ),
        reads_all(taking, method_bytes(declare_method(queue), 1)) == (
            taking,
            AnswerView {
                write: method_bytes(
                    declare_ok_method(
                        queue,
                        len32_of(held_under(taking.session.queues, queue).len()) as u32,
                    ),
                    1,
                ),
                next: OutcomeView::Read,
            },
            Seq::<u8>::empty(),
        ),
{
    lemma_short_string_length(Seq::empty());
    lemma_session_hears_its_method(taking.session, channel_open_method(), 1);
    lemma_reads_one(taking, channel_open_method(), 1);
    lemma_declare_length(queue, 0);
    law_declare_round_trips(queue);
    lemma_session_hears_its_method(taking.session, declare_method(queue), 1);
    lemma_reads_one(taking, declare_method(queue), 1);
}

/// A take keeps the first publish, and answers the close of the channel that
/// follows it.
proof fn lemma_take_keeps(
    taking: TakingView,
    client: ClientView,
    queue: Seq<char>,
    body: Seq<u8>,
)
    requires
        taking.session.stage is Serving,
        taking.session.publishes_only,
        taking.session.consumer is None,
        taking.published is None,
        framed(client),
        nameable(queue),
        body.len() <= MAX_BODY,
    ensures
        reads_all(taking, published(client, queue, body) + bye()) == (
            TakingView {
                session: session_delivers(taking.session, queue, body).0,
                published: Some(stream_from(taking.session, queue, body)),
            },
            AnswerView {
                write: method_bytes(bare_of(CHANNEL_CLOSE_OK), 1),
                next: OutcomeView::Read,
            },
            Seq::<u8>::empty(),
        ),
{
    let publish = publish_method(Seq::empty(), queue);
    let content = frames_bytes(content_frames(1, body, client.frame_max));
    let awaiting_content = TakingView {
        session: staged(
            taking.session,
            StageView::Content { queue, content: ContentView::Header },
        ),
        ..taking
    };
    let close = close_method(CHANNEL_CLOSE, 200, "bye"@);
    let kept = TakingView {
        session: session_delivers(taking.session, queue, body).0,
        published: Some(stream_from(taking.session, queue, body)),
    };
    is_ascii_chars_encode_utf8(Seq::empty());
    lemma_publish_length(Seq::empty(), queue);
    law_publish_round_trips(Seq::empty(), queue);
    lemma_grouped(method_bytes(publish, 1), content, bye());
    lemma_session_hears_its_method(taking.session, publish, 1);
    lemma_reads_method(taking, publish, 1, content + bye());
    law_content_round_trips(1, body, client.frame_max, bye());
    lemma_taking_reads_content(
        awaiting_content,
        queue,
        ContentView::Header,
        content + bye(),
        body,
    );
    assert(staged(awaiting_content.session, StageView::Serving) == taking.session);
    assert(awaited(kept.session, true) == kept.session);
    lemma_close_length(CHANNEL_CLOSE, 200, "bye"@);
    lemma_session_hears_its_method(kept.session, close, 1);
    lemma_reads_one(kept, close, 1);
    lemma_nothing(method_bytes(bare_of(CHANNEL_CLOSE_OK), 1));
}

/// A take that kept a publish comes to it when the client closes.
proof fn lemma_take_is_done(taking: TakingView)
    requires
        taking.session.stage is Serving,
        taking.published is Some,
    ensures
        reads_all(taking, method_bytes(close_method(CONNECTION_CLOSE, 200, "bye"@), 0)).1 == (
        AnswerView {
            write: method_bytes(bare_of(CONNECTION_CLOSE_OK), 0),
            next: OutcomeView::Happened(EventView::Published(taking.published->0)),
        }),
{
    let close = close_method(CONNECTION_CLOSE, 200, "bye"@);
    lemma_close_length(CONNECTION_CLOSE, 200, "bye"@);
    lemma_session_hears_its_method(taking.session, close, 0);
    lemma_reads_one(taking, close, 0);
}

/// What is sent is what is taken: a send to any target, taken by a far end
/// that expects the same login, ends with the payload whole, its origin
/// naming the client and the queue, and the send closed with nothing left to
/// say. For every queue whose name fits a short string and every payload
/// within the limit.
pub proof fn law_what_is_sent_is_taken(
    transport: TransportView,
    target: Seq<char>,
    body: Seq<u8>,
    peer: Seq<char>,
    port: u16,
)
    requires
        presentable(transport.login),
        nameable(transport.login.virtual_host),
        nameable(resolved(transport, target_in("rabbitmq"@, target), target).1),
        body.len() <= MAX_BODY,
    ensures
        ({
            let queue = resolved(transport, target_in("rabbitmq"@, target), target).1;
            let s0 = sending(transport, target, body);
            let (session, start) = session_greets(
                accepted(peer, port, transport.login),
                PROTOCOL_HEADER@,
            );
            let t0 = TakingView { session, published: None };
            let (s1, start_ok, _) = reads_all(s0, start.write);
            let (t1, tune, _) = reads_all(t0, start_ok.write);
            let (s2, open, _) = reads_all(s1, tune.write);
            let (t2, open_ok, _) = reads_all(t1, open.write);
            let (s3, channel, _) = reads_all(s2, open_ok.write);
            let (t3, channel_ok, _) = reads_all(t2, channel.write);
            let (s4, declare, _) = reads_all(s3, channel_ok.write);
            let (t4, declare_ok, _) = reads_all(t3, declare.write);
            let (s5, publish, _) = reads_all(s4, declare_ok.write);
            let (t5, close_ok, _) = reads_all(t4, publish.write);
            let (s6, close, _) = reads_all(s5, close_ok.write);
            let (_, taken, _) = reads_all(t5, close.write);
            let (_, sent, _) = reads_all(s6, taken.write);
            &&& taken.next == OutcomeView::Happened(
                EventView::Published(
                    ArrivedView { origin_uri: "rabbitmq://"@ + peer + "/"@ + queue, bytes: body },
                ),
            )
            &&& sent == (StepView { write: Seq::empty(), next: NextView::Closed })
        }),
{
    let queue = resolved(transport, target_in("rabbitmq"@, target), target).1;
    let login = transport.login;
    let s0 = sending(transport, target, body);
    let t0 = TakingView { session: accepted(peer, port, login), published: None };
    let t2 = TakingView {
        session: SessionView {
            user: login.user,
            virtual_host: login.virtual_host,
            publishes_only: true,
            stage: StageView::Serving,
            ..t0.session
        },
        published: None,
    };
    let s4 = sending_at(s0, WaitingView::DeclareOk);
    let t5 = TakingView {
        session: session_delivers(t2.session, queue, body).0,
        published: Some(stream_from(t2.session, queue, body)),
    };
    lemma_start_length(login.user, login.password);
    lemma_send_is_greeted(s0);
    lemma_take_admits(t0, login);
    lemma_send_settles(sending_at(s0, WaitingView::Tune));
    lemma_send_opens(sending_at(s0, WaitingView::OpenOk));
    lemma_take_answers(t2, queue);
    lemma_send_opens(sending_at(s0, WaitingView::ChannelOpenOk));
    lemma_send_publishes(s4, 0);
    lemma_take_keeps(t2, s4.client, queue, body);
    lemma_send_closes(sending_at(s0, WaitingView::ChannelCloseOk));
    lemma_take_is_done(t5);
    lemma_send_closes(sending_at(s0, WaitingView::ConnectionCloseOk));
}

/// A receive reads as its client does, does what it does about what that
/// comes to, and reads on.
proof fn lemma_receiving_reads_as_its_client(receiving: ReceivingView, bytes: Seq<u8>)
    ensures
        reads_all(receiving, bytes) == {
            let (client, step, left) = reads_all(receiving.client, bytes);
            follows(receiving_reacts(receiving, client, step), left)
        },
    decreases bytes.len(),
{
    reveal(reads_all);
    reveal(reads_all);
    if bytes.len() == 0 {
        lemma_nothing(Seq::empty());
    } else if frame_in(bytes) is Ok {
        let (heard, rest) = frame_in(bytes)->Ok_0;
        let (client, step) = client_hears(receiving.client, heard);
        if step.next is Read {
            let next = ReceivingView { client, ..receiving };
            let (last, later, left) = reads_all(client, rest);
            lemma_receiving_reads_as_its_client(next, rest);
            lemma_said_before(next, last, step.write, later, left);
        }
    }
}

/// What was said before what a receive does comes before all it says.
proof fn lemma_said_before(
    receiving: ReceivingView,
    client: ClientView,
    said: Seq<u8>,
    step: StepView,
    left: Seq<u8>,
)
    ensures
        ({
            let (last, later, rest) = follows(
                receiving_reacts(receiving, client, step),
                left,
            );
            follows(
                receiving_reacts(
                    receiving,
                    client,
                    StepView { write: said + step.write, next: step.next },
                ),
                left,
            ) == (last, StepView { write: said + later.write, next: later.next }, rest)
        }),
{
    let (after, reaction) = receiving_reacts(receiving, client, step);
    let later = reads_all(after, left).1;
    assert((said + step.write) + later.write =~= said + (step.write + later.write));
    let declare = method_bytes(declare_method(receiving.queue), 1);
    let consume = method_bytes(consume_method(receiving.queue, Seq::empty()), 1);
    lemma_grouped(said, step.write, declare);
    lemma_grouped(said, step.write, consume);
    lemma_grouped(said, reaction.write, later.write);
    if let NextView::Delivered(delivery) = step.next {
        lemma_grouped(said, step.write, method_bytes(ack_method(delivery.delivery_tag), 1));
    }
}

/// basic.ack of each of `count` tags, from the one after `last` on.
pub open spec fn acks(last: nat, count: nat) -> Seq<u8>
    decreases count,
{
    if count == 0 {
        Seq::empty()
    } else {
        method_bytes(ack_method((last + 1) as u64), 1) + acks(last + 1, (count - 1) as nat)
    }
}

/// Messages as the Streams they are received as, under the tags from the one
/// after `last` on.
pub open spec fn streams(
    broker: Seq<char>,
    queue: Seq<char>,
    last: nat,
    messages: Seq<Seq<u8>>,
) -> Seq<ArrivedView> {
    Seq::new(
        messages.len(),
        |i: int|
            ArrivedView {
                origin_uri: delivery_uri(broker, queue, (last + 1 + i) as u64),
                bytes: messages[i],
            },
    )
}

/// A receive that waits for deliveries takes all that are there, in order,
/// and acknowledges each.
proof fn lemma_receive_takes_all(
    receiving: ReceivingView,
    session: SessionView,
    messages: Seq<Seq<u8>>,
)
    requires
        receiving.client.waiting is Delivery,
        consumes(session, receiving.queue),
        reachable(session),
        session.delivery_tag + messages.len() <= u64::MAX,
        forall|i: int| 0 <= i < messages.len() ==> (#[trigger] messages[i]).len() <= MAX_BODY,
    ensures
        reads_all(
            receiving,
            session_delivers_all(session, receiving.queue, messages).1,
        ) == (
            ReceivingView {
                arrived: receiving.arrived + streams(
                    receiving.broker,
                    receiving.queue,
                    session.delivery_tag,
                    messages,
                ),
                ..receiving
            },
            StepView {
                write: acks(session.delivery_tag, messages.len()),
                next: NextView::Read,
            },
            Seq::<u8>::empty(),
        ),
    decreases messages.len(),
{
    let last = session.delivery_tag;
    let expected = streams(receiving.broker, receiving.queue, last, messages);
    if messages.len() == 0 {
        reveal(reads_all);
        assert(receiving.arrived + expected =~= receiving.arrived);
    } else {
        let (after, first) = session_delivers(session, receiving.queue, messages[0]);
        let others = session_delivers_all(after, receiving.queue, messages.skip(1)).1;
        let delivery_tag = (last + 1) as u64;
        let stream = ArrivedView {
            origin_uri: delivery_uri(receiving.broker, receiving.queue, delivery_tag),
            bytes: messages[0],
        };
        let next = ReceivingView { arrived: receiving.arrived.push(stream), ..receiving };
        law_delivery_arrives(session, receiving.client, receiving.queue, messages[0], others);
        lemma_receiving_reads_as_its_client(receiving, first + others);
        assert forall|i: int| 0 <= i < messages.skip(1).len() implies (#[trigger] messages.skip(
            1,
        )[i]).len() <= MAX_BODY by {
            assert(messages.skip(1)[i] == messages[i + 1]);
        }
        lemma_receive_takes_all(next, after, messages.skip(1));
        let later = streams(receiving.broker, receiving.queue, last + 1, messages.skip(1));
        assert(receiving.arrived.push(stream) + later =~= receiving.arrived + expected);
        lemma_nothing(method_bytes(ack_method(delivery_tag), 1));
    }
}

/// Tags that are acknowledged one after the other are reported one after the
/// other.
pub proof fn law_acks_are_reported_in_order(
    session: SessionView,
    last: nat,
    count: nat,
    rest: Seq<u8>,
)
    requires
        session.stage is Serving,
        !session.publishes_only,
    ensures
        session_events(session, acks(last, count) + rest, count) == Seq::new(
            count,
            |i: int| EventView::Acked((last + 1 + i) as u64),
        ),
    decreases count,
{
    let expected = Seq::new(count, |i: int| EventView::Acked((last + 1 + i) as u64));
    let reported = session_events(session, acks(last, count) + rest, count);
    if count > 0 {
        let first = method_bytes(ack_method((last + 1) as u64), 1);
        let others = acks(last + 1, (count - 1) as nat);
        lemma_grouped(first, others, rest);
        law_ack_is_reported(session, (last + 1) as u64, others + rest);
        law_acks_are_reported_in_order(session, last + 1, (count - 1) as nat, rest);
    }
    assert(reported =~= expected);
}

/// A receive over a client that waits for `waiting`.
pub open spec fn receiving_at(receiving: ReceivingView, waiting: WaitingView) -> ReceivingView {
    ReceivingView { client: awaiting(receiving.client, waiting), ..receiving }
}

/// A receive that reads one method its client makes nothing of yet.
proof fn lemma_receiving_passes(
    receiving: ReceivingView,
    bytes: Seq<u8>,
    client: ClientView,
    write: Seq<u8>,
)
    requires
        reads_all(receiving.client, bytes) == (
            client,
            StepView { write, next: NextView::Read },
            Seq::<u8>::empty(),
        ),
    ensures
        reads_all(receiving, bytes) == (
            ReceivingView { client, ..receiving },
            StepView { write, next: NextView::Read },
            Seq::<u8>::empty(),
        ),
{
    lemma_receiving_reads_as_its_client(receiving, bytes);
    lemma_nothing(write);
    reveal(reads_all);
}

/// A receive that reads the end of its handshake declares its queue, and one
/// that reads that it is declared consumes it.
proof fn lemma_receiving_goes_on(receiving: ReceivingView, bytes: Seq<u8>, next: NextView)
    requires
        next is Connected || next is Declared,
        reads_all(receiving.client, bytes) == (
            awaiting(receiving.client, WaitingView::Idle),
            StepView { write: Seq::empty(), next },
            Seq::<u8>::empty(),
        ),
    ensures
        reads_all(receiving, bytes) == (
            if next is Connected {
                (
                    receiving_at(receiving, WaitingView::DeclareOk),
                    StepView {
                        write: method_bytes(declare_method(receiving.queue), 1),
                        next: NextView::Read,
                    },
                    Seq::<u8>::empty(),
                )
            } else {
                (
                    receiving_at(receiving, WaitingView::ConsumeOk { queue: receiving.queue }),
                    StepView {
                        write: method_bytes(consume_method(receiving.queue, Seq::empty()), 1),
                        next: NextView::Read,
                    },
                    Seq::<u8>::empty(),
                )
            }
        ),
{
    lemma_receiving_reads_as_its_client(receiving, bytes);
    lemma_nothing(method_bytes(declare_method(receiving.queue), 1));
    lemma_nothing(method_bytes(consume_method(receiving.queue, Seq::empty()), 1));
    reveal(reads_all);
}

/// A receive that consumes takes what its queue held.
proof fn lemma_receive_drains(receiving: ReceivingView, session: SessionView)
    requires
        receiving.client.waiting == (WaitingView::ConsumeOk { queue: receiving.queue }),
        session.stage is Serving,
        !session.publishes_only,
        nameable(receiving.queue),
        session.delivery_tag + held_under(session.queues, receiving.queue).len() <= u64::MAX,
        forall|i: int|
            0 <= i < held_under(session.queues, receiving.queue).len() ==> (#[trigger] held_under(
                session.queues,
                receiving.queue,
            )[i]).len() <= MAX_BODY,
    ensures
        ({
            let queue = receiving.queue;
            let messages = held_under(session.queues, queue);
            let (after, delivered, _) = reads_all(
                session,
                method_bytes(consume_method(queue, Seq::empty()), 1),
            );
            let (received, acked, _) = reads_all(receiving, delivered.write);
            &&& delivered.next == OutcomeView::Happened(EventView::Consuming(queue))
            &&& after == (SessionView {
                consumer: Some(
                    ConsumerView { tag: tag_for(session, Seq::empty()), queue, channel: 1 },
                ),
                queues: session.queues.remove(queue),
                delivery_tag: session.delivery_tag + messages.len(),
                ..session
            })
            &&& received.client.waiting is Delivery
            &&& received.arrived == receiving.arrived + streams(
                receiving.broker,
                queue,
                session.delivery_tag,
                messages,
            )
            &&& acked == (StepView {
                write: acks(session.delivery_tag, messages.len()),
                next: NextView::Read,
            })
        }),
{
    let queue = receiving.queue;
    let messages = held_under(session.queues, queue);
    let said = method_bytes(consume_method(queue, Seq::empty()), 1);
    law_consuming_drains_the_queue(receiving.client, session, queue, Seq::empty());
    lemma_nothing(said);
    let (after, delivered, _) = reads_all(session, said);
    let (client, step, deliveries) = reads_all(receiving.client, delivered.write);
    let consumer = SessionView { delivery_tag: session.delivery_tag, ..after };
    let waiting = ReceivingView {
        client: awaiting(client, WaitingView::Delivery),
        ..receiving
    };
    lemma_port_length(session.port);
    lemma_receive_takes_all(waiting, consumer, messages);
    lemma_receiving_reads_as_its_client(receiving, delivered.write);
    lemma_nothing(acks(session.delivery_tag, messages.len()));
}

/// What is held is what is received: a receive from a session that expects
/// the same login and holds `queues` takes every message of its queue, whole
/// and in the order it came, as Streams whose origins name the broker, the
/// queue and tags that count from one; it acknowledges each, and waits for
/// more. The session no longer holds the queue, and holds the others as they
/// were. For every queue whose name fits a short string and messages within
/// the limit.
pub proof fn law_what_is_held_is_received(
    transport: TransportView,
    queues: Map<Seq<char>, Seq<Seq<u8>>>,
    peer: Seq<char>,
    port: u16,
)
    requires
        presentable(transport.login),
        nameable(transport.login.virtual_host),
        nameable(transport.queue),
        held_under(queues, transport.queue).len() <= u64::MAX,
        forall|i: int|
            0 <= i < held_under(queues, transport.queue).len() ==> (#[trigger] held_under(
                queues,
                transport.queue,
            )[i]).len() <= MAX_BODY,
    ensures
        ({
            let messages = held_under(queues, transport.queue);
            let r0 = receiving(transport);
            let (s0, start) = session_greets(
                accepted(peer, port, transport.login),
                PROTOCOL_HEADER@,
            );
            let (r1, start_ok, _) = reads_all(r0, start.write);
            let (s1, tune, _) = reads_all(s0, start_ok.write);
            let (r2, open, _) = reads_all(r1, tune.write);
            let (s2, open_ok, _) = reads_all(s1, open.write);
            let holding = SessionView { queues, ..s2 };
            let (r3, channel, _) = reads_all(r2, open_ok.write);
            let (s3, channel_ok, _) = reads_all(holding, channel.write);
            let (r4, declare, _) = reads_all(r3, channel_ok.write);
            let (s4, declare_ok, _) = reads_all(s3, declare.write);
            let (r5, consume, _) = reads_all(r4, declare_ok.write);
            let (s5, deliveries, _) = reads_all(s4, consume.write);
            let (r6, acked, _) = reads_all(r5, deliveries.write);
            &&& open_ok.next is Accepted
            &&& declare_ok.next == OutcomeView::Happened(EventView::Declared(transport.queue))
            &&& deliveries.next == OutcomeView::Happened(EventView::Consuming(transport.queue))
            &&& s5.queues == queues.remove(transport.queue)
            &&& r6.arrived == streams(transport.broker, transport.queue, 0, messages)
            &&& r6.client.waiting is Delivery
            &&& acked == (StepView { write: acks(0, messages.len()), next: NextView::Read })
        }),
{
    let login = transport.login;
    let messages = held_under(queues, transport.queue);
    let r0 = receiving(transport);
    let c0 = connecting(transport.broker, login);
    let s0 = accepted(peer, port, login);
    let s1 = SessionView { user: login.user, stage: StageView::TuneOk, ..s0 };
    let holding = SessionView {
        queues,
        virtual_host: login.virtual_host,
        stage: StageView::Serving,
        ..s1
    };
    let start_ok = start_ok_method(login.user, login.password);
    lemma_start_length(login.user, login.password);
    lemma_client_is_greeted(transport.broker, login);
    lemma_receiving_passes(
        r0,
        method_bytes(start_method(), 0),
        awaiting(c0, WaitingView::Tune),
        method_bytes(start_ok, 0),
    );
    lemma_login_is_heard(s0, login);
    lemma_reads_one(s0, start_ok, 0);
    lemma_client_settles(awaiting(c0, WaitingView::Tune));
    lemma_receiving_passes(
        receiving_at(r0, WaitingView::Tune),
        method_bytes(tune_method(CONNECTION_TUNE, 1, MAX_FRAME as u32), 0),
        awaiting(c0, WaitingView::OpenOk),
        method_bytes(tune_method(CONNECTION_TUNE_OK, 1, MAX_FRAME as u32), 0) + method_bytes(
            open_method(login.virtual_host),
            0,
        ),
    );
    lemma_host_is_read(s1, login.virtual_host);
    lemma_host_is_heard(staged(s1, StageView::Open), login.virtual_host);
    lemma_receive_opens(r0, holding);
    law_declare_counts_what_is_held(
        awaiting(c0, WaitingView::DeclareOk),
        holding,
        transport.queue,
        Seq::empty(),
    );
    lemma_nothing(method_bytes(declare_method(transport.queue), 1));
    let declare_ok = reads_all(
        holding,
        method_bytes(declare_method(transport.queue), 1),
    ).1;
    lemma_receiving_goes_on(
        receiving_at(r0, WaitingView::DeclareOk),
        declare_ok.write,
        NextView::Declared(len32_of(messages.len()) as u32),
    );
    lemma_receive_drains(
        receiving_at(r0, WaitingView::ConsumeOk { queue: transport.queue }),
        holding,
    );
    let received = streams(transport.broker, transport.queue, 0, messages);
    assert(Seq::<ArrivedView>::empty() + received =~= received);
}

/// A receive opens its channel with a session that serves it, and declares
/// its queue once it is open.
proof fn lemma_receive_opens(receiving: ReceivingView, session: SessionView)
    requires
        session.stage is Serving,
    ensures
        ({
            let opened = receiving_at(receiving, WaitingView::OpenOk);
            let (waiting, channel, _) = reads_all(
                opened,
                method_bytes(open_ok_method(), 0),
            );
            let (after, channel_ok, _) = reads_all(session, channel.write);
            &&& after == session
            &&& channel_ok.next is Read
            &&& reads_all(waiting, channel_ok.write) == (
                receiving_at(receiving, WaitingView::DeclareOk),
                StepView {
                    write: method_bytes(declare_method(receiving.queue), 1),
                    next: NextView::Read,
                },
                Seq::<u8>::empty(),
            )
        }),
{
    let opened = receiving_at(receiving, WaitingView::OpenOk);
    let waiting = receiving_at(receiving, WaitingView::ChannelOpenOk);
    let channel = method_bytes(channel_open_method(), 1);
    let channel_ok = method_bytes(channel_open_ok_method(), 1);
    lemma_short_string_length(Seq::empty());
    lemma_width(0, 4);
    lemma_client_reads_one(opened.client, open_ok_method(), 0);
    lemma_receiving_passes(
        opened,
        method_bytes(open_ok_method(), 0),
        waiting.client,
        channel,
    );
    lemma_session_reads_method(session, channel_open_method(), 1, Seq::empty());
    lemma_reads_nothing(session);
    lemma_nothing(channel);
    lemma_nothing(channel_ok);
    lemma_client_reads_one(waiting.client, channel_open_ok_method(), 1);
    lemma_receiving_goes_on(waiting, channel_ok, NextView::Connected);
}

} // verus!
