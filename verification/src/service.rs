//! What a session says to everything its client may say, down to the
//! octets: who is let in, what is answered and on which channel, what is
//! delivered, and what is reported.

use vstd::prelude::*;
use vstd::string::*;
use vstd::utf8::{encode_utf8, is_ascii_chars_encode_utf8};

use crate::arrived::ArrivedView;
use crate::client::LoginView;
use crate::content::{content_takes, ContentView, ProgressView};
use crate::error::{refusal, ErrorView};
use crate::laws::lemma_session_hears_its_method;
use crate::layout::{
    law_close_is_laid_out, law_consume_ok_is_laid_out, law_declare_ok_is_laid_out,
    law_methods_are_their_octets, law_open_is_laid_out, law_start_is_laid_out, law_tune_is_laid_out,
    one_method,
};
use crate::ledger::consume_heard;
use crate::method::{
    bare_of, channel_open_ok_method, close_method, consume_in, consume_ok_method, declare_ok_method,
    delivery_tag_in, frame_of_method, lemma_close_length, lemma_declare_length, login_in,
    method_bytes, method_in, open_ok_method, publish_in, queue_in, start_method, tune_method,
    virtual_host_in, MethodView, CHANNEL_CLOSE_OK, CONNECTION_CLOSE, CONNECTION_CLOSE_OK,
    CONNECTION_OPEN, CONNECTION_START_OK, CONNECTION_TUNE, CONNECTION_TUNE_OK,
};
use crate::octets::{
    law_heartbeats_are_empty, law_lengths_saturate, law_the_header_is_amqp, long_at, short_at,
    text_at, text_length,
};
use crate::queues::held_under;
use crate::reading::{
    law_methods_are_read, law_queue_arguments_are_read, law_unreadable_arguments_are_permanent,
};
use crate::session::{
    accepted, awaited, consumes, expected_in, lemma_consuming_counts, lemma_delivering_keeps,
    session_delivers, session_delivers_all, session_greets, session_hears, staged, tag_for,
    tag_left, tags_last, AnswerView, ConsumerView, EventView, OutcomeView, SessionView, StageView,
};
use crate::text::decimal;
use crate::transport::{taking_hears, TakingView};
use crate::wire::{big_endian, len32_of, short_string_bytes, FrameView, Kind, MAX_FRAME};

verus! {

/// A session greets a client that opens with `AMQP` 0-0-9-1, and that alone:
/// connection.start on channel 0, and reads on. To anything else it says what
/// it speaks, and is over for good.
pub proof fn law_only_amqp_is_greeted(session: SessionView, header: Seq<u8>)
    ensures
        ({
            let known = encode_utf8("AMQP"@) + seq![0u8, 0u8, 9u8, 1u8];
            let (after, answer) = session_greets(session, header);
            if header == known {
                &&& after == session
                &&& answer.next is Read
                &&& one_method(answer.write, 0, 10, 10, start_method().arguments)
            } else {
                &&& after == staged(session, StageView::Over)
                &&& answer.write == known
                &&& answer.next matches OutcomeView::Failed(error) && !error.retryable
            }
        }),
{
    law_the_header_is_amqp();
    law_start_is_laid_out();
    law_methods_are_their_octets(start_method(), 0);
}

/// A session that is accepted knows its client's address and port and the
/// login it expects, and holds nothing yet.
pub proof fn law_sessions_start_empty(peer: Seq<char>, port: u16, expected: LoginView)
    ensures
        ({
            let session = accepted(peer, port, expected);
            &&& session.peer == peer
            &&& session.port == port
            &&& session.expected == expected
            &&& session.user.len() == 0
            &&& session.virtual_host.len() == 0
            &&& session.queues == Map::<Seq<char>, Seq<Seq<u8>>>::empty()
            &&& session.consumer is None
            &&& session.delivery_tag == 0
            &&& !session.publishes_only
            &&& session.stage is StartOk
        }),
{
}

/// Whether a frame is the method of that class and number on channel 0.
pub open spec fn says(heard: Option<FrameView>, class: u16, number: u16) -> bool {
    &&& heard is Some
    &&& heard->0.kind == Kind::Method
    &&& heard->0.channel == 0
    &&& heard->0.payload.len() >= 4
    &&& short_at(heard->0.payload, 0) == class
    &&& short_at(heard->0.payload, 2) == number
}

/// The method that is expected is the one that is taken, with what follows
/// its class and number. Anything else is a permanent failure that says what
/// was expected and what came: nothing more, a method by its numbers, or a
/// frame by its kind and channel.
pub proof fn law_what_is_not_expected_is_named(
    heard: Option<FrameView>,
    id: (u16, u16),
    what: Seq<char>,
)
    ensures
        ({
            let expected = expected_in(heard, id, what);
            if says(heard, id.0, id.1) {
                expected == Ok::<MethodView, ErrorView>(
                    MethodView { id, arguments: heard->0.payload.skip(4) },
                )
            } else {
                expected matches Err(error) && !error.retryable && (match heard {
                    None => error.message == "the client closed before "@ + what,
                    Some(frame) => if frame.kind == Kind::Method && frame.channel == 0 {
                        frame.payload.len() >= 4 ==> error.message == "method "@ + decimal(
                            short_at(frame.payload, 0) as nat,
                        ) + seq!['.'] + decimal(short_at(frame.payload, 2) as nat) + " where "@
                            + what + " was expected"@
                    } else {
                        let kind = match frame.kind {
                            Kind::Method => "Method"@,
                            Kind::Header => "Header"@,
                            Kind::Body => "Body"@,
                            Kind::Heartbeat => "Heartbeat"@,
                        };
                        error.message == "a "@ + kind + " frame on channel "@ + decimal(
                            frame.channel as nat,
                        ) + " where "@ + what + " was expected"@
                    },
                })
            }
        }),
{
    if let Some(frame) = heard {
        law_methods_are_read(frame);
        reveal_strlit(".");
        assert("."@ =~= seq!['.']);
        let class = decimal(short_at(frame.payload, 0) as nat);
        let number = decimal(short_at(frame.payload, 2) as nat);
        assert("method "@ + (class + seq!['.'] + number) =~= "method "@ + class + seq!['.']
            + number);
    }
}

/// Whether what is said is connection.close on channel 0 with that code and
/// text.
pub open spec fn closes_with(said: Seq<u8>, code: u16, text: Seq<char>) -> bool {
    let octets = said.subrange(11, said.len() - 1);
    &&& one_method(said, 0, 10, 50, octets)
    &&& short_at(octets, 0) == code
    &&& text_at(octets, 2, text)
    &&& octets.skip(3 + text_length(text)) == seq![0u8, 0u8, 0u8, 0u8]
}

/// A close that is written closes with its code and text.
proof fn lemma_closes_with(code: u16, text: Seq<char>)
    ensures
        closes_with(method_bytes(close_method(CONNECTION_CLOSE, code, text), 0), code, text),
{
    let close = close_method(CONNECTION_CLOSE, code, text);
    let said = method_bytes(close, 0);
    law_close_is_laid_out(CONNECTION_CLOSE, code, text);
    lemma_close_length(CONNECTION_CLOSE, code, text);
    law_methods_are_their_octets(close, 0);
    assert(said.subrange(11, said.len() - 1) =~= close.arguments);
}

/// A client passes the login exactly where it says connection.start-ok on
/// channel 0 and both its user and its password are the expected ones, to the
/// character: it is remembered, and told one channel, the frame limit and no
/// heartbeat. Any other login is closed on with 403; anything else is left
/// unanswered. Either way the session is over, for good.
pub proof fn law_logins_are_checked(session: SessionView, heard: Option<FrameView>)
    requires
        session.stage is StartOk,
    ensures
        ({
            let (after, answer) = session_hears(session, heard);
            let presented = login_in(heard->0.payload.skip(4));
            if says(heard, 10, 11) && presented == Ok::<(Seq<char>, Seq<char>), ErrorView>(
                (session.expected.user, session.expected.password),
            ) {
                let octets = answer.write.subrange(11, 19);
                &&& after == (SessionView {
                    user: session.expected.user,
                    stage: StageView::TuneOk,
                    ..session
                })
                &&& answer.next is Read
                &&& one_method(answer.write, 0, 10, 30, octets)
                &&& short_at(octets, 0) == 1
                &&& long_at(octets, 2) == 0x10_0000
                &&& short_at(octets, 6) == 0
            } else {
                &&& after == staged(session, StageView::Over)
                &&& answer.next matches OutcomeView::Failed(error) && !error.retryable
                &&& if says(heard, 10, 11) && presented is Ok {
                    closes_with(answer.write, 403, "ACCESS_REFUSED - login was refused"@)
                } else {
                    answer.write.len() == 0
                }
                &&& says(heard, 10, 11) && presented is Err ==> answer.next
                    == OutcomeView::Failed(presented->Err_0)
                &&& !says(heard, 10, 11) ==> answer.next == OutcomeView::Failed(
                    expected_in(heard, (10, 11), "connection.start-ok"@)->Err_0,
                )
            }
        }),
{
    let (after, answer) = session_hears(session, heard);
    let tune = tune_method(CONNECTION_TUNE, 1, MAX_FRAME as u32);
    law_what_is_not_expected_is_named(heard, CONNECTION_START_OK, "connection.start-ok"@);
    law_unreadable_arguments_are_permanent(heard->0.payload.skip(4));
    law_tune_is_laid_out(CONNECTION_TUNE, 1, MAX_FRAME as u32);
    law_methods_are_their_octets(tune, 0);
    lemma_closes_with(403, "ACCESS_REFUSED - login was refused"@);
    assert(method_bytes(tune, 0).subrange(11, 19) =~= tune.arguments);
}

/// connection.tune-ok on channel 0 is taken as it is, with nothing said;
/// anything else ends the session for good.
pub proof fn law_tune_ok_is_awaited(session: SessionView, heard: Option<FrameView>)
    requires
        session.stage is TuneOk,
    ensures
        ({
            let (after, answer) = session_hears(session, heard);
            &&& answer.write.len() == 0
            &&& if says(heard, 10, 31) {
                after == staged(session, StageView::Open) && answer.next is Read
            } else {
                &&& after == staged(session, StageView::Over)
                &&& answer.next == OutcomeView::Failed(
                    expected_in(heard, (10, 31), "connection.tune-ok"@)->Err_0,
                )
            }
        }),
{
    law_what_is_not_expected_is_named(heard, CONNECTION_TUNE_OK, "connection.tune-ok"@);
}

/// A client is accepted exactly where it says connection.open on channel 0
/// and names the expected virtual host, and is told so on channel 0. Another
/// one is closed on with 530; anything else is left unanswered. Either way
/// the session is over, for good.
pub proof fn law_hosts_are_checked(session: SessionView, heard: Option<FrameView>)
    requires
        session.stage is Open,
    ensures
        ({
            let (after, answer) = session_hears(session, heard);
            let text = "NOT_ALLOWED - access to the virtual host was refused"@;
            let named = virtual_host_in(heard->0.payload.skip(4));
            if says(heard, 10, 40) && named is Ok {
                let virtual_host = named->Ok_0;
                if virtual_host == session.expected.virtual_host {
                    &&& after == (SessionView {
                        virtual_host,
                        stage: StageView::Serving,
                        ..session
                    })
                    &&& answer.next is Accepted
                    &&& one_method(answer.write, 0, 10, 41, seq![0u8])
                } else {
                    &&& after == (SessionView { virtual_host, stage: StageView::Over, ..session })
                    &&& answer.next matches OutcomeView::Failed(error) && !error.retryable
                    &&& closes_with(answer.write, 530, text)
                }
            } else {
                &&& after == staged(session, StageView::Over)
                &&& answer.write.len() == 0
                &&& answer.next matches OutcomeView::Failed(error) && !error.retryable
                &&& says(heard, 10, 40) ==> answer.next == OutcomeView::Failed(named->Err_0)
                &&& !says(heard, 10, 40) ==> answer.next == OutcomeView::Failed(
                    expected_in(heard, (10, 40), "connection.open"@)->Err_0,
                )
            }
        }),
{
    law_what_is_not_expected_is_named(heard, CONNECTION_OPEN, "connection.open"@);
    law_unreadable_arguments_are_permanent(heard->0.payload.skip(4));
    law_open_is_laid_out(session.expected.virtual_host);
    law_methods_are_their_octets(open_ok_method(), 0);
    lemma_closes_with(530, "NOT_ALLOWED - access to the virtual host was refused"@);
}

/// How far a session has come changes nothing else about it.
pub proof fn law_stages_change_nothing_else(session: SessionView, stage: StageView)
    ensures
        ({
            let after = staged(session, stage);
            &&& after.stage == stage
            &&& after.peer == session.peer
            &&& after.port == session.port
            &&& after.expected == session.expected
            &&& after.user == session.user
            &&& after.virtual_host == session.virtual_host
            &&& after.queues == session.queues
            &&& after.consumer == session.consumer
            &&& after.delivery_tag == session.delivery_tag
            &&& after.publishes_only == session.publishes_only
        }),
{
}

/// A session that is over lets everything pass, and stays over.
pub proof fn law_what_is_over_stays_over(session: SessionView, heard: Option<FrameView>)
    requires
        session.stage is Over,
    ensures
        session_hears(session, heard) == (
            session,
            AnswerView { write: Seq::empty(), next: OutcomeView::Read },
        ),
{
}

/// A served client that opens a channel is answered on that channel; one that
/// closes a channel is answered there and consumes no more; one that closes
/// the connection is answered on channel 0 and gone: whatever each carries.
pub proof fn law_opens_and_closes_are_answered(
    session: SessionView,
    channel: u16,
    arguments: Seq<u8>,
)
    requires
        session.stage is Serving,
    ensures
        ({
            let heard = MethodView { id: (20, 10), arguments };
            let (after, answer) = session_hears(session, Some(frame_of_method(heard, channel)));
            &&& after == session
            &&& answer.next is Read
            &&& one_method(answer.write, channel, 20, 11, seq![0u8, 0u8, 0u8, 0u8])
        }),
        ({
            let heard = MethodView { id: (20, 40), arguments };
            let (after, answer) = session_hears(session, Some(frame_of_method(heard, channel)));
            &&& after == (SessionView { consumer: None, ..session })
            &&& answer.next is Read
            &&& one_method(answer.write, channel, 20, 41, Seq::empty())
        }),
        ({
            let heard = MethodView { id: (10, 50), arguments };
            let (after, answer) = session_hears(session, Some(frame_of_method(heard, channel)));
            &&& after == session
            &&& answer.next is Gone
            &&& one_method(answer.write, 0, 10, 51, Seq::empty())
        }),
{
    lemma_session_hears_its_method(session, MethodView { id: (20, 10), arguments }, channel);
    lemma_session_hears_its_method(session, MethodView { id: (20, 40), arguments }, channel);
    lemma_session_hears_its_method(session, MethodView { id: (10, 50), arguments }, channel);
    law_open_is_laid_out(Seq::empty());
    law_methods_are_their_octets(channel_open_ok_method(), channel);
    law_methods_are_their_octets(bare_of(CHANNEL_CLOSE_OK), channel);
    law_methods_are_their_octets(bare_of(CONNECTION_CLOSE_OK), 0);
}

/// A served client that goes away is gone with nothing said; a heartbeat is
/// answered with one; content with no publish before it, and a method frame
/// too short to name one, fail for good with nothing said. None of them
/// changes the session.
pub proof fn law_other_frames_change_nothing(session: SessionView, heard: Option<FrameView>)
    requires
        session.stage is Serving,
        heard is Some && heard->0.kind == Kind::Method ==> heard->0.payload.len() < 4,
    ensures
        ({
            let (after, answer) = session_hears(session, heard);
            &&& after == session
            &&& match heard {
                None => answer.write.len() == 0 && answer.next is Gone,
                Some(frame) => if frame.kind == Kind::Heartbeat {
                    &&& answer.write == seq![8u8, 0u8, 0u8, 0u8, 0u8, 0u8, 0u8, 0xCEu8]
                    &&& answer.next is Read
                } else {
                    &&& answer.write.len() == 0
                    &&& answer.next == OutcomeView::Failed(
                        refusal(
                            if frame.kind == Kind::Method {
                                "a method that ends before its arguments do"@
                            } else {
                                "content with no publish before it"@
                            },
                        ),
                    )
                },
            }
        }),
{
    law_heartbeats_are_empty();
    if let Some(frame) = heard {
        law_methods_are_read(frame);
    }
}

/// A served client that declares a queue, whatever else it asks of it, is
/// told on its channel the queue's name and how many messages it holds, and
/// no consumers; nothing changes.
pub proof fn law_declarations_are_answered(
    session: SessionView,
    channel: u16,
    ticket: u16,
    queue: Seq<char>,
    rest: Seq<u8>,
)
    requires
        session.stage is Serving,
        !session.publishes_only,
        encode_utf8(queue).len() <= 255,
    ensures
        ({
            let arguments = big_endian(ticket as nat, 2) + (short_string_bytes(queue) + rest);
            let heard = MethodView { id: (50, 10), arguments };
            let (after, answer) = session_hears(session, Some(frame_of_method(heard, channel)));
            let octets = answer.write.subrange(11, answer.write.len() - 1);
            let end = 1 + text_length(queue);
            let held = if session.queues.dom().contains(queue) {
                session.queues[queue].len()
            } else {
                0
            };
            &&& after == session
            &&& answer.next == OutcomeView::Happened(EventView::Declared(queue))
            &&& one_method(answer.write, channel, 50, 11, octets)
            &&& text_at(octets, 0, queue)
            &&& octets.len() == end + 8
            &&& held <= u32::MAX ==> long_at(octets, end) == held
            &&& long_at(octets, end + 4) == 0
        }),
{
    let arguments = big_endian(ticket as nat, 2) + (short_string_bytes(queue) + rest);
    let heard = MethodView { id: (50, 10), arguments };
    let held = len32_of(held_under(session.queues, queue).len()) as u32;
    let said = method_bytes(declare_ok_method(queue, held), channel);
    lemma_session_hears_its_method(session, heard, channel);
    is_ascii_chars_encode_utf8(Seq::empty());
    law_queue_arguments_are_read(ticket, 0, queue, Seq::empty(), rest);
    law_lengths_saturate(held_under(session.queues, queue).len());
    law_declare_ok_is_laid_out(queue, held);
    lemma_declare_length(queue, held);
    law_methods_are_their_octets(declare_ok_method(queue, held), channel);
    assert(said.subrange(11, said.len() - 1) =~= declare_ok_method(queue, held).arguments);
}

/// A served client that consumes a queue, whatever else it asks of it, is
/// told its tag on its channel: the one it asked for, or `xmip.` and its port
/// in decimal where it asked for none. It is the consumer from here on, on
/// that channel, the queue is taken out, and what follows is what giving all
/// of it says, a tag for each message.
pub proof fn law_consumers_are_answered(
    session: SessionView,
    channel: u16,
    ticket: u16,
    queue: Seq<char>,
    asked: Seq<char>,
    rest: Seq<u8>,
)
    requires
        session.stage is Serving,
        !session.publishes_only,
        encode_utf8(queue).len() <= 255,
        encode_utf8(asked).len() <= 255,
    ensures
        ({
            let arguments = big_endian(ticket as nat, 2) + (short_string_bytes(queue) + (
            short_string_bytes(asked) + rest));
            let heard = MethodView { id: (60, 20), arguments };
            let (after, answer) = session_hears(session, Some(frame_of_method(heard, channel)));
            let tag = if asked.len() == 0 {
                "xmip."@ + decimal(session.port as nat)
            } else {
                asked
            };
            let held = if session.queues.dom().contains(queue) {
                session.queues[queue]
            } else {
                Seq::empty()
            };
            let consuming = SessionView {
                consumer: Some(ConsumerView { tag, queue, channel }),
                queues: session.queues.remove(queue),
                ..session
            };
            let end = 13 + text_length(tag);
            let octets = answer.write.subrange(11, end - 1);
            &&& after == (SessionView {
                delivery_tag: session.delivery_tag + held.len(),
                ..consuming
            })
            &&& answer.next == OutcomeView::Happened(EventView::Consuming(queue))
            &&& one_method(answer.write.take(end), channel, 60, 21, octets)
            &&& text_at(octets, 0, tag)
            &&& answer.write.skip(end) == session_delivers_all(consuming, queue, held).1
        }),
{
    let arguments = big_endian(ticket as nat, 2) + (short_string_bytes(queue) + (
    short_string_bytes(asked) + rest));
    let heard = MethodView { id: (60, 20), arguments };
    let answer = session_hears(session, Some(frame_of_method(heard, channel))).1;
    let tag = tag_for(session, asked);
    let held = held_under(session.queues, queue);
    let consuming = SessionView {
        consumer: Some(ConsumerView { tag, queue, channel }),
        queues: session.queues.remove(queue),
        ..session
    };
    let said = method_bytes(consume_ok_method(tag), channel);
    let end = 13 + text_length(tag);
    lemma_session_hears_its_method(session, heard, channel);
    law_queue_arguments_are_read(ticket, 0, queue, asked, rest);
    law_consume_ok_is_laid_out(tag);
    law_methods_are_their_octets(consume_ok_method(tag), channel);
    lemma_delivering_keeps(consuming, queue, held);
    assert(answer.write.take(end) =~= said);
    assert(answer.write.skip(end) =~= session_delivers_all(consuming, queue, held).1);
    assert(answer.write.subrange(11, end - 1) =~= said.subrange(11, end - 1));
}

/// A served client that publishes has its content awaited on the queue that
/// is the routing key, or the exchange, a slash and the routing key where it
/// names an exchange; nothing is said yet and nothing else changes.
pub proof fn law_publishes_await_their_content(
    session: SessionView,
    channel: u16,
    ticket: u16,
    exchange: Seq<char>,
    routing_key: Seq<char>,
    rest: Seq<u8>,
)
    requires
        session.stage is Serving,
        encode_utf8(exchange).len() <= 255,
        encode_utf8(routing_key).len() <= 255,
    ensures
        ({
            let arguments = big_endian(ticket as nat, 2) + (short_string_bytes(exchange) + (
            short_string_bytes(routing_key) + rest));
            let heard = MethodView { id: (60, 40), arguments };
            let queue = if exchange.len() == 0 {
                routing_key
            } else {
                exchange + seq!['/'] + routing_key
            };
            session_hears(session, Some(frame_of_method(heard, channel))) == (
                staged(session, StageView::Content { queue, content: ContentView::Header }),
                AnswerView { write: Seq::empty(), next: OutcomeView::Read },
            )
        }),
{
    let arguments = big_endian(ticket as nat, 2) + (short_string_bytes(exchange) + (
    short_string_bytes(routing_key) + rest));
    reveal_strlit("/");
    assert("/"@ =~= seq!['/']);
    lemma_session_hears_its_method(session, MethodView { id: (60, 40), arguments }, channel);
    law_queue_arguments_are_read(ticket, 0, exchange, routing_key, rest);
}

/// The content of a publish is taken piece by piece with nothing said; once
/// it is whole it is given on its queue, what that says is said, and it is
/// reported as a Stream of exactly that body from `rabbitmq://`, the client's
/// address, a slash and the queue, whether or not only publishes are
/// reported. What is no content fails as it does, and the client is served
/// again.
pub proof fn law_published_content_is_given(
    session: SessionView,
    queue: Seq<char>,
    content: ContentView,
    heard: Option<FrameView>,
)
    requires
        session.stage == (StageView::Content { queue, content }),
    ensures
        ({
            let (after, answer) = session_hears(session, heard);
            let serving = staged(session, StageView::Serving);
            match content_takes(content, heard) {
                Ok(ProgressView::Whole(body)) => {
                    let (given, said) = session_delivers(serving, queue, body);
                    &&& after == given
                    &&& answer.write == said
                    &&& answer.next == OutcomeView::Happened(
                        EventView::Published(
                            ArrivedView {
                                origin_uri: "rabbitmq://"@ + session.peer + seq!['/'] + queue,
                                bytes: body,
                            },
                        ),
                    )
                },
                Ok(ProgressView::More(more)) => {
                    &&& after == staged(session, StageView::Content { queue, content: more })
                    &&& answer.write.len() == 0
                    &&& answer.next is Read
                },
                Err(error) => {
                    &&& after == serving
                    &&& answer.write.len() == 0
                    &&& answer.next == OutcomeView::Failed(error)
                },
            }
        }),
{
    reveal_strlit("/");
    assert("/"@ =~= seq!['/']);
}

/// A served client that acknowledges a delivery, on any channel and of one or
/// of many, is reported by the tag it names; nothing is said and nothing
/// changes.
pub proof fn law_acknowledgements_are_reported(
    session: SessionView,
    channel: u16,
    delivery_tag: u64,
    rest: Seq<u8>,
)
    requires
        session.stage is Serving,
        !session.publishes_only,
    ensures
        ({
            let arguments = big_endian(delivery_tag as nat, 8) + rest;
            let heard = MethodView { id: (60, 80), arguments };
            session_hears(session, Some(frame_of_method(heard, channel))) == (
                session,
                AnswerView {
                    write: Seq::empty(),
                    next: OutcomeView::Happened(EventView::Acked(delivery_tag)),
                },
            )
        }),
{
    let arguments = big_endian(delivery_tag as nat, 8) + rest;
    let nobody = Seq::<char>::empty();
    is_ascii_chars_encode_utf8(nobody);
    lemma_session_hears_its_method(session, MethodView { id: (60, 80), arguments }, channel);
    law_queue_arguments_are_read(0, delivery_tag, nobody, nobody, rest);
}

/// A served method whose arguments cannot be read fails for good, with
/// nothing said and nothing changed.
pub proof fn law_unreadable_methods_change_nothing(
    session: SessionView,
    channel: u16,
    method: MethodView,
)
    requires
        session.stage is Serving,
        ({
            ||| method.id == (50u16, 10u16) && queue_in(method.arguments) is Err
            ||| method.id == (60u16, 20u16) && consume_in(method.arguments) is Err
            ||| method.id == (60u16, 40u16) && publish_in(method.arguments) is Err
            ||| method.id == (60u16, 80u16) && delivery_tag_in(method.arguments) is Err
        }),
    ensures
        ({
            let (after, answer) = session_hears(session, Some(frame_of_method(method, channel)));
            &&& after == session
            &&& answer.write.len() == 0
            &&& answer.next matches OutcomeView::Failed(error) && !error.retryable
        }),
{
    lemma_session_hears_its_method(session, method, channel);
    law_unreadable_arguments_are_permanent(method.arguments);
}

/// A method that is not served, whatever its class and number, is closed on
/// with 540 on channel 0, and fails for good with nothing changed.
pub proof fn law_unserved_methods_are_closed_on(
    session: SessionView,
    channel: u16,
    method: MethodView,
)
    requires
        session.stage is Serving,
        method.id != (10u16, 50u16),
        method.id != (20u16, 10u16),
        method.id != (20u16, 40u16),
        method.id != (50u16, 10u16),
        method.id != (60u16, 20u16),
        method.id != (60u16, 40u16),
        method.id != (60u16, 80u16),
    ensures
        ({
            let (after, answer) = session_hears(session, Some(frame_of_method(method, channel)));
            &&& after == session
            &&& closes_with(answer.write, 540, "NOT_IMPLEMENTED"@)
            &&& answer.next matches OutcomeView::Failed(error) && !error.retryable
        }),
{
    lemma_session_hears_its_method(session, method, channel);
    lemma_closes_with(540, "NOT_IMPLEMENTED"@);
}

/// The same session, reporting everything or only what is published.
pub open spec fn reporting(session: SessionView, publishes_only: bool) -> SessionView {
    SessionView { publishes_only, ..session }
}

/// What is given one after the other does not turn on what is reported.
proof fn lemma_giving_is_the_same(
    session: SessionView,
    queue: Seq<char>,
    messages: Seq<Seq<u8>>,
    publishes_only: bool,
)
    ensures
        ({
            let (after, said) = session_delivers_all(session, queue, messages);
            session_delivers_all(reporting(session, publishes_only), queue, messages) == (
                reporting(after, publishes_only),
                said,
            )
        }),
    decreases messages.len(),
{
    if messages.len() > 0 {
        let after = session_delivers(session, queue, messages[0]).0;
        lemma_giving_is_the_same(after, queue, messages.skip(1), publishes_only);
    }
}

/// Reporting only what is published changes nothing but what is reported: a
/// session says the same, holds the same and comes as far, whatever it hears.
/// What the client does is then passed over where it is no publish, and all
/// else is reported alike.
pub proof fn law_reporting_less_changes_nothing_else(
    session: SessionView,
    heard: Option<FrameView>,
)
    ensures
        ({
            let (after, answer) = session_hears(reporting(session, false), heard);
            let (quiet, less) = session_hears(reporting(session, true), heard);
            &&& quiet == reporting(after, true)
            &&& less.write == answer.write
            &&& less.next == match answer.next {
                OutcomeView::Happened(EventView::Published(arrived)) => answer.next,
                OutcomeView::Happened(_) => OutcomeView::Read,
                _ => answer.next,
            }
        }),
{
    if let Some(frame) = heard {
        if let Ok(method) = method_in(frame) {
            if let Ok((queue, asked)) = consume_in(method.arguments) {
                let held = held_under(session.queues, queue);
                let consuming = SessionView {
                    consumer: Some(
                        ConsumerView {
                            tag: tag_for(session, asked),
                            queue,
                            channel: frame.channel,
                        },
                    ),
                    queues: session.queues.remove(queue),
                    publishes_only: false,
                    ..session
                };
                lemma_giving_is_the_same(consuming, queue, held, true);
                lemma_giving_is_the_same(consuming, queue, held, false);
            }
        }
    }
}

/// Waiting for what the client does next, or for what it publishes, forgets
/// what there was of a content and changes nothing else but what is reported.
pub proof fn law_waiting_forgets_content(session: SessionView, publishes_only: bool)
    ensures
        session.stage is Content ==> awaited(session, publishes_only) == reporting(
            staged(session, StageView::Serving),
            publishes_only,
        ),
        session.stage !is Content ==> awaited(session, publishes_only) == reporting(
            session,
            publishes_only,
        ),
{
}

/// A take hears as its session does and says what it says. Once the client is
/// accepted its publishes alone are awaited. The first one is kept, and is
/// what the take comes to when the client publishes again or is gone; a
/// client that is gone before it published fails the take for good.
pub proof fn law_takes_come_to_the_first_publish(taking: TakingView, heard: Option<FrameView>)
    ensures
        ({
            let (after, answer) = taking_hears(taking, heard);
            let (session, came) = session_hears(taking.session, heard);
            let finished = came.next is Gone || (came.next is Happened && came.next->Happened_0
                is Published);
            &&& answer.write == came.write
            &&& came.next is Accepted ==> {
                &&& answer.next is Read
                &&& after.session == awaited(session, true)
                &&& after.published == taking.published
            }
            &&& finished && taking.published is Some ==> {
                &&& answer.next == OutcomeView::Happened(
                    EventView::Published(taking.published->0),
                )
                &&& after.session == session
                &&& after.published is None
            }
            &&& finished && taking.published is None && came.next is Happened ==> {
                &&& answer.next is Read
                &&& after.session == awaited(session, true)
                &&& came.next == OutcomeView::Happened(
                    EventView::Published(after.published->0),
                )
                &&& after.published is Some
            }
            &&& finished && taking.published is None && came.next is Gone ==> {
                &&& answer.next == OutcomeView::Failed(
                    refusal("the client closed without publishing"@),
                )
                &&& after == (TakingView { session, ..taking })
            }
            &&& came.next !is Accepted && !finished ==> {
                &&& answer == came
                &&& after == (TakingView { session, ..taking })
            }
        }),
{
}

/// There is a tag left for a message on every queue until the last tag was
/// given out, and after that on every queue that is not consumed.
pub proof fn law_tags_last_to_the_last(
    session: SessionView,
    queue: Seq<char>,
    heard: Option<FrameView>,
)
    ensures
        tag_left(session, queue) <==> session.delivery_tag < u64::MAX || !consumes(session, queue),
        session.delivery_tag < u64::MAX && consume_heard(session, heard) is None ==> tags_last(
            session,
            heard,
        ),
        consume_heard(session, heard) matches Some((_, consumed, _)) ==> (tags_last(
            session,
            heard,
        ) <==> session.delivery_tag + held_under(session.queues, consumed).len() <= u64::MAX),
{
    if let Some(frame) = heard {
        if let Ok(method) = method_in(frame) {
            lemma_consuming_counts(session, frame.channel, method.arguments);
        }
    }
}

} // verus!
