//! What a client says to everything it may hear, down to the octets, and what
//! sends and receives make of it: the handshake step by step, publishes and
//! deliveries frame by frame, and origins to the last digit.

use vstd::prelude::*;
use vstd::string::*;
use vstd::utf8::{encode_utf8, is_ascii_chars_encode_utf8};

use crate::client::{
    ack_said, awaited, awaiting, called, client_hears, close_said, consume_said, declare_said,
    delivery_uri, framed, guest, published, settled, ClientView, NextView, StepView, WaitingView,
};
use crate::content::{
    body_frames, chunk_of, content_frames, content_takes, lemma_header_length, part_of, ContentView,
    ProgressView,
};
use crate::error::{refusal, ErrorView};
use crate::hearing::lemma_method_is_framed;
use crate::laws::lemma_client_hears_its_method;
use crate::layout::{
    law_ack_is_laid_out, law_close_is_laid_out, law_consume_is_laid_out, law_declare_is_laid_out,
    law_deliver_is_laid_out, law_headers_are_laid_out, law_methods_are_their_octets,
    law_open_is_laid_out, law_publish_is_laid_out, law_tune_is_laid_out, one_method,
};
use crate::method::{
    ack_method, bare_of, channel_open_method, close_in, close_method, compact, consume_method,
    declare_method, declare_ok_in, deliver_in, deliver_method, frame_of_method, frameable,
    law_method_is_carried, lemma_close_length, lemma_consume_length, lemma_declare_length,
    lemma_deliver_length, lemma_open_length, lemma_publish_length, lemma_start_length, method_bytes,
    open_method, publish_method, start_ok_method, tag_in, tune_in, tune_method, MethodView,
    CHANNEL_CLOSE, CHANNEL_CLOSE_OK, CONNECTION_CLOSE, CONNECTION_CLOSE_OK, CONNECTION_TUNE_OK,
};
use crate::octets::{
    digits_read, law_decimals_are_their_digits, law_heartbeats_are_empty, law_prefix_and_rest,
    long_at, longlong_at, short_at, text_at, text_length,
};
use crate::reading::{
    law_connection_arguments_are_read, law_deliver_arguments_are_read, law_methods_are_read,
    law_unreadable_arguments_are_permanent, lemma_cut, lemma_uncut,
};
use crate::session::{consumes, session_delivers, session_delivers_all, SessionView};
use crate::text::decimal;
use crate::transport::{
    bye, receiving, receiving_hears, resolved, sending, sending_hears, target_in, ReceivingView,
    SendingView, TransportView,
};
use crate::wire::{
    big_endian, frame_bytes, frame_in, frames_bytes, law_frame_round_trips, lemma_frames_bytes_add,
    lemma_grouped, lemma_nothing, lemma_width, short_string_bytes, FrameView, Kind, MAX_FRAME,
};

verus! {

/// The frames that `bytes` hold, in order.
#[verifier::opaque]
pub open spec fn frames_in(bytes: Seq<u8>) -> Seq<FrameView>
    decreases bytes.len(),
{
    match frame_in(bytes) {
        Ok((Some(frame), rest)) => seq![frame] + frames_in(rest),
        _ => Seq::empty(),
    }
}

/// The payloads of frames one after the other.
pub open spec fn joined(frames: Seq<FrameView>) -> Seq<u8>
    decreases frames.len(),
{
    if frames.len() == 0 {
        Seq::empty()
    } else {
        frames[0].payload + joined(frames.skip(1))
    }
}

/// Frames that were written are the frames that are there.
proof fn lemma_frames_in(frames: Seq<FrameView>, rest: Seq<u8>)
    requires
        forall|i: int|
            0 <= i < frames.len() ==> (#[trigger] frames[i]).payload.len() <= MAX_FRAME,
    ensures
        frames_in(frames_bytes(frames) + rest) == frames + frames_in(rest),
    decreases frames.len(),
{
    if frames.len() == 0 {
        lemma_nothing(rest);
        assert(frames + frames_in(rest) =~= frames_in(rest));
    } else {
        let others = frames.skip(1);
        assert forall|i: int| 0 <= i < others.len() implies (#[trigger] others[i]).payload.len()
            <= MAX_FRAME by {
            assert(others[i] == frames[i + 1]);
        }
        lemma_frames_in(others, rest);
        lemma_grouped(frame_bytes(frames[0]), frames_bytes(others), rest);
        law_frame_round_trips(frames[0], frames_bytes(others) + rest);
        reveal(frames_in);
        assert(seq![frames[0]] + (others + frames_in(rest)) =~= frames + frames_in(rest));
    }
}

/// No bytes hold no frames.
proof fn lemma_no_frames()
    ensures
        frames_in(Seq::empty()) == Seq::<FrameView>::empty(),
{
    reveal(frames_in);
}

/// The payload of a method's frame is its class, its number and its
/// arguments.
proof fn lemma_payload_of(method: MethodView, channel: u16)
    ensures
        ({
            let payload = frame_of_method(method, channel).payload;
            &&& payload.len() == method.arguments.len() + 4
            &&& short_at(payload, 0) == method.id.0
            &&& short_at(payload, 2) == method.id.1
            &&& payload.skip(4) == method.arguments
        }),
{
    let frame = frame_of_method(method, channel);
    lemma_width(method.id.0 as nat, 2);
    lemma_width(method.id.1 as nat, 2);
    law_method_is_carried(method, channel);
    law_methods_are_read(frame);
}

/// A body split into frames is that body again when their payloads are
/// joined, and every frame but the last is full.
proof fn lemma_body_is_split(channel: u16, body: Seq<u8>, chunk: nat)
    requires
        chunk > 0,
    ensures
        joined(body_frames(channel, body, chunk)) == body,
        ({
            let frames = body_frames(channel, body, chunk);
            &&& frames.len() == 0 <==> body.len() == 0
            &&& forall|i: int|
                0 <= i < frames.len() ==> {
                    let frame = #[trigger] frames[i];
                    &&& frame.kind == Kind::Body
                    &&& frame.channel == channel
                    &&& 0 < frame.payload.len() <= chunk
                    &&& i < frames.len() - 1 ==> frame.payload.len() == chunk
                }
        }),
    decreases body.len(),
{
    let frames = body_frames(channel, body, chunk);
    if body.len() > 0 {
        let part = part_of(body, chunk);
        let others = body_frames(channel, body.skip(part), chunk);
        lemma_body_is_split(channel, body.skip(part), chunk);
        assert(frames.skip(1) =~= others);
        assert(body.take(part) + body.skip(part) =~= body);
        assert forall|i: int| 0 <= i < frames.len() implies {
            let frame = #[trigger] frames[i];
            &&& frame.kind == Kind::Body
            &&& frame.channel == channel
            &&& 0 < frame.payload.len() <= chunk
            &&& i < frames.len() - 1 ==> frame.payload.len() == chunk
        } by {
            if i > 0 {
                assert(frames[i] == others[i - 1]);
            } else {
                assert(frames[0].payload == body.take(part));
            }
        }
    }
}

/// Whether frames are a content of `body` on `channel` at a frame size: a
/// header that announces its length, persistent octets of no type in
/// particular, and body frames that join to it. None of those is empty; at
/// nine octets or more none is over the frame size with its eight octets of
/// envelope, and none but the last leaves room that a frame can count; below
/// that each carries one octet.
pub open spec fn content_of(
    frames: Seq<FrameView>,
    channel: u16,
    body: Seq<u8>,
    frame_max: nat,
) -> bool {
    &&& frames.len() >= 1
    &&& frames[0].kind == Kind::Header
    &&& frames[0].channel == channel
    &&& frames[0].payload.len() == 40
    &&& short_at(frames[0].payload, 0) == 60
    &&& short_at(frames[0].payload, 2) == 0
    &&& longlong_at(frames[0].payload, 4) == body.len()
    &&& short_at(frames[0].payload, 12) == 0x9000
    &&& text_at(frames[0].payload, 14, "application/octet-stream"@)
    &&& frames[0].payload[39] == 2
    &&& joined(frames.skip(1)) == body
    &&& forall|i: int|
        1 <= i < frames.len() ==> {
            let frame = #[trigger] frames[i];
            &&& frame.kind == Kind::Body
            &&& frame.channel == channel
            &&& frame.payload.len() > 0
            &&& frame_max < 9 ==> frame.payload.len() == 1
            &&& frame_max >= 9 ==> frame.payload.len() + 8 <= frame_max
            &&& frame_max >= 9 && i < frames.len() - 1 ==> frame.payload.len() + 8 == frame_max
                || frame.payload.len() == u32::MAX
        }
}

/// A body is written as a content of it, at any frame size.
pub proof fn law_bodies_are_split_at_the_frame_size(channel: u16, body: Seq<u8>, frame_max: nat)
    requires
        body.len() <= u64::MAX,
    ensures
        content_of(content_frames(channel, body, frame_max), channel, body, frame_max),
{
    let frames = content_frames(channel, body, frame_max);
    let others = body_frames(channel, body, chunk_of(frame_max));
    lemma_body_is_split(channel, body, chunk_of(frame_max));
    law_headers_are_laid_out(body.len());
    assert(frames.skip(1) =~= others);
    assert forall|i: int| 1 <= i < frames.len() implies {
        let frame = #[trigger] frames[i];
        &&& frame.kind == Kind::Body
        &&& frame.channel == channel
        &&& frame.payload.len() > 0
        &&& frame_max < 9 ==> frame.payload.len() == 1
        &&& frame_max >= 9 ==> frame.payload.len() + 8 <= frame_max
        &&& frame_max >= 9 && i < frames.len() - 1 ==> frame.payload.len() + 8 == frame_max
            || frame.payload.len() == u32::MAX
    } by {
        assert(frames[i] == others[i - 1]);
    }
}

/// A method and the content after it, written, are those frames.
proof fn lemma_method_and_content(
    method: MethodView,
    channel: u16,
    body: Seq<u8>,
    frame_max: nat,
    rest: Seq<u8>,
)
    requires
        compact(method),
        body.len() <= u64::MAX,
        frame_max <= MAX_FRAME,
    ensures
        frames_in(
            method_bytes(method, channel) + frames_bytes(content_frames(channel, body, frame_max))
                + rest,
        ) == seq![frame_of_method(method, channel)] + content_frames(channel, body, frame_max)
            + frames_in(rest),
{
    let first = frame_of_method(method, channel);
    let content = content_frames(channel, body, frame_max);
    let said = frames_bytes(content);
    lemma_header_length(body.len());
    lemma_body_is_split(channel, body, chunk_of(frame_max));
    assert forall|i: int| 0 <= i < content.len() implies (#[trigger] content[i]).payload.len()
        <= MAX_FRAME by {
        if i > 0 {
            assert(content[i] == body_frames(channel, body, chunk_of(frame_max))[i - 1]);
        }
    }
    lemma_frames_in(content, rest);
    lemma_grouped(method_bytes(method, channel), said, rest);
    lemma_method_is_framed(method, channel, said + rest);
    reveal(frames_in);
    assert(seq![first] + (content + frames_in(rest)) =~= seq![first] + content + frames_in(rest));
}

/// Whether a frame is basic.publish to `queue` on channel 1 through the
/// default exchange, neither mandatory nor immediate.
pub open spec fn publishes_to(frame: FrameView, queue: Seq<char>) -> bool {
    let octets = frame.payload.skip(4);
    &&& frame.kind == Kind::Method
    &&& frame.channel == 1
    &&& short_at(frame.payload, 0) == 60
    &&& short_at(frame.payload, 2) == 40
    &&& short_at(octets, 0) == 0
    &&& octets[2] == 0
    &&& text_at(octets, 3, queue)
    &&& octets.skip(4 + text_length(queue)) == seq![0u8]
}

/// The frame of a publish through the default exchange.
proof fn lemma_publishes_to(queue: Seq<char>)
    ensures
        compact(publish_method(Seq::empty(), queue)),
        publishes_to(frame_of_method(publish_method(Seq::empty(), queue), 1), queue),
{
    is_ascii_chars_encode_utf8(Seq::empty());
    law_publish_is_laid_out(Seq::empty(), queue);
    lemma_publish_length(Seq::empty(), queue);
    lemma_payload_of(publish_method(Seq::empty(), queue), 1);
}

/// What a client publishes is a basic.publish to the queue through the
/// default exchange and the body as content on channel 1, split at the frame
/// size the client settled on: no body frame is over it, whatever it is from
/// nine octets on, and nothing else is said. For every body.
pub proof fn law_publishes_keep_to_the_frame_size(
    client: ClientView,
    queue: Seq<char>,
    body: Seq<u8>,
)
    requires
        framed(client),
        body.len() <= u64::MAX,
    ensures
        ({
            let said = published(client, queue, body);
            let frames = frames_in(said);
            &&& frames.len() >= 2
            &&& frames_bytes(frames) == said
            &&& publishes_to(frames[0], queue)
            &&& content_of(frames.skip(1), 1, body, client.frame_max)
            &&& forall|i: int|
                2 <= i < frames.len() && client.frame_max >= 9 ==> (
                #[trigger] frames[i]).payload.len() + 8 <= client.frame_max
        }),
{
    let said = published(client, queue, body);
    let method = publish_method(Seq::empty(), queue);
    let first = frame_of_method(method, 1);
    let content = content_frames(1, body, client.frame_max);
    let frames = seq![first] + content;
    lemma_publishes_to(queue);
    lemma_method_and_content(method, 1, body, client.frame_max, Seq::empty());
    lemma_no_frames();
    lemma_nothing(said);
    assert(frames + Seq::<FrameView>::empty() =~= frames);
    assert(frames_in(said) == frames);
    assert(frames.skip(1) =~= content);
    law_bodies_are_split_at_the_frame_size(1, body, client.frame_max);
    assert forall|i: int| 2 <= i < frames.len() && client.frame_max >= 9 implies (
    #[trigger] frames[i]).payload.len() + 8 <= client.frame_max by {
        assert(frames[i] == content[i - 1]);
    }
}

/// What is given on a queue that is consumed is a basic.deliver to its
/// consumer, by its tag and on its channel, under the next delivery tag, not
/// redelivered, through the default exchange under the queue's name; and the
/// body as content on that channel, no frame over the limit. For every body.
pub proof fn law_deliveries_name_their_consumer(
    session: SessionView,
    queue: Seq<char>,
    body: Seq<u8>,
)
    requires
        consumes(session, queue),
        session.delivery_tag < u64::MAX,
        body.len() <= u64::MAX,
    ensures
        ({
            let consumer = session.consumer->0;
            let (after, said) = session_delivers(session, queue, body);
            let frames = frames_in(said);
            let octets = frames[0].payload.skip(4);
            let at = 1 + text_length(consumer.tag);
            &&& after == (SessionView { delivery_tag: session.delivery_tag + 1, ..session })
            &&& frames.len() >= 2
            &&& frames_bytes(frames) == said
            &&& frames[0].kind == Kind::Method
            &&& frames[0].channel == consumer.channel
            &&& short_at(frames[0].payload, 0) == 60
            &&& short_at(frames[0].payload, 2) == 60
            &&& text_at(octets, 0, consumer.tag)
            &&& longlong_at(octets, at) == session.delivery_tag + 1
            &&& octets[at + 8] == 0
            &&& octets[at + 9] == 0
            &&& text_at(octets, at + 10, queue)
            &&& octets.len() == at + 11 + text_length(queue)
            &&& content_of(frames.skip(1), consumer.channel, body, 0x10_0000)
        }),
{
    let consumer = session.consumer->0;
    let said = session_delivers(session, queue, body).1;
    let delivery_tag = (session.delivery_tag + 1) as u64;
    let method = deliver_method(consumer.tag, delivery_tag, Seq::empty(), queue);
    let first = frame_of_method(method, consumer.channel);
    let content = content_frames(consumer.channel, body, MAX_FRAME as nat);
    let frames = seq![first] + content;
    is_ascii_chars_encode_utf8(Seq::empty());
    lemma_deliver_length(consumer.tag, delivery_tag, Seq::empty(), queue);
    law_deliver_is_laid_out(consumer.tag, delivery_tag, Seq::empty(), queue);
    lemma_payload_of(method, consumer.channel);
    lemma_method_and_content(method, consumer.channel, body, MAX_FRAME as nat, Seq::empty());
    lemma_no_frames();
    lemma_nothing(said);
    assert(frames + Seq::<FrameView>::empty() =~= frames);
    assert(frames_in(said) == frames);
    assert(frames.skip(1) =~= content);
    law_bodies_are_split_at_the_frame_size(consumer.channel, body, MAX_FRAME as nat);
}

/// What is given one after the other is each given in turn, what they say
/// one after the other, and nothing where there is nothing.
pub proof fn law_giving_all_is_giving_each(
    session: SessionView,
    queue: Seq<char>,
    first: Seq<u8>,
    others: Seq<Seq<u8>>,
)
    ensures
        session_delivers_all(session, queue, Seq::empty()) == (session, Seq::<u8>::empty()),
        ({
            let (after, said) = session_delivers(session, queue, first);
            let (last, later) = session_delivers_all(after, queue, others);
            session_delivers_all(session, queue, seq![first] + others) == (last, said + later)
        }),
{
    assert((seq![first] + others).skip(1) =~= others);
}

/// What a client says to declare a queue: one method on channel 1 that names
/// it and asks for it to be durable, and nothing else of it.
pub proof fn law_declarations_are_durable(queue: Seq<char>)
    ensures
        ({
            let octets = declare_method(queue).arguments;
            &&& one_method(declare_said(queue), 1, 50, 10, octets)
            &&& short_at(octets, 0) == 0
            &&& text_at(octets, 2, queue)
            &&& octets.skip(3 + text_length(queue)) == seq![2u8, 0u8, 0u8, 0u8, 0u8]
        }),
{
    law_declare_is_laid_out(queue);
    lemma_declare_length(queue, 0);
    law_methods_are_their_octets(declare_method(queue), 1);
}

/// What a client says to consume a queue: one method on channel 1 that names
/// it, leaves the tag to the broker, and sets no bit, so that the client
/// acknowledges each delivery itself.
pub proof fn law_consumers_acknowledge(queue: Seq<char>)
    ensures
        ({
            let octets = consume_method(queue, Seq::empty()).arguments;
            &&& one_method(consume_said(queue), 1, 60, 20, octets)
            &&& short_at(octets, 0) == 0
            &&& text_at(octets, 2, queue)
            &&& octets.skip(3 + text_length(queue)) == seq![0u8, 0u8, 0u8, 0u8, 0u8, 0u8]
        }),
{
    let octets = consume_method(queue, Seq::empty()).arguments;
    let at = 3 + text_length(queue);
    is_ascii_chars_encode_utf8(Seq::empty());
    law_consume_is_laid_out(queue, Seq::empty());
    lemma_consume_length(queue, Seq::empty());
    law_methods_are_their_octets(consume_method(queue, Seq::empty()), 1);
    let back = octets.skip(at);
    assert(back.skip(1) =~= octets.skip(at + 1));
    assert(back[0] == octets[at]);
    assert(back =~= seq![0u8] + back.skip(1));
    assert(back =~= seq![0u8, 0u8, 0u8, 0u8, 0u8, 0u8]);
}

/// What a client says to acknowledge a delivery: one method on channel 1 with
/// its tag and the multiple bit not set, so it is of that delivery alone.
pub proof fn law_acknowledgements_are_of_one(delivery_tag: u64)
    ensures
        ({
            let octets = ack_method(delivery_tag).arguments;
            &&& one_method(ack_said(delivery_tag), 1, 60, 80, octets)
            &&& longlong_at(octets, 0) == delivery_tag
            &&& octets.skip(8) == seq![0u8]
        }),
{
    law_ack_is_laid_out(delivery_tag);
    law_methods_are_their_octets(ack_method(delivery_tag), 1);
    assert(ack_method(delivery_tag).arguments.skip(8) =~= seq![0u8]);
}

/// What a client says first to close: one method on channel 1 with code 200
/// and the text `bye`, with no method to blame.
pub proof fn law_goodbyes_are_said()
    ensures
        bye() == close_said(),
        ({
            let octets = close_method(CHANNEL_CLOSE, 200, "bye"@).arguments;
            &&& one_method(close_said(), 1, 20, 40, octets)
            &&& short_at(octets, 0) == 200
            &&& text_at(octets, 2, "bye"@)
        }),
{
    law_close_is_laid_out(CHANNEL_CLOSE, 200, "bye"@);
    lemma_close_length(CHANNEL_CLOSE, 200, "bye"@);
    law_methods_are_their_octets(close_method(CHANNEL_CLOSE, 200, "bye"@), 1);
}

/// A client that hears connection.start, whatever it carries, presents its
/// login on channel 0; one that cannot be framed is a permanent failure with
/// nothing said.
pub proof fn law_start_is_answered(client: ClientView, arguments: Seq<u8>)
    requires
        client.waiting is Start,
    ensures
        ({
            let start = MethodView { id: (10, 10), arguments };
            let (after, step) = client_hears(client, Some(frame_of_method(start, 0)));
            let login = client.login;
            if frameable(login.user, login.password) {
                &&& after == awaiting(client, WaitingView::Tune)
                &&& step.next is Read
                &&& one_method(
                    step.write,
                    0,
                    10,
                    11,
                    start_ok_method(login.user, login.password).arguments,
                )
            } else {
                &&& step.write.len() == 0
                &&& step.next == NextView::Failed(refusal("a login too long to frame"@))
            }
        }),
{
    let start = MethodView { id: (10, 10), arguments };
    let login = client.login;
    lemma_client_hears_its_method(client, start, 0);
    if frameable(login.user, login.password) {
        lemma_start_length(login.user, login.password);
        law_methods_are_their_octets(start_ok_method(login.user, login.password), 0);
    }
}

/// A client that hears connection.tune settles on a frame size that is the
/// broker's or the limit and over neither, tells the broker that very size
/// and the broker's own channel limit, with no heartbeat, and opens its
/// virtual host: all on channel 0, whatever heartbeat the broker asks for.
/// That size is the one it keeps to.
pub proof fn law_tune_is_settled(
    client: ClientView,
    channel_max: u16,
    proposed: u32,
    rest: Seq<u8>,
)
    requires
        client.waiting is Tune,
    ensures
        ({
            let arguments = big_endian(channel_max as nat, 2) + (big_endian(proposed as nat, 4)
                + rest);
            let tune = MethodView { id: (10, 30), arguments };
            let (after, step) = client_hears(client, Some(frame_of_method(tune, 0)));
            let settled = step.write.subrange(11, 19);
            let host = open_method(client.login.virtual_host).arguments;
            &&& after.frame_max <= 0x10_0000
            &&& proposed == 0 ==> after.frame_max == 0x10_0000
            &&& proposed > 0 ==> after.frame_max <= proposed
            &&& after.frame_max == 0x10_0000 || after.frame_max == proposed
            &&& after == (ClientView {
                frame_max: after.frame_max,
                waiting: WaitingView::OpenOk,
                ..client
            })
            &&& step.next is Read
            &&& one_method(step.write.take(20), 0, 10, 31, settled)
            &&& short_at(settled, 0) == channel_max
            &&& long_at(settled, 2) == after.frame_max
            &&& short_at(settled, 6) == 0
            &&& one_method(step.write.skip(20), 0, 10, 40, host)
            &&& text_at(host, 0, client.login.virtual_host)
        }),
{
    let arguments = big_endian(channel_max as nat, 2) + (big_endian(proposed as nat, 4) + rest);
    let tune = MethodView { id: (10, 30), arguments };
    let (after, step) = client_hears(client, Some(frame_of_method(tune, 0)));
    let tune_ok = tune_method(CONNECTION_TUNE_OK, channel_max, settled(proposed));
    let open = open_method(client.login.virtual_host);
    let nobody = Seq::<char>::empty();
    is_ascii_chars_encode_utf8(nobody);
    lemma_client_hears_its_method(client, tune, 0);
    law_connection_arguments_are_read(channel_max, proposed, nobody, rest);
    law_tune_is_laid_out(CONNECTION_TUNE_OK, channel_max, settled(proposed));
    law_methods_are_their_octets(tune_ok, 0);
    law_open_is_laid_out(client.login.virtual_host);
    lemma_open_length(client.login.virtual_host);
    law_methods_are_their_octets(open, 0);
    assert(step.write =~= method_bytes(tune_ok, 0) + method_bytes(open, 0));
    assert(step.write.take(20) =~= method_bytes(tune_ok, 0));
    assert(step.write.skip(20) =~= method_bytes(open, 0));
    assert(step.write.subrange(11, 19) =~= method_bytes(tune_ok, 0).subrange(11, 19));
}

/// The rest of a client's handshake and of its close: channel.open on
/// channel 1 to connection.open-ok, connection.close on channel 0 with code
/// 200 to channel.close-ok, and nothing said when it is connected or closed.
pub proof fn law_opens_and_closes_in_turn(client: ClientView, arguments: Seq<u8>)
    ensures
        client.waiting is OpenOk ==> {
            let heard = MethodView { id: (10, 41), arguments };
            let (after, step) = client_hears(client, Some(frame_of_method(heard, 0)));
            &&& after == awaiting(client, WaitingView::ChannelOpenOk)
            &&& step.next is Read
            &&& one_method(step.write, 1, 20, 10, seq![0u8])
        },
        client.waiting is ChannelOpenOk ==> {
            let heard = MethodView { id: (20, 11), arguments };
            client_hears(client, Some(frame_of_method(heard, 1))) == (
                awaiting(client, WaitingView::Idle),
                StepView { write: Seq::empty(), next: NextView::Connected },
            )
        },
        client.waiting is ChannelCloseOk ==> {
            let heard = MethodView { id: (20, 41), arguments };
            let (after, step) = client_hears(client, Some(frame_of_method(heard, 1)));
            let octets = close_method(CONNECTION_CLOSE, 200, "bye"@).arguments;
            &&& after == awaiting(client, WaitingView::ConnectionCloseOk)
            &&& step.next is Read
            &&& one_method(step.write, 0, 10, 50, octets)
            &&& short_at(octets, 0) == 200
        },
        client.waiting is ConnectionCloseOk ==> {
            let heard = MethodView { id: (10, 51), arguments };
            client_hears(client, Some(frame_of_method(heard, 0))) == (
                awaiting(client, WaitingView::Idle),
                StepView { write: Seq::empty(), next: NextView::Closed },
            )
        },
{
    law_open_is_laid_out(Seq::empty());
    lemma_open_length(Seq::empty());
    law_methods_are_their_octets(channel_open_method(), 1);
    law_close_is_laid_out(CONNECTION_CLOSE, 200, "bye"@);
    lemma_close_length(CONNECTION_CLOSE, 200, "bye"@);
    law_methods_are_their_octets(close_method(CONNECTION_CLOSE, 200, "bye"@), 0);
    if client.waiting is OpenOk {
        lemma_client_hears_its_method(client, MethodView { id: (10, 41), arguments }, 0);
    } else if client.waiting is ChannelOpenOk {
        lemma_client_hears_its_method(client, MethodView { id: (20, 11), arguments }, 1);
    } else if client.waiting is ChannelCloseOk {
        lemma_client_hears_its_method(client, MethodView { id: (20, 41), arguments }, 1);
    } else if client.waiting is ConnectionCloseOk {
        lemma_client_hears_its_method(client, MethodView { id: (10, 51), arguments }, 0);
    }
}

/// A client learns the count that queue.declare-ok carries and the tag that
/// basic.consume-ok carries, whatever else they carry, says nothing to
/// either, and from then on consumes the queue it asked for.
pub proof fn law_answers_are_learnt(
    client: ClientView,
    text: Seq<char>,
    messages: u32,
    rest: Seq<u8>,
)
    requires
        encode_utf8(text).len() <= 255,
    ensures
        client.waiting is DeclareOk ==> {
            let arguments = short_string_bytes(text) + (big_endian(messages as nat, 4) + rest);
            let heard = MethodView { id: (50, 11), arguments };
            client_hears(client, Some(frame_of_method(heard, 1))) == (
                awaiting(client, WaitingView::Idle),
                StepView { write: Seq::empty(), next: NextView::Declared(messages) },
            )
        },
        client.waiting matches WaitingView::ConsumeOk { queue } ==> {
            let heard = MethodView { id: (60, 21), arguments: short_string_bytes(text) + rest };
            client_hears(client, Some(frame_of_method(heard, 1))) == (
                ClientView { queue: Some(queue), waiting: WaitingView::Idle, ..client },
                StepView { write: Seq::empty(), next: NextView::Consuming(text) },
            )
        },
{
    law_connection_arguments_are_read(0, messages, text, rest);
    if client.waiting is DeclareOk {
        let arguments = short_string_bytes(text) + (big_endian(messages as nat, 4) + rest);
        lemma_client_hears_its_method(client, MethodView { id: (50, 11), arguments }, 1);
    } else if client.waiting is ConsumeOk {
        let arguments = short_string_bytes(text) + rest;
        lemma_client_hears_its_method(client, MethodView { id: (60, 21), arguments }, 1);
    }
}

/// What a client waits for: on channel 0 what is said of the connection, on
/// channel 1 what is said of the channel and the queue, each by its class and
/// number and under its own name.
pub proof fn law_waits_have_their_methods(waiting: WaitingView)
    ensures
        awaited(waiting) == match waiting {
            WaitingView::Start => Some((0u16, (10u16, 10u16), "connection.start"@)),
            WaitingView::Tune => Some((0, (10, 30), "connection.tune"@)),
            WaitingView::OpenOk => Some((0, (10, 41), "connection.open-ok"@)),
            WaitingView::ChannelOpenOk => Some((1, (20, 11), "channel.open-ok"@)),
            WaitingView::DeclareOk => Some((1, (50, 11), "queue.declare-ok"@)),
            WaitingView::ConsumeOk { queue } => Some((1, (60, 21), "basic.consume-ok"@)),
            WaitingView::ChannelCloseOk => Some((1, (20, 41), "channel.close-ok"@)),
            WaitingView::ConnectionCloseOk => Some((0, (10, 51), "connection.close-ok"@)),
            _ => None,
        },
        called(waiting) == match awaited(waiting) {
            Some((_, _, what)) => what,
            None => "a delivery"@,
        },
{
}

/// What a client waits for changes nothing else about it.
pub proof fn law_waiting_changes_nothing_else(client: ClientView, waiting: WaitingView)
    ensures
        ({
            let after = awaiting(client, waiting);
            &&& after.waiting == waiting
            &&& after.broker == client.broker
            &&& after.login == client.login
            &&& after.frame_max == client.frame_max
            &&& after.queue == client.queue
        }),
{
}

/// A client that waits for nothing lets everything pass.
pub proof fn law_idle_clients_hear_nothing(client: ClientView, heard: Option<FrameView>)
    requires
        client.waiting is Idle,
    ensures
        client_hears(client, heard) == (
            client,
            StepView { write: Seq::empty(), next: NextView::Read },
        ),
{
}

/// A client that waits for a method or a delivery: content that follows
/// nothing passes by, a heartbeat is answered with one, and a method frame
/// too short to name one fails for good with nothing said.
pub proof fn law_other_frames_pass_by(client: ClientView, frame: FrameView)
    requires
        client.waiting !is Idle,
        client.waiting !is Content,
        frame.kind == Kind::Method ==> frame.payload.len() < 4,
    ensures
        client_hears(client, Some(frame)) == match frame.kind {
            Kind::Heartbeat => (
                client,
                StepView {
                    write: seq![8u8, 0u8, 0u8, 0u8, 0u8, 0u8, 0u8, 0xCEu8],
                    next: NextView::Read,
                },
            ),
            Kind::Method => (
                awaiting(client, WaitingView::Idle),
                StepView {
                    write: Seq::empty(),
                    next: NextView::Failed(
                        refusal("a method that ends before its arguments do"@),
                    ),
                },
            ),
            _ => (client, StepView { write: Seq::empty(), next: NextView::Read }),
        },
{
    law_heartbeats_are_empty();
    law_methods_are_read(frame);
}

/// An answer whose arguments cannot be read fails the wait for it for good,
/// with nothing said: connection.tune, queue.declare-ok and basic.consume-ok
/// where each is awaited, a basic.deliver where a delivery is, and a close.
pub proof fn law_unreadable_answers_fail(client: ClientView, channel: u16, method: MethodView)
    requires
        ({
            let arguments = method.arguments;
            let awaits = awaited(client.waiting) is Some;
            ||| client.waiting is Tune && channel == 0 && method.id == (10u16, 30u16) && tune_in(
                arguments,
            ) is Err
            ||| client.waiting is DeclareOk && channel == 1 && method.id == (50u16, 11u16)
                && declare_ok_in(arguments) is Err
            ||| client.waiting is ConsumeOk && channel == 1 && method.id == (60u16, 21u16)
                && tag_in(arguments) is Err
            ||| client.waiting is Delivery && method.id == (60u16, 60u16) && deliver_in(
                arguments,
            ) is Err
            ||| awaits && method.id == (10u16, 50u16) && close_in(arguments) is Err
            ||| (awaits || client.waiting is Delivery) && method.id == (20u16, 40u16) && close_in(
                arguments,
            ) is Err
        }),
    ensures
        ({
            let (after, step) = client_hears(client, Some(frame_of_method(method, channel)));
            &&& after.waiting is Idle
            &&& after == (ClientView { queue: after.queue, waiting: WaitingView::Idle, ..client })
            &&& step.write.len() == 0
            &&& step.next matches NextView::Failed(error) && !error.retryable
        }),
{
    lemma_client_hears_its_method(client, method, channel);
    law_unreadable_arguments_are_permanent(method.arguments);
}

/// A broker that goes away ends the wait for a delivery, and fails the wait
/// for a method for good by its name; nothing is said to it.
pub proof fn law_a_broker_that_goes_away(client: ClientView)
    ensures
        client.waiting is Delivery ==> client_hears(client, None) == (
            awaiting(client, WaitingView::Idle),
            StepView { write: Seq::empty(), next: NextView::Ended },
        ),
        awaited(client.waiting) matches Some((_, _, what)) ==> client_hears(client, None) == (
            awaiting(client, WaitingView::Idle),
            StepView {
                write: Seq::empty(),
                next: NextView::Failed(
                    ErrorView {
                        message: "the broker closed before "@ + what,
                        retryable: false,
                    },
                ),
            },
        ),
{
}

/// A client that waits for a delivery: a broker that closes the connection
/// ends the wait and is answered on channel 0, whatever it carries; one that
/// closes the channel fails it; a basic.deliver on any channel, redelivered
/// or not, has the client await its content; any other method passes by.
pub proof fn law_waiting_for_a_delivery(
    client: ClientView,
    channel: u16,
    arguments: Seq<u8>,
    other: MethodView,
    tag: u64,
    consumer: Seq<char>,
    bits: u8,
    routing_key: Seq<char>,
    rest: Seq<u8>,
)
    requires
        client.waiting is Delivery,
        other.id != (10u16, 50u16),
        other.id != (20u16, 40u16),
        other.id != (60u16, 60u16),
        encode_utf8(consumer).len() <= 255,
        encode_utf8(routing_key).len() <= 255,
    ensures
        ({
            let heard = MethodView { id: (10, 50), arguments };
            let (after, step) = client_hears(client, Some(frame_of_method(heard, channel)));
            &&& after == awaiting(client, WaitingView::Idle)
            &&& step.next is Ended
            &&& one_method(step.write, 0, 10, 51, Seq::empty())
        }),
        ({
            let heard = MethodView { id: (20, 40), arguments };
            let (after, step) = client_hears(client, Some(frame_of_method(heard, channel)));
            &&& after == awaiting(client, WaitingView::Idle)
            &&& step.next matches NextView::Failed(error) && !error.retryable
        }),
        ({
            let carried = short_string_bytes(consumer) + (big_endian(tag as nat, 8) + (seq![bits]
                + (short_string_bytes(consumer) + (short_string_bytes(routing_key) + rest))));
            let heard = MethodView { id: (60, 60), arguments: carried };
            client_hears(client, Some(frame_of_method(heard, channel))) == (
                awaiting(
                    client,
                    WaitingView::Content {
                        delivery_tag: tag,
                        routing_key,
                        content: ContentView::Header,
                    },
                ),
                StepView { write: Seq::empty(), next: NextView::Read },
            )
        }),
        client_hears(client, Some(frame_of_method(other, channel))) == (
            client,
            StepView { write: Seq::empty(), next: NextView::Read },
        ),
{
    let carried = short_string_bytes(consumer) + (big_endian(tag as nat, 8) + (seq![bits] + (
    short_string_bytes(consumer) + (short_string_bytes(routing_key) + rest))));
    let closing = MethodView { id: (10, 50), arguments };
    let closed = MethodView { id: (20, 40), arguments };
    let deliver = MethodView { id: (60, 60), arguments: carried };
    lemma_client_hears_its_method(client, closing, channel);
    lemma_client_hears_its_method(client, closed, channel);
    lemma_client_hears_its_method(client, deliver, channel);
    lemma_client_hears_its_method(client, other, channel);
    law_methods_are_their_octets(bare_of(CONNECTION_CLOSE_OK), 0);
    law_deliver_arguments_are_read(consumer, tag, bits, consumer, routing_key, rest);
}

/// A broker that closes the connection or the channel while a client waits
/// for something is answered with the bare ok of the same class on the
/// channel it came on, and the failure is permanent and ends with the code in
/// decimal and the text, both whole.
pub proof fn law_closes_are_answered_and_quoted(
    client: ClientView,
    channel: u16,
    code: u16,
    text: Seq<char>,
    rest: Seq<u8>,
    connection: bool,
)
    requires
        awaited(client.waiting) is Some || (client.waiting is Delivery && !connection),
        encode_utf8(text).len() <= 255,
    ensures
        ({
            let arguments = big_endian(code as nat, 2) + (short_string_bytes(text) + rest);
            let class: u16 = if connection { 10 } else { 20 };
            let number: u16 = if connection { 50 } else { 40 };
            let ok: u16 = if connection { 51 } else { 41 };
            let heard = MethodView { id: (class, number), arguments };
            let (after, step) = client_hears(client, Some(frame_of_method(heard, channel)));
            let tail = ": "@ + decimal(code as nat) + " "@ + text;
            &&& after == awaiting(client, WaitingView::Idle)
            &&& one_method(step.write, channel, class, ok, Seq::empty())
            &&& step.next matches NextView::Failed(error) && !error.retryable
                && error.message.len() >= tail.len() && error.message.skip(
                error.message.len() - tail.len(),
            ) == tail
        }),
{
    let arguments = big_endian(code as nat, 2) + (short_string_bytes(text) + rest);
    let class: u16 = if connection {
        10
    } else {
        20
    };
    let number: u16 = if connection {
        50
    } else {
        40
    };
    let heard = MethodView { id: (class, number), arguments };
    let which = if connection {
        "connection"@
    } else {
        "channel"@
    };
    lemma_client_hears_its_method(client, heard, channel);
    law_connection_arguments_are_read(code, 0, text, rest);
    law_methods_are_their_octets(bare_of(CONNECTION_CLOSE_OK), channel);
    law_methods_are_their_octets(bare_of(CHANNEL_CLOSE_OK), channel);
    lemma_quoted(which, called(client.waiting), decimal(code as nat), text);
}

/// The failure of a close ends with what it quotes.
proof fn lemma_quoted(which: Seq<char>, what: Seq<char>, digits: Seq<char>, text: Seq<char>)
    ensures
        ({
            let tail = ": "@ + digits + " "@ + text;
            let message = "the broker closed the "@ + which + " while "@ + what
                + " was awaited: "@ + digits + " "@ + text;
            &&& message.len() >= tail.len()
            &&& message.skip(message.len() - tail.len()) == tail
        }),
{
    let tail = ": "@ + digits + " "@ + text;
    let message = "the broker closed the "@ + which + " while "@ + what + " was awaited: "@
        + digits + " "@ + text;
    reveal_strlit(": ");
    reveal_strlit(" was awaited: ");
    reveal_strlit(" was awaited");
    assert(" was awaited: "@ =~= " was awaited"@ + ": "@);
    let front = "the broker closed the "@ + which + " while "@ + what + " was awaited"@;
    assert(message =~= front + tail);
    assert(message.skip(message.len() - tail.len()) =~= tail);
}

/// Whether a text is the URI of a delivery: `rabbitmq://`, the broker, a
/// slash, the queue, `?delivery-tag=`, and to the end the digits of the whole
/// tag.
pub open spec fn names_delivery(
    uri: Seq<char>,
    broker: Seq<char>,
    queue: Seq<char>,
    delivery_tag: u64,
) -> bool {
    let front = "rabbitmq://"@ + broker + "/"@ + queue + "?delivery-tag="@;
    let digits = uri.skip(front.len() as int);
    &&& uri.len() > front.len()
    &&& uri.take(front.len() as int) == front
    &&& forall|i: int| 0 <= i < digits.len() ==> '0' <= #[trigger] digits[i] <= '9'
    &&& digits.len() > 1 ==> digits[0] != '0'
    &&& digits_read(digits) == delivery_tag
}

/// The origin of a delivery names its broker, its queue and its whole tag,
/// for every tag; so two deliveries of one queue with different tags have
/// different origins.
pub proof fn law_origins_name_the_whole_tag(
    broker: Seq<char>,
    queue: Seq<char>,
    delivery_tag: u64,
    other: u64,
)
    ensures
        names_delivery(delivery_uri(broker, queue, delivery_tag), broker, queue, delivery_tag),
        delivery_tag != other ==> delivery_uri(broker, queue, delivery_tag) != delivery_uri(
            broker,
            queue,
            other,
        ),
{
    lemma_names_delivery(broker, queue, delivery_tag);
    lemma_names_delivery(broker, queue, other);
}

/// The URI of a delivery names it.
proof fn lemma_names_delivery(broker: Seq<char>, queue: Seq<char>, delivery_tag: u64)
    ensures
        names_delivery(delivery_uri(broker, queue, delivery_tag), broker, queue, delivery_tag),
{
    let front = "rabbitmq://"@ + broker + "/"@ + queue + "?delivery-tag="@;
    let uri = delivery_uri(broker, queue, delivery_tag);
    let digits = decimal(delivery_tag as nat);
    law_decimals_are_their_digits(delivery_tag as nat);
    assert(uri.take(front.len() as int) =~= front);
    assert(uri.skip(front.len() as int) =~= digits);
}

/// What a client is delivered comes with the tag of its basic.deliver and an
/// origin that names the broker, the queue it consumes or else the routing
/// key, and that whole tag.
pub proof fn law_deliveries_say_where_they_come_from(
    client: ClientView,
    heard: Option<FrameView>,
    tag: u64,
    key: Seq<char>,
    content: ContentView,
)
    requires
        client.waiting == (WaitingView::Content { delivery_tag: tag, routing_key: key, content }),
    ensures
        ({
            let (after, step) = client_hears(client, heard);
            let queue = match client.queue {
                Some(queue) => queue,
                None => key,
            };
            match content_takes(content, heard) {
                Ok(ProgressView::Whole(body)) => {
                    &&& after == awaiting(client, WaitingView::Idle)
                    &&& step.write.len() == 0
                    &&& step.next matches NextView::Delivered(delivery) && delivery.delivery_tag
                        == tag && delivery.arrived.bytes == body && names_delivery(
                        delivery.arrived.origin_uri,
                        client.broker,
                        queue,
                        tag,
                    )
                },
                Ok(ProgressView::More(more)) => client_hears(client, heard) == (
                    awaiting(
                        client,
                        WaitingView::Content {
                            delivery_tag: tag,
                            routing_key: key,
                            content: more,
                        },
                    ),
                    StepView { write: Seq::empty(), next: NextView::Read },
                ),
                Err(error) => client_hears(client, heard) == (
                    awaiting(client, WaitingView::Idle),
                    StepView { write: Seq::empty(), next: NextView::Failed(error) },
                ),
            }
        }),
{
    let queue = match client.queue {
        Some(queue) => queue,
        None => key,
    };
    lemma_names_delivery(client.broker, queue, tag);
}

/// A send starts by connecting to the broker its target names, as the
/// transport's login, with the body it is given.
pub proof fn law_sends_go_where_they_are_told(
    transport: TransportView,
    target: Seq<char>,
    body: Seq<u8>,
)
    ensures
        ({
            let send = sending(transport, target, body);
            &&& (send.broker, send.queue) == resolved(
                transport,
                target_in("rabbitmq"@, target),
                target,
            )
            &&& send.body == body
            &&& send.client == (ClientView {
                broker: send.broker,
                login: transport.login,
                frame_max: 0x10_0000,
                queue: None,
                waiting: WaitingView::Start,
            })
        }),
{
}

/// What a target names, under any scheme: the broker up to the first slash
/// and everything after it, nothing where there is no slash; and nothing at
/// all where it does not start with the scheme.
pub proof fn law_targets_name_broker_and_queue(
    scheme: Seq<char>,
    broker: Seq<char>,
    queue: Seq<char>,
    other: Seq<char>,
)
    requires
        !broker.contains('/'),
        !(scheme + "://"@).is_prefix_of(other),
    ensures
        target_in(scheme, scheme + "://"@ + (broker + seq!['/'] + queue)) == Some((broker, queue)),
        target_in(scheme, scheme + "://"@ + broker) == Some((broker, Seq::<char>::empty())),
        target_in(scheme, other) is None,
{
    let prefix = scheme + "://"@;
    let named = broker + seq!['/'] + queue;
    law_prefix_and_rest(prefix + named, prefix, named);
    law_prefix_and_rest(prefix + broker, prefix, broker);
    lemma_cut(broker, '/', queue);
    lemma_uncut(broker, '/');
}

/// Where what a target names sends to: an empty queue is the transport's
/// own, and a target that names nothing is a queue on the transport's
/// broker.
pub proof fn law_what_is_not_named_is_the_transports(
    transport: TransportView,
    broker: Seq<char>,
    queue: Seq<char>,
    target: Seq<char>,
)
    ensures
        queue.len() > 0 ==> resolved(transport, Some((broker, queue)), target) == (broker, queue),
        resolved(transport, Some((broker, Seq::empty())), target) == (broker, transport.queue),
        resolved(transport, None, target) == (transport.broker, target),
{
}

/// A send that is connected declares its queue and says nothing else; one
/// whose queue is declared publishes its body to it at the frame size that
/// was settled on, once, and closes, and says nothing else; otherwise it says
/// what its client says and goes on as its client does. Its queue and body
/// stay what they are.
pub proof fn law_sends_declare_publish_and_close(sending: SendingView, heard: Option<FrameView>)
    requires
        framed(sending.client),
        sending.body.len() <= u64::MAX,
    ensures
        ({
            let (after, step) = sending_hears(sending, heard);
            let (client, came) = client_hears(sending.client, heard);
            let frames = frames_in(step.write);
            let last = frames.last();
            &&& after.queue == sending.queue
            &&& after.body == sending.body
            &&& after.broker == sending.broker
            &&& came.next is Connected ==> step.next is Read && step.write == declare_said(
                sending.queue,
            ) && after.client == awaiting(client, WaitingView::DeclareOk)
            &&& came.next is Declared ==> {
                &&& step.next is Read
                &&& after.client == awaiting(client, WaitingView::ChannelCloseOk)
                &&& frames_bytes(frames) == step.write
                &&& frames.len() >= 3
                &&& publishes_to(frames[0], sending.queue)
                &&& content_of(
                    frames.subrange(1, frames.len() - 1),
                    1,
                    sending.body,
                    sending.client.frame_max,
                )
                &&& last.kind == Kind::Method
                &&& last.channel == 1
                &&& short_at(last.payload, 0) == 20
                &&& short_at(last.payload, 2) == 40
                &&& short_at(last.payload.skip(4), 0) == 200
            }
            &&& came.next !is Connected && came.next !is Declared ==> step == came
                && after.client == client
        }),
{
    let (after, step) = sending_hears(sending, heard);
    let (client, came) = client_hears(sending.client, heard);
    lemma_nothing(declare_said(sending.queue));
    if came.next is Declared {
        let method = publish_method(Seq::empty(), sending.queue);
        let close = close_method(CHANNEL_CLOSE, 200, "bye"@);
        let first = frame_of_method(method, 1);
        let content = content_frames(1, sending.body, sending.client.frame_max);
        let last = frame_of_method(close, 1);
        let frames = seq![first] + content + seq![last];
        assert(client.frame_max == sending.client.frame_max);
        lemma_publishes_to(sending.queue);
        law_close_is_laid_out(CHANNEL_CLOSE, 200, "bye"@);
        lemma_close_length(CHANNEL_CLOSE, 200, "bye"@);
        lemma_payload_of(close, 1);
        lemma_method_and_content(method, 1, sending.body, sending.client.frame_max, bye());
        lemma_one_frame(close, 1);
        lemma_nothing(published(client, sending.queue, sending.body));
        assert(frames_in(step.write) == frames);
        assert(frames.subrange(1, frames.len() - 1) =~= content);
        law_bodies_are_split_at_the_frame_size(1, sending.body, sending.client.frame_max);
        lemma_frames_bytes_add(seq![first] + content, seq![last]);
        lemma_frames_bytes_add(seq![first], content);
        lemma_bytes_of_one(first);
        lemma_bytes_of_one(last);
    }
}

/// One method that is written is one frame.
proof fn lemma_one_frame(method: MethodView, channel: u16)
    requires
        compact(method),
    ensures
        frames_in(method_bytes(method, channel)) == seq![frame_of_method(method, channel)],
{
    let one = seq![frame_of_method(method, channel)];
    lemma_method_is_framed(method, channel, Seq::empty());
    lemma_nothing(method_bytes(method, channel));
    lemma_no_frames();
    reveal(frames_in);
    assert(one + Seq::<FrameView>::empty() =~= one);
}

/// The bytes of one frame are that frame's.
proof fn lemma_bytes_of_one(frame: FrameView)
    ensures
        frames_bytes(seq![frame]) == frame_bytes(frame),
{
    reveal_with_fuel(frames_bytes, 2);
    assert(seq![frame].skip(1) =~= Seq::empty());
    lemma_nothing(frame_bytes(frame));
}

/// A receive that is connected declares its queue, one whose queue is
/// declared consumes it, and one that consumes awaits deliveries with nothing
/// said. Each delivery is one Stream more, whole, its origin naming the
/// broker, the queue and the whole tag, and is acknowledged by that tag
/// alone; then the next is awaited. Otherwise it goes on as its client does.
pub proof fn law_receives_declare_consume_and_acknowledge(
    receiving: ReceivingView,
    heard: Option<FrameView>,
)
    ensures
        ({
            let (after, step) = receiving_hears(receiving, heard);
            let (client, came) = client_hears(receiving.client, heard);
            &&& after.broker == receiving.broker
            &&& after.queue == receiving.queue
            &&& match came.next {
                NextView::Connected => {
                    &&& step.next is Read
                    &&& step.write == declare_said(receiving.queue)
                    &&& after.client == awaiting(client, WaitingView::DeclareOk)
                    &&& after.arrived == receiving.arrived
                },
                NextView::Declared(_) => {
                    &&& step.next is Read
                    &&& step.write == consume_said(receiving.queue)
                    &&& after.client == awaiting(
                        client,
                        WaitingView::ConsumeOk { queue: receiving.queue },
                    )
                    &&& after.arrived == receiving.arrived
                },
                NextView::Consuming(_) => {
                    &&& step.next is Read
                    &&& step.write.len() == 0
                    &&& after.client == awaiting(client, WaitingView::Delivery)
                    &&& after.arrived == receiving.arrived
                },
                NextView::Delivered(delivery) => {
                    &&& step.next is Read
                    &&& step.write == ack_said(delivery.delivery_tag)
                    &&& after.client == awaiting(client, WaitingView::Delivery)
                    &&& after.arrived.len() == receiving.arrived.len() + 1
                    &&& after.arrived.take(receiving.arrived.len() as int) == receiving.arrived
                    &&& after.arrived.last().bytes == delivery.arrived.bytes
                    &&& names_delivery(
                        after.arrived.last().origin_uri,
                        receiving.broker,
                        receiving.queue,
                        delivery.delivery_tag,
                    )
                },
                _ => step == came && after.client == client && after.arrived
                    == receiving.arrived,
            }
        }),
{
    let (after, step) = receiving_hears(receiving, heard);
    let (client, came) = client_hears(receiving.client, heard);
    lemma_nothing(declare_said(receiving.queue));
    lemma_nothing(consume_said(receiving.queue));
    if let NextView::Delivered(delivery) = came.next {
        lemma_nothing(ack_said(delivery.delivery_tag));
        lemma_names_delivery(receiving.broker, receiving.queue, delivery.delivery_tag);
        assert(after.arrived.take(receiving.arrived.len() as int) =~= receiving.arrived);
    }
}

/// Who a transport logs in as until it is told otherwise: `guest`, by the
/// password `guest`, on the virtual host `/`.
pub proof fn law_guests_are_guests()
    ensures
        guest().user == "guest"@,
        guest().password == guest().user,
        guest().virtual_host == seq!['/'],
{
    reveal_strlit("/");
    assert("/"@ =~= seq!['/']);
}

/// A receive starts by connecting to the transport's broker as its login,
/// with no Streams yet.
pub proof fn law_receives_start_empty(transport: TransportView)
    ensures
        receiving(transport).arrived.len() == 0,
        receiving(transport).broker == transport.broker,
        receiving(transport).queue == transport.queue,
        receiving(transport).client == (ClientView {
            broker: transport.broker,
            login: transport.login,
            frame_max: 0x10_0000,
            queue: None,
            waiting: WaitingView::Start,
        }),
{
}

} // verus!
