//! What a session delivers over its whole life: the tags its deliveries go
//! by, and that every message is kept or delivered and never both.

use vstd::prelude::*;
use vstd::utf8::{decode_utf8_encode_utf8, encode_utf8, is_ascii_chars_encode_utf8, valid_utf8};

use crate::client::LoginView;
use crate::content::{
    body_frames, body_size_in, chunk_of, content_frames, content_takes, header_payload,
    law_body_size_round_trips, law_content_fits, lemma_first_frame, lemma_header_length,
    lemma_rejoined, part_of, ContentView, ProgressView, MAX_BODY,
};
use crate::hearing::lemma_method_is_framed;
use crate::laws::{dry, law_a_consumed_queue_is_dry, lemma_port_length, reachable};
use crate::method::{
    bare_of, channel_open_ok_method, close_method, compact, consume_in, consume_ok_method,
    declare_ok_method, deliver_in, deliver_method, law_deliver_round_trips, law_method_is_carried,
    lemma_close_length, lemma_declare_length, lemma_deliver_length, lemma_open_length,
    lemma_tune_length, method_bytes, method_in, open_ok_method, tune_method, MethodView,
    BASIC_CONSUME, BASIC_DELIVER, CHANNEL_CLOSE_OK, CONNECTION_CLOSE, CONNECTION_CLOSE_OK,
    CONNECTION_TUNE,
};
use crate::queues::held_under;
use crate::session::{
    accepted, awaited, consumes, lemma_delivering_keeps, session_delivers, session_delivers_all,
    session_greets, session_hears, staged, tag_for, ConsumerView, SessionView, StageView,
};
use crate::wire::{
    big_endian, counted_in, frame_bytes, frame_in, frames_bytes, heartbeat_bytes,
    law_frame_round_trips, law_number_reads_back, law_octets_round_trip, law_short_string_is_cut,
    lemma_capacities, lemma_five_grouped, lemma_grouped, lemma_nothing, lemma_short_string_length,
    lemma_width, number_in, short_string_bytes, short_string_in, FrameView, Kind, MAX_FRAME,
};

verus! {

/// The delivery tag a frame carries, where it is a basic.deliver.
pub open spec fn tag_carried(frame: FrameView) -> Option<nat> {
    match method_in(frame) {
        Ok(method) => if method.id == BASIC_DELIVER {
            match counted_in(method.arguments, 1) {
                Ok((_, after_consumer)) => match number_in(after_consumer, 8) {
                    Ok((delivery_tag, _)) => Some(delivery_tag),
                    Err(_) => None,
                },
                Err(_) => None,
            }
        } else {
            None
        },
        Err(_) => None,
    }
}

/// The delivery tags of the basic.delivers in `bytes`, in order.
#[verifier::opaque]
pub open spec fn tags_said(bytes: Seq<u8>) -> Seq<nat>
    decreases bytes.len(),
{
    match frame_in(bytes) {
        Ok((Some(frame), rest)) => match tag_carried(frame) {
            Some(delivery_tag) => seq![delivery_tag] + tags_said(rest),
            None => tags_said(rest),
        },
        _ => Seq::empty(),
    }
}

/// The tags from the one after `last` up to `to`.
pub open spec fn tags_after(last: nat, to: nat) -> Seq<nat> {
    Seq::new((to - last) as nat, |i: int| (last + 1 + i) as nat)
}

/// What a session says where it delivers nothing: nothing at all, a
/// heartbeat, or one method that is no basic.deliver.
pub open spec fn plain(bytes: Seq<u8>) -> bool {
    ||| bytes == Seq::<u8>::empty()
    ||| bytes == heartbeat_bytes()
    ||| exists|method: MethodView, channel: u16|
        compact(method) && method.id != BASIC_DELIVER && bytes == #[trigger] method_bytes(
            method,
            channel,
        )
}

/// The queue and the tag of a basic.consume that a session hears, and its
/// channel, where it hears one it can read.
pub open spec fn consume_heard(session: SessionView, heard: Option<FrameView>) -> Option<
    (u16, Seq<char>, Seq<char>),
> {
    if session.stage is Serving && heard is Some {
        match method_in(heard->0) {
            Ok(method) => if method.id == BASIC_CONSUME {
                match consume_in(method.arguments) {
                    Ok((queue, asked)) => Some((heard->0.channel, queue, asked)),
                    Err(_) => None,
                }
            } else {
                None
            },
            Err(_) => None,
        }
    } else {
        None
    }
}

/// The queue and the body of a publish that a session has whole once it
/// hears this.
pub open spec fn publish_heard(session: SessionView, heard: Option<FrameView>) -> Option<
    (Seq<char>, Seq<u8>),
> {
    match session.stage {
        StageView::Content { queue, content } => match content_takes(content, heard) {
            Ok(ProgressView::Whole(body)) => Some((queue, body)),
            _ => None,
        },
        _ => None,
    }
}

/// A session that hears neither a consume nor the end of a publish delivers
/// nothing, spends no tag, and holds what it held.
proof fn lemma_plain_answer(session: SessionView, heard: Option<FrameView>)
    requires
        consume_heard(session, heard) is None,
        publish_heard(session, heard) is None,
    ensures
        plain(session_hears(session, heard).1.write),
        session_hears(session, heard).0.delivery_tag == session.delivery_tag,
        session_hears(session, heard).0.queues == session.queues,
        session_hears(session, heard).0.consumer == session.consumer || session_hears(
            session,
            heard,
        ).0.consumer is None,
{
    lemma_plain_methods();
}

/// The methods a session says but basic.deliver and basic.consume-ok, each
/// in one frame.
proof fn lemma_plain_methods()
    ensures
        compact(tune_method(CONNECTION_TUNE, 1, MAX_FRAME as u32)),
        compact(open_ok_method()),
        compact(channel_open_ok_method()),
        compact(bare_of(CHANNEL_CLOSE_OK)),
        compact(bare_of(CONNECTION_CLOSE_OK)),
        forall|code: u16, text: Seq<char>| #[trigger]
            compact(close_method(CONNECTION_CLOSE, code, text)),
        forall|queue: Seq<char>, messages: u32| #[trigger]
            compact(declare_ok_method(queue, messages)),
{
    lemma_tune_length(CONNECTION_TUNE, 1, MAX_FRAME as u32);
    lemma_open_length(Seq::empty());
    assert forall|code: u16, text: Seq<char>| #[trigger]
        compact(close_method(CONNECTION_CLOSE, code, text)) by {
        lemma_close_length(CONNECTION_CLOSE, code, text);
    }
    assert forall|queue: Seq<char>, messages: u32| #[trigger]
        compact(declare_ok_method(queue, messages)) by {
        lemma_declare_length(queue, messages);
    }
}

/// What delivers nothing carries no delivery tag, whatever follows it.
proof fn lemma_tags_of_plain(bytes: Seq<u8>, rest: Seq<u8>)
    requires
        plain(bytes),
    ensures
        tags_said(bytes + rest) == tags_said(rest),
{
    reveal(tags_said);
    if bytes == Seq::<u8>::empty() {
        lemma_nothing(rest);
    } else if bytes == heartbeat_bytes() {
        let heartbeat = FrameView { kind: Kind::Heartbeat, channel: 0, payload: Seq::empty() };
        law_frame_round_trips(heartbeat, rest);
    } else {
        let (method, channel) = choose|method: MethodView, channel: u16|
            compact(method) && method.id != BASIC_DELIVER && bytes == #[trigger] method_bytes(
                method,
                channel,
            );
        lemma_method_is_framed(method, channel, rest);
        law_method_is_carried(method, channel);
    }
}

/// A basic.deliver carries its delivery tag, whatever it is called and
/// whatever follows it.
proof fn lemma_tags_of_deliver(
    tag: Seq<char>,
    delivery_tag: u64,
    queue: Seq<char>,
    channel: u16,
    rest: Seq<u8>,
)
    ensures
        tags_said(
            method_bytes(deliver_method(tag, delivery_tag, Seq::empty(), queue), channel) + rest,
        ) == seq![delivery_tag as nat] + tags_said(rest),
{
    reveal(tags_said);
    let method = deliver_method(tag, delivery_tag, Seq::empty(), queue);
    let number = big_endian(delivery_tag as nat, 8);
    let exchange = short_string_bytes(Seq::empty());
    let key = short_string_bytes(queue);
    let after_number = seq![0u8] + (exchange + key);
    lemma_deliver_length(tag, delivery_tag, Seq::empty(), queue);
    lemma_method_is_framed(method, channel, rest);
    law_method_is_carried(method, channel);
    lemma_five_grouped(short_string_bytes(tag), number, seq![0u8], exchange, key);
    law_short_string_is_cut(tag, number + after_number);
    lemma_capacities();
    law_number_reads_back(delivery_tag as nat, 8, after_number);
}

/// Frames that are no methods carry no delivery tag, whatever follows them.
proof fn lemma_tags_of_frames(frames: Seq<FrameView>, rest: Seq<u8>)
    requires
        forall|i: int|
            0 <= i < frames.len() ==> (#[trigger] frames[i]).kind != Kind::Method
                && frames[i].payload.len() <= MAX_FRAME,
    ensures
        tags_said(frames_bytes(frames) + rest) == tags_said(rest),
    decreases frames.len(),
{
    if frames.len() == 0 {
        lemma_nothing(rest);
    } else {
        let others = frames.skip(1);
        assert forall|i: int| 0 <= i < others.len() implies (#[trigger] others[i]).kind
            != Kind::Method && others[i].payload.len() <= MAX_FRAME by {
            assert(others[i] == frames[i + 1]);
        }
        lemma_grouped(frame_bytes(frames[0]), frames_bytes(others), rest);
        law_frame_round_trips(frames[0], frames_bytes(others) + rest);
        reveal(tags_said);
        lemma_tags_of_frames(others, rest);
    }
}

/// The frames of a content are no methods, and fit a frame that peers read.
proof fn lemma_content_carries_no_method(channel: u16, body: Seq<u8>)
    ensures
        ({
            let frames = content_frames(channel, body, MAX_FRAME as nat);
            forall|i: int|
                0 <= i < frames.len() ==> (#[trigger] frames[i]).kind != Kind::Method
                    && frames[i].payload.len() <= MAX_FRAME
        }),
{
    let frames = content_frames(channel, body, MAX_FRAME as nat);
    law_content_fits(channel, body, MAX_FRAME as nat);
    lemma_header_length(body.len());
    assert forall|i: int| 0 <= i < frames.len() implies (#[trigger] frames[i]).kind
        != Kind::Method && frames[i].payload.len() <= MAX_FRAME by {
        if i > 0 {
            lemma_width(frames[i].channel as nat, 2);
            lemma_width(frames[i].payload.len(), 4);
        }
    }
}

/// A message given on a queue goes by the next tag where the queue is
/// consumed, and by none where it is not.
proof fn lemma_tags_of_delivery(
    session: SessionView,
    queue: Seq<char>,
    body: Seq<u8>,
    rest: Seq<u8>,
)
    requires
        session_delivers(session, queue, body).0.delivery_tag <= u64::MAX,
    ensures
        tags_said(session_delivers(session, queue, body).1 + rest) == tags_after(
            session.delivery_tag,
            session_delivers(session, queue, body).0.delivery_tag,
        ) + tags_said(rest),
{
    let (after, said) = session_delivers(session, queue, body);
    let spent = tags_after(session.delivery_tag, after.delivery_tag);
    if consumes(session, queue) {
        let consumer = session.consumer->0;
        let delivery_tag = (session.delivery_tag + 1) as u64;
        let method = deliver_method(consumer.tag, delivery_tag, Seq::empty(), queue);
        let frames = content_frames(consumer.channel, body, MAX_FRAME as nat);
        lemma_grouped(method_bytes(method, consumer.channel), frames_bytes(frames), rest);
        lemma_tags_of_deliver(
            consumer.tag,
            delivery_tag,
            queue,
            consumer.channel,
            frames_bytes(frames) + rest,
        );
        lemma_content_carries_no_method(consumer.channel, body);
        lemma_tags_of_frames(frames, rest);
        assert(spent =~= seq![delivery_tag as nat]);
    } else {
        lemma_nothing(rest);
        assert(spent + tags_said(rest) =~= tags_said(rest));
    }
}

/// Tags up to one and on from it are the tags all the way.
proof fn lemma_tags_join(first: nat, second: nat, third: nat, rest: Seq<nat>)
    requires
        first <= second <= third,
    ensures
        tags_after(first, second) + (tags_after(second, third) + rest) == tags_after(first, third)
            + rest,
{
    assert(tags_after(first, second) + (tags_after(second, third) + rest) =~= tags_after(
        first,
        third,
    ) + rest);
}

/// Messages given one after the other on a queue that is consumed go by the
/// next tags, in order.
proof fn lemma_tags_of_deliveries(
    session: SessionView,
    queue: Seq<char>,
    messages: Seq<Seq<u8>>,
    rest: Seq<u8>,
)
    requires
        session_delivers_all(session, queue, messages).0.delivery_tag <= u64::MAX,
    ensures
        tags_said(session_delivers_all(session, queue, messages).1 + rest) == tags_after(
            session.delivery_tag,
            session_delivers_all(session, queue, messages).0.delivery_tag,
        ) + tags_said(rest),
    decreases messages.len(),
{
    let last = session.delivery_tag;
    if messages.len() == 0 {
        lemma_nothing(rest);
        assert(tags_after(last, last) + tags_said(rest) =~= tags_said(rest));
    } else {
        let (after, first) = session_delivers(session, queue, messages[0]);
        let (all, others) = session_delivers_all(after, queue, messages.skip(1));
        lemma_delivering_keeps(after, queue, messages.skip(1));
        lemma_grouped(first, others, rest);
        lemma_tags_of_delivery(session, queue, messages[0], others + rest);
        lemma_tags_of_deliveries(after, queue, messages.skip(1), rest);
        lemma_tags_join(last, after.delivery_tag, all.delivery_tag, tags_said(rest));
    }
}

/// The tags of the basic.delivers a session says to a frame, or to the
/// client closing, are exactly the ones after the last it gave out, up to the
/// last it has given out since, each once and in order; and so are those of
/// a message it is given to deliver. Whatever follows is not counted.
pub proof fn law_each_step_spends_the_next_tags(
    session: SessionView,
    heard: Option<FrameView>,
    queue: Seq<char>,
    body: Seq<u8>,
    rest: Seq<u8>,
)
    ensures
        session.delivery_tag <= session_hears(session, heard).0.delivery_tag,
        session_hears(session, heard).0.delivery_tag <= u64::MAX ==> tags_said(
            session_hears(session, heard).1.write + rest,
        ) == tags_after(session.delivery_tag, session_hears(session, heard).0.delivery_tag)
            + tags_said(rest),
        session.delivery_tag <= session_delivers(session, queue, body).0.delivery_tag,
        session_delivers(session, queue, body).0.delivery_tag <= u64::MAX ==> tags_said(
            session_delivers(session, queue, body).1 + rest,
        ) == tags_after(
            session.delivery_tag,
            session_delivers(session, queue, body).0.delivery_tag,
        ) + tags_said(rest),
{
    let (after, answer) = session_hears(session, heard);
    if session_delivers(session, queue, body).0.delivery_tag <= u64::MAX {
        lemma_tags_of_delivery(session, queue, body, rest);
    }
    if let Some((channel, named, asked)) = consume_heard(session, heard) {
        let messages = held_under(session.queues, named);
        let consuming = consumer_of(session, channel, named, asked);
        let confirmed = method_bytes(consume_ok_method(tag_for(session, asked)), channel);
        let delivered = session_delivers_all(consuming, named, messages).1;
        lemma_delivering_keeps(consuming, named, messages);
        if after.delivery_tag <= u64::MAX {
            lemma_short_string_length(tag_for(session, asked));
            assert(plain(confirmed));
            lemma_grouped(confirmed, delivered, rest);
            lemma_tags_of_plain(confirmed, delivered + rest);
            lemma_tags_of_deliveries(consuming, named, messages, rest);
        }
    } else if let Some((named, whole)) = publish_heard(session, heard) {
        let serving = staged(session, StageView::Serving);
        if after.delivery_tag <= u64::MAX {
            lemma_tags_of_delivery(serving, named, whole, rest);
        }
    } else {
        lemma_plain_answer(session, heard);
        lemma_tags_of_plain(answer.write, rest);
        assert(tags_after(session.delivery_tag, after.delivery_tag) + tags_said(rest)
            =~= tags_said(rest));
    }
}

/// A session whose client starts consuming `queue`.
pub open spec fn consumer_of(
    session: SessionView,
    channel: u16,
    queue: Seq<char>,
    asked: Seq<char>,
) -> SessionView {
    SessionView {
        consumer: Some(ConsumerView { tag: tag_for(session, asked), queue, channel }),
        queues: session.queues.remove(queue),
        ..session
    }
}

/// One thing that happens to a session: it hears a frame or that the client
/// closed, it is given a message to deliver, it is asked to wait for what
/// the client does next, or it is handed the queues of another.
pub enum Act {
    Heard(Option<FrameView>),
    Given { queue: Seq<char>, body: Seq<u8> },
    Awaited { publishes_only: bool },
    Handed { queues: Map<Seq<char>, Seq<Seq<u8>>> },
}

/// What one thing makes of a session, and what the session says to it.
pub open spec fn session_does(session: SessionView, act: Act) -> (SessionView, Seq<u8>) {
    match act {
        Act::Heard(heard) => {
            let (after, answer) = session_hears(session, heard);
            (after, answer.write)
        },
        Act::Given { queue, body } => session_delivers(session, queue, body),
        Act::Awaited { publishes_only } => (awaited(session, publishes_only), Seq::empty()),
        Act::Handed { queues } => (SessionView { queues, ..session }, Seq::empty()),
    }
}

/// What things one after the other make of a session, and all it says.
pub open spec fn session_lives(session: SessionView, acts: Seq<Act>) -> (SessionView, Seq<u8>)
    decreases acts.len(),
{
    if acts.len() == 0 {
        (session, Seq::empty())
    } else {
        let (after, first) = session_does(session, acts[0]);
        let (last, others) = session_lives(after, acts.skip(1));
        (last, first + others)
    }
}

/// No delivery tag is given out twice and none is left out: over any run of
/// what a client does and what is given to a session, across its queues,
/// consumers and channels, the basic.delivers it says go by exactly the tags
/// after the last it had given out, up to the last it has given out since,
/// each once and in order.
pub proof fn law_no_tag_is_skipped_or_repeated(session: SessionView, acts: Seq<Act>)
    ensures
        session.delivery_tag <= session_lives(session, acts).0.delivery_tag,
        session_lives(session, acts).0.delivery_tag <= u64::MAX ==> tags_said(
            session_lives(session, acts).1,
        ) == tags_after(session.delivery_tag, session_lives(session, acts).0.delivery_tag),
    decreases acts.len(),
{
    let first_tag = session.delivery_tag;
    if acts.len() == 0 {
        reveal(tags_said);
        assert(tags_after(first_tag, first_tag) =~= Seq::empty());
    } else {
        let (after, first) = session_does(session, acts[0]);
        let (last, others) = session_lives(after, acts.skip(1));
        law_no_tag_is_skipped_or_repeated(after, acts.skip(1));
        match acts[0] {
            Act::Heard(heard) => {
                law_each_step_spends_the_next_tags(
                    session,
                    heard,
                    Seq::empty(),
                    Seq::empty(),
                    others,
                );
            },
            Act::Given { queue, body } => {
                law_each_step_spends_the_next_tags(session, None, queue, body, others);
            },
            _ => {
                lemma_nothing(others);
                assert(tags_after(first_tag, first_tag) + tags_said(others) =~= tags_said(others));
            },
        }
        lemma_tags_join(first_tag, after.delivery_tag, last.delivery_tag, Seq::empty());
        assert(tags_after(after.delivery_tag, last.delivery_tag) + Seq::<nat>::empty()
            =~= tags_after(after.delivery_tag, last.delivery_tag));
        assert(tags_after(first_tag, last.delivery_tag) + Seq::<nat>::empty() =~= tags_after(
            first_tag,
            last.delivery_tag,
        ));
    }
}

/// The deliveries of a session go by the tags one, two, three and so on,
/// whatever happens to it from when its client connects.
pub proof fn law_tags_count_from_one(
    peer: Seq<char>,
    port: u16,
    expected: LoginView,
    header: Seq<u8>,
    acts: Seq<Act>,
)
    ensures
        ({
            let (session, _) = session_greets(accepted(peer, port, expected), header);
            let (after, said) = session_lives(session, acts);
            after.delivery_tag <= u64::MAX ==> tags_said(said) == Seq::new(
                after.delivery_tag,
                |i: int| (1 + i) as nat,
            )
        }),
{
    let (session, _) = session_greets(accepted(peer, port, expected), header);
    let (after, said) = session_lives(session, acts);
    law_no_tag_is_skipped_or_repeated(session, acts);
    assert(tags_after(0, after.delivery_tag) =~= Seq::new(
        after.delivery_tag,
        |i: int| (1 + i) as nat,
    ));
}

/// One message on a queue.
pub struct Message {
    pub queue: Seq<char>,
    pub body: Seq<u8>,
}

/// The queue a frame delivers to, where it is a basic.deliver that can be
/// read.
pub open spec fn queue_carried(frame: FrameView) -> Option<Seq<char>> {
    match method_in(frame) {
        Ok(method) => if method.id == BASIC_DELIVER {
            match deliver_in(method.arguments) {
                Ok((_, _, queue)) => Some(queue),
                Err(_) => None,
            }
        } else {
            None
        },
        Err(_) => None,
    }
}

/// A body of `size` octets of which `have` is there, and what follows it:
/// the payloads of the body frames at the front of `bytes`, however many and
/// however long.
pub open spec fn body_carried(size: nat, have: Seq<u8>, bytes: Seq<u8>) -> Option<
    (Seq<u8>, Seq<u8>),
>
    decreases bytes.len(),
{
    if have.len() >= size {
        Some((have, bytes))
    } else {
        match frame_in(bytes) {
            Ok((Some(frame), rest)) => if frame.kind == Kind::Body {
                body_carried(size, have + frame.payload, rest)
            } else {
                None
            },
            _ => None,
        }
    }
}

/// The body of the content at the front of `bytes`, and what follows it:
/// what its header announces, with no limit.
pub open spec fn content_carried(bytes: Seq<u8>) -> Option<(Seq<u8>, Seq<u8>)> {
    match frame_in(bytes) {
        Ok((Some(frame), rest)) => if frame.kind == Kind::Header {
            match body_size_in(frame.payload) {
                Ok(size) => body_carried(size, Seq::empty(), rest),
                Err(_) => None,
            }
        } else {
            None
        },
        _ => None,
    }
}

/// The messages that `bytes` deliver, in order: each the queue of a
/// basic.deliver and the body of the content that follows it.
#[verifier::opaque]
pub open spec fn delivered_in(bytes: Seq<u8>) -> Seq<Message>
    decreases bytes.len(),
{
    match frame_in(bytes) {
        Ok((Some(frame), rest)) => match queue_carried(frame) {
            Some(queue) => match content_carried(rest) {
                Some((body, left)) => {
                    proof {
                        lemma_content_is_consumed(rest);
                    }
                    seq![Message { queue, body }] + delivered_in(left)
                },
                None => Seq::empty(),
            },
            None => delivered_in(rest),
        },
        _ => Seq::empty(),
    }
}

/// What follows a content is no more than there was.
pub proof fn lemma_content_is_consumed(bytes: Seq<u8>)
    ensures
        content_carried(bytes) matches Some((_, left)) ==> left.len() <= bytes.len(),
{
    if let Ok((Some(frame), rest)) = frame_in(bytes) {
        if let Ok(size) = body_size_in(frame.payload) {
            lemma_body_is_consumed(size, Seq::empty(), rest);
        }
    }
}

/// What follows a body is no more than there was.
proof fn lemma_body_is_consumed(size: nat, have: Seq<u8>, bytes: Seq<u8>)
    ensures
        body_carried(size, have, bytes) matches Some((_, left)) ==> left.len() <= bytes.len(),
    decreases bytes.len(),
{
    if have.len() < size {
        if let Ok((Some(frame), rest)) = frame_in(bytes) {
            lemma_body_is_consumed(size, have + frame.payload, rest);
        }
    }
}

/// The frames of the rest of a body carry it, whatever follows them.
proof fn lemma_body_is_carried(
    channel: u16,
    have: Seq<u8>,
    body: Seq<u8>,
    chunk: nat,
    rest: Seq<u8>,
)
    requires
        0 < chunk <= MAX_FRAME,
    ensures
        body_carried(
            have.len() + body.len(),
            have,
            frames_bytes(body_frames(channel, body, chunk)) + rest,
        ) == Some((have + body, rest)),
    decreases body.len(),
{
    if body.len() == 0 {
        lemma_rejoined(have, body, 0, rest);
        assert(have + body =~= have);
    } else {
        let part = part_of(body, chunk);
        let first = FrameView { kind: Kind::Body, channel, payload: body.take(part) };
        let others = body_frames(channel, body.skip(part), chunk);
        lemma_first_frame(body_frames(channel, body, chunk), first, others, rest);
        law_frame_round_trips(first, frames_bytes(others) + rest);
        lemma_rejoined(have, body, part, rest);
        lemma_body_is_carried(channel, have + first.payload, body.skip(part), chunk, rest);
    }
}

/// The frames of a content carry its body, whatever follows them: for every
/// body that memory holds.
proof fn lemma_content_is_carried(channel: u16, body: Seq<u8>, rest: Seq<u8>)
    requires
        body.len() <= usize::MAX,
    ensures
        content_carried(
            frames_bytes(content_frames(channel, body, MAX_FRAME as nat)) + rest,
        ) == Some((body, rest)),
{
    let chunk = chunk_of(MAX_FRAME as nat);
    let header = FrameView {
        kind: Kind::Header,
        channel,
        payload: header_payload(body.len()),
    };
    let others = body_frames(channel, body, chunk);
    lemma_header_length(body.len());
    lemma_first_frame(content_frames(channel, body, MAX_FRAME as nat), header, others, rest);
    law_frame_round_trips(header, frames_bytes(others) + rest);
    law_body_size_round_trips(body.len());
    lemma_body_is_carried(channel, Seq::empty(), body, chunk, rest);
    assert(Seq::<u8>::empty() + body =~= body);
}

/// The bodies of the messages on `queue`, in order.
pub open spec fn bodies_on(queue: Seq<char>, messages: Seq<Message>) -> Seq<Seq<u8>>
    decreases messages.len(),
{
    if messages.len() == 0 {
        Seq::empty()
    } else if messages[0].queue == queue {
        seq![messages[0].body] + bodies_on(queue, messages.skip(1))
    } else {
        bodies_on(queue, messages.skip(1))
    }
}

/// The bodies of messages after others are those of both, in order.
proof fn lemma_bodies_join(queue: Seq<char>, first: Seq<Message>, second: Seq<Message>)
    ensures
        bodies_on(queue, first + second) == bodies_on(queue, first) + bodies_on(queue, second),
    decreases first.len(),
{
    if first.len() == 0 {
        assert(first + second =~= second);
        assert(bodies_on(queue, first) + bodies_on(queue, second) =~= bodies_on(queue, second));
    } else {
        lemma_bodies_join(queue, first.skip(1), second);
        assert((first + second).skip(1) =~= first.skip(1) + second);
        assert(bodies_on(queue, first + second) =~= bodies_on(queue, first) + bodies_on(
            queue,
            second,
        ));
    }
}

/// One body after another, as messages on `queue`.
pub open spec fn messages_on(queue: Seq<char>, bodies: Seq<Seq<u8>>) -> Seq<Message> {
    bodies.map_values(|body: Seq<u8>| Message { queue, body })
}

/// Messages on one queue are its bodies, and none on another.
proof fn lemma_bodies_of_one(queue: Seq<char>, other: Seq<char>, bodies: Seq<Seq<u8>>)
    ensures
        bodies_on(other, messages_on(queue, bodies)) == if other == queue {
            bodies
        } else {
            Seq::empty()
        },
    decreases bodies.len(),
{
    if bodies.len() > 0 {
        lemma_bodies_of_one(queue, other, bodies.skip(1));
        assert(messages_on(queue, bodies).skip(1) =~= messages_on(queue, bodies.skip(1)));
        if other == queue {
            assert(seq![bodies[0]] + bodies.skip(1) =~= bodies);
        }
    } else if other == queue {
        assert(bodies =~= Seq::empty());
    }
}

/// Whether every message that is held is one that memory holds.
pub open spec fn held_in_memory(queues: Map<Seq<char>, Seq<Seq<u8>>>) -> bool {
    forall|queue: Seq<char>, i: int|
        0 <= i < held_under(queues, queue).len() ==> (#[trigger] held_under(queues, queue)[i]).len()
            <= usize::MAX
}

/// A session whose consumer can be told of what it is given, with nothing
/// held for it, and every message one that memory holds.
pub open spec fn sound(session: SessionView) -> bool {
    &&& reachable(session)
    &&& dry(session)
    &&& held_in_memory(session.queues)
    &&& session.stage matches StageView::Content { queue: _, content: ContentView::Body {
        size,
        body,
    } } ==> body.len() <= size <= MAX_BODY
}

/// What delivers nothing delivers no message, whatever follows it.
proof fn lemma_plain_delivers_nothing(bytes: Seq<u8>, rest: Seq<u8>)
    requires
        plain(bytes),
    ensures
        delivered_in(bytes + rest) == delivered_in(rest),
{
    reveal(delivered_in);
    if bytes == Seq::<u8>::empty() {
        lemma_nothing(rest);
    } else if bytes == heartbeat_bytes() {
        let heartbeat = FrameView { kind: Kind::Heartbeat, channel: 0, payload: Seq::empty() };
        law_frame_round_trips(heartbeat, rest);
    } else {
        let (method, channel) = choose|method: MethodView, channel: u16|
            compact(method) && method.id != BASIC_DELIVER && bytes == #[trigger] method_bytes(
                method,
                channel,
            );
        lemma_method_is_framed(method, channel, rest);
        law_method_is_carried(method, channel);
    }
}

/// A basic.deliver and its content deliver their message, whatever follows
/// them.
proof fn lemma_delivery_delivers(
    tag: Seq<char>,
    delivery_tag: u64,
    queue: Seq<char>,
    channel: u16,
    body: Seq<u8>,
    rest: Seq<u8>,
)
    requires
        encode_utf8(tag).len() <= 255,
        encode_utf8(queue).len() <= 255,
        body.len() <= usize::MAX,
    ensures
        delivered_in(
            method_bytes(deliver_method(tag, delivery_tag, Seq::empty(), queue), channel) + (
            frames_bytes(content_frames(channel, body, MAX_FRAME as nat)) + rest),
        ) == seq![Message { queue, body }] + delivered_in(rest),
{
    reveal(delivered_in);
    let method = deliver_method(tag, delivery_tag, Seq::empty(), queue);
    let content = frames_bytes(content_frames(channel, body, MAX_FRAME as nat)) + rest;
    is_ascii_chars_encode_utf8(Seq::empty());
    lemma_deliver_length(tag, delivery_tag, Seq::empty(), queue);
    law_deliver_round_trips(tag, delivery_tag, Seq::empty(), queue);
    lemma_method_is_framed(method, channel, content);
    law_method_is_carried(method, channel);
    lemma_content_is_carried(channel, body, rest);
}

/// What a message given on a queue delivers: itself where the queue is
/// consumed, and nothing where it is not.
proof fn lemma_giving_delivers(
    session: SessionView,
    queue: Seq<char>,
    body: Seq<u8>,
    rest: Seq<u8>,
)
    requires
        reachable(session),
        body.len() <= usize::MAX,
    ensures
        delivered_in(session_delivers(session, queue, body).1 + rest) == (if consumes(
            session,
            queue,
        ) {
            seq![Message { queue, body }]
        } else {
            Seq::empty()
        }) + delivered_in(rest),
{
    if consumes(session, queue) {
        let consumer = session.consumer->0;
        let delivery_tag = (session.delivery_tag + 1) as u64;
        let method = deliver_method(consumer.tag, delivery_tag, Seq::empty(), queue);
        let content = frames_bytes(content_frames(consumer.channel, body, MAX_FRAME as nat));
        lemma_grouped(method_bytes(method, consumer.channel), content, rest);
        lemma_delivery_delivers(consumer.tag, delivery_tag, queue, consumer.channel, body, rest);
    } else {
        lemma_nothing(rest);
        assert(Seq::<Message>::empty() + delivered_in(rest) =~= delivered_in(rest));
    }
}

/// What messages given one after the other on a queue that is consumed
/// deliver: themselves, in order.
proof fn lemma_giving_all_delivers(
    session: SessionView,
    queue: Seq<char>,
    bodies: Seq<Seq<u8>>,
    rest: Seq<u8>,
)
    requires
        consumes(session, queue),
        reachable(session),
        forall|i: int| 0 <= i < bodies.len() ==> (#[trigger] bodies[i]).len() <= usize::MAX,
    ensures
        delivered_in(session_delivers_all(session, queue, bodies).1 + rest) == messages_on(
            queue,
            bodies,
        ) + delivered_in(rest),
    decreases bodies.len(),
{
    if bodies.len() == 0 {
        lemma_nothing(rest);
        assert(messages_on(queue, bodies) + delivered_in(rest) =~= delivered_in(rest));
    } else {
        let (after, first) = session_delivers(session, queue, bodies[0]);
        let others = session_delivers_all(after, queue, bodies.skip(1)).1;
        assert forall|i: int| 0 <= i < bodies.skip(1).len() implies (#[trigger] bodies.skip(
            1,
        )[i]).len() <= usize::MAX by {
            assert(bodies.skip(1)[i] == bodies[i + 1]);
        }
        lemma_grouped(first, others, rest);
        lemma_giving_delivers(session, queue, bodies[0], others + rest);
        lemma_giving_all_delivers(after, queue, bodies.skip(1), rest);
        let one = seq![Message { queue, body: bodies[0] }];
        assert(one + (messages_on(queue, bodies.skip(1)) + delivered_in(rest)) =~= messages_on(
            queue,
            bodies,
        ) + delivered_in(rest));
    }
}

/// The messages that one thing brings to a session.
pub open spec fn brought(session: SessionView, act: Act) -> Seq<Message> {
    match act {
        Act::Heard(heard) => match publish_heard(session, heard) {
            Some((queue, body)) => seq![Message { queue, body }],
            None => Seq::empty(),
        },
        Act::Given { queue, body } => seq![Message { queue, body }],
        _ => Seq::empty(),
    }
}

/// Text that was read as a short string fits one.
proof fn lemma_short_string_fits(bytes: Seq<u8>)
    ensures
        short_string_in(bytes) matches Ok((text, _)) ==> encode_utf8(text).len() <= 255,
{
    if let Ok((taken, _)) = counted_in(bytes, 1) {
        lemma_capacities();
        law_octets_round_trip(bytes.take(1));
        if valid_utf8(taken) {
            decode_utf8_encode_utf8(taken);
        }
    }
}

/// The queue and the tag of a consume that was read each fit a short string.
proof fn lemma_consume_fits(arguments: Seq<u8>)
    ensures
        consume_in(arguments) matches Ok((queue, tag)) ==> encode_utf8(queue).len() <= 255
            && encode_utf8(tag).len() <= 255,
{
    if let Ok((_, rest_a)) = number_in(arguments, 2) {
        lemma_short_string_fits(rest_a);
        if let Ok((_, rest_b)) = short_string_in(rest_a) {
            lemma_short_string_fits(rest_b);
        }
    }
}

/// Whether a thing that happens to a session brings it no queues of another,
/// and no message but one that memory holds.
pub open spec fn ordinary(act: Act) -> bool {
    match act {
        Act::Given { body, .. } => body.len() <= usize::MAX,
        Act::Handed { .. } => false,
        _ => true,
    }
}

/// A body that is whole is one that memory holds.
proof fn lemma_published_is_in_memory(session: SessionView, heard: Option<FrameView>)
    requires
        sound(session),
    ensures
        publish_heard(session, heard) matches Some((_, body)) ==> body.len() <= usize::MAX,
{
}

/// A session that is sound stays so, whatever ordinary thing happens to it.
proof fn lemma_stays_sound(session: SessionView, act: Act)
    requires
        sound(session),
        ordinary(act),
    ensures
        sound(session_does(session, act).0),
{
    match act {
        Act::Heard(heard) => {
            lemma_hearing_stays_sound(session, heard);
        },
        Act::Given { queue, body } => {
            lemma_giving_stays_sound(session, queue, body);
        },
        _ => {},
    }
}

/// A session that is sound stays so when it is given a message.
proof fn lemma_giving_stays_sound(session: SessionView, queue: Seq<char>, body: Seq<u8>)
    requires
        sound(session),
        body.len() <= usize::MAX,
    ensures
        sound(session_delivers(session, queue, body).0),
{
    let after = session_delivers(session, queue, body).0;
    assert forall|other: Seq<char>, i: int|
        0 <= i < held_under(after.queues, other).len() implies (#[trigger] held_under(
        after.queues,
        other,
    )[i]).len() <= usize::MAX by {
        let held = held_under(session.queues, other);
        if i < held.len() {
            assert(held[i].len() <= usize::MAX);
            assert(held_under(after.queues, other)[i] == held[i]);
        }
    }
}

/// A session that is sound stays so when it hears its client.
proof fn lemma_hearing_stays_sound(session: SessionView, heard: Option<FrameView>)
    requires
        sound(session),
    ensures
        sound(session_hears(session, heard).0),
{
    let after = session_hears(session, heard).0;
    if let Some((channel, queue, asked)) = consume_heard(session, heard) {
        let messages = held_under(session.queues, queue);
        let consuming = consumer_of(session, channel, queue, asked);
        lemma_delivering_keeps(consuming, queue, messages);
        lemma_consume_fits(method_in(heard->0)->Ok_0.arguments);
        lemma_port_length(session.port);
        assert forall|other: Seq<char>, i: int|
            0 <= i < held_under(after.queues, other).len() implies (#[trigger] held_under(
            after.queues,
            other,
        )[i]).len() <= usize::MAX by {
            assert(held_under(session.queues, other)[i].len() <= usize::MAX);
        }
    } else if let Some((queue, body)) = publish_heard(session, heard) {
        let serving = staged(session, StageView::Serving);
        lemma_published_is_in_memory(session, heard);
        lemma_giving_stays_sound(serving, queue, body);
    } else {
        lemma_plain_answer(session, heard);
    }
}

/// The messages that one thing has a session deliver: what its queue held
/// where the client starts consuming it, and what is published or given on a
/// queue that it consumes.
pub open spec fn delivers(session: SessionView, act: Act) -> Seq<Message> {
    match act {
        Act::Heard(heard) => match consume_heard(session, heard) {
            Some((_, queue, _)) => messages_on(queue, held_under(session.queues, queue)),
            None => match publish_heard(session, heard) {
                Some((queue, body)) => if consumes(session, queue) {
                    seq![Message { queue, body }]
                } else {
                    Seq::empty()
                },
                None => Seq::empty(),
            },
        },
        Act::Given { queue, body } => if consumes(session, queue) {
            seq![Message { queue, body }]
        } else {
            Seq::empty()
        },
        _ => Seq::empty(),
    }
}

/// What a session says to a consume: that it is confirmed, and then all that
/// its queue held.
proof fn lemma_consume_is_served(session: SessionView, heard: Option<FrameView>)
    requires
        consume_heard(session, heard) is Some,
    ensures
        ({
            let (channel, queue, asked) = consume_heard(session, heard)->0;
            let consuming = consumer_of(session, channel, queue, asked);
            session_hears(session, heard).1.write == method_bytes(
                consume_ok_method(tag_for(session, asked)),
                channel,
            ) + session_delivers_all(consuming, queue, held_under(session.queues, queue)).1
        }),
{
}

/// A consume that is heard has the session deliver what its queue held.
proof fn lemma_consuming_delivers(
    session: SessionView,
    heard: Option<FrameView>,
    rest: Seq<u8>,
)
    requires
        sound(session),
        consume_heard(session, heard) is Some,
    ensures
        ({
            let queue = (consume_heard(session, heard)->0).1;
            delivered_in(session_hears(session, heard).1.write + rest) == messages_on(
                queue,
                held_under(session.queues, queue),
            ) + delivered_in(rest)
        }),
{
    let (channel, queue, asked) = consume_heard(session, heard)->0;
    let messages = held_under(session.queues, queue);
    let consuming = consumer_of(session, channel, queue, asked);
    let confirmed = method_bytes(consume_ok_method(tag_for(session, asked)), channel);
    let delivered = session_delivers_all(consuming, queue, messages).1;
    lemma_consume_is_served(session, heard);
    lemma_consume_fits(method_in(heard->0)->Ok_0.arguments);
    lemma_port_length(session.port);
    lemma_short_string_length(tag_for(session, asked));
    assert(plain(confirmed));
    lemma_grouped(confirmed, delivered, rest);
    lemma_plain_delivers_nothing(confirmed, delivered + rest);
    lemma_giving_all_delivers(consuming, queue, messages, rest);
}

/// What a session delivers is what it says, whatever follows it.
proof fn lemma_delivers_what_it_says(session: SessionView, act: Act, rest: Seq<u8>)
    requires
        sound(session),
        ordinary(act),
    ensures
        delivered_in(session_does(session, act).1 + rest) == delivers(session, act)
            + delivered_in(rest),
{
    let said = session_does(session, act).1;
    let later = delivered_in(rest);
    match act {
        Act::Heard(heard) => {
            if consume_heard(session, heard) is Some {
                lemma_consuming_delivers(session, heard, rest);
            } else if let Some((queue, body)) = publish_heard(session, heard) {
                let serving = staged(session, StageView::Serving);
                lemma_published_is_in_memory(session, heard);
                lemma_giving_delivers(serving, queue, body, rest);
            } else {
                lemma_plain_answer(session, heard);
                lemma_plain_delivers_nothing(said, rest);
                assert(Seq::<Message>::empty() + later =~= later);
            }
        },
        Act::Given { queue, body } => {
            lemma_giving_delivers(session, queue, body, rest);
        },
        _ => {
            lemma_nothing(rest);
            assert(Seq::<Message>::empty() + later =~= later);
        },
    }
}

/// What a queue held and what was brought to it is what was delivered from it
/// and what it holds.
proof fn lemma_step_balances(session: SessionView, act: Act, queue: Seq<char>)
    requires
        dry(session),
        act !is Handed,
    ensures
        session_does(session, act).0.delivery_tag == session.delivery_tag + delivers(
            session,
            act,
        ).len(),
        dry(session_does(session, act).0),
        held_under(session.queues, queue) + bodies_on(queue, brought(session, act)) == bodies_on(
            queue,
            delivers(session, act),
        ) + held_under(session_does(session, act).0.queues, queue),
{
    let held = held_under(session.queues, queue);
    lemma_stays_dry(session, act);
    match act {
        Act::Heard(heard) => {
            if let Some((channel, named, asked)) = consume_heard(session, heard) {
                let messages = held_under(session.queues, named);
                let consuming = consumer_of(session, channel, named, asked);
                lemma_delivering_keeps(consuming, named, messages);
                lemma_bodies_of_one(named, queue, messages);
                assert(held + Seq::empty() =~= held);
                assert(Seq::empty() + held =~= held);
            } else if let Some((named, body)) = publish_heard(session, heard) {
                lemma_giving_balances(staged(session, StageView::Serving), named, body, queue);
            } else {
                lemma_plain_answer(session, heard);
                assert(held + Seq::empty() =~= Seq::empty() + held);
            }
        },
        Act::Given { queue: named, body } => {
            lemma_giving_balances(session, named, body, queue);
        },
        _ => {
            assert(held + Seq::empty() =~= Seq::empty() + held);
        },
    }
}

/// A message given on a queue is kept there or delivered from it, and no
/// other queue is touched.
proof fn lemma_giving_balances(
    session: SessionView,
    named: Seq<char>,
    body: Seq<u8>,
    queue: Seq<char>,
)
    requires
        dry(session),
    ensures
        ({
            let one = seq![Message { queue: named, body }];
            let sent = if consumes(session, named) {
                one
            } else {
                Seq::empty()
            };
            held_under(session.queues, queue) + bodies_on(queue, one) == bodies_on(queue, sent)
                + held_under(session_delivers(session, named, body).0.queues, queue)
        }),
{
    let held = held_under(session.queues, queue);
    let one = seq![Message { queue: named, body }];
    assert(one =~= messages_on(named, seq![body]));
    lemma_bodies_of_one(named, queue, seq![body]);
    assert(held + Seq::empty() =~= Seq::empty() + held);
    if !consumes(session, named) && queue == named {
        assert(held + seq![body] =~= Seq::empty() + held.push(body));
    }
    if consumes(session, named) && queue == named {
        assert(held + seq![body] =~= seq![body] + held);
    }
}

/// All the messages that things one after the other bring to a session.
pub open spec fn all_brought(session: SessionView, acts: Seq<Act>) -> Seq<Message>
    decreases acts.len(),
{
    if acts.len() == 0 {
        Seq::empty()
    } else {
        brought(session, acts[0]) + all_brought(
            session_does(session, acts[0]).0,
            acts.skip(1),
        )
    }
}

/// All the messages that things one after the other have a session deliver.
pub open spec fn all_delivered(session: SessionView, acts: Seq<Act>) -> Seq<Message>
    decreases acts.len(),
{
    if acts.len() == 0 {
        Seq::empty()
    } else {
        delivers(session, acts[0]) + all_delivered(
            session_does(session, acts[0]).0,
            acts.skip(1),
        )
    }
}

/// A session whose consumed queue is dry keeps it so, whatever happens to it
/// but that it is handed the queues of another.
proof fn lemma_stays_dry(session: SessionView, act: Act)
    requires
        dry(session),
        act !is Handed,
    ensures
        dry(session_does(session, act).0),
{
    let nobody = LoginView {
        user: Seq::empty(),
        password: Seq::empty(),
        virtual_host: Seq::empty(),
    };
    let heard = match act {
        Act::Heard(heard) => heard,
        _ => None,
    };
    let (queue, body) = match act {
        Act::Given { queue, body } => (queue, body),
        _ => (Seq::empty(), Seq::empty()),
    };
    law_a_consumed_queue_is_dry(
        Seq::empty(),
        0,
        nobody,
        Seq::empty(),
        session,
        heard,
        queue,
        body,
    );
}

/// Every message is kept or delivered, and never both nor lost: over any run
/// of what a client does and what is given to a session, however long the
/// bodies, what a queue held and all that was published or given on it since
/// is, in that order, what was delivered from it and what it holds. Each
/// message that is delivered spends one tag, and one that is kept spends
/// none.
pub proof fn law_every_message_is_kept_or_delivered(
    session: SessionView,
    acts: Seq<Act>,
    queue: Seq<char>,
)
    requires
        dry(session),
        forall|i: int| 0 <= i < acts.len() ==> (#[trigger] acts[i]) !is Handed,
    ensures
        ({
            let (after, _) = session_lives(session, acts);
            let sent = all_delivered(session, acts);
            &&& held_under(session.queues, queue) + bodies_on(queue, all_brought(session, acts))
                == bodies_on(queue, sent) + held_under(after.queues, queue)
            &&& after.delivery_tag == session.delivery_tag + sent.len()
            &&& dry(after)
        }),
    decreases acts.len(),
{
    let held = held_under(session.queues, queue);
    if acts.len() == 0 {
        assert(held + Seq::empty() =~= Seq::empty() + held);
    } else {
        let after = session_does(session, acts[0]).0;
        let left = session_lives(after, acts.skip(1)).0.queues;
        assert forall|i: int| 0 <= i < acts.skip(1).len() implies (#[trigger] acts.skip(1)[i])
            !is Handed by {
            assert(acts.skip(1)[i] == acts[i + 1]);
        }
        assert(acts[0] !is Handed);
        lemma_step_balances(session, acts[0], queue);
        law_every_message_is_kept_or_delivered(after, acts.skip(1), queue);
        let new = brought(session, acts[0]);
        let later = all_brought(after, acts.skip(1));
        let sent = delivers(session, acts[0]);
        let sent_later = all_delivered(after, acts.skip(1));
        lemma_bodies_join(queue, new, later);
        lemma_bodies_join(queue, sent, sent_later);
        lemma_carried_over(
            held,
            bodies_on(queue, new),
            bodies_on(queue, later),
            bodies_on(queue, sent),
            held_under(after.queues, queue),
            bodies_on(queue, sent_later),
            held_under(left, queue),
        );
    }
}

/// What a session delivers is what its bytes say: over any run, the
/// basic.delivers in what it said carry, in order, exactly the messages it
/// delivered, each whole under its queue; so what a queue held and all that
/// came to it since is what those bytes deliver from it and what it holds.
/// For a session that is sound, which one is from when its client connects,
/// and every body that memory holds.
pub proof fn law_what_is_delivered_is_said(
    session: SessionView,
    acts: Seq<Act>,
    queue: Seq<char>,
)
    requires
        sound(session),
        forall|i: int| 0 <= i < acts.len() ==> ordinary(#[trigger] acts[i]),
    ensures
        ({
            let (after, said) = session_lives(session, acts);
            &&& delivered_in(said) == all_delivered(session, acts)
            &&& held_under(session.queues, queue) + bodies_on(queue, all_brought(session, acts))
                == bodies_on(queue, delivered_in(said)) + held_under(after.queues, queue)
        }),
{
    assert forall|i: int| 0 <= i < acts.len() implies (#[trigger] acts[i]) !is Handed by {
        assert(ordinary(acts[i]));
    }
    lemma_said_in_order(session, acts);
    law_every_message_is_kept_or_delivered(session, acts, queue);
}

/// All that a session says delivers what it delivers, in order.
proof fn lemma_said_in_order(session: SessionView, acts: Seq<Act>)
    requires
        sound(session),
        forall|i: int| 0 <= i < acts.len() ==> ordinary(#[trigger] acts[i]),
    ensures
        delivered_in(session_lives(session, acts).1) == all_delivered(session, acts),
    decreases acts.len(),
{
    if acts.len() == 0 {
        reveal(delivered_in);
    } else {
        let after = session_does(session, acts[0]).0;
        assert forall|i: int| 0 <= i < acts.skip(1).len() implies ordinary(
            #[trigger] acts.skip(1)[i],
        ) by {
            assert(acts.skip(1)[i] == acts[i + 1]);
        }
        assert(ordinary(acts[0]));
        lemma_stays_sound(session, acts[0]);
        lemma_delivers_what_it_says(session, acts[0], session_lives(after, acts.skip(1)).1);
        lemma_said_in_order(after, acts.skip(1));
    }
}

/// What balances in a first step and in those that follow balances in all.
proof fn lemma_carried_over(
    held: Seq<Seq<u8>>,
    new: Seq<Seq<u8>>,
    later: Seq<Seq<u8>>,
    sent: Seq<Seq<u8>>,
    kept: Seq<Seq<u8>>,
    sent_later: Seq<Seq<u8>>,
    left: Seq<Seq<u8>>,
)
    requires
        held + new == sent + kept,
        kept + later == sent_later + left,
    ensures
        held + (new + later) == (sent + sent_later) + left,
{
    assert(held + (new + later) =~= (held + new) + later);
    assert((sent + kept) + later =~= sent + (kept + later));
    assert(sent + (sent_later + left) =~= (sent + sent_later) + left);
}

/// A session is sound from when its client connects, also with queues handed
/// to it then, and stays so whatever it hears and whatever it is given: every
/// message being one that memory holds.
pub proof fn law_sessions_are_sound(
    peer: Seq<char>,
    port: u16,
    expected: LoginView,
    header: Seq<u8>,
    queues: Map<Seq<char>, Seq<Seq<u8>>>,
    session: SessionView,
    act: Act,
)
    requires
        held_in_memory(queues),
        sound(session),
        ordinary(act),
    ensures
        sound(session_greets(accepted(peer, port, expected), header).0),
        sound(
            SessionView {
                queues,
                ..session_greets(accepted(peer, port, expected), header).0
            },
        ),
        sound(session_does(session, act).0),
{
    lemma_stays_sound(session, act);
}

} // verus!
