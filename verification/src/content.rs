//! The content a publish or a delivery carries: a header frame that says
//! how long the body is, what type it is and that it persists, then the
//! body frames it announces, each within the frame size the connection
//! settled on.
//!
//! Only the basic class carries content here, and the two properties
//! written are content-type and delivery-mode; the other twelve a header
//! may carry are skipped when read and never written.

use vstd::prelude::*;
use vstd::slice::{slice_subrange, slice_to_vec};
use vstd::string::*;
use vstd::utf8::is_ascii_chars_encode_utf8;

use crate::error::{protocol_error, refusal, seen, Error, ErrorView};
use crate::text::{decimal, decimal_of};
use crate::wire::{
    big_endian, frame_bytes, frame_in, frame_views, frames_bytes, heard_view, law_frame_round_trips,
    law_number_reads_back, lemma_capacities, lemma_five_grouped, lemma_frames_bytes_add,
    lemma_grouped, lemma_width, len32, len32_of, number_in, put_bytes, put_longlong, put_octet,
    put_short, put_short_string, read_frame, refused_left, short_string_bytes, Frame, FrameView,
    Kind, Reader, MAX_FRAME,
};

verus! {

/// The most a content header may announce before it is refused.
pub const MAX_BODY: usize = 64 * 1024 * 1024;

/// The class a content header names.
pub const CLASS_BASIC: u16 = 60;

/// content-type at bit 15 and delivery-mode at bit 12 of the flags.
pub const PROPERTY_FLAGS: u16 = 0x9000;

/// delivery-mode 2: the broker writes the message to disk.
pub const PERSISTENT: u8 = 2;

/// A content header: the class, no weight, how long the body is, its type,
/// and that it persists.
pub open spec fn header_payload(length: nat) -> Seq<u8> {
    big_endian(CLASS_BASIC as nat, 2) + big_endian(0, 2) + big_endian(length, 8) + big_endian(
        PROPERTY_FLAGS as nat,
        2,
    ) + short_string_bytes("application/octet-stream"@) + seq![PERSISTENT]
}

/// How much of a body one frame of `frame_max` carries beside its
/// envelope: never nothing, and never more than a frame can count.
pub open spec fn chunk_of(frame_max: nat) -> nat {
    if frame_max <= 9 {
        1
    } else {
        len32_of((frame_max - 8) as nat)
    }
}

/// The shorter of a chunk and a body.
pub open spec fn part_of(body: Seq<u8>, chunk: nat) -> int {
    if body.len() < chunk {
        body.len() as int
    } else {
        chunk as int
    }
}

/// `body` as body frames on `channel`, each of a whole chunk but the last.
pub open spec fn body_frames(channel: u16, body: Seq<u8>, chunk: nat) -> Seq<FrameView>
    decreases body.len(),
{
    if body.len() == 0 || chunk == 0 {
        Seq::empty()
    } else {
        let part = part_of(body, chunk);
        seq![FrameView { kind: Kind::Body, channel, payload: body.take(part) }] + body_frames(
            channel,
            body.skip(part),
            chunk,
        )
    }
}

/// `body` as the frames that carry it on `channel`: its header, then its
/// body frames.
pub open spec fn content_frames(channel: u16, body: Seq<u8>, frame_max: nat) -> Seq<FrameView> {
    seq![
        FrameView { kind: Kind::Header, channel, payload: header_payload(body.len()) },
    ] + body_frames(channel, body, chunk_of(frame_max))
}

/// `body` as the frames that carry it on `channel`: a content header
/// saying its size, its type and that it persists, then body frames that
/// fit `frame_max` with their envelope.
pub fn frames(channel: u16, body: &[u8], frame_max: usize) -> (frames: Vec<Frame>)
    ensures
        frame_views(frames@) == content_frames(channel, body@, frame_max as nat),
{
    let mut header: Vec<u8> = Vec::new();
    put_short(&mut header, CLASS_BASIC);
    put_short(&mut header, 0);
    put_longlong(&mut header, body.len() as u64);
    put_short(&mut header, PROPERTY_FLAGS);
    put_short_string(&mut header, "application/octet-stream");
    put_octet(&mut header, PERSISTENT);
    assert(header@ =~= header_payload(body@.len()));
    let mut frames: Vec<Frame> = Vec::new();
    frames.push(Frame::new(Kind::Header, channel, header));
    let chunk: usize = if frame_max <= 9 {
        1
    } else {
        len32(frame_max - 8) as usize
    };
    let mut at: usize = 0;
    proof {
        assert(body@.skip(0) =~= body@);
        assert(frame_views(frames@) =~= seq![content_frames(channel, body@, frame_max as nat)[0]]);
    }
    while at < body.len()
        invariant
            at <= body@.len(),
            chunk == chunk_of(frame_max as nat),
            frame_views(frames@) + body_frames(channel, body@.skip(at as int), chunk as nat)
                == content_frames(channel, body@, frame_max as nat),
        decreases body@.len() - at,
    {
        let left: usize = body.len() - at;
        let part: usize = if left < chunk {
            left
        } else {
            chunk
        };
        let ghost before = frames@;
        let ghost rest = body@.skip(at as int);
        let payload = slice_to_vec(slice_subrange(body, at, at + part));
        frames.push(Frame::new(Kind::Body, channel, payload));
        at = at + part;
        proof {
            assert(payload@ =~= rest.take(part as int));
            assert(body@.skip(at as int) =~= rest.skip(part as int));
            let last = frames@.last()@;
            assert(frame_views(frames@) =~= frame_views(before) + seq![last]);
            assert(frame_views(frames@) + body_frames(channel, body@.skip(at as int), chunk as nat)
                =~= frame_views(before) + body_frames(channel, rest, chunk as nat));
        }
    }
    assert(frame_views(frames@) + Seq::empty() =~= frame_views(frames@));
    frames
}

/// `body` as the bytes of the frames that carry it.
pub fn encode(channel: u16, body: &[u8], frame_max: usize) -> (bytes: Vec<u8>)
    ensures
        bytes@ == frames_bytes(content_frames(channel, body@, frame_max as nat)),
{
    let frames = frames(channel, body, frame_max);
    let ghost views = frame_views(frames@);
    proof {
        lemma_content_is_framed(channel, body@, frame_max as nat);
    }
    let mut bytes: Vec<u8> = Vec::new();
    let mut at: usize = 0;
    assert(views.take(0) =~= Seq::empty());
    while at < frames.len()
        invariant
            at <= frames@.len(),
            views == frame_views(frames@),
            forall|i: int| 0 <= i < views.len() ==> (#[trigger] views[i]).payload.len() <= u32::MAX,
            bytes@ == frames_bytes(views.take(at as int)),
        decreases frames@.len() - at,
    {
        assert(views[at as int] == frames@[at as int]@);
        let encoded = frames[at].encode();
        put_bytes(&mut bytes, encoded.as_slice());
        proof {
            let one = seq![views[at as int]];
            assert(views.take(at + 1) =~= views.take(at as int) + one);
            lemma_frames_bytes_add(views.take(at as int), one);
            reveal_with_fuel(frames_bytes, 2);
            assert(one.skip(1) =~= Seq::empty());
            assert(frames_bytes(one) =~= frame_bytes(one[0]));
        }
        at = at + 1;
    }
    assert(views.take(views.len() as int) =~= views);
    bytes
}

/// The body size a content header announces, after its class and weight.
pub open spec fn body_size_in(payload: Seq<u8>) -> Result<nat, ErrorView> {
    match number_in(payload, 2) {
        Err(error) => Err(error),
        Ok((_, after_class)) => match number_in(after_class, 2) {
            Err(error) => Err(error),
            Ok((_, after_weight)) => match number_in(after_weight, 8) {
                Err(error) => Err(error),
                Ok((size, _)) => if size > usize::MAX {
                    Err(refusal("a body too long to hold"@))
                } else {
                    Ok(size)
                },
            },
        },
    }
}

/// The body size a content header announces, after its class and weight.
fn body_size_of(frame: &Frame) -> (result: Result<usize, Error>)
    ensures
        match body_size_in(frame@.payload) {
            Ok(size) => size <= usize::MAX && result == Ok::<usize, Error>(size as usize),
            Err(error) => result matches Err(failure) && failure@ == error,
        },
{
    let mut reader = Reader::new(frame.payload.as_slice());
    reader.short()?;
    reader.short()?;
    let size = reader.longlong()?;
    if size > usize::MAX as u64 {
        return Err(protocol_error("a body too long to hold".to_owned()));
    }
    Ok(size as usize)
}

/// How far a content has come: its header awaited, or its body, of which
/// there is some and not yet all.
#[derive(Debug)]
pub enum Content {
    Header,
    Body { size: usize, body: Vec<u8> },
}

/// A [`Content`] as contracts speak of it.
pub enum ContentView {
    Header,
    Body { size: nat, body: Seq<u8> },
}

impl View for Content {
    type V = ContentView;

    open spec fn view(&self) -> ContentView {
        match self {
            Content::Header => ContentView::Header,
            Content::Body { size, body } => ContentView::Body { size: *size as nat, body: body@ },
        }
    }
}

/// What one more frame makes of a content: still some of it, or the whole
/// body.
#[derive(Debug)]
pub enum Progress {
    More(Content),
    Whole(Vec<u8>),
}

/// A [`Progress`] as contracts speak of it.
pub enum ProgressView {
    More(ContentView),
    Whole(Seq<u8>),
}

impl View for Progress {
    type V = ProgressView;

    open spec fn view(&self) -> ProgressView {
        match self {
            Progress::More(content) => ProgressView::More(content@),
            Progress::Whole(body) => ProgressView::Whole(body@),
        }
    }
}

/// A body of which this much is there: whole once it is as long as was
/// announced.
pub open spec fn held(size: nat, body: Seq<u8>) -> ProgressView {
    if body.len() < size {
        ProgressView::More(ContentView::Body { size, body })
    } else {
        ProgressView::Whole(body)
    }
}

/// What the next frame, or the peer closing, makes of a content. Heartbeats
/// pass a body by.
pub open spec fn content_takes(content: ContentView, frame: Option<FrameView>) -> Result<
    ProgressView,
    ErrorView,
> {
    match content {
        ContentView::Header => if frame is Some && frame->0.kind == Kind::Header {
            match body_size_in(frame->0.payload) {
                Err(error) => Err(error),
                Ok(size) => if size > MAX_BODY {
                    Err(
                        refusal(
                            "a body of "@ + decimal(size) + " bytes, over the "@ + decimal(
                                MAX_BODY as nat,
                            ) + " limit"@,
                        ),
                    )
                } else {
                    Ok(held(size, Seq::empty()))
                },
            }
        } else {
            Err(refusal("content without its header"@))
        },
        ContentView::Body { size, body } => if frame is Some && frame->0.kind == Kind::Body {
            if body.len() + frame->0.payload.len() > size {
                Err(refusal("a body longer than its header announces"@))
            } else {
                Ok(held(size, body + frame->0.payload))
            }
        } else if frame is Some && frame->0.kind == Kind::Heartbeat {
            Ok(ProgressView::More(content))
        } else {
            Err(refusal("a body that broke off"@))
        },
    }
}

/// A body of which this much is there.
fn held_of(size: usize, body: Vec<u8>) -> (progress: Progress)
    ensures
        progress@ == held(size as nat, body@),
{
    if body.len() < size {
        Progress::More(Content::Body { size, body })
    } else {
        Progress::Whole(body)
    }
}

impl Content {
    /// Whether taking this frame, or `None` where the peer closed, makes the
    /// body whole.
    pub fn completes(&self, frame: &Option<Frame>) -> (result: bool)
        ensures
            result == (content_takes(self@, heard_view(*frame)) matches Ok(ProgressView::Whole(_))),
    {
        match frame {
            Some(frame) => match self {
                Content::Header => frame.kind == Kind::Header && match body_size_of(frame) {
                    Ok(size) => size == 0,
                    Err(_) => false,
                },
                Content::Body { size, body } => frame.kind == Kind::Body && body.len() <= *size
                    && frame.payload.len() == *size - body.len(),
            },
            None => false,
        }
    }

    /// Take the next frame, or `None` where the peer closed.
    ///
    /// # Errors
    /// A header that is not there, a body over [`MAX_BODY`], one longer than
    /// its header announces, or one that broke off.
    pub fn take(self, frame: Option<Frame>) -> (result: Result<Progress, Error>)
        ensures
            seen(result) == content_takes(self@, heard_view(frame)),
    {
        match self {
            Content::Header => match frame {
                Some(frame) if frame.kind == Kind::Header => {
                    let size: usize = body_size_of(&frame)?;
                    if size > MAX_BODY {
                        let mut message = "a body of ".to_owned();
                        message.append(decimal_of(size as u64).as_str());
                        message.append(" bytes, over the ");
                        message.append(decimal_of(MAX_BODY as u64).as_str());
                        message.append(" limit");
                        return Err(protocol_error(message));
                    }
                    Ok(held_of(size, Vec::new()))
                },
                _ => Err(protocol_error("content without its header".to_owned())),
            },
            Content::Body { size, body } => match frame {
                Some(frame) if frame.kind == Kind::Body => {
                    if body.len() > size || frame.payload.len() > size - body.len() {
                        return Err(
                            protocol_error("a body longer than its header announces".to_owned()),
                        );
                    }
                    let mut body = body;
                    put_bytes(&mut body, frame.payload.as_slice());
                    Ok(held_of(size, body))
                },
                Some(frame) if frame.kind == Kind::Heartbeat => Ok(
                    Progress::More(Content::Body { size, body }),
                ),
                _ => Err(protocol_error("a body that broke off".to_owned())),
            },
        }
    }
}

/// The body the frames at the front of `bytes` carry, from where `content`
/// has come.
pub open spec fn content_in(content: ContentView, bytes: Seq<u8>) -> Result<Seq<u8>, ErrorView>
    decreases bytes.len(),
{
    match frame_in(bytes) {
        Err(error) => Err(error),
        Ok((frame, rest)) => match content_takes(content, frame) {
            Err(error) => Err(error),
            Ok(ProgressView::Whole(body)) => Ok(body),
            Ok(ProgressView::More(more)) => content_in(more, rest),
        },
    }
}

/// What is left unread of bytes once a content was read from them, or was
/// refused.
pub open spec fn content_left(content: ContentView, bytes: Seq<u8>) -> Seq<u8>
    decreases bytes.len(),
{
    match frame_in(bytes) {
        Err(_) => refused_left(bytes),
        Ok((frame, rest)) => match content_takes(content, frame) {
            Ok(ProgressView::More(more)) => content_left(more, rest),
            _ => rest,
        },
    }
}

/// The content that follows a publish or a deliver: the size the header
/// announces, then that many bytes of body frames.
///
/// # Errors
/// A header that is not there, a body over [`MAX_BODY`], one longer than its
/// header announces, or one that broke off.
pub fn read(reader: &mut &[u8]) -> (result: Result<Vec<u8>, Error>)
    ensures
        seen(result) == content_in(ContentView::Header, old(reader)@),
        final(reader)@ == content_left(ContentView::Header, old(reader)@),
{
    let mut content = Content::Header;
    loop
        invariant
            content_in(content@, reader@) == content_in(ContentView::Header, old(reader)@),
            content_left(content@, reader@) == content_left(ContentView::Header, old(reader)@),
        decreases reader@.len(),
    {
        let frame = read_frame(reader)?;
        match content.take(frame)? {
            Progress::Whole(body) => {
                return Ok(body);
            },
            Progress::More(more) => {
                content = more;
            },
        }
    }
}

/// The size a content header is written with is the size read from it.
pub proof fn law_body_size_round_trips(length: nat)
    requires
        length <= usize::MAX,
    ensures
        body_size_in(header_payload(length)) == Ok::<nat, ErrorView>(length),
{
    let class = big_endian(CLASS_BASIC as nat, 2);
    let weight = big_endian(0, 2);
    let size = big_endian(length, 8);
    let flags = big_endian(PROPERTY_FLAGS as nat, 2);
    let kind = short_string_bytes("application/octet-stream"@);
    let mode = seq![PERSISTENT];
    let after_size = flags + (kind + mode);
    lemma_capacities();
    lemma_grouped(class + weight + size + flags, kind, mode);
    lemma_five_grouped(class, weight, size, flags, kind + mode);
    law_number_reads_back(CLASS_BASIC as nat, 2, weight + (size + after_size));
    law_number_reads_back(0, 2, size + after_size);
    law_number_reads_back(length, 8, after_size);
}

/// A content header is forty octets, whatever it announces.
pub proof fn lemma_header_length(length: nat)
    ensures
        header_payload(length).len() == 40,
{
    lemma_width(CLASS_BASIC as nat, 2);
    lemma_width(0, 2);
    lemma_width(length, 8);
    lemma_width(PROPERTY_FLAGS as nat, 2);
    reveal_strlit("application/octet-stream");
    is_ascii_chars_encode_utf8("application/octet-stream"@);
}

/// Content that reads a frame that was written takes the frame it is, and
/// then reads what follows it.
proof fn lemma_content_reads_frame(content: ContentView, frame: FrameView, rest: Seq<u8>)
    requires
        frame.payload.len() <= MAX_FRAME,
    ensures
        content_in(content, frame_bytes(frame) + rest) == (match content_takes(
            content,
            Some(frame),
        ) {
            Err(error) => Err(error),
            Ok(ProgressView::Whole(body)) => Ok(body),
            Ok(ProgressView::More(more)) => content_in(more, rest),
        }),
        content_left(content, frame_bytes(frame) + rest) == (match content_takes(
            content,
            Some(frame),
        ) {
            Ok(ProgressView::More(more)) => content_left(more, rest),
            _ => rest,
        }),
{
    law_frame_round_trips(frame, rest);
}

/// Frames one after the other are the first, and the others with what
/// follows them.
pub(crate) proof fn lemma_first_frame(
    frames: Seq<FrameView>,
    first: FrameView,
    others: Seq<FrameView>,
    rest: Seq<u8>,
)
    requires
        frames == seq![first] + others,
    ensures
        frames_bytes(frames) + rest == frame_bytes(first) + (frames_bytes(others) + rest),
{
    assert(frames.skip(1) =~= others);
    assert((frame_bytes(first) + frames_bytes(others)) + rest =~= frame_bytes(first) + (
    frames_bytes(others) + rest));
}

/// The frames of the rest of a body are read as the rest of it.
proof fn lemma_body_round_trips(
    channel: u16,
    size: nat,
    have: Seq<u8>,
    body: Seq<u8>,
    chunk: nat,
    rest: Seq<u8>,
)
    requires
        have.len() + body.len() == size,
        body.len() > 0,
        0 < chunk <= MAX_FRAME,
    ensures
        content_in(
            ContentView::Body { size, body: have },
            frames_bytes(body_frames(channel, body, chunk)) + rest,
        ) == Ok::<Seq<u8>, ErrorView>(have + body),
        content_left(
            ContentView::Body { size, body: have },
            frames_bytes(body_frames(channel, body, chunk)) + rest,
        ) == rest,
    decreases body.len(),
{
    let part = part_of(body, chunk);
    let first = FrameView { kind: Kind::Body, channel, payload: body.take(part) };
    let others = body_frames(channel, body.skip(part), chunk);
    let content = ContentView::Body { size, body: have };
    lemma_first_frame(body_frames(channel, body, chunk), first, others, rest);
    lemma_content_reads_frame(content, first, frames_bytes(others) + rest);
    lemma_rejoined(have, body, part, rest);
    assert(content_takes(content, Some(first)) == Ok::<ProgressView, ErrorView>(
        held(size, have + first.payload),
    ));
    if part < body.len() {
        lemma_body_round_trips(channel, size, have + first.payload, body.skip(part), chunk, rest);
    }
}

/// A body cut in two and put together again is that body, and the second
/// half of one cut at its end is nothing.
pub(crate) proof fn lemma_rejoined(have: Seq<u8>, body: Seq<u8>, part: int, rest: Seq<u8>)
    requires
        0 <= part <= body.len(),
    ensures
        (have + body.take(part)) + body.skip(part) == have + body,
        part == body.len() ==> have + body.take(part) == have + body,
        part == body.len() ==> body.skip(part) == Seq::<u8>::empty(),
        Seq::<u8>::empty() + rest == rest,
{
    assert((have + body.take(part)) + body.skip(part) =~= have + body);
    assert(part == body.len() ==> have + body.take(part) =~= have + body);
    assert(part == body.len() ==> body.skip(part) =~= Seq::<u8>::empty());
    assert(Seq::<u8>::empty() + rest =~= rest);
}

/// A body that is written as content is the body that is read back, and
/// what follows it is left unread: for every body within the limit and
/// every frame size that peers read.
pub proof fn law_content_round_trips(channel: u16, body: Seq<u8>, frame_max: nat, rest: Seq<u8>)
    requires
        body.len() <= MAX_BODY,
        chunk_of(frame_max) <= MAX_FRAME,
    ensures
        content_in(
            ContentView::Header,
            frames_bytes(content_frames(channel, body, frame_max)) + rest,
        ) == Ok::<Seq<u8>, ErrorView>(body),
        content_left(
            ContentView::Header,
            frames_bytes(content_frames(channel, body, frame_max)) + rest,
        ) == rest,
{
    let chunk = chunk_of(frame_max);
    let header = FrameView {
        kind: Kind::Header,
        channel,
        payload: header_payload(body.len()),
    };
    let others = body_frames(channel, body, chunk);
    lemma_header_length(body.len());
    lemma_first_frame(content_frames(channel, body, frame_max), header, others, rest);
    lemma_content_reads_frame(ContentView::Header, header, frames_bytes(others) + rest);
    law_body_size_round_trips(body.len());
    if body.len() == 0 {
        assert(frames_bytes(others) + rest =~= rest);
        assert(body =~= Seq::empty());
    } else {
        lemma_body_round_trips(channel, body.len(), Seq::empty(), body, chunk, rest);
        assert(Seq::empty() + body =~= body);
    }
}

/// The frames of a body are body frames on its channel, none of them empty
/// or over a chunk.
proof fn lemma_body_frames_fit(channel: u16, body: Seq<u8>, chunk: nat)
    requires
        chunk > 0,
    ensures
        forall|i: int|
            0 <= i < body_frames(channel, body, chunk).len() ==> {
                let frame = #[trigger] body_frames(channel, body, chunk)[i];
                frame.kind == Kind::Body && frame.channel == channel && 0 < frame.payload.len()
                    <= chunk
            },
    decreases body.len(),
{
    if body.len() > 0 {
        let part = part_of(body, chunk);
        let frames = body_frames(channel, body, chunk);
        let others = body_frames(channel, body.skip(part), chunk);
        lemma_body_frames_fit(channel, body.skip(part), chunk);
        assert forall|i: int| 0 <= i < frames.len() implies {
            let frame = #[trigger] frames[i];
            frame.kind == Kind::Body && frame.channel == channel && 0 < frame.payload.len()
                <= chunk
        } by {
            if i > 0 {
                assert(frames[i] == others[i - 1]);
            }
        }
    }
}

/// Every frame of a content counts its payload.
proof fn lemma_content_is_framed(channel: u16, body: Seq<u8>, frame_max: nat)
    ensures
        forall|i: int|
            0 <= i < content_frames(channel, body, frame_max).len() ==> (
            #[trigger] content_frames(channel, body, frame_max)[i]).payload.len() <= u32::MAX,
{
    let chunk = chunk_of(frame_max);
    let others = body_frames(channel, body, chunk);
    let frames = content_frames(channel, body, frame_max);
    lemma_header_length(body.len());
    lemma_body_frames_fit(channel, body, chunk);
    assert forall|i: int| 0 <= i < frames.len() implies (#[trigger] frames[i]).payload.len()
        <= u32::MAX by {
        if i > 0 {
            assert(frames[i] == others[i - 1]);
        }
    }
}

/// Content is a header on its channel and then body frames on it, and with
/// a frame size of nine or more each of those fits it with its envelope. An
/// empty body is a header alone.
pub proof fn law_content_fits(channel: u16, body: Seq<u8>, frame_max: nat)
    ensures
        content_frames(channel, body, frame_max)[0] == (FrameView {
            kind: Kind::Header,
            channel,
            payload: header_payload(body.len()),
        }),
        forall|i: int|
            1 <= i < content_frames(channel, body, frame_max).len() ==> {
                let frame = #[trigger] content_frames(channel, body, frame_max)[i];
                &&& frame.kind == Kind::Body
                &&& frame.channel == channel
                &&& frame.payload.len() > 0
                &&& 9 <= frame_max ==> frame_bytes(frame).len() <= frame_max
            },
        body.len() == 0 ==> content_frames(channel, body, frame_max).len() == 1,
{
    let chunk = chunk_of(frame_max);
    let others = body_frames(channel, body, chunk);
    let frames = content_frames(channel, body, frame_max);
    lemma_body_frames_fit(channel, body, chunk);
    assert forall|i: int| 1 <= i < frames.len() implies {
        let frame = #[trigger] frames[i];
        &&& frame.kind == Kind::Body
        &&& frame.channel == channel
        &&& frame.payload.len() > 0
        &&& 9 <= frame_max ==> frame_bytes(frame).len() <= frame_max
    } by {
        assert(frames[i] == others[i - 1]);
        lemma_width(channel as nat, 2);
        lemma_width(frames[i].payload.len(), 4);
    }
}

/// What a content header carries after the size is skipped: the properties
/// change nothing about the body.
pub proof fn law_properties_are_skipped(header: Seq<u8>, properties: Seq<u8>)
    requires
        header.len() >= 12,
    ensures
        body_size_in(header + properties) == body_size_in(header),
{
    let longer = header + properties;
    assert(longer.take(2) =~= header.take(2));
    assert(longer.skip(2).take(2) =~= header.skip(2).take(2));
    assert(longer.skip(2).skip(2).take(8) =~= header.skip(2).skip(2).take(8));
}

/// Every message is persistent: its header announces a content type and a
/// delivery mode and nothing else, and ends with the mode that the broker
/// writes to disk.
pub proof fn law_every_message_is_persistent(channel: u16, body: Seq<u8>, frame_max: nat)
    ensures
        ({
            let header = content_frames(channel, body, frame_max)[0].payload;
            &&& header.subrange(12, 14) == big_endian(PROPERTY_FLAGS as nat, 2)
            &&& header.last() == PERSISTENT
        }),
{
    let header = header_payload(body.len());
    lemma_header_length(body.len());
    lemma_width(CLASS_BASIC as nat, 2);
    lemma_width(0, 2);
    lemma_width(body.len(), 8);
    lemma_width(PROPERTY_FLAGS as nat, 2);
    assert(header.subrange(12, 14) =~= big_endian(PROPERTY_FLAGS as nat, 2));
}

/// A body that is read is exactly as long as its header announces, and
/// within the limit: the frame at the front is a content header, and its size
/// is the body's.
pub proof fn law_body_is_as_long_as_announced(bytes: Seq<u8>, body: Seq<u8>)
    requires
        content_in(ContentView::Header, bytes) == Ok::<Seq<u8>, ErrorView>(body),
    ensures
        ({
            let heard = frame_in(bytes)->Ok_0.0;
            &&& frame_in(bytes) is Ok
            &&& heard is Some
            &&& heard->0.kind == Kind::Header
            &&& body_size_in(heard->0.payload) == Ok::<nat, ErrorView>(body.len())
            &&& body.len() <= MAX_BODY
        }),
{
    let (heard, rest) = frame_in(bytes)->Ok_0;
    let size = body_size_in(heard->0.payload)->Ok_0;
    if size > 0 {
        lemma_body_reaches_its_size(size, Seq::empty(), rest, body);
    }
}

/// A body that is under way ends exactly as long as was announced.
proof fn lemma_body_reaches_its_size(size: nat, have: Seq<u8>, bytes: Seq<u8>, body: Seq<u8>)
    requires
        have.len() <= size,
        content_in(ContentView::Body { size, body: have }, bytes) == Ok::<Seq<u8>, ErrorView>(body),
    ensures
        body.len() == size,
    decreases bytes.len(),
{
    let content = ContentView::Body { size, body: have };
    let (heard, rest) = frame_in(bytes)->Ok_0;
    if let ProgressView::More(ContentView::Body { size: _, body: more }) = content_takes(
        content,
        heard,
    )->Ok_0 {
        lemma_body_reaches_its_size(size, more, rest, body);
    }
}

} // verus!
