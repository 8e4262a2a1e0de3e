//! AMQP 0-9-1 on the wire: the frame envelope, and the value encodings
//! every method argument is built from.
//!
//! A frame is a type octet, a channel short, a length long, that many
//! bytes of payload, and the frame-end octet `0xCE`. Everything inside is
//! big-endian. Strings come in two lengths (a short one counted by an
//! octet, a long one counted by a long), and a field table is a long
//! length followed by short-string keys each tagged with the type of the
//! value that follows.
//!
//! Nothing here knows what a method means; that is `method`.

use vstd::prelude::*;
use vstd::slice::{slice_subrange, slice_to_vec};
use vstd::utf8::{decode_utf8, encode_utf8, valid_utf8};

use crate::error::{breakage, broken, protocol_error, refusal, Error, ErrorView};
use crate::text::{
    decimal, decimal_of, decoded, signed, signed_decimal, signed_decimal_of, truth, truth_of,
};

verus! {

/// The octet every frame ends with.
pub const FRAME_END: u8 = 0xCE;

/// The largest frame that is read, and what is asked for in tune-ok.
pub const MAX_FRAME: usize = 1024 * 1024;

/// The protocol header a connection opens with: `AMQP`, then 0, 0, 9, 1.
pub const PROTOCOL_HEADER: [u8; 8] = [0x41, 0x4D, 0x51, 0x50, 0, 0, 9, 1];

/// Nothing before a part, or after it, is that part.
pub proof fn lemma_nothing(a: Seq<u8>)
    ensures
        Seq::<u8>::empty() + a == a,
        a + Seq::<u8>::empty() == a,
{
    assert(Seq::<u8>::empty() + a =~= a);
    assert(a + Seq::<u8>::empty() =~= a);
}

/// Three parts one after the other, however they are grouped.
pub proof fn lemma_grouped(a: Seq<u8>, b: Seq<u8>, c: Seq<u8>)
    ensures
        (a + b) + c == a + (b + c),
{
    assert((a + b) + c =~= a + (b + c));
}

/// Five parts one after the other, however they are grouped.
pub proof fn lemma_five_grouped(a: Seq<u8>, b: Seq<u8>, c: Seq<u8>, d: Seq<u8>, e: Seq<u8>)
    ensures
        a + b + c + d + e == a + (b + (c + (d + e))),
{
    lemma_grouped(a + b + c, d, e);
    lemma_grouped(a + b, c, d + e);
    lemma_grouped(a, b, c + (d + e));
}

/// 256 to the power of `width`: how many numbers that many octets hold.
pub open spec fn capacity(width: nat) -> nat
    decreases width,
{
    if width == 0 {
        1
    } else {
        256 * capacity((width - 1) as nat)
    }
}

/// `value` in `width` octets, the most significant first.
pub open spec fn big_endian(value: nat, width: nat) -> Seq<u8>
    decreases width,
{
    if width == 0 {
        Seq::empty()
    } else {
        big_endian(value / 256, (width - 1) as nat).push((value % 256) as u8)
    }
}

/// The number `bytes` write, the most significant octet first.
pub open spec fn number(bytes: Seq<u8>) -> nat
    decreases bytes.len(),
{
    if bytes.len() == 0 {
        0
    } else {
        256 * number(bytes.drop_last()) + bytes.last() as nat
    }
}

/// A number written in enough octets is as wide as asked and reads back as
/// itself.
pub proof fn law_number_round_trips(value: nat, width: nat)
    requires
        value < capacity(width),
    ensures
        big_endian(value, width).len() == width,
        number(big_endian(value, width)) == value,
    decreases width,
{
    if width > 0 {
        law_number_round_trips(value / 256, (width - 1) as nat);
        let bytes = big_endian(value, width);
        assert(bytes.drop_last() =~= big_endian(value / 256, (width - 1) as nat));
    }
}

/// A number written in some octets is that wide whatever it is.
pub proof fn lemma_width(value: nat, width: nat)
    ensures
        big_endian(value, width).len() == width,
    decreases width,
{
    if width > 0 {
        lemma_width(value / 256, (width - 1) as nat);
    }
}

/// What octets write is within what that many octets hold, and is written
/// as those octets again.
pub proof fn law_octets_round_trip(bytes: Seq<u8>)
    ensures
        number(bytes) < capacity(bytes.len()),
        big_endian(number(bytes), bytes.len()) == bytes,
    decreases bytes.len(),
{
    if bytes.len() > 0 {
        law_octets_round_trip(bytes.drop_last());
        assert(number(bytes) / 256 == number(bytes.drop_last()));
        assert(bytes.drop_last().push(bytes.last()) =~= bytes);
    } else {
        assert(big_endian(0, 0) =~= bytes);
    }
}

/// What two, four and eight octets hold.
pub proof fn lemma_capacities()
    ensures
        capacity(1) == 0x100,
        capacity(2) == 0x1_0000,
        capacity(4) == 0x1_0000_0000,
        capacity(8) == 0x1_0000_0000_0000_0000,
{
    reveal_with_fuel(capacity, 9);
}

/// A length as the wire writes it, saturating rather than wrapping.
pub open spec fn len32_of(length: nat) -> nat {
    if length <= u32::MAX {
        length
    } else {
        u32::MAX as nat
    }
}

/// A length as the wire writes it, saturating rather than wrapping: a
/// payload longer than a `u32` cannot be framed and is refused where it is
/// built.
pub fn len32(length: usize) -> (result: u32)
    ensures
        result == len32_of(length as nat),
{
    if length <= u32::MAX as usize {
        length as u32
    } else {
        u32::MAX
    }
}

/// Append `value` in `width` octets, big-endian.
fn put_number(out: &mut Vec<u8>, value: u64, width: usize)
    ensures
        final(out)@ == old(out)@ + big_endian(value as nat, width as nat),
    decreases width,
{
    if width > 0 {
        put_number(out, value / 256, width - 1);
        out.push((value % 256) as u8);
    }
    assert(out@ =~= old(out)@ + big_endian(value as nat, width as nat));
}

/// Append bytes as they are.
pub fn put_bytes(out: &mut Vec<u8>, bytes: &[u8])
    ensures
        final(out)@ == old(out)@ + bytes@,
{
    out.extend_from_slice(bytes);
    assert(out@ =~= old(out)@ + bytes@);
}

/// Append one octet.
pub fn put_octet(out: &mut Vec<u8>, value: u8)
    ensures
        final(out)@ == old(out)@.push(value),
{
    out.push(value);
}

/// Append a short: two octets, big-endian.
pub fn put_short(out: &mut Vec<u8>, value: u16)
    ensures
        final(out)@ == old(out)@ + big_endian(value as nat, 2),
{
    put_number(out, value as u64, 2);
}

/// Append a long: four octets, big-endian.
pub fn put_long(out: &mut Vec<u8>, value: u32)
    ensures
        final(out)@ == old(out)@ + big_endian(value as nat, 4),
{
    put_number(out, value as u64, 4);
}

/// Append a long long: eight octets, big-endian.
pub fn put_longlong(out: &mut Vec<u8>, value: u64)
    ensures
        final(out)@ == old(out)@ + big_endian(value as nat, 8),
{
    put_number(out, value, 8);
}

/// A short string on the wire: an octet of length, then the bytes, cut off
/// after 255 of them.
pub open spec fn short_string_bytes(text: Seq<char>) -> Seq<u8> {
    let bytes = encode_utf8(text);
    let length = if bytes.len() <= 255 {
        bytes.len() as int
    } else {
        255
    };
    seq![length as u8] + bytes.take(length)
}

/// A short string is its text and one octet more, and at most 256 octets.
pub proof fn lemma_short_string_length(text: Seq<char>)
    ensures
        short_string_bytes(text).len() <= 256,
{
}

/// A long string on the wire: a long of length, then the bytes.
pub open spec fn long_string_bytes(bytes: Seq<u8>) -> Seq<u8> {
    big_endian(bytes.len(), 4) + bytes
}

/// Append a short string: an octet of length, then the bytes. Longer than
/// 255 bytes is truncated, which only a malformed name could be.
pub fn put_short_string(out: &mut Vec<u8>, value: &str)
    ensures
        final(out)@ == old(out)@ + short_string_bytes(value@),
{
    let bytes = value.as_bytes();
    let length: usize = if bytes.len() <= 255 {
        bytes.len()
    } else {
        255
    };
    out.push(length as u8);
    put_bytes(out, slice_subrange(bytes, 0, length));
    assert(bytes@.subrange(0, length as int) =~= bytes@.take(length as int));
    assert(out@ =~= old(out)@ + short_string_bytes(value@));
}

/// Append a long string: a long of length, then the bytes. One longer than
/// a long counts cannot be written, and is refused where it is built.
pub fn put_long_string(out: &mut Vec<u8>, value: &[u8])
    requires
        value@.len() <= u32::MAX,
    ensures
        final(out)@ == old(out)@ + long_string_bytes(value@),
{
    put_long(out, len32(value.len()));
    put_bytes(out, value);
    assert(out@ =~= old(out)@ + long_string_bytes(value@));
}

/// Append an empty field table, a long zero: the tables sent carry
/// nothing; [`table`] reads the ones a broker sends.
pub fn put_empty_table(out: &mut Vec<u8>)
    ensures
        final(out)@ == old(out)@ + big_endian(0, 4),
{
    put_long(out, 0);
}

/// What reading a value from the front of some bytes comes to: the value
/// and the bytes after it, or the failure.
pub type Parsed<T> = Result<(T, Seq<u8>), ErrorView>;

/// The failure of arguments that run out.
pub open spec fn ends_early() -> ErrorView {
    refusal("a method that ends before its arguments do"@)
}

/// The failure of a string that is not text.
pub open spec fn not_text() -> ErrorView {
    refusal("a string that is not UTF-8"@)
}

/// The first `count` bytes.
pub open spec fn bytes_in(bytes: Seq<u8>, count: nat) -> Parsed<Seq<u8>> {
    if bytes.len() < count {
        Err(ends_early())
    } else {
        Ok((bytes.take(count as int), bytes.skip(count as int)))
    }
}

/// The number in the first `width` bytes.
pub open spec fn number_in(bytes: Seq<u8>, width: nat) -> Parsed<nat> {
    match bytes_in(bytes, width) {
        Ok((taken, rest)) => Ok((number(taken), rest)),
        Err(error) => Err(error),
    }
}

/// The bytes after a length of `width` octets that counts them.
pub open spec fn counted_in(bytes: Seq<u8>, width: nat) -> Parsed<Seq<u8>> {
    match number_in(bytes, width) {
        Ok((length, rest)) => bytes_in(rest, length),
        Err(error) => Err(error),
    }
}

/// A short string, as text.
pub open spec fn short_string_in(bytes: Seq<u8>) -> Parsed<Seq<char>> {
    match counted_in(bytes, 1) {
        Ok((taken, rest)) => if valid_utf8(taken) {
            Ok((decode_utf8(taken), rest))
        } else {
            Err(not_text())
        },
        Err(error) => Err(error),
    }
}

/// A long string, as bytes.
pub open spec fn long_string_in(bytes: Seq<u8>) -> Parsed<Seq<u8>> {
    counted_in(bytes, 4)
}

/// Where a counted string stops being read: at its length where the bytes
/// do not hold one, after the length where they do not hold what it counts,
/// else after the string.
pub open spec fn counted_left(bytes: Seq<u8>, width: nat) -> Seq<u8> {
    match number_in(bytes, width) {
        Ok((length, rest)) => match bytes_in(rest, length) {
            Ok((_, after)) => after,
            Err(_) => rest,
        },
        Err(_) => bytes,
    }
}

/// That a read of `expected` gave `result` and left `after` unread.
pub open spec fn reads<T: View>(
    result: Result<T, Error>,
    after: Seq<u8>,
    expected: Parsed<T::V>,
) -> bool {
    match expected {
        Ok((value, rest)) => (result matches Ok(got) && got@ == value) && after == rest,
        Err(error) => result matches Err(failure) && failure@ == error,
    }
}

/// Reading a payload one value at a time, in the order the method defines.
/// Its view is what has not been read yet.
pub struct Reader<'a> {
    bytes: &'a [u8],
    at: usize,
}

impl<'a> View for Reader<'a> {
    type V = Seq<u8>;

    closed spec fn view(&self) -> Seq<u8> {
        self.bytes@.skip(self.at as int)
    }
}

impl<'a> Reader<'a> {
    #[verifier::type_invariant]
    spec fn within(self) -> bool {
        self.at <= self.bytes@.len()
    }

    /// Read `bytes` from the start.
    pub fn new(bytes: &'a [u8]) -> (reader: Self)
        ensures
            reader@ == bytes@,
    {
        let reader = Reader { bytes, at: 0 };
        assert(reader@ =~= bytes@);
        reader
    }

    /// What has not been read yet.
    pub fn rest(&self) -> (rest: &'a [u8])
        ensures
            rest@ == self@,
    {
        proof {
            use_type_invariant(self);
        }
        let rest = slice_subrange(self.bytes, self.at, self.bytes.len());
        assert(rest@ =~= self@);
        rest
    }

    /// The next `count` bytes, or nothing read where there are fewer.
    fn take(&mut self, count: usize) -> (result: Result<&'a [u8], Error>)
        ensures
            reads(result, final(self)@, bytes_in(old(self)@, count as nat)),
            result is Err ==> final(self)@ == old(self)@,
    {
        proof {
            use_type_invariant(&*self);
        }
        if count > self.bytes.len() - self.at {
            return Err(protocol_error("a method that ends before its arguments do".to_owned()));
        }
        let end: usize = self.at + count;
        let taken = slice_subrange(self.bytes, self.at, end);
        self.at = end;
        assert(taken@ =~= old(self)@.take(count as int));
        assert(self@ =~= old(self)@.skip(count as int));
        Ok(taken)
    }

    /// The number in the next `width` octets.
    fn number(&mut self, width: usize) -> (result: Result<u64, Error>)
        requires
            width <= 8,
        ensures
            match number_in(old(self)@, width as nat) {
                Ok((value, rest)) => result == Ok::<u64, Error>(value as u64) && value < capacity(
                    width as nat,
                ) && value <= u64::MAX && final(self)@ == rest,
                Err(error) => (result matches Err(failure) && failure@ == error) && final(self)@
                    == old(self)@,
            },
    {
        let bytes = self.take(width)?;
        let mut value: u64 = 0;
        let mut done: usize = 0;
        while done < width
            invariant
                done <= width <= 8,
                width == bytes@.len(),
                value == number(bytes@.take(done as int)),
            decreases width - done,
        {
            proof {
                let prefix = bytes@.take(done as int);
                let longer = bytes@.take(done + 1);
                assert(longer.drop_last() =~= prefix);
                law_octets_round_trip(longer);
                reveal_with_fuel(capacity, 9);
            }
            value = value * 256 + bytes[done] as u64;
            done = done + 1;
        }
        proof {
            assert(bytes@.take(width as int) =~= bytes@);
            law_octets_round_trip(bytes@);
        }
        Ok(value)
    }

    /// One octet.
    ///
    /// # Errors
    /// Where the payload has run out.
    pub fn octet(&mut self) -> (result: Result<u8, Error>)
        ensures
            match number_in(old(self)@, 1) {
                Ok((value, rest)) => result == Ok::<u8, Error>(value as u8) && value <= u8::MAX
                    && final(self)@ == rest,
                Err(error) => (result matches Err(failure) && failure@ == error) && final(self)@
                    == old(self)@,
            },
    {
        proof {
            lemma_capacities();
        }
        let value = self.number(1)?;
        Ok(value as u8)
    }

    /// Two octets, big-endian.
    ///
    /// # Errors
    /// Where the payload has run out.
    pub fn short(&mut self) -> (result: Result<u16, Error>)
        ensures
            match number_in(old(self)@, 2) {
                Ok((value, rest)) => result == Ok::<u16, Error>(value as u16) && value <= u16::MAX
                    && final(self)@ == rest,
                Err(error) => (result matches Err(failure) && failure@ == error) && final(self)@
                    == old(self)@,
            },
    {
        proof {
            lemma_capacities();
        }
        let value = self.number(2)?;
        Ok(value as u16)
    }

    /// Four octets, big-endian.
    ///
    /// # Errors
    /// Where the payload has run out.
    pub fn long(&mut self) -> (result: Result<u32, Error>)
        ensures
            match number_in(old(self)@, 4) {
                Ok((value, rest)) => result == Ok::<u32, Error>(value as u32) && value <= u32::MAX
                    && final(self)@ == rest,
                Err(error) => (result matches Err(failure) && failure@ == error) && final(self)@
                    == old(self)@,
            },
    {
        proof {
            lemma_capacities();
        }
        let value = self.number(4)?;
        Ok(value as u32)
    }

    /// Eight octets, big-endian.
    ///
    /// # Errors
    /// Where the payload has run out.
    pub fn longlong(&mut self) -> (result: Result<u64, Error>)
        ensures
            match number_in(old(self)@, 8) {
                Ok((value, rest)) => result == Ok::<u64, Error>(value as u64) && value <= u64::MAX
                    && final(self)@ == rest,
                Err(error) => (result matches Err(failure) && failure@ == error) && final(self)@
                    == old(self)@,
            },
    {
        self.number(8)
    }

    /// A short string, as text.
    ///
    /// # Errors
    /// Where the payload has run out or the bytes are not UTF-8.
    pub fn short_string(&mut self) -> (result: Result<String, Error>)
        ensures
            reads(result, final(self)@, short_string_in(old(self)@)),
            result is Err ==> final(self)@ == counted_left(old(self)@, 1),
    {
        let length: usize = self.octet()? as usize;
        text(self.take(length)?)
    }

    /// A long string, as bytes.
    ///
    /// # Errors
    /// Where the payload has run out.
    pub fn long_string(&mut self) -> (result: Result<Vec<u8>, Error>)
        ensures
            reads(result, final(self)@, long_string_in(old(self)@)),
            result is Err ==> final(self)@ == counted_left(old(self)@, 4),
    {
        let length: usize = self.long()? as usize;
        Ok(slice_to_vec(self.take(length)?))
    }

    /// A field table, skipped: nothing of what a broker puts in its server
    /// properties is read, and skipping it is the whole of the need.
    ///
    /// # Errors
    /// Where the payload has run out.
    pub fn skip_table(&mut self) -> (result: Result<(), Error>)
        ensures
            match long_string_in(old(self)@) {
                Ok((_, rest)) => result is Ok && final(self)@ == rest,
                Err(error) => (result matches Err(failure) && failure@ == error) && final(self)@
                    == counted_left(old(self)@, 4),
            },
    {
        let length: usize = self.long()? as usize;
        let _ = self.take(length)?;
        Ok(())
    }
}

/// The text `bytes` encode.
fn text(bytes: &[u8]) -> (result: Result<String, Error>)
    ensures
        valid_utf8(bytes@) ==> (result matches Ok(text) && text@ == decode_utf8(bytes@)),
        !valid_utf8(bytes@) ==> (result matches Err(failure) && failure@ == not_text()),
{
    match decoded(bytes) {
        Some(text) => Ok(text),
        None => Err(protocol_error("a string that is not UTF-8".to_owned())),
    }
}

/// What a frame carries, by its type octet.
#[derive(Clone, Copy, Debug, PartialEq, Eq, Structural)]
pub enum Kind {
    /// A class and method id, and the arguments they define. Type 1.
    Method,
    /// A class, a body size and the properties. Type 2.
    Header,
    /// Part of a message body. Type 3.
    Body,
    /// A heartbeat. Type 8.
    Heartbeat,
}

/// The type octet of a kind of frame.
pub open spec fn octet_of(kind: Kind) -> u8 {
    match kind {
        Kind::Method => 1,
        Kind::Header => 2,
        Kind::Body => 3,
        Kind::Heartbeat => 8,
    }
}

/// The kind of frame a type octet says, where it says one.
pub open spec fn kind_of(octet: u8) -> Option<Kind> {
    if octet == 1 {
        Some(Kind::Method)
    } else if octet == 2 {
        Some(Kind::Header)
    } else if octet == 3 {
        Some(Kind::Body)
    } else if octet == 8 {
        Some(Kind::Heartbeat)
    } else {
        None
    }
}

/// Every kind is what its own octet says, and no octet says two kinds.
pub proof fn law_kind_round_trips(kind: Kind, octet: u8)
    ensures
        kind_of(octet_of(kind)) == Some(kind),
        kind_of(octet) == Some(kind) ==> octet_of(kind) == octet,
{
}

/// The name of a kind of frame, as a diagnostic prints it.
pub open spec fn name_of(kind: Kind) -> Seq<char> {
    match kind {
        Kind::Method => "Method"@,
        Kind::Header => "Header"@,
        Kind::Body => "Body"@,
        Kind::Heartbeat => "Heartbeat"@,
    }
}

impl Kind {
    /// The type octet on the wire.
    pub fn octet(self) -> (octet: u8)
        ensures
            octet == octet_of(self),
    {
        match self {
            Kind::Method => 1,
            Kind::Header => 2,
            Kind::Body => 3,
            Kind::Heartbeat => 8,
        }
    }

    /// What `octet` says the frame carries.
    pub fn of(octet: u8) -> (kind: Option<Kind>)
        ensures
            kind == kind_of(octet),
    {
        match octet {
            1 => Some(Kind::Method),
            2 => Some(Kind::Header),
            3 => Some(Kind::Body),
            8 => Some(Kind::Heartbeat),
            _ => None,
        }
    }

    /// Its name, as a diagnostic prints it.
    pub fn name(self) -> (name: &'static str)
        ensures
            name@ == name_of(self),
    {
        match self {
            Kind::Method => "Method",
            Kind::Header => "Header",
            Kind::Body => "Body",
            Kind::Heartbeat => "Heartbeat",
        }
    }
}

/// One frame: what it carries, on which channel, and its payload.
#[derive(Clone, Debug, PartialEq, Eq)]
pub struct Frame {
    pub kind: Kind,
    pub channel: u16,
    pub payload: Vec<u8>,
}

/// A [`Frame`] as contracts speak of it.
pub struct FrameView {
    pub kind: Kind,
    pub channel: u16,
    pub payload: Seq<u8>,
}

impl View for Frame {
    type V = FrameView;

    open spec fn view(&self) -> FrameView {
        FrameView { kind: self.kind, channel: self.channel, payload: self.payload@ }
    }
}

/// Frames, each taken by its view.
pub open spec fn frame_views(frames: Seq<Frame>) -> Seq<FrameView> {
    frames.map_values(|frame: Frame| frame@)
}

/// A frame as it may be heard, or nothing where the peer closed.
pub open spec fn heard_view(frame: Option<Frame>) -> Option<FrameView> {
    match frame {
        Some(frame) => Some(frame@),
        None => None,
    }
}

/// A frame on the wire, frame-end included.
pub open spec fn frame_bytes(frame: FrameView) -> Seq<u8> {
    seq![octet_of(frame.kind)] + big_endian(frame.channel as nat, 2) + big_endian(
        frame.payload.len(),
        4,
    ) + frame.payload + seq![FRAME_END]
}

/// Frames on the wire, one after the other.
pub open spec fn frames_bytes(frames: Seq<FrameView>) -> Seq<u8>
    decreases frames.len(),
{
    if frames.len() == 0 {
        Seq::empty()
    } else {
        frame_bytes(frames[0]) + frames_bytes(frames.skip(1))
    }
}

/// Frames after others are the bytes of both, one after the other.
pub proof fn lemma_frames_bytes_add(first: Seq<FrameView>, second: Seq<FrameView>)
    ensures
        frames_bytes(first + second) == frames_bytes(first) + frames_bytes(second),
    decreases first.len(),
{
    if first.len() == 0 {
        assert(first + second =~= second);
        assert(frames_bytes(first) + frames_bytes(second) =~= frames_bytes(second));
    } else {
        lemma_frames_bytes_add(first.skip(1), second);
        assert((first + second).skip(1) =~= first.skip(1) + second);
        assert(frames_bytes(first + second) =~= frames_bytes(first) + frames_bytes(second));
    }
}

impl Frame {
    /// A frame of `kind` on `channel`.
    pub fn new(kind: Kind, channel: u16, payload: Vec<u8>) -> (frame: Self)
        ensures
            frame@ == (FrameView { kind, channel, payload: payload@ }),
    {
        Frame { kind, channel, payload }
    }

    /// The frame as bytes, frame-end included. A payload longer than a long
    /// counts cannot be framed, and is refused where it is built.
    pub fn encode(&self) -> (bytes: Vec<u8>)
        requires
            self@.payload.len() <= u32::MAX,
        ensures
            bytes@ == frame_bytes(self@),
    {
        let mut out: Vec<u8> = Vec::new();
        out.push(self.kind.octet());
        put_short(&mut out, self.channel);
        put_long(&mut out, len32(self.payload.len()));
        put_bytes(&mut out, self.payload.as_slice());
        out.push(FRAME_END);
        assert(out@ =~= frame_bytes(self@));
        out
    }
}

/// A heartbeat on the wire.
pub open spec fn heartbeat_bytes() -> Seq<u8> {
    frame_bytes(FrameView { kind: Kind::Heartbeat, channel: 0, payload: Seq::empty() })
}

/// A heartbeat as bytes.
pub fn heartbeat() -> (bytes: Vec<u8>)
    ensures
        bytes@ == heartbeat_bytes(),
{
    Frame::new(Kind::Heartbeat, 0, Vec::new()).encode()
}

/// What the first seven octets of a frame say: its kind, its channel, and
/// how long its payload is.
pub struct FrameHead {
    pub kind: Kind,
    pub channel: u16,
    pub size: usize,
}

/// What a frame header of seven octets says, or why it is refused.
pub open spec fn head_in(head: Seq<u8>) -> Result<FrameHead, ErrorView> {
    let size = number(head.subrange(3, 7));
    match kind_of(head[0]) {
        None => Err(
            refusal("a frame type AMQP does not define: "@ + decimal(head[0] as nat)),
        ),
        Some(kind) => if size > MAX_FRAME {
            Err(
                refusal(
                    "a frame of "@ + decimal(size) + " bytes, over the "@ + decimal(
                        MAX_FRAME as nat,
                    ) + " byte limit"@,
                ),
            )
        } else {
            Ok(
                FrameHead {
                    kind,
                    channel: number(head.subrange(1, 3)) as u16,
                    size: size as usize,
                },
            )
        },
    }
}

/// The failure of a connection that ended inside a frame header.
pub open spec fn header_broke() -> ErrorView {
    breakage("reading a frame header: the connection ended"@)
}

/// The failure of a frame whose payload the connection did not carry whole.
pub open spec fn payload_broke() -> ErrorView {
    breakage("reading a frame payload: the connection ended"@)
}

/// The failure of a frame that does not end as frames do.
pub open spec fn no_frame_end() -> ErrorView {
    refusal("a frame that does not end in 0xCE"@)
}

/// The frame at the front of `bytes` and the bytes after it; no frame where
/// there are no bytes, and a broken connection where they end inside one.
pub open spec fn frame_in(bytes: Seq<u8>) -> Parsed<Option<FrameView>> {
    if bytes.len() == 0 {
        Ok((None, Seq::empty()))
    } else if bytes.len() < 7 {
        Err(header_broke())
    } else {
        match head_in(bytes.take(7)) {
            Err(error) => Err(error),
            Ok(head) => {
                let rest = bytes.skip(7);
                if rest.len() < head.size + 1 {
                    Err(payload_broke())
                } else if rest[head.size as int] != FRAME_END {
                    Err(no_frame_end())
                } else {
                    Ok(
                        (
                            Some(
                                FrameView {
                                    kind: head.kind,
                                    channel: head.channel,
                                    payload: rest.take(head.size as int),
                                },
                            ),
                            rest.skip(head.size + 1),
                        ),
                    )
                }
            },
        }
    }
}

/// What is left unread of bytes whose first frame was refused: nothing
/// where its header or its payload is not whole, all after its header where
/// that is refused, and all after the frame where its end is wrong.
pub open spec fn refused_left(bytes: Seq<u8>) -> Seq<u8> {
    if bytes.len() < 7 {
        Seq::empty()
    } else {
        match head_in(bytes.take(7)) {
            Err(_) => bytes.skip(7),
            Ok(head) => if bytes.len() < 7 + head.size + 1 {
                Seq::empty()
            } else {
                bytes.skip(7 + head.size + 1)
            },
        }
    }
}

/// What the seven octets of a frame header say.
///
/// # Errors
/// A type octet AMQP does not define, or a frame over [`MAX_FRAME`].
pub fn frame_head(head: &[u8]) -> (result: Result<FrameHead, Error>)
    requires
        head@.len() == 7,
    ensures
        match head_in(head@) {
            Ok(expected) => result == Ok::<FrameHead, Error>(expected),
            Err(error) => result matches Err(failure) && failure@ == error,
        },
{
    let mut reader = Reader::new(head);
    proof {
        assert(head@.take(1) =~= seq![head@[0]]);
        reveal_with_fuel(number, 2);
        assert(seq![head@[0]].drop_last() =~= Seq::empty());
        assert(head@.skip(1).take(2) =~= head@.subrange(1, 3));
        assert(head@.skip(1).skip(2).take(4) =~= head@.subrange(3, 7));
    }
    let octet = reader.octet()?;
    let channel = reader.short()?;
    let size: usize = reader.long()? as usize;
    match Kind::of(octet) {
        None => {
            let mut message = "a frame type AMQP does not define: ".to_owned();
            message.append(decimal_of(octet as u64).as_str());
            Err(protocol_error(message))
        },
        Some(kind) => {
            if size > MAX_FRAME {
                let mut message = "a frame of ".to_owned();
                message.append(decimal_of(size as u64).as_str());
                message.append(" bytes, over the ");
                message.append(decimal_of(MAX_FRAME as u64).as_str());
                message.append(" byte limit");
                return Err(protocol_error(message));
            }
            Ok(FrameHead { kind, channel, size })
        },
    }
}

/// The frame of a header and what follows it: the payload the header
/// counted, and one octet more.
///
/// # Errors
/// A frame that does not end in `0xCE`.
pub fn frame_of(head: FrameHead, payload: Vec<u8>) -> (result: Result<Frame, Error>)
    ensures
        payload@.len() > 0 && payload@.last() == FRAME_END ==> (result matches Ok(frame) && frame@
            == (FrameView {
            kind: head.kind,
            channel: head.channel,
            payload: payload@.drop_last(),
        })),
        !(payload@.len() > 0 && payload@.last() == FRAME_END) ==> (result matches Err(failure)
            && failure@ == no_frame_end()),
{
    let mut payload = payload;
    let whole = match payload.pop() {
        Some(end) => end == FRAME_END,
        None => false,
    };
    if !whole {
        return Err(protocol_error("a frame that does not end in 0xCE".to_owned()));
    }
    Ok(Frame { kind: head.kind, channel: head.channel, payload })
}

/// Read one frame from the front of `reader`, or `None` when the peer
/// closed between frames.
///
/// # Errors
/// A type octet AMQP does not define, a frame over [`MAX_FRAME`], a frame
/// that does not end in `0xCE`, or a connection that broke.
pub fn read_frame(reader: &mut &[u8]) -> (result: Result<Option<Frame>, Error>)
    ensures
        match frame_in(old(reader)@) {
            Ok((frame, rest)) => (result matches Ok(got) && heard_view(got) == frame)
                && final(reader)@ == rest,
            Err(error) => (result matches Err(failure) && failure@ == error) && final(reader)@
                == refused_left(old(reader)@),
        },
{
    let bytes: &[u8] = *reader;
    let count: usize = bytes.len();
    if count < 7 {
        *reader = slice_subrange(bytes, count, count);
        assert(reader@ =~= Seq::empty());
        if count == 0 {
            return Ok(None);
        }
        return Err(broken("reading a frame header: the connection ended".to_owned()));
    }
    let head_bytes = slice_subrange(bytes, 0, 7);
    assert(head_bytes@ =~= bytes@.take(7));
    *reader = slice_subrange(bytes, 7, count);
    assert(reader@ =~= bytes@.skip(7));
    let head = frame_head(head_bytes)?;
    let size: usize = head.size;
    if count - 7 < size + 1 {
        *reader = slice_subrange(bytes, count, count);
        assert(reader@ =~= Seq::empty());
        return Err(broken("reading a frame payload: the connection ended".to_owned()));
    }
    let end: usize = 7 + size + 1;
    let payload = slice_to_vec(slice_subrange(bytes, 7, end));
    *reader = slice_subrange(bytes, end, count);
    assert(reader@ =~= bytes@.skip(7 + size + 1));
    assert(reader@ =~= bytes@.skip(7).skip(size + 1));
    assert(payload@.drop_last() =~= bytes@.skip(7).take(size as int));
    Ok(Some(frame_of(head, payload)?))
}

/// A frame that is written is the frame that is read back, and what
/// follows it is left for the next read: for every frame whose payload is
/// within the limit.
pub proof fn law_frame_round_trips(frame: FrameView, rest: Seq<u8>)
    requires
        frame.payload.len() <= MAX_FRAME,
    ensures
        frame_in(frame_bytes(frame) + rest) == Ok::<(Option<FrameView>, Seq<u8>), ErrorView>(
            (Some(frame), rest),
        ),
{
    let bytes = frame_bytes(frame) + rest;
    let size = frame.payload.len();
    lemma_capacities();
    law_number_round_trips(frame.channel as nat, 2);
    law_number_round_trips(size, 4);
    let head = bytes.take(7);
    assert(head.subrange(1, 3) =~= big_endian(frame.channel as nat, 2));
    assert(head.subrange(3, 7) =~= big_endian(size, 4));
    assert(bytes.skip(7).take(size as int) =~= frame.payload);
    assert(bytes.skip(7).skip(size as int + 1) =~= rest);
    law_kind_round_trips(frame.kind, head[0]);
}

/// The length a frame is written with is its payload's, for every payload
/// that can be framed; and the length a long string is written with is its
/// bytes'.
pub proof fn law_lengths_are_true(frame: FrameView, bytes: Seq<u8>)
    requires
        frame.payload.len() <= u32::MAX,
        bytes.len() <= u32::MAX,
    ensures
        number(frame_bytes(frame).subrange(3, 7)) == frame.payload.len(),
        frame_bytes(frame).len() == frame.payload.len() + 8,
        number(long_string_bytes(bytes).take(4)) == bytes.len(),
        long_string_bytes(bytes).len() == bytes.len() + 4,
{
    lemma_capacities();
    lemma_width(frame.channel as nat, 2);
    law_number_round_trips(frame.payload.len(), 4);
    law_number_round_trips(bytes.len(), 4);
    assert(frame_bytes(frame).subrange(3, 7) =~= big_endian(frame.payload.len(), 4));
    assert(long_string_bytes(bytes).take(4) =~= big_endian(bytes.len(), 4));
}

/// A frame that is read is exactly the bytes that writing it gives, and is
/// within the limit: nothing on the wire reads as a frame but what a frame
/// is written as.
pub proof fn law_frame_is_its_bytes(bytes: Seq<u8>, frame: FrameView, rest: Seq<u8>)
    requires
        frame_in(bytes) == Ok::<(Option<FrameView>, Seq<u8>), ErrorView>((Some(frame), rest)),
    ensures
        bytes == frame_bytes(frame) + rest,
        frame.payload.len() <= MAX_FRAME,
{
    let head = bytes.take(7);
    lemma_capacities();
    law_octets_round_trip(head.subrange(1, 3));
    law_octets_round_trip(head.subrange(3, 7));
    law_kind_round_trips(frame.kind, head[0]);
    assert(bytes =~= frame_bytes(frame) + rest);
}

/// A number written in enough octets is the number that is read, and what
/// follows it is left unread: octets, shorts, longs and long longs alike.
pub proof fn law_number_reads_back(value: nat, width: nat, rest: Seq<u8>)
    requires
        value < capacity(width),
    ensures
        number_in(big_endian(value, width) + rest, width) == Ok::<(nat, Seq<u8>), ErrorView>(
            (value, rest),
        ),
{
    law_number_round_trips(value, width);
    let bytes = big_endian(value, width) + rest;
    assert(bytes.take(width as int) =~= big_endian(value, width));
    assert(bytes.skip(width as int) =~= rest);
}

/// One octet is the number that is read where one octet is.
pub proof fn lemma_octet_reads_back(value: u8, rest: Seq<u8>)
    ensures
        number_in(seq![value] + rest, 1) == Ok::<(nat, Seq<u8>), ErrorView>((value as nat, rest)),
{
    lemma_capacities();
    law_number_reads_back(value as nat, 1, rest);
    reveal_with_fuel(big_endian, 2);
    assert(big_endian(value as nat, 1) =~= seq![value]);
}

/// A long string that is written is the bytes that are read back.
pub proof fn law_long_string_round_trips(bytes: Seq<u8>, rest: Seq<u8>)
    requires
        bytes.len() <= u32::MAX,
    ensures
        long_string_in(long_string_bytes(bytes) + rest) == Ok::<(Seq<u8>, Seq<u8>), ErrorView>(
            (bytes, rest),
        ),
{
    lemma_capacities();
    law_number_reads_back(bytes.len(), 4, bytes + rest);
    assert(long_string_bytes(bytes) + rest =~= big_endian(bytes.len(), 4) + (bytes + rest));
    assert((bytes + rest).take(bytes.len() as int) =~= bytes);
    assert((bytes + rest).skip(bytes.len() as int) =~= rest);
}

/// A short string on the wire holds the first 255 bytes of its text.
pub proof fn law_short_string_is_cut(text: Seq<char>, rest: Seq<u8>)
    ensures
        counted_in(short_string_bytes(text) + rest, 1) == Ok::<(Seq<u8>, Seq<u8>), ErrorView>(
            (
                if encode_utf8(text).len() <= 255 {
                    encode_utf8(text)
                } else {
                    encode_utf8(text).take(255)
                },
                rest,
            ),
        ),
{
    let bytes = encode_utf8(text);
    let length = if bytes.len() <= 255 {
        bytes.len() as int
    } else {
        255
    };
    let kept = bytes.take(length);
    lemma_octet_reads_back(length as u8, kept + rest);
    assert(short_string_bytes(text) + rest =~= seq![length as u8] + (kept + rest));
    assert((kept + rest).take(length) =~= kept);
    assert((kept + rest).skip(length) =~= rest);
    assert(bytes.len() <= 255 ==> kept =~= bytes);
}

/// A short string that is written is the text that is read back, for every
/// text of at most 255 bytes.
pub proof fn law_short_string_round_trips(text: Seq<char>, rest: Seq<u8>)
    requires
        encode_utf8(text).len() <= 255,
    ensures
        short_string_in(short_string_bytes(text) + rest) == Ok::<(Seq<char>, Seq<u8>), ErrorView>(
            (text, rest),
        ),
{
    law_short_string_is_cut(text, rest);
    vstd::utf8::encode_utf8_valid_utf8(text);
    vstd::utf8::encode_utf8_decode_utf8(text);
}

/// An empty field table is read as one that holds nothing.
pub proof fn law_empty_table_reads_back(rest: Seq<u8>)
    ensures
        long_string_in(big_endian(0, 4) + rest) == Ok::<(Seq<u8>, Seq<u8>), ErrorView>(
            (Seq::empty(), rest),
        ),
{
    law_long_string_round_trips(Seq::empty(), rest);
    assert(long_string_bytes(Seq::empty()) =~= big_endian(0, 4));
}

/// Keys and values, as a field table is read.
pub type Pairs = Seq<(Seq<char>, Seq<char>)>;

/// The type octets of field values: `S`, `I`, `t`, `F` and `V`.
pub const FIELD_LONG_STRING: u8 = 0x53;

pub const FIELD_LONG_INT: u8 = 0x49;

pub const FIELD_BOOLEAN: u8 = 0x74;

pub const FIELD_TABLE: u8 = 0x46;

pub const FIELD_NOTHING: u8 = 0x56;

/// What std's `{:?}` prints for pairs of text.
pub uninterp spec fn debug_text(pairs: Seq<(Seq<char>, Seq<char>)>) -> Seq<char>;

/// Pairs of text, each taken by its view.
pub open spec fn pair_views(pairs: Seq<(String, String)>) -> Pairs {
    pairs.map_values(|pair: (String, String)| (pair.0@, pair.1@))
}

/// The bytes of a field value of type `tag` at the front of `bytes`, and
/// the bytes after it; nothing where the type is not one of those known.
pub open spec fn field_in(tag: u8, bytes: Seq<u8>) -> Option<Parsed<Seq<u8>>> {
    if tag == FIELD_LONG_STRING || tag == FIELD_TABLE {
        Some(long_string_in(bytes))
    } else if tag == FIELD_LONG_INT {
        Some(bytes_in(bytes, 4))
    } else if tag == FIELD_BOOLEAN {
        Some(bytes_in(bytes, 1))
    } else if tag == FIELD_NOTHING {
        Some(bytes_in(bytes, 0))
    } else {
        None
    }
}

/// The bytes of a field value of a known type, as text.
pub open spec fn field_text(tag: u8, value: Seq<u8>) -> Result<Seq<char>, ErrorView>
    decreases value.len(), 1int,
{
    if tag == FIELD_LONG_STRING {
        if valid_utf8(value) {
            Ok(decode_utf8(value))
        } else {
            Err(not_text())
        }
    } else if tag == FIELD_LONG_INT {
        Ok(signed_decimal(signed(number(value) as u32)))
    } else if tag == FIELD_BOOLEAN {
        Ok(truth(number(value) != 0))
    } else if tag == FIELD_TABLE {
        match table_in(value) {
            Ok(pairs) => Ok(debug_text(pairs)),
            Err(error) => Err(error),
        }
    } else {
        Ok(Seq::empty())
    }
}

/// The fields of a table, in order, up to the first whose type is not
/// known.
pub open spec fn table_in(bytes: Seq<u8>) -> Result<Pairs, ErrorView>
    decreases bytes.len(), 0int,
{
    if bytes.len() == 0 {
        Ok(Seq::empty())
    } else {
        match short_string_in(bytes) {
            Err(error) => Err(error),
            Ok((key, after_key)) => match number_in(after_key, 1) {
                Err(error) => Err(error),
                Ok((tag, after_tag)) => match field_in(tag as u8, after_tag) {
                    None => Ok(Seq::empty()),
                    Some(Err(error)) => Err(error),
                    Some(Ok((value, rest))) => match field_text(tag as u8, value) {
                        Err(error) => Err(error),
                        Ok(text) => match table_in(rest) {
                            Err(error) => Err(error),
                            Ok(pairs) => Ok(seq![(key, text)] + pairs),
                        },
                    },
                },
            },
        }
    }
}

/// `format!("{:?}")` of std on pairs of text: a text that depends on the
/// pairs alone; how std quotes and escapes them is left unsaid.
#[verifier::external_body]
fn debug_of(pairs: &Vec<(String, String)>) -> (text: String)
    ensures
        text@ == debug_text(pair_views(pairs@)),
{
    format!("{:?}", pairs)
}

/// `first` and then what came of the rest.
pub open spec fn preceded(first: Pairs, rest: Result<Pairs, ErrorView>) -> Result<
    Pairs,
    ErrorView,
> {
    match rest {
        Ok(pairs) => Ok(first + pairs),
        Err(error) => Err(error),
    }
}

/// A field table's common types, read as text so a diagnostic can print
/// them: `S` long string, `I` long int, `t` boolean, `F` nested table, `V`
/// nothing. Anything else ends the reading, because the length of an
/// unknown type is unknown.
///
/// # Errors
/// Where the table ends mid-value.
#[verifier::spinoff_prover]
#[verifier::rlimit(60)]
pub fn table(bytes: &[u8]) -> (result: Result<Vec<(String, String)>, Error>)
    ensures
        match table_in(bytes@) {
            Ok(pairs) => result matches Ok(got) && pair_views(got@) == pairs,
            Err(error) => result matches Err(failure) && failure@ == error,
        },
    decreases bytes@.len(),
{
    let mut reader = Reader::new(bytes);
    let mut pairs: Vec<(String, String)> = Vec::new();
    assert(pair_views(pairs@) =~= Seq::empty());
    proof {
        assert(table_in(bytes@) is Ok ==> Seq::empty() + table_in(bytes@)->Ok_0 =~= table_in(
            bytes@,
        )->Ok_0);
    }
    while !reader.rest().is_empty()
        invariant
            reader@.len() <= bytes@.len(),
            preceded(pair_views(pairs@), table_in(reader@)) == table_in(bytes@),
        decreases reader@.len(),
    {
        let ghost before = reader@;
        let ghost old_pairs = pairs@;
        let key = reader.short_string()?;
        let tag = reader.octet()?;
        let ghost after_tag = reader@;
        let ghost raw = field_in(tag, after_tag)->Some_0->Ok_0.0;
        let ghost left = field_in(tag, after_tag)->Some_0->Ok_0.1;
        let ghost expected = field_text(tag, raw);
        let value: String = if tag == FIELD_LONG_STRING {
            text(reader.long_string()?.as_slice())?
        } else if tag == FIELD_LONG_INT {
            signed_decimal_of(reader.long()?)
        } else if tag == FIELD_BOOLEAN {
            truth_of(reader.octet()? != 0)
        } else if tag == FIELD_TABLE {
            let nested = reader.long_string()?;
            let inner = table(nested.as_slice())?;
            debug_of(&inner)
        } else if tag == FIELD_NOTHING {
            assert(after_tag.skip(0) =~= after_tag);
            String::new()
        } else {
            assert(pair_views(pairs@) + Seq::empty() =~= pair_views(pairs@));
            return Ok(pairs);
        };
        assert(expected == Ok::<Seq<char>, ErrorView>(value@));
        assert(reader@ == left);
        pairs.push((key, value));
        proof {
            assert(table_in(before) == preceded(seq![(key@, value@)], table_in(left)));
            let first = seq![(key@, value@)];
            assert(pair_views(pairs@) =~= pair_views(old_pairs) + first);
            if let Ok(more) = table_in(reader@) {
                assert(pair_views(old_pairs) + (first + more) =~= pair_views(pairs@) + more);
            }
        }
    }
    assert(pair_views(pairs@) + Seq::empty() =~= pair_views(pairs@));
    Ok(pairs)
}

/// A field of a type that is not known ends the reading of a table, whatever
/// follows it, and is no failure.
pub proof fn law_unknown_field_ends_the_table(key: Seq<char>, tag: u8, rest: Seq<u8>)
    requires
        encode_utf8(key).len() <= 255,
        field_in(tag, rest) is None,
    ensures
        table_in(short_string_bytes(key) + (seq![tag] + rest)) == Ok::<Pairs, ErrorView>(
            Seq::empty(),
        ),
{
    law_short_string_round_trips(key, seq![tag] + rest);
    lemma_octet_reads_back(tag, rest);
}

} // verus!
