//! What is written, octet by octet: numbers, text, frames, methods and
//! content headers as the places and values of their octets, and decimal
//! text as the places and values of its digits.

use vstd::prelude::*;
use vstd::string::*;
use vstd::utf8::{encode_utf8, is_ascii_chars_encode_utf8};

use crate::error::{breakage, refusal};
use crate::text::{after, before, decimal, lemma_before, past, signed, signed_decimal};
use crate::wire::{
    big_endian, frame_bytes, heartbeat_bytes, kind_of, lemma_width, len32_of, long_string_bytes,
    short_string_bytes, FrameView, Kind, PROTOCOL_HEADER,
};

verus! {

/// The number that the two octets at `at` write, the first counting most.
pub open spec fn short_at(bytes: Seq<u8>, at: int) -> int {
    bytes[at] * 0x100 + bytes[at + 1]
}

/// The number that the four octets at `at` write, the first counting most.
pub open spec fn long_at(bytes: Seq<u8>, at: int) -> int {
    bytes[at] * 0x100_0000 + bytes[at + 1] * 0x1_0000 + bytes[at + 2] * 0x100 + bytes[at + 3]
}

/// The number that the eight octets at `at` write, the first counting most.
pub open spec fn longlong_at(bytes: Seq<u8>, at: int) -> int {
    long_at(bytes, at) * 0x1_0000_0000 + long_at(bytes, at + 4)
}

/// How many octets of a text a short string holds.
pub open spec fn text_length(text: Seq<char>) -> int {
    if encode_utf8(text).len() <= 255 {
        encode_utf8(text).len() as int
    } else {
        255
    }
}

/// Whether the text stands at `at` as a short string: one octet that counts,
/// and so many octets of the text in UTF-8.
pub open spec fn text_at(bytes: Seq<u8>, at: int, text: Seq<char>) -> bool {
    &&& bytes.len() >= at + 1 + text_length(text)
    &&& bytes[at] == text_length(text)
    &&& bytes.subrange(at + 1, at + 1 + text_length(text)) == encode_utf8(text).take(
        text_length(text),
    )
}

/// A number in two, four and eight octets is what its octets write.
pub proof fn law_numbers_are_their_octets(short: u16, long: u32, longlong: u64)
    ensures
        big_endian(short as nat, 2).len() == 2,
        short_at(big_endian(short as nat, 2), 0) == short,
        big_endian(long as nat, 4).len() == 4,
        long_at(big_endian(long as nat, 4), 0) == long,
        big_endian(longlong as nat, 8).len() == 8,
        longlong_at(big_endian(longlong as nat, 8), 0) == longlong,
{
    lemma_two(short as nat);
    lemma_four(long as nat);
    lemma_eight(longlong as nat);
}

/// The octets of a number in one octet more are those of all but its last
/// eight bits, and those.
proof fn lemma_one_more(value: nat, width: nat)
    ensures
        big_endian(value, width + 1).len() == width + 1,
        big_endian(value, width + 1)[width as int] == value % 256,
        forall|i: int|
            0 <= i < width ==> big_endian(value, width + 1)[i] == #[trigger] big_endian(
                value / 256,
                width,
            )[i],
{
    lemma_width(value / 256, width);
}

/// A number in two octets is what they write.
pub(crate) proof fn lemma_two(value: nat)
    requires
        value < 0x1_0000,
    ensures
        big_endian(value, 2).len() == 2,
        short_at(big_endian(value, 2), 0) == value,
{
    lemma_one_more(value, 1);
    lemma_one_more(value / 256, 0);
    assert(big_endian(value, 2)[0] == big_endian(value / 256, 1)[0]);
}

/// A number in four octets is what they write.
pub(crate) proof fn lemma_four(value: nat)
    requires
        value < 0x1_0000_0000,
    ensures
        big_endian(value, 4).len() == 4,
        long_at(big_endian(value, 4), 0) == value,
{
    let upper = value / 256 / 256;
    lemma_one_more(value, 3);
    lemma_one_more(value / 256, 2);
    lemma_two(upper);
    assert(big_endian(value, 4)[0] == big_endian(value / 256, 3)[0]);
    assert(big_endian(value, 4)[1] == big_endian(value / 256, 3)[1]);
    assert(big_endian(value, 4)[2] == big_endian(value / 256, 3)[2]);
    assert(big_endian(value / 256, 3)[0] == big_endian(upper, 2)[0]);
    assert(big_endian(value / 256, 3)[1] == big_endian(upper, 2)[1]);
}

/// A number in eight octets is what they write.
pub(crate) proof fn lemma_eight(value: nat)
    requires
        value < 0x1_0000_0000_0000_0000,
    ensures
        big_endian(value, 8).len() == 8,
        longlong_at(big_endian(value, 8), 0) == value,
{
    let v1 = value / 256;
    let v2 = v1 / 256;
    let v3 = v2 / 256;
    let v4 = v3 / 256;
    lemma_one_more(value, 7);
    lemma_one_more(v1, 6);
    lemma_one_more(v2, 5);
    lemma_one_more(v3, 4);
    lemma_four(v4);
    let bytes = big_endian(value, 8);
    let top = big_endian(v4, 4);
    assert forall|i: int| 0 <= i < 4 implies bytes[i] == top[i] by {
        assert(bytes[i] == big_endian(v1, 7)[i]);
        assert(big_endian(v1, 7)[i] == big_endian(v2, 6)[i]);
        assert(big_endian(v2, 6)[i] == big_endian(v3, 5)[i]);
        assert(big_endian(v3, 5)[i] == top[i]);
    }
    assert(bytes[4] == big_endian(v1, 7)[4]);
    assert(big_endian(v1, 7)[4] == big_endian(v2, 6)[4]);
    assert(big_endian(v2, 6)[4] == big_endian(v3, 5)[4]);
    assert(bytes[5] == big_endian(v1, 7)[5]);
    assert(big_endian(v1, 7)[5] == big_endian(v2, 6)[5]);
    assert(bytes[6] == big_endian(v1, 7)[6]);
    assert(long_at(bytes, 0) == v4);
    assert(long_at(bytes, 4) == value - v4 * 0x1_0000_0000);
}

/// A short string is the octet that counts its text and the text in UTF-8,
/// cut off after 255 octets, and nothing more.
pub proof fn law_short_strings_are_their_octets(text: Seq<char>)
    ensures
        short_string_bytes(text).len() == 1 + text_length(text),
        text_at(short_string_bytes(text), 0, text),
{
    assert(short_string_bytes(text).subrange(1, 1 + text_length(text)) =~= encode_utf8(text).take(
        text_length(text),
    ));
}

/// A long string is the four octets that count its bytes, and the bytes.
pub proof fn law_long_strings_are_their_octets(bytes: Seq<u8>)
    requires
        bytes.len() <= u32::MAX,
    ensures
        long_string_bytes(bytes).len() == 4 + bytes.len(),
        long_at(long_string_bytes(bytes), 0) == bytes.len(),
        long_string_bytes(bytes).skip(4) == bytes,
{
    lemma_four(bytes.len());
    assert(long_string_bytes(bytes).skip(4) =~= bytes);
}

/// A length that a long counts is written as it is, and a longer one as the
/// most that a long counts.
pub proof fn law_lengths_saturate(length: nat)
    ensures
        len32_of(length) <= length,
        len32_of(length) <= 0xFFFF_FFFF,
        len32_of(length) == length || len32_of(length) == 0xFFFF_FFFF,
{
}

/// A frame is its type octet, its channel, how long its payload is, the
/// payload, and `0xCE`, and nothing more.
pub proof fn law_frames_are_their_octets(frame: FrameView)
    requires
        frame.payload.len() <= u32::MAX,
    ensures
        ({
            let bytes = frame_bytes(frame);
            let length = frame.payload.len() as int;
            &&& bytes.len() == length + 8
            &&& bytes[0] == match frame.kind {
                Kind::Method => 1u8,
                Kind::Header => 2u8,
                Kind::Body => 3u8,
                Kind::Heartbeat => 8u8,
            }
            &&& short_at(bytes, 1) == frame.channel
            &&& long_at(bytes, 3) == length
            &&& bytes.subrange(7, 7 + length) == frame.payload
            &&& bytes[7 + length] == 0xCE
        }),
{
    let bytes = frame_bytes(frame);
    let length = frame.payload.len() as int;
    let channel = big_endian(frame.channel as nat, 2);
    let counted = big_endian(frame.payload.len(), 4);
    lemma_two(frame.channel as nat);
    lemma_four(frame.payload.len());
    assert(bytes[1] == channel[0] && bytes[2] == channel[1]);
    assert(bytes[3] == counted[0] && bytes[4] == counted[1]);
    assert(bytes[5] == counted[2] && bytes[6] == counted[3]);
    assert(bytes.subrange(7, 7 + length) =~= frame.payload);
}

/// A heartbeat is an empty frame of type 8 on channel 0.
pub proof fn law_heartbeats_are_empty()
    ensures
        heartbeat_bytes() == seq![8u8, 0u8, 0u8, 0u8, 0u8, 0u8, 0u8, 0xCEu8],
{
    let frame = FrameView { kind: Kind::Heartbeat, channel: 0, payload: Seq::empty() };
    law_frames_are_their_octets(frame);
    assert(heartbeat_bytes() =~= seq![8u8, 0u8, 0u8, 0u8, 0u8, 0u8, 0u8, 0xCEu8]);
}

/// The protocol header is `AMQP` and then 0, 0, 9 and 1.
pub proof fn law_the_header_is_amqp()
    ensures
        PROTOCOL_HEADER@ == encode_utf8("AMQP"@) + seq![0u8, 0u8, 9u8, 1u8],
{
    reveal_strlit("AMQP");
    is_ascii_chars_encode_utf8("AMQP"@);
    assert(PROTOCOL_HEADER@ =~= encode_utf8("AMQP"@) + seq![0u8, 0u8, 9u8, 1u8]);
}

/// An octet that is no frame type of AMQP says no kind of frame, and one
/// that is says its own.
pub proof fn law_four_octets_are_frame_types(octet: u8)
    ensures
        kind_of(octet) == match octet {
            1u8 => Some(Kind::Method),
            2u8 => Some(Kind::Header),
            3u8 => Some(Kind::Body),
            8u8 => Some(Kind::Heartbeat),
            _ => None,
        },
{
}

/// The number that decimal digits write, the first counting most.
pub open spec fn digits_read(digits: Seq<char>) -> int
    decreases digits.len(),
{
    if digits.len() == 0 {
        0
    } else {
        digits_read(digits.drop_last()) * 10 + (digits.last() as int - '0' as int)
    }
}

/// A number in decimal is digits and nothing else, the first no zero unless
/// it is the only one, and they write that number.
pub proof fn law_decimals_are_their_digits(value: nat)
    ensures
        decimal(value).len() > 0,
        forall|i: int| 0 <= i < decimal(value).len() ==> '0' <= #[trigger] decimal(value)[i] <= '9',
        decimal(value).len() > 1 ==> decimal(value)[0] != '0',
        digits_read(decimal(value)) == value,
    decreases value,
{
    let text = decimal(value);
    let nothing = Seq::<char>::empty();
    reveal_with_fuel(digits_read, 2);
    if value < 10 {
        assert(text.drop_last() =~= nothing);
    } else {
        let shorter = decimal(value / 10);
        law_decimals_are_their_digits(value / 10);
        assert(text.drop_last() =~= shorter);
        assert forall|i: int| 0 <= i < text.len() implies '0' <= #[trigger] text[i] <= '9' by {
            if i < shorter.len() {
                assert(text[i] == shorter[i]);
            }
        }
        assert(text[0] == shorter[0]);
        if shorter.len() == 1 {
            assert(shorter.drop_last() =~= nothing);
            assert(digits_read(shorter) == value / 10);
        }
    }
}

/// Two numbers in decimal are the same text only where they are the same
/// number.
pub proof fn law_decimals_differ(left: nat, right: nat)
    requires
        decimal(left) == decimal(right),
    ensures
        left == right,
{
    law_decimals_are_their_digits(left);
    law_decimals_are_their_digits(right);
}

/// The four octets of a long read with a sign are the number in the signed
/// range that differs from it by nothing or by all that a long counts; in
/// decimal it is a minus sign and its magnitude where it is negative.
pub proof fn law_signed_numbers(value: u32)
    ensures
        -0x8000_0000 <= signed(value) < 0x8000_0000,
        signed(value) == value || signed(value) == value - 0x1_0000_0000,
        signed(value) >= 0 ==> digits_read(signed_decimal(signed(value))) == signed(value),
        signed(value) < 0 ==> signed_decimal(signed(value))[0] == '-' && digits_read(
            signed_decimal(signed(value)).skip(1),
        ) == -signed(value),
{
    if signed(value) >= 0 {
        law_decimals_are_their_digits(signed(value) as nat);
    } else {
        let magnitude = (-signed(value)) as nat;
        law_decimals_are_their_digits(magnitude);
        assert(signed_decimal(signed(value)).skip(1) =~= decimal(magnitude));
    }
}

/// A text that is cut at a mark is what stands before the first one, the
/// mark, and what stands after it; one without the mark is not cut.
pub proof fn law_cut_at_the_first_mark(text: Seq<char>, mark: char)
    ensures
        !before(text, mark).contains(mark),
        after(text, mark) is Some <==> text.contains(mark),
        after(text, mark) matches Some(rest) ==> text == before(text, mark) + seq![mark] + rest,
        after(text, mark) is None ==> before(text, mark) == text,
    decreases text.len(),
{
    let at = first_mark(text, mark);
    lemma_first_mark(text, mark);
    lemma_before(text, mark, at);
    assert forall|i: int| 0 <= i < at implies before(text, mark)[i] != mark by {
        assert(before(text, mark)[i] == text[i]);
    }
    if at < text.len() {
        assert(text =~= before(text, mark) + seq![mark] + text.skip(at + 1));
    } else {
        assert(text.take(at) =~= text);
    }
}

/// How far the first `mark` stands, or how long the text is.
spec fn first_mark(text: Seq<char>, mark: char) -> int
    decreases text.len(),
{
    if text.len() == 0 || text[0] == mark {
        0
    } else {
        1 + first_mark(text.skip(1), mark)
    }
}

/// Nothing before the first mark is one.
proof fn lemma_first_mark(text: Seq<char>, mark: char)
    ensures
        0 <= first_mark(text, mark) <= text.len(),
        forall|i: int| 0 <= i < first_mark(text, mark) ==> text[i] != mark,
        first_mark(text, mark) < text.len() ==> text[first_mark(text, mark)] == mark,
    decreases text.len(),
{
    if text.len() > 0 && text[0] != mark {
        let rest = text.skip(1);
        lemma_first_mark(rest, mark);
        assert forall|i: int| 0 <= i < first_mark(text, mark) implies text[i] != mark by {
            if i > 0 {
                assert(text[i] == rest[i - 1]);
            }
        }
    }
}

/// What follows a prefix is the rest of the text, exactly where the text is
/// the prefix and that rest.
pub proof fn law_prefix_and_rest(text: Seq<char>, prefix: Seq<char>, rest: Seq<char>)
    ensures
        past(text, prefix) == Some(rest) <==> text == prefix + rest,
{
    if text == prefix + rest {
        assert(text.skip(prefix.len() as int) =~= rest);
        assert(prefix.is_prefix_of(text));
    }
    if past(text, prefix) == Some(rest) {
        assert(text =~= prefix + rest);
    }
}

/// A refusal is permanent and a breakage is worth trying again, whatever
/// their message, which each keeps.
pub proof fn law_refusals_are_permanent(message: Seq<char>)
    ensures
        !refusal(message).retryable,
        refusal(message).message == message,
        breakage(message).retryable,
        breakage(message).message == message,
{
}

} // verus!
