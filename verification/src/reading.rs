//! What is read, octet by octet: when bytes are a number, a text, a frame, a
//! method, a table or a content, what they say, and what is left of them.

use vstd::prelude::*;
use vstd::string::*;
use vstd::utf8::{
    decode_utf8, encode_utf8, encode_utf8_decode_utf8, encode_utf8_valid_utf8, valid_utf8,
};

use crate::content::{
    body_size_in, content_in, content_left, content_takes, ContentView, ProgressView,
};
use crate::error::{breakage, refusal, ErrorView};
use crate::method::{
    close_in, consume_in, declare_ok_in, deliver_in, delivery_tag_in, login_in, method_in,
    plain_login, publish_in, queue_in, tag_in, tune_in, virtual_host_in, MethodView,
};
use crate::octets::{lemma_eight, lemma_four, lemma_two, long_at, longlong_at, short_at};
use crate::text::{after, before, decimal, lemma_before, signed, signed_decimal};
use crate::wire::{
    big_endian, bytes_in, debug_text, field_in, field_text, frame_bytes, frame_in,
    law_frame_round_trips, law_long_string_round_trips, law_number_reads_back,
    law_number_round_trips, law_octets_round_trip, law_short_string_round_trips, lemma_capacities,
    lemma_nothing, lemma_octet_reads_back, long_string_bytes, long_string_in, number, number_in,
    refused_left, short_string_bytes, short_string_in, table_in, FrameView, Kind, Pairs, MAX_FRAME,
};

verus! {

/// Octets write the number that their places and values say.
proof fn lemma_number_of_two(bytes: Seq<u8>)
    requires
        bytes.len() == 2,
    ensures
        number(bytes) == short_at(bytes, 0),
{
    lemma_capacities();
    law_octets_round_trip(bytes);
    lemma_two(number(bytes));
}

/// Four octets write the number that their places and values say.
proof fn lemma_number_of_four(bytes: Seq<u8>)
    requires
        bytes.len() == 4,
    ensures
        number(bytes) == long_at(bytes, 0),
{
    lemma_capacities();
    law_octets_round_trip(bytes);
    lemma_four(number(bytes));
}

/// Eight octets write the number that their places and values say.
proof fn lemma_number_of_eight(bytes: Seq<u8>)
    requires
        bytes.len() == 8,
    ensures
        number(bytes) == longlong_at(bytes, 0),
{
    lemma_capacities();
    law_octets_round_trip(bytes);
    lemma_eight(number(bytes));
}

/// A number is read where there are octets enough, is what they write, and
/// leaves the octets after it; where there are too few, the reading fails
/// for good.
pub proof fn law_numbers_are_read(bytes: Seq<u8>)
    ensures
        bytes.len() >= 1 ==> number_in(bytes, 1) == Ok::<(nat, Seq<u8>), ErrorView>(
            (bytes[0] as nat, bytes.skip(1)),
        ),
        bytes.len() >= 2 ==> number_in(bytes, 2) == Ok::<(nat, Seq<u8>), ErrorView>(
            (short_at(bytes, 0) as nat, bytes.skip(2)),
        ),
        bytes.len() >= 4 ==> number_in(bytes, 4) == Ok::<(nat, Seq<u8>), ErrorView>(
            (long_at(bytes, 0) as nat, bytes.skip(4)),
        ),
        bytes.len() >= 8 ==> number_in(bytes, 8) == Ok::<(nat, Seq<u8>), ErrorView>(
            (longlong_at(bytes, 0) as nat, bytes.skip(8)),
        ),
        forall|width: nat|
            bytes.len() < width ==> #[trigger] number_in(bytes, width) == Err::<
                (nat, Seq<u8>),
                ErrorView,
            >(refusal("a method that ends before its arguments do"@)),
{
    if bytes.len() >= 1 {
        reveal_with_fuel(number, 2);
        assert(bytes.take(1).drop_last() =~= Seq::empty());
    }
    if bytes.len() >= 2 {
        lemma_number_of_two(bytes.take(2));
    }
    if bytes.len() >= 4 {
        lemma_number_of_four(bytes.take(4));
    }
    if bytes.len() >= 8 {
        lemma_number_of_eight(bytes.take(8));
    }
}

/// A short string is read exactly where its first octet counts octets that
/// are there and are UTF-8: it is the text they encode, and the octets after
/// it are left. Otherwise the reading fails for good.
pub proof fn law_short_strings_are_read(bytes: Seq<u8>)
    ensures
        ({
            let length = bytes[0] as int;
            let text = bytes.subrange(1, 1 + length);
            if bytes.len() >= 1 && bytes.len() >= 1 + length && valid_utf8(text) {
                short_string_in(bytes) == Ok::<(Seq<char>, Seq<u8>), ErrorView>(
                    (decode_utf8(text), bytes.skip(1 + length)),
                )
            } else if bytes.len() >= 1 && bytes.len() >= 1 + length {
                short_string_in(bytes) == Err::<(Seq<char>, Seq<u8>), ErrorView>(
                    refusal("a string that is not UTF-8"@),
                )
            } else {
                short_string_in(bytes) == Err::<(Seq<char>, Seq<u8>), ErrorView>(
                    refusal("a method that ends before its arguments do"@),
                )
            }
        }),
{
    law_numbers_are_read(bytes);
    if bytes.len() >= 1 {
        let length = bytes[0] as int;
        let rest = bytes.skip(1);
        if bytes.len() >= 1 + length {
            assert(rest.take(length) =~= bytes.subrange(1, 1 + length));
            assert(rest.skip(length) =~= bytes.skip(1 + length));
        }
    }
}

/// A long string is read exactly where its first four octets count octets
/// that are there: it is those, and the octets after it are left. Otherwise
/// the reading fails for good.
pub proof fn law_long_strings_are_read(bytes: Seq<u8>)
    ensures
        ({
            let length = long_at(bytes, 0);
            if bytes.len() >= 4 && bytes.len() >= 4 + length {
                long_string_in(bytes) == Ok::<(Seq<u8>, Seq<u8>), ErrorView>(
                    (bytes.subrange(4, 4 + length), bytes.skip(4 + length)),
                )
            } else {
                long_string_in(bytes) == Err::<(Seq<u8>, Seq<u8>), ErrorView>(
                    refusal("a method that ends before its arguments do"@),
                )
            }
        }),
{
    law_numbers_are_read(bytes);
    if bytes.len() >= 4 {
        let length = long_at(bytes, 0);
        let rest = bytes.skip(4);
        if bytes.len() >= 4 + length {
            assert(rest.take(length) =~= bytes.subrange(4, 4 + length));
            assert(rest.skip(length) =~= bytes.skip(4 + length));
        }
    }
}

/// When bytes are a frame, and which: nothing is no frame and no failure; a
/// connection that ended inside a frame may come back; a type that AMQP does
/// not define, a length over the limit and a wrong last octet will not.
pub proof fn law_frames_are_read(bytes: Seq<u8>)
    ensures
        ({
            let size = long_at(bytes, 3);
            if bytes.len() == 0 {
                frame_in(bytes) == Ok::<(Option<FrameView>, Seq<u8>), ErrorView>(
                    (None, Seq::empty()),
                )
            } else if bytes.len() < 7 {
                frame_in(bytes) == Err::<(Option<FrameView>, Seq<u8>), ErrorView>(
                    breakage("reading a frame header: the connection ended"@),
                )
            } else if bytes[0] != 1 && bytes[0] != 2 && bytes[0] != 3 && bytes[0] != 8 {
                frame_in(bytes) == Err::<(Option<FrameView>, Seq<u8>), ErrorView>(
                    ErrorView {
                        message: "a frame type AMQP does not define: "@ + decimal(
                            bytes[0] as nat,
                        ),
                        retryable: false,
                    },
                )
            } else if size > 0x10_0000 {
                frame_in(bytes) == Err::<(Option<FrameView>, Seq<u8>), ErrorView>(
                    ErrorView {
                        message: "a frame of "@ + decimal(size as nat) + " bytes, over the "@
                            + decimal(0x10_0000) + " byte limit"@,
                        retryable: false,
                    },
                )
            } else if bytes.len() < 8 + size {
                frame_in(bytes) == Err::<(Option<FrameView>, Seq<u8>), ErrorView>(
                    breakage("reading a frame payload: the connection ended"@),
                )
            } else if bytes[7 + size] != 0xCE {
                frame_in(bytes) == Err::<(Option<FrameView>, Seq<u8>), ErrorView>(
                    refusal("a frame that does not end in 0xCE"@),
                )
            } else {
                frame_in(bytes) == Ok::<(Option<FrameView>, Seq<u8>), ErrorView>(
                    (
                        Some(
                            FrameView {
                                kind: if bytes[0] == 1 {
                                    Kind::Method
                                } else if bytes[0] == 2 {
                                    Kind::Header
                                } else if bytes[0] == 3 {
                                    Kind::Body
                                } else {
                                    Kind::Heartbeat
                                },
                                channel: short_at(bytes, 1) as u16,
                                payload: bytes.subrange(7, 7 + size),
                            },
                        ),
                        bytes.skip(8 + size),
                    ),
                )
            }
        }),
{
    if bytes.len() >= 7 {
        let head = bytes.take(7);
        let size = long_at(bytes, 3);
        lemma_number_of_two(head.subrange(1, 3));
        lemma_number_of_four(head.subrange(3, 7));
        if size <= 0x10_0000 && bytes.len() >= 8 + size {
            assert(bytes.skip(7).take(size) =~= bytes.subrange(7, 7 + size));
            assert(bytes.skip(7).skip(size + 1) =~= bytes.skip(8 + size));
        }
    }
}

/// The method a frame carries: only a method frame carries one, and only
/// with four octets or more, which name its class and its number; the rest
/// are its arguments.
pub proof fn law_methods_are_read(frame: FrameView)
    ensures
        if frame.kind == Kind::Method && frame.payload.len() >= 4 {
            method_in(frame) == Ok::<MethodView, ErrorView>(
                MethodView {
                    id: (
                        short_at(frame.payload, 0) as u16,
                        short_at(frame.payload, 2) as u16,
                    ),
                    arguments: frame.payload.skip(4),
                },
            )
        } else if frame.kind == Kind::Method {
            method_in(frame) == Err::<MethodView, ErrorView>(
                refusal("a method that ends before its arguments do"@),
            )
        } else {
            method_in(frame) == Err::<MethodView, ErrorView>(
                refusal("a frame where a method was expected"@),
            )
        },
{
    let payload = frame.payload;
    law_numbers_are_read(payload);
    if payload.len() >= 2 {
        law_numbers_are_read(payload.skip(2));
        if payload.len() >= 4 {
            assert(payload.skip(2).skip(2) =~= payload.skip(4));
        }
    }
}

/// The size a content header announces: the eight octets after the first
/// four, where there are twelve or more and memory holds so many.
pub proof fn law_sizes_are_read(payload: Seq<u8>)
    ensures
        if payload.len() >= 12 && longlong_at(payload, 4) <= usize::MAX {
            body_size_in(payload) == Ok::<nat, ErrorView>(longlong_at(payload, 4) as nat)
        } else if payload.len() >= 12 {
            body_size_in(payload) == Err::<nat, ErrorView>(refusal("a body too long to hold"@))
        } else {
            body_size_in(payload) == Err::<nat, ErrorView>(
                refusal("a method that ends before its arguments do"@),
            )
        },
{
    law_numbers_are_read(payload);
    if payload.len() >= 2 {
        law_numbers_are_read(payload.skip(2));
        if payload.len() >= 4 {
            law_numbers_are_read(payload.skip(2).skip(2));
            assert(payload.skip(2).skip(2) =~= payload.skip(4));
            if payload.len() >= 12 {
                let rest = payload.skip(4);
                assert forall|i: int| 0 <= i < 8 implies payload[4 + i] == #[trigger] rest[i] by {}
                assert(payload[4] == rest[0] && payload[8] == rest[4]);
                assert(longlong_at(rest, 0) == longlong_at(payload, 4));
            }
        }
    }
}

/// What a header makes of a content: only a header frame is one; a size over
/// the limit is refused by name; an empty body is whole, any other awaited.
pub proof fn law_headers_are_taken(heard: Option<FrameView>, size: nat)
    requires
        heard is Some && heard->0.kind == Kind::Header ==> body_size_in(heard->0.payload)
            == Ok::<nat, ErrorView>(size),
    ensures
        if heard is None || heard->0.kind != Kind::Header {
            content_takes(ContentView::Header, heard) == Err::<ProgressView, ErrorView>(
                refusal("content without its header"@),
            )
        } else if size > 0x400_0000 {
            content_takes(ContentView::Header, heard) == Err::<ProgressView, ErrorView>(
                ErrorView {
                    message: "a body of "@ + decimal(size) + " bytes, over the "@ + decimal(
                        0x400_0000,
                    ) + " limit"@,
                    retryable: false,
                },
            )
        } else if size == 0 {
            content_takes(ContentView::Header, heard) == Ok::<ProgressView, ErrorView>(
                ProgressView::Whole(Seq::empty()),
            )
        } else {
            content_takes(ContentView::Header, heard) == Ok::<ProgressView, ErrorView>(
                ProgressView::More(ContentView::Body { size, body: Seq::empty() }),
            )
        },
{
}

/// What a frame makes of a body that is under way: a body frame adds its
/// payload, and the body is whole once it is as long as announced and never
/// longer; a heartbeat passes by; anything else, and a peer that closes,
/// breaks it off.
pub proof fn law_bodies_are_taken(size: nat, body: Seq<u8>, heard: Option<FrameView>)
    requires
        body.len() < size,
    ensures
        ({
            let content = ContentView::Body { size, body };
            let taken = content_takes(content, heard);
            match heard {
                Some(frame) => match frame.kind {
                    Kind::Body => {
                        let longer = body + frame.payload;
                        if longer.len() > size {
                            taken == Err::<ProgressView, ErrorView>(
                                refusal("a body longer than its header announces"@),
                            )
                        } else if longer.len() == size {
                            taken == Ok::<ProgressView, ErrorView>(ProgressView::Whole(longer))
                        } else {
                            taken == Ok::<ProgressView, ErrorView>(
                                ProgressView::More(ContentView::Body { size, body: longer }),
                            )
                        }
                    },
                    Kind::Heartbeat => taken == Ok::<ProgressView, ErrorView>(
                        ProgressView::More(content),
                    ),
                    _ => taken == Err::<ProgressView, ErrorView>(
                        refusal("a body that broke off"@),
                    ),
                },
                None => taken == Err::<ProgressView, ErrorView>(refusal("a body that broke off"@)),
            }
        }),
{
}

/// A field of a table and the fields after it: a long string is its text, a
/// long is a signed number in decimal, a boolean is false where its octet is
/// zero and true where it is anything else, and nothing is no text.
pub proof fn law_fields_are_read(
    key: Seq<char>,
    text: Seq<char>,
    long: u32,
    truth: u8,
    tail: Seq<u8>,
)
    requires
        encode_utf8(key).len() <= 255,
        encode_utf8(text).len() <= u32::MAX,
    ensures
        ({
            let name = short_string_bytes(key);
            let with = |value: Seq<char>|
                match table_in(tail) {
                    Ok(pairs) => Ok::<Pairs, ErrorView>(seq![(key, value)] + pairs),
                    Err(error) => Err(error),
                };
            &&& table_in(name + (seq![0x53u8] + (long_string_bytes(encode_utf8(text)) + tail)))
                == with(text)
            &&& table_in(name + (seq![0x49u8] + (big_endian(long as nat, 4) + tail))) == with(
                signed_decimal(signed(long)),
            )
            &&& table_in(name + (seq![0x74u8] + (seq![truth] + tail))) == with(
                if truth == 0 {
                    "false"@
                } else {
                    "true"@
                },
            )
            &&& table_in(name + (seq![0x56u8] + tail)) == with(Seq::empty())
        }),
{
    let written = encode_utf8(text);
    lemma_field_is_read(key, 0x53, long_string_bytes(written) + tail);
    law_long_string_round_trips(written, tail);
    encode_utf8_valid_utf8(text);
    encode_utf8_decode_utf8(text);
    lemma_field_is_read(key, 0x49, big_endian(long as nat, 4) + tail);
    lemma_four(long as nat);
    lemma_capacities();
    law_number_round_trips(long as nat, 4);
    lemma_bytes_in_front(big_endian(long as nat, 4), tail);
    lemma_field_is_read(key, 0x74, seq![truth] + tail);
    lemma_bytes_in_front(seq![truth], tail);
    law_numbers_are_read(seq![truth]);
    assert(seq![truth].take(1) =~= seq![truth]);
    lemma_field_is_read(key, 0x56, tail);
    lemma_bytes_in_front(Seq::empty(), tail);
    lemma_nothing(tail);
    let none = Seq::<u8>::empty();
    assert(field_text(0x53, written) == Ok::<Seq<char>, ErrorView>(text));
    assert(field_text(0x49, big_endian(long as nat, 4)) == Ok::<Seq<char>, ErrorView>(
        signed_decimal(signed(long)),
    ));
    assert(field_text(0x74, seq![truth]) == Ok::<Seq<char>, ErrorView>(
        if truth == 0 {
            "false"@
        } else {
            "true"@
        },
    ));
    assert(field_text(0x56, none) == Ok::<Seq<char>, ErrorView>(Seq::empty()));
}

/// Octets at the front are the first so many.
proof fn lemma_bytes_in_front(front: Seq<u8>, tail: Seq<u8>)
    ensures
        bytes_in(front + tail, front.len()) == Ok::<(Seq<u8>, Seq<u8>), ErrorView>((front, tail)),
{
    assert((front + tail).take(front.len() as int) =~= front);
    assert((front + tail).skip(front.len() as int) =~= tail);
}

/// A table that starts with a key and a type is its first value and what
/// follows it.
proof fn lemma_field_is_read(key: Seq<char>, tag: u8, back: Seq<u8>)
    requires
        encode_utf8(key).len() <= 255,
    ensures
        table_in(short_string_bytes(key) + (seq![tag] + back)) == (match field_in(tag, back) {
            None => Ok::<Pairs, ErrorView>(Seq::empty()),
            Some(Err(error)) => Err(error),
            Some(Ok((value, rest))) => match field_text(tag, value) {
                Err(error) => Err(error),
                Ok(text) => match table_in(rest) {
                    Err(error) => Err(error),
                    Ok(pairs) => Ok(seq![(key, text)] + pairs),
                },
            },
        }),
{
    law_short_string_round_trips(key, seq![tag] + back);
    lemma_octet_reads_back(tag, back);
}

/// A field that holds a table is that table's own text, and fails where that
/// table does.
pub proof fn law_nested_tables_are_read(key: Seq<char>, inner: Seq<u8>, tail: Seq<u8>)
    requires
        encode_utf8(key).len() <= 255,
        inner.len() <= u32::MAX,
    ensures
        table_in(short_string_bytes(key) + (seq![0x46u8] + (long_string_bytes(inner) + tail))) == (
        match table_in(inner) {
            Err(error) => Err::<Pairs, ErrorView>(error),
            Ok(nested) => match table_in(tail) {
                Err(error) => Err(error),
                Ok(pairs) => Ok(seq![(key, debug_text(nested))] + pairs),
            },
        }),
{
    lemma_field_is_read(key, 0x46, long_string_bytes(inner) + tail);
    law_long_string_round_trips(inner, tail);
    let text = field_text(0x46, inner);
    assert(text == (match table_in(inner) {
        Ok(pairs) => Ok::<Seq<char>, ErrorView>(debug_text(pairs)),
        Err(error) => Err(error),
    }));
}

/// The arguments of the methods of a connection are read from the front, and
/// what follows them (a heartbeat, reserved fields, the method to blame) is
/// passed over.
pub proof fn law_connection_arguments_are_read(
    short: u16,
    long: u32,
    text: Seq<char>,
    rest: Seq<u8>,
)
    requires
        encode_utf8(text).len() <= 255,
    ensures
        tune_in(big_endian(short as nat, 2) + (big_endian(long as nat, 4) + rest)) == Ok::<
            (u16, u32),
            ErrorView,
        >((short, long)),
        virtual_host_in(short_string_bytes(text) + rest) == Ok::<Seq<char>, ErrorView>(text),
        tag_in(short_string_bytes(text) + rest) == Ok::<Seq<char>, ErrorView>(text),
        close_in(big_endian(short as nat, 2) + (short_string_bytes(text) + rest)) == Ok::<
            (u16, Seq<char>),
            ErrorView,
        >((short, text)),
        declare_ok_in(short_string_bytes(text) + (big_endian(long as nat, 4) + rest)) == Ok::<
            (Seq<char>, u32),
            ErrorView,
        >((text, long)),
{
    lemma_capacities();
    law_number_reads_back(short as nat, 2, big_endian(long as nat, 4) + rest);
    law_number_reads_back(long as nat, 4, rest);
    law_short_string_round_trips(text, rest);
    law_number_reads_back(short as nat, 2, short_string_bytes(text) + rest);
    law_short_string_round_trips(text, big_endian(long as nat, 4) + rest);
}

/// The arguments of the methods of queues and messages are read from the
/// front whatever the ticket, the bits and the table are.
pub proof fn law_queue_arguments_are_read(
    ticket: u16,
    tag: u64,
    first: Seq<char>,
    second: Seq<char>,
    rest: Seq<u8>,
)
    requires
        encode_utf8(first).len() <= 255,
        encode_utf8(second).len() <= 255,
    ensures
        ({
            let front = big_endian(ticket as nat, 2);
            let two = short_string_bytes(first) + (short_string_bytes(second) + rest);
            &&& queue_in(front + (short_string_bytes(first) + rest)) == Ok::<
                Seq<char>,
                ErrorView,
            >(first)
            &&& consume_in(front + two) == Ok::<(Seq<char>, Seq<char>), ErrorView>((first, second))
            &&& publish_in(front + two) == Ok::<(Seq<char>, Seq<char>), ErrorView>((first, second))
            &&& delivery_tag_in(big_endian(tag as nat, 8) + rest) == Ok::<u64, ErrorView>(tag)
        }),
{
    let two = short_string_bytes(first) + (short_string_bytes(second) + rest);
    lemma_capacities();
    law_number_reads_back(ticket as nat, 2, short_string_bytes(first) + rest);
    law_short_string_round_trips(first, rest);
    law_number_reads_back(ticket as nat, 2, two);
    law_short_string_round_trips(first, short_string_bytes(second) + rest);
    law_short_string_round_trips(second, rest);
    law_number_reads_back(tag as nat, 8, rest);
}

/// The arguments of basic.deliver are read whoever it is for, and whether or
/// not it is a redelivery.
#[verifier::spinoff_prover]
#[verifier::rlimit(60)]
pub proof fn law_deliver_arguments_are_read(
    consumer: Seq<char>,
    tag: u64,
    bits: u8,
    exchange: Seq<char>,
    routing_key: Seq<char>,
    rest: Seq<u8>,
)
    requires
        encode_utf8(consumer).len() <= 255,
        encode_utf8(exchange).len() <= 255,
        encode_utf8(routing_key).len() <= 255,
    ensures
        deliver_in(
            short_string_bytes(consumer) + (big_endian(tag as nat, 8) + (seq![bits] + (
            short_string_bytes(exchange) + (short_string_bytes(routing_key) + rest)))),
        ) == Ok::<(u64, Seq<char>, Seq<char>), ErrorView>((tag, exchange, routing_key)),
{
    let last = short_string_bytes(routing_key) + rest;
    let two = short_string_bytes(exchange) + last;
    let three = seq![bits] + two;
    lemma_capacities();
    law_short_string_round_trips(consumer, big_endian(tag as nat, 8) + three);
    law_number_reads_back(tag as nat, 8, three);
    lemma_octet_reads_back(bits, two);
    law_short_string_round_trips(exchange, last);
    law_short_string_round_trips(routing_key, rest);
}

/// Who a PLAIN response presents: the user stands between its first two NULs
/// and the password between its second and its third or its end, whatever
/// stands before the first; a part that is missing is empty.
pub proof fn law_plain_parts_stand_between_nuls(
    identity: Seq<char>,
    user: Seq<char>,
    password: Seq<char>,
    more: Seq<char>,
)
    requires
        !identity.contains('\0'),
        !user.contains('\0'),
        !password.contains('\0'),
    ensures
        ({
            let nul = seq!['\0'];
            &&& plain_login(identity + nul + (user + nul + password)) == (user, password)
            &&& plain_login(identity + nul + (user + nul + (password + nul + more))) == (
                user,
                password,
            )
            &&& plain_login(identity + nul + user) == (user, Seq::<char>::empty())
            &&& plain_login(identity) == (Seq::<char>::empty(), Seq::<char>::empty())
        }),
{
    let nul = seq!['\0'];
    lemma_cut(identity, '\0', user + nul + password);
    lemma_cut(user, '\0', password);
    lemma_uncut(password, '\0');
    lemma_cut(identity, '\0', user + nul + (password + nul + more));
    lemma_cut(user, '\0', password + nul + more);
    lemma_cut(password, '\0', more);
    lemma_cut(identity, '\0', user);
    lemma_uncut(user, '\0');
    lemma_uncut(identity, '\0');
}

/// A text with one mark after a part without any is cut there.
pub(crate) proof fn lemma_cut(front: Seq<char>, mark: char, back: Seq<char>)
    requires
        !front.contains(mark),
    ensures
        before(front + seq![mark] + back, mark) == front,
        after(front + seq![mark] + back, mark) == Some(back),
{
    let text = front + seq![mark] + back;
    let at = front.len() as int;
    assert forall|i: int| 0 <= i < at implies text[i] != mark by {
        assert(front.contains(front[i]));
    }
    assert(text[at] == mark);
    lemma_before(text, mark, at);
    assert(text.take(at) =~= front);
    assert(text.skip(at + 1) =~= back);
}

/// A text without a mark is not cut.
pub(crate) proof fn lemma_uncut(text: Seq<char>, mark: char)
    requires
        !text.contains(mark),
    ensures
        before(text, mark) == text,
        after(text, mark) is None,
{
    let at = text.len() as int;
    assert forall|i: int| 0 <= i < at implies text[i] != mark by {
        assert(text.contains(text[i]));
    }
    lemma_before(text, mark, at);
    assert(text.take(at) =~= text);
}

/// A login is read whatever the properties and the locale are, and only from
/// the mechanism `PLAIN`; any other is refused by name.
pub proof fn law_logins_are_read(
    properties: Seq<u8>,
    mechanism: Seq<char>,
    response: Seq<char>,
    rest: Seq<u8>,
)
    requires
        properties.len() <= u32::MAX,
        encode_utf8(mechanism).len() <= 255,
        encode_utf8(response).len() <= u32::MAX,
    ensures
        ({
            let arguments = long_string_bytes(properties) + (short_string_bytes(mechanism) + (
            long_string_bytes(encode_utf8(response)) + rest));
            if mechanism == "PLAIN"@ {
                login_in(arguments) == Ok::<(Seq<char>, Seq<char>), ErrorView>(
                    plain_login(response),
                )
            } else {
                login_in(arguments) == Err::<(Seq<char>, Seq<char>), ErrorView>(
                    ErrorView {
                        message: "a mechanism not spoken here: "@ + mechanism,
                        retryable: false,
                    },
                )
            }
        }),
{
    let said = long_string_bytes(encode_utf8(response)) + rest;
    law_long_string_round_trips(properties, short_string_bytes(mechanism) + said);
    law_short_string_round_trips(mechanism, said);
    law_long_string_round_trips(encode_utf8(response), rest);
    encode_utf8_valid_utf8(response);
    encode_utf8_decode_utf8(response);
}

/// What cannot be read is a permanent failure, whatever method it is the
/// arguments of.
pub proof fn law_unreadable_arguments_are_permanent(arguments: Seq<u8>)
    ensures
        login_in(arguments) matches Err(error) ==> !error.retryable,
        tune_in(arguments) matches Err(error) ==> !error.retryable,
        virtual_host_in(arguments) matches Err(error) ==> !error.retryable,
        close_in(arguments) matches Err(error) ==> !error.retryable,
        queue_in(arguments) matches Err(error) ==> !error.retryable,
        declare_ok_in(arguments) matches Err(error) ==> !error.retryable,
        consume_in(arguments) matches Err(error) ==> !error.retryable,
        tag_in(arguments) matches Err(error) ==> !error.retryable,
        publish_in(arguments) matches Err(error) ==> !error.retryable,
        deliver_in(arguments) matches Err(error) ==> !error.retryable,
        delivery_tag_in(arguments) matches Err(error) ==> !error.retryable,
{
}

/// Arguments are read exactly where each field is there: a tune's six octets;
/// a host's, a tag's and a declare-ok's text first; a close's, a declare's, a
/// consume's and a publish's text after two octets; an ack's eight.
pub proof fn law_arguments_are_read_where_they_are_whole(arguments: Seq<u8>)
    ensures
        ({
            let first = short_string_in(arguments);
            let after_two = arguments.skip(2);
            let named = short_string_in(after_two);
            let long_enough = arguments.len() >= 2 && named is Ok;
            let second = short_string_in(named->Ok_0.1);
            &&& tune_in(arguments) is Ok <==> arguments.len() >= 6
            &&& virtual_host_in(arguments) is Ok <==> first is Ok
            &&& virtual_host_in(arguments) matches Ok(text) ==> text == first->Ok_0.0
            &&& tag_in(arguments) is Ok <==> first is Ok
            &&& tag_in(arguments) matches Ok(text) ==> text == first->Ok_0.0
            &&& declare_ok_in(arguments) is Ok <==> first is Ok && first->Ok_0.1.len() >= 4
            &&& close_in(arguments) is Ok <==> long_enough
            &&& close_in(arguments) matches Ok(close) ==> close.1 == named->Ok_0.0
            &&& queue_in(arguments) is Ok <==> long_enough
            &&& queue_in(arguments) matches Ok(queue) ==> queue == named->Ok_0.0
            &&& consume_in(arguments) is Ok <==> long_enough && second is Ok
            &&& consume_in(arguments) matches Ok(both) ==> both.0 == named->Ok_0.0 && both.1
                == second->Ok_0.0
            &&& publish_in(arguments) is Ok <==> long_enough && second is Ok
            &&& publish_in(arguments) matches Ok(both) ==> both.0 == named->Ok_0.0 && both.1
                == second->Ok_0.0
            &&& delivery_tag_in(arguments) is Ok <==> arguments.len() >= 8
            &&& delivery_tag_in(arguments) matches Ok(tag) ==> tag == longlong_at(arguments, 0)
        }),
{
    law_numbers_are_read(arguments);
    if arguments.len() >= 2 {
        law_numbers_are_read(arguments.skip(2));
    }
    if let Ok((_, rest)) = short_string_in(arguments) {
        law_numbers_are_read(rest);
    }
    if arguments.len() >= 8 {
        lemma_eight_fit(arguments);
    }
}

/// Eight octets write no more than a longlong.
proof fn lemma_eight_fit(bytes: Seq<u8>)
    ensures
        0 <= longlong_at(bytes, 0) <= u64::MAX,
{
    assert(0 <= long_at(bytes, 0) <= u32::MAX);
    assert(0 <= long_at(bytes, 4) <= u32::MAX);
}

/// A table ends where its bytes do, and where a field's type is not one of
/// the five that are known: what follows is passed over. A long string that
/// is not text is refused.
pub proof fn law_tables_end(key: Seq<char>, tag: u8, back: Seq<u8>, value: Seq<u8>)
    requires
        encode_utf8(key).len() <= 255,
        tag != 0x53 && tag != 0x49 && tag != 0x74 && tag != 0x46 && tag != 0x56,
        value.len() <= u32::MAX,
        !valid_utf8(value),
    ensures
        table_in(Seq::empty()) == Ok::<Pairs, ErrorView>(Seq::empty()),
        table_in(short_string_bytes(key) + (seq![tag] + back)) == Ok::<Pairs, ErrorView>(
            Seq::empty(),
        ),
        table_in(short_string_bytes(key) + (seq![0x53u8] + (long_string_bytes(value) + back)))
            == Err::<Pairs, ErrorView>(refusal("a string that is not UTF-8"@)),
{
    lemma_field_is_read(key, tag, back);
    lemma_field_is_read(key, 0x53, long_string_bytes(value) + back);
    law_long_string_round_trips(value, back);
    assert(field_text(0x53, value) == Err::<Seq<char>, ErrorView>(
        refusal("a string that is not UTF-8"@),
    ));
}

/// A content is read frame by frame: where one makes it whole it is that
/// body, and where one leaves it short it is read on from what follows; bytes
/// that end between frames, and a frame that cannot be read, fail it.
pub proof fn law_contents_are_read_frame_by_frame(
    content: ContentView,
    frame: FrameView,
    rest: Seq<u8>,
    broken: Seq<u8>,
)
    requires
        frame.payload.len() <= MAX_FRAME,
        frame_in(broken) is Err,
    ensures
        ({
            let bytes = frame_bytes(frame) + rest;
            match content_takes(content, Some(frame)) {
                Ok(ProgressView::Whole(body)) => {
                    &&& content_in(content, bytes) == Ok::<Seq<u8>, ErrorView>(body)
                    &&& content_left(content, bytes) == rest
                },
                Ok(ProgressView::More(more)) => {
                    &&& content_in(content, bytes) == content_in(more, rest)
                    &&& content_left(content, bytes) == content_left(more, rest)
                },
                Err(error) => {
                    &&& content_in(content, bytes) == Err::<Seq<u8>, ErrorView>(error)
                    &&& content_left(content, bytes) == rest
                },
            }
        }),
        content_takes(content, None) matches Err(error) && content_in(content, Seq::empty())
            == Err::<Seq<u8>, ErrorView>(error),
        content_in(content, broken) == Err::<Seq<u8>, ErrorView>(frame_in(broken)->Err_0),
{
    law_frame_round_trips(frame, rest);
}

/// What is left unread of a frame that was refused: nothing where it was not
/// whole, all after its seven octets where those are refused, and all after
/// the frame where its last octet is wrong.
pub proof fn law_refused_frames_leave_the_rest(bytes: Seq<u8>)
    requires
        frame_in(bytes) is Err,
    ensures
        ({
            let size = long_at(bytes, 3);
            let known = bytes[0] == 1 || bytes[0] == 2 || bytes[0] == 3 || bytes[0] == 8;
            if bytes.len() < 7 {
                refused_left(bytes).len() == 0
            } else if !known || size > 0x10_0000 {
                refused_left(bytes) == bytes.skip(7)
            } else if bytes.len() < 8 + size {
                refused_left(bytes).len() == 0
            } else {
                refused_left(bytes) == bytes.skip(8 + size)
            }
        }),
{
    if bytes.len() >= 7 {
        lemma_number_of_two(bytes.take(7).subrange(1, 3));
        lemma_number_of_four(bytes.take(7).subrange(3, 7));
    }
}

} // verus!
