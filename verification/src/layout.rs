//! How methods and content headers are laid out: which octet of each says
//! what, for everything a client and a session say.

use vstd::prelude::*;
use vstd::string::*;
use vstd::utf8::{encode_utf8, is_ascii_chars_encode_utf8};

use crate::content::{header_payload, lemma_header_length, CLASS_BASIC, PERSISTENT, PROPERTY_FLAGS};
use crate::method::{
    ack_method, bare_of, channel_open_method, channel_open_ok_method, close_method, consume_method,
    consume_ok_method, declare_method, declare_ok_method, deliver_method, fields_bytes,
    frame_of_method, frameable, label_of, lemma_properties, lemma_start_length, method_bytes,
    open_method, open_ok_method, plain_response, properties, publish_method, sayable, start_method,
    start_ok_method, tune_method, MethodView, BASIC_ACK, BASIC_CONSUME, BASIC_CONSUME_OK,
    BASIC_DELIVER, BASIC_PUBLISH, CHANNEL_CLOSE, CHANNEL_CLOSE_OK, CHANNEL_OPEN, CHANNEL_OPEN_OK,
    CONNECTION_CLOSE, CONNECTION_CLOSE_OK, CONNECTION_OPEN, CONNECTION_OPEN_OK, CONNECTION_START,
    CONNECTION_START_OK, CONNECTION_TUNE, CONNECTION_TUNE_OK, DURABLE, QUEUE_DECLARE,
    QUEUE_DECLARE_OK,
};
use crate::octets::{
    digits_read, law_decimals_are_their_digits, law_frames_are_their_octets,
    law_long_strings_are_their_octets, law_short_strings_are_their_octets, lemma_eight, lemma_four,
    lemma_two, long_at, longlong_at, short_at, text_at, text_length,
};
use crate::text::decimal;
use crate::wire::{
    big_endian, lemma_five_grouped, lemma_nothing, lemma_width, long_string_bytes,
    short_string_bytes, FIELD_LONG_STRING,
};

verus! {

/// The class and method numbers that AMQP 0-9-1 gives the methods spoken
/// here.
pub proof fn law_methods_have_their_numbers()
    ensures
        CONNECTION_START == (10u16, 10u16),
        CONNECTION_START_OK == (10u16, 11u16),
        CONNECTION_TUNE == (10u16, 30u16),
        CONNECTION_TUNE_OK == (10u16, 31u16),
        CONNECTION_OPEN == (10u16, 40u16),
        CONNECTION_OPEN_OK == (10u16, 41u16),
        CONNECTION_CLOSE == (10u16, 50u16),
        CONNECTION_CLOSE_OK == (10u16, 51u16),
        CHANNEL_OPEN == (20u16, 10u16),
        CHANNEL_OPEN_OK == (20u16, 11u16),
        CHANNEL_CLOSE == (20u16, 40u16),
        CHANNEL_CLOSE_OK == (20u16, 41u16),
        QUEUE_DECLARE == (50u16, 10u16),
        QUEUE_DECLARE_OK == (50u16, 11u16),
        BASIC_CONSUME == (60u16, 20u16),
        BASIC_CONSUME_OK == (60u16, 21u16),
        BASIC_PUBLISH == (60u16, 40u16),
        BASIC_DELIVER == (60u16, 60u16),
        BASIC_ACK == (60u16, 80u16),
{
}

/// Whether `bytes` are one method frame on `channel`: type 1, the channel,
/// the length, the class and the method, the arguments, `0xCE`, and nothing
/// more.
pub open spec fn one_method(
    bytes: Seq<u8>,
    channel: u16,
    class: u16,
    method: u16,
    arguments: Seq<u8>,
) -> bool {
    let length = arguments.len() as int;
    &&& bytes.len() == length + 12
    &&& bytes[0] == 1
    &&& short_at(bytes, 1) == channel
    &&& long_at(bytes, 3) == length + 4
    &&& short_at(bytes, 7) == class
    &&& short_at(bytes, 9) == method
    &&& bytes.subrange(11, 11 + length) == arguments
    &&& bytes[11 + length] == 0xCE
}

/// A method is written as one method frame that names it and carries its
/// arguments.
pub proof fn law_methods_are_their_octets(method: MethodView, channel: u16)
    requires
        sayable(method),
    ensures
        one_method(
            method_bytes(method, channel),
            channel,
            method.id.0,
            method.id.1,
            method.arguments,
        ),
{
    let frame = frame_of_method(method, channel);
    let bytes = method_bytes(method, channel);
    let class = big_endian(method.id.0 as nat, 2);
    let number = big_endian(method.id.1 as nat, 2);
    lemma_two(method.id.0 as nat);
    lemma_two(method.id.1 as nat);
    law_frames_are_their_octets(frame);
    let payload = bytes.subrange(7, 7 + frame.payload.len() as int);
    assert(payload[0] == class[0] && payload[1] == class[1]);
    assert(payload[2] == number[0] && payload[3] == number[1]);
    assert(bytes[7] == payload[0] && bytes[8] == payload[1]);
    assert(bytes[9] == payload[2] && bytes[10] == payload[3]);
    assert(bytes.subrange(11, 11 + method.arguments.len() as int) =~= payload.skip(4));
    assert(payload.skip(4) =~= method.arguments);
}

/// A text between two parts stands where the first ends, and the second
/// where the text ends.
proof fn lemma_text_between(front: Seq<u8>, text: Seq<char>, back: Seq<u8>)
    ensures
        ({
            let all = front + short_string_bytes(text) + back;
            &&& text_at(all, front.len() as int, text)
            &&& all.len() == front.len() + 1 + text_length(text) + back.len()
            &&& all.take(front.len() as int) == front
            &&& all.skip(front.len() + 1 + text_length(text)) == back
        }),
{
    let all = front + short_string_bytes(text) + back;
    let at = front.len() as int;
    let length = text_length(text);
    law_short_strings_are_their_octets(text);
    assert(all.subrange(at + 1, at + 1 + length) =~= short_string_bytes(text).subrange(
        1,
        1 + length,
    ));
    assert(all[at] == short_string_bytes(text)[0]);
    assert(all.take(at) =~= front);
    assert(all.skip(at + 1 + length) =~= back);
}

/// connection.tune and connection.tune-ok: the channel limit, the frame
/// limit, and no heartbeat.
pub proof fn law_tune_is_laid_out(id: (u16, u16), channel_max: u16, frame_max: u32)
    ensures
        ({
            let octets = tune_method(id, channel_max, frame_max).arguments;
            &&& tune_method(id, channel_max, frame_max).id == id
            &&& octets.len() == 8
            &&& short_at(octets, 0) == channel_max
            &&& long_at(octets, 2) == frame_max
            &&& short_at(octets, 6) == 0
        }),
{
    let octets = tune_method(id, channel_max, frame_max).arguments;
    let first = big_endian(channel_max as nat, 2);
    let second = big_endian(frame_max as nat, 4);
    let third = big_endian(0, 2);
    lemma_two(channel_max as nat);
    lemma_four(frame_max as nat);
    lemma_two(0);
    assert(octets[0] == first[0] && octets[1] == first[1]);
    assert(octets[2] == second[0] && octets[3] == second[1]);
    assert(octets[4] == second[2] && octets[5] == second[3]);
    assert(octets[6] == third[0] && octets[7] == third[1]);
}

/// connection.open: the virtual host, and the two fields that are kept
/// empty. connection.open-ok, channel.open and channel.open-ok: an empty
/// field.
pub proof fn law_open_is_laid_out(virtual_host: Seq<char>)
    ensures
        ({
            let octets = open_method(virtual_host).arguments;
            let end = 1 + text_length(virtual_host);
            &&& open_method(virtual_host).id == (10u16, 40u16)
            &&& text_at(octets, 0, virtual_host)
            &&& octets.skip(end) == seq![0u8, 0u8]
        }),
        open_ok_method().id == (10u16, 41u16),
        open_ok_method().arguments == seq![0u8],
        channel_open_method().id == (20u16, 10u16),
        channel_open_method().arguments == seq![0u8],
        channel_open_ok_method().id == (20u16, 11u16),
        channel_open_ok_method().arguments == seq![0u8, 0u8, 0u8, 0u8],
{
    let nothing = Seq::<char>::empty();
    is_ascii_chars_encode_utf8(nothing);
    law_short_strings_are_their_octets(nothing);
    let empty = short_string_bytes(nothing);
    assert(empty =~= seq![0u8]);
    lemma_text_between(Seq::empty(), virtual_host, empty + seq![0u8]);
    assert(Seq::<u8>::empty() + short_string_bytes(virtual_host) + (empty + seq![0u8])
        =~= open_method(virtual_host).arguments);
    assert(empty + seq![0u8] =~= seq![0u8, 0u8]);
    lemma_four(0);
    assert(channel_open_ok_method().arguments =~= seq![0u8, 0u8, 0u8, 0u8]);
}

/// A close: its code, its text, and no method to blame.
pub proof fn law_close_is_laid_out(id: (u16, u16), code: u16, text: Seq<char>)
    ensures
        ({
            let octets = close_method(id, code, text).arguments;
            &&& close_method(id, code, text).id == id
            &&& short_at(octets, 0) == code
            &&& text_at(octets, 2, text)
            &&& octets.skip(3 + text_length(text)) == seq![0u8, 0u8, 0u8, 0u8]
        }),
{
    let octets = close_method(id, code, text).arguments;
    let front = big_endian(code as nat, 2);
    let zero = big_endian(0, 2);
    lemma_two(code as nat);
    lemma_two(0);
    lemma_text_between(front, text, zero + zero);
    assert(front + short_string_bytes(text) + (zero + zero) =~= octets);
    assert(octets.take(2)[0] == octets[0] && octets.take(2)[1] == octets[1]);
    assert(zero + zero =~= seq![0u8, 0u8, 0u8, 0u8]);
}

/// queue.declare: no ticket, the queue, the durable bit alone, and an empty
/// table.
pub proof fn law_declare_is_laid_out(queue: Seq<char>)
    ensures
        ({
            let octets = declare_method(queue).arguments;
            &&& declare_method(queue).id == (50u16, 10u16)
            &&& short_at(octets, 0) == 0
            &&& text_at(octets, 2, queue)
            &&& octets.skip(3 + text_length(queue)) == seq![2u8, 0u8, 0u8, 0u8, 0u8]
        }),
{
    let octets = declare_method(queue).arguments;
    let front = big_endian(0, 2);
    let table = big_endian(0, 4);
    let back = seq![DURABLE] + table;
    lemma_two(0);
    lemma_four(0);
    lemma_text_between(front, queue, back);
    assert(front + short_string_bytes(queue) + back =~= octets);
    assert(octets.take(2)[0] == octets[0] && octets.take(2)[1] == octets[1]);
    assert(back =~= seq![2u8, 0u8, 0u8, 0u8, 0u8]);
}

/// queue.declare-ok: the queue, how many messages it holds, and no
/// consumers.
pub proof fn law_declare_ok_is_laid_out(queue: Seq<char>, messages: u32)
    ensures
        ({
            let octets = declare_ok_method(queue, messages).arguments;
            let end = 1 + text_length(queue);
            &&& declare_ok_method(queue, messages).id == (50u16, 11u16)
            &&& text_at(octets, 0, queue)
            &&& octets.len() == end + 8
            &&& long_at(octets, end) == messages
            &&& long_at(octets, end + 4) == 0
        }),
{
    let octets = declare_ok_method(queue, messages).arguments;
    let end = 1 + text_length(queue);
    let count = big_endian(messages as nat, 4);
    let none = big_endian(0, 4);
    lemma_four(messages as nat);
    lemma_four(0);
    lemma_text_between(Seq::empty(), queue, count + none);
    assert(Seq::<u8>::empty() + short_string_bytes(queue) + (count + none) =~= octets);
    let back = octets.skip(end);
    assert forall|i: int| 0 <= i < 8 implies octets[end + i] == #[trigger] back[i] by {}
    assert(back[0] == count[0] && back[1] == count[1] && back[2] == count[2] && back[3]
        == count[3]);
    assert(back[4] == none[0] && back[5] == none[1] && back[6] == none[2] && back[7] == none[3]);
}

/// basic.consume: no ticket, the queue, the consumer tag, no bit set (so
/// each delivery is acknowledged by the consumer), and an empty table; for
/// every tag, the empty one too.
pub proof fn law_consume_is_laid_out(queue: Seq<char>, tag: Seq<char>)
    ensures
        ({
            let octets = consume_method(queue, tag).arguments;
            let middle = 3 + text_length(queue);
            &&& consume_method(queue, tag).id == (60u16, 20u16)
            &&& short_at(octets, 0) == 0
            &&& text_at(octets, 2, queue)
            &&& text_at(octets, middle, tag)
            &&& octets.skip(middle + 1 + text_length(tag)) == seq![0u8, 0u8, 0u8, 0u8, 0u8]
        }),
{
    let octets = consume_method(queue, tag).arguments;
    let front = big_endian(0, 2);
    let back = seq![0u8] + big_endian(0, 4);
    let named = short_string_bytes(queue);
    lemma_two(0);
    lemma_four(0);
    law_short_strings_are_their_octets(queue);
    lemma_text_between(front, queue, short_string_bytes(tag) + back);
    assert(front + named + (short_string_bytes(tag) + back) =~= octets);
    lemma_text_between(front + named, tag, back);
    assert((front + named) + short_string_bytes(tag) + back =~= octets);
    assert(octets.take(2)[0] == octets[0] && octets.take(2)[1] == octets[1]);
    assert(back =~= seq![0u8, 0u8, 0u8, 0u8, 0u8]);
}

/// basic.consume-ok: the consumer tag.
pub proof fn law_consume_ok_is_laid_out(tag: Seq<char>)
    ensures
        consume_ok_method(tag).id == (60u16, 21u16),
        text_at(consume_ok_method(tag).arguments, 0, tag),
        consume_ok_method(tag).arguments.len() == 1 + text_length(tag),
{
    law_short_strings_are_their_octets(tag);
}

/// basic.publish: no ticket, the exchange, the routing key, and no bit set,
/// neither mandatory nor immediate.
pub proof fn law_publish_is_laid_out(exchange: Seq<char>, routing_key: Seq<char>)
    ensures
        ({
            let octets = publish_method(exchange, routing_key).arguments;
            let middle = 3 + text_length(exchange);
            &&& publish_method(exchange, routing_key).id == (60u16, 40u16)
            &&& short_at(octets, 0) == 0
            &&& text_at(octets, 2, exchange)
            &&& text_at(octets, middle, routing_key)
            &&& octets.skip(middle + 1 + text_length(routing_key)) == seq![0u8]
        }),
{
    let octets = publish_method(exchange, routing_key).arguments;
    let front = big_endian(0, 2);
    let back = seq![0u8];
    let named = short_string_bytes(exchange);
    lemma_two(0);
    law_short_strings_are_their_octets(exchange);
    lemma_text_between(front, exchange, short_string_bytes(routing_key) + back);
    assert(front + named + (short_string_bytes(routing_key) + back) =~= octets);
    lemma_text_between(front + named, routing_key, back);
    assert((front + named) + short_string_bytes(routing_key) + back =~= octets);
    assert(octets.take(2)[0] == octets[0] && octets.take(2)[1] == octets[1]);
}

/// basic.deliver: the consumer tag, the delivery tag, not redelivered, the
/// exchange, and the routing key.
pub proof fn law_deliver_is_laid_out(
    tag: Seq<char>,
    delivery_tag: u64,
    exchange: Seq<char>,
    routing_key: Seq<char>,
)
    ensures
        ({
            let method = deliver_method(tag, delivery_tag, exchange, routing_key);
            let octets = method.arguments;
            let at = 1 + text_length(tag);
            let last = at + 10 + text_length(exchange);
            &&& method.id == (60u16, 60u16)
            &&& text_at(octets, 0, tag)
            &&& longlong_at(octets, at) == delivery_tag
            &&& octets[at + 8] == 0
            &&& text_at(octets, at + 9, exchange)
            &&& text_at(octets, last, routing_key)
            &&& octets.len() == last + 1 + text_length(routing_key)
        }),
{
    let octets = deliver_method(tag, delivery_tag, exchange, routing_key).arguments;
    let at = 1 + text_length(tag);
    let consumer = short_string_bytes(tag);
    let number = big_endian(delivery_tag as nat, 8);
    let fresh = seq![0u8];
    let through = short_string_bytes(exchange);
    let key = short_string_bytes(routing_key);
    lemma_eight(delivery_tag as nat);
    law_short_strings_are_their_octets(tag);
    law_short_strings_are_their_octets(exchange);
    lemma_deliver_groups(consumer, number, fresh, through, key);
    lemma_text_between(Seq::empty(), tag, number + (fresh + (through + key)));
    lemma_text_between(consumer + number + fresh, exchange, key);
    lemma_text_between(consumer + number + fresh + through, routing_key, Seq::empty());
    let back = octets.skip(at);
    assert(back == number + (fresh + (through + key)));
    lemma_front_of(number, fresh + (through + key), octets, at);
    assert(octets[at + 8] == back[8]);
}

/// The parts of a basic.deliver, however they are grouped.
proof fn lemma_deliver_groups(a: Seq<u8>, b: Seq<u8>, c: Seq<u8>, d: Seq<u8>, e: Seq<u8>)
    ensures
        a + b + c + d + e == Seq::<u8>::empty() + a + (b + (c + (d + e))),
        a + b + c + d + e == (a + b + c + d) + e + Seq::<u8>::empty(),
{
    lemma_five_grouped(a, b, c, d, e);
    lemma_nothing(a);
    lemma_nothing((a + b + c + d) + e);
}

/// Eight octets that stand at `at` write the number they write.
proof fn lemma_front_of(number: Seq<u8>, rest: Seq<u8>, all: Seq<u8>, at: int)
    requires
        number.len() == 8,
        0 <= at <= all.len(),
        all.skip(at) == number + rest,
    ensures
        longlong_at(all, at) == longlong_at(number, 0),
{
    let back = all.skip(at);
    assert(back.len() == number.len() + rest.len());
    assert forall|i: int| 0 <= i < 8 implies all[at + i] == #[trigger] number[i] by {
        assert(all[at + i] == back[i]);
    }
    assert(all[at + 0] == number[0] && all[at + 1] == number[1] && all[at + 2] == number[2]
        && all[at + 3] == number[3]);
    assert(all[at + 4] == number[4] && all[at + 4 + 1] == number[5] && all[at + 4 + 2]
        == number[6] && all[at + 4 + 3] == number[7]);
}

/// basic.ack: the delivery tag, and the multiple bit not set, so it is that
/// delivery and no other.
pub proof fn law_ack_is_laid_out(delivery_tag: u64)
    ensures
        ({
            let octets = ack_method(delivery_tag).arguments;
            &&& ack_method(delivery_tag).id == (60u16, 80u16)
            &&& octets.len() == 9
            &&& longlong_at(octets, 0) == delivery_tag
            &&& octets[8] == 0
        }),
{
    let octets = ack_method(delivery_tag).arguments;
    lemma_eight(delivery_tag as nat);
    assert(octets.skip(0) =~= big_endian(delivery_tag as nat, 8) + seq![0u8]);
    lemma_front_of(big_endian(delivery_tag as nat, 8), seq![0u8], octets, 0);
}

/// A method with no arguments has none.
pub proof fn law_bare_methods_are_bare(id: (u16, u16))
    ensures
        bare_of(id).id == id,
        bare_of(id).arguments.len() == 0,
{
}

/// The PLAIN response: one NUL, the user, one NUL, and the password to the
/// end.
pub proof fn law_plain_response_is_two_nuls(user: Seq<char>, password: Seq<char>)
    ensures
        ({
            let response = plain_response(user, password);
            let second = 1 + user.len() as int;
            &&& response.len() == user.len() + password.len() + 2
            &&& response[0] == '\0'
            &&& response.subrange(1, second) == user
            &&& response[second] == '\0'
            &&& response.skip(second + 1) == password
        }),
{
    let response = plain_response(user, password);
    let second = 1 + user.len() as int;
    assert(response.subrange(1, second) =~= user);
    assert(response.skip(second + 1) =~= password);
}

/// How long the fixed texts of the handshake are.
proof fn lemma_fixed_texts()
    ensures
        encode_utf8("product"@).len() == 7,
        encode_utf8("xmip"@).len() == 4,
        encode_utf8("PLAIN"@).len() == 5,
        encode_utf8("en_US"@).len() == 5,
{
    reveal_strlit("product");
    reveal_strlit("xmip");
    reveal_strlit("PLAIN");
    reveal_strlit("en_US");
    is_ascii_chars_encode_utf8("product"@);
    is_ascii_chars_encode_utf8("xmip"@);
    is_ascii_chars_encode_utf8("PLAIN"@);
    is_ascii_chars_encode_utf8("en_US"@);
}

/// The table of properties each side presents: one field, named `product`,
/// whose value is the long string `xmip`.
pub proof fn law_properties_are_laid_out()
    ensures
        ({
            let octets = fields_bytes(properties());
            &&& octets.len() == 17
            &&& text_at(octets, 0, "product"@)
            &&& octets[8] == 0x53
            &&& long_at(octets, 9) == 4
            &&& octets.skip(13) == encode_utf8("xmip"@)
        }),
{
    let octets = fields_bytes(properties());
    let value = long_string_bytes(encode_utf8("xmip"@));
    let key = short_string_bytes("product"@);
    lemma_fixed_texts();
    reveal_with_fuel(fields_bytes, 2);
    assert(properties().drop_last() =~= Seq::empty());
    law_long_strings_are_their_octets(encode_utf8("xmip"@));
    lemma_text_between(Seq::empty(), "product"@, seq![FIELD_LONG_STRING] + value);
    assert(octets =~= Seq::<u8>::empty() + key + (seq![FIELD_LONG_STRING] + value));
    let back = octets.skip(8);
    assert(octets[8] == back[0]);
    assert forall|i: int| 0 <= i < 8 implies octets[9 + i] == #[trigger] value[i] by {
        assert(octets[9 + i] == back[1 + i]);
    }
    assert(octets[9] == value[0] && octets[10] == value[1] && octets[11] == value[2]
        && octets[12] == value[3]);
    assert(octets.skip(13) =~= value.skip(4));
}

/// connection.start: version 0-9, the table of properties, the mechanism
/// `PLAIN` and the locale `en_US`, each a long string.
pub proof fn law_start_is_laid_out()
    ensures
        ({
            let octets = start_method().arguments;
            &&& start_method().id == (10u16, 10u16)
            &&& octets.len() == 41
            &&& octets[0] == 0
            &&& octets[1] == 9
            &&& long_at(octets, 2) == 17
            &&& octets.subrange(6, 23) == fields_bytes(properties())
            &&& long_at(octets, 23) == 5
            &&& octets.subrange(27, 32) == encode_utf8("PLAIN"@)
            &&& long_at(octets, 32) == 5
            &&& octets.skip(36) == encode_utf8("en_US"@)
        }),
{
    let octets = start_method().arguments;
    let table = long_string_bytes(fields_bytes(properties()));
    let mechanism = long_string_bytes(encode_utf8("PLAIN"@));
    let locale = long_string_bytes(encode_utf8("en_US"@));
    lemma_fixed_texts();
    lemma_properties();
    law_long_strings_are_their_octets(fields_bytes(properties()));
    law_long_strings_are_their_octets(encode_utf8("PLAIN"@));
    law_long_strings_are_their_octets(encode_utf8("en_US"@));
    assert(octets.subrange(2, 23) =~= table);
    assert(octets[2] == table[0] && octets[3] == table[1] && octets[4] == table[2] && octets[5]
        == table[3]);
    assert(octets.subrange(6, 23) =~= table.skip(4));
    assert(octets[23] == mechanism[0] && octets[24] == mechanism[1] && octets[25] == mechanism[2]
        && octets[26] == mechanism[3]);
    assert(octets.subrange(27, 32) =~= mechanism.skip(4));
    assert(octets[32] == locale[0] && octets[33] == locale[1] && octets[34] == locale[2]
        && octets[35] == locale[3]);
    assert(octets.skip(36) =~= locale.skip(4));
}

/// connection.start-ok: the table of properties, the mechanism `PLAIN`, the
/// response (one NUL, the user, one NUL and the password in UTF-8, to the
/// octet), and the locale `en_US`.
pub proof fn law_start_ok_is_laid_out(user: Seq<char>, password: Seq<char>)
    requires
        frameable(user, password),
    ensures
        ({
            let octets = start_ok_method(user, password).arguments;
            let response = encode_utf8(seq!['\0'] + user + seq!['\0'] + password);
            let end = 31 + response.len() as int;
            &&& start_ok_method(user, password).id == (10u16, 11u16)
            &&& long_at(octets, 0) == 17
            &&& octets.subrange(4, 21) == fields_bytes(properties())
            &&& text_at(octets, 21, "PLAIN"@)
            &&& long_at(octets, 27) == response.len()
            &&& octets.subrange(31, end) == response
            &&& text_at(octets, end, "en_US"@)
            &&& octets.len() == end + 6
        }),
{
    let octets = start_ok_method(user, password).arguments;
    let text = seq!['\0'] + user + seq!['\0'] + password;
    let response = encode_utf8(text);
    law_plain_response_is_two_nuls(user, password);
    assert(plain_response(user, password) =~= text);
    let table = long_string_bytes(fields_bytes(properties()));
    let mechanism = short_string_bytes("PLAIN"@);
    let said = long_string_bytes(response);
    let locale = short_string_bytes("en_US"@);
    lemma_fixed_texts();
    lemma_properties();
    law_long_strings_are_their_octets(fields_bytes(properties()));
    law_long_strings_are_their_octets(response);
    law_short_strings_are_their_octets("PLAIN"@);
    law_short_strings_are_their_octets("en_US"@);
    lemma_text_between(table, "PLAIN"@, said + locale);
    assert(table + mechanism + (said + locale) =~= octets);
    lemma_text_between(table + mechanism + said, "en_US"@, Seq::empty());
    assert((table + mechanism + said) + locale + Seq::<u8>::empty() =~= octets);
    assert(octets[0] == table[0] && octets[1] == table[1] && octets[2] == table[2] && octets[3]
        == table[3]);
    assert(octets.subrange(4, 21) =~= table.skip(4));
    assert(octets[27] == said[0] && octets[28] == said[1] && octets[29] == said[2] && octets[30]
        == said[3]);
    assert(octets.subrange(31, 31 + response.len() as int) =~= said.skip(4));
}

/// A login can be framed exactly where connection.start-ok with it is no
/// longer than a frame counts.
pub proof fn law_frameable_logins_fit_a_frame(user: Seq<char>, password: Seq<char>)
    ensures
        frameable(user, password) <==> frame_of_method(
            start_ok_method(user, password),
            0,
        ).payload.len() <= 0xFFFF_FFFF,
{
    lemma_start_length(user, password);
    lemma_width(start_ok_method(user, password).id.0 as nat, 2);
    lemma_width(start_ok_method(user, password).id.1 as nat, 2);
}

/// A content header: class 60, no weight, how long the body is, content-type
/// and delivery-mode and nothing else, `application/octet-stream`, and mode
/// 2, which persists.
pub proof fn law_headers_are_laid_out(length: nat)
    requires
        length <= u64::MAX,
    ensures
        ({
            let octets = header_payload(length);
            &&& octets.len() == 40
            &&& short_at(octets, 0) == 60
            &&& short_at(octets, 2) == 0
            &&& longlong_at(octets, 4) == length
            &&& octets[12] == 0x90
            &&& octets[13] == 0
            &&& text_at(octets, 14, "application/octet-stream"@)
            &&& octets[39] == 2
        }),
{
    let octets = header_payload(length);
    let class = big_endian(CLASS_BASIC as nat, 2);
    let weight = big_endian(0, 2);
    let size = big_endian(length, 8);
    let flags = big_endian(PROPERTY_FLAGS as nat, 2);
    let kind = short_string_bytes("application/octet-stream"@);
    let mode = seq![PERSISTENT];
    lemma_two(CLASS_BASIC as nat);
    lemma_two(0);
    lemma_eight(length);
    lemma_two(PROPERTY_FLAGS as nat);
    reveal_strlit("application/octet-stream");
    is_ascii_chars_encode_utf8("application/octet-stream"@);
    lemma_header_length(length);
    lemma_text_between(class + weight + size + flags, "application/octet-stream"@, mode);
    assert(octets[0] == class[0] && octets[1] == class[1]);
    assert(octets[2] == weight[0] && octets[3] == weight[1]);
    assert(octets.skip(4) =~= size + (flags + kind + mode));
    lemma_front_of(size, flags + kind + mode, octets, 4);
    assert(octets[12] == flags[0] && octets[13] == flags[1]);
}

/// A method's label is its class in decimal, a dot, and its number in
/// decimal.
pub proof fn law_labels_name_both_numbers(id: (u16, u16))
    ensures
        ({
            let label = label_of(id);
            let dot = decimal(id.0 as nat).len() as int;
            &&& label[dot] == '.'
            &&& digits_read(label.take(dot)) == id.0
            &&& digits_read(label.skip(dot + 1)) == id.1
        }),
{
    let label = label_of(id);
    let class = decimal(id.0 as nat);
    reveal_strlit(".");
    law_decimals_are_their_digits(id.0 as nat);
    law_decimals_are_their_digits(id.1 as nat);
    assert(label.take(class.len() as int) =~= class);
    assert(label.skip(class.len() as int + 1) =~= decimal(id.1 as nat));
}

} // verus!
