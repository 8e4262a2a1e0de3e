//! The methods a queue needs: their class and method ids, and the
//! arguments each is written and read with. The content a publish or a
//! delivery carries after its method is `content`.
//!
//! Connection start, start-ok, tune, tune-ok, open, open-ok, close and
//! close-ok; channel open, open-ok, close and close-ok; queue declare and
//! declare-ok; basic consume, consume-ok, publish, deliver and ack. That is
//! the whole of what a Location that declares, publishes, consumes and
//! acknowledges says and hears. Exchanges, bindings, transactions and
//! publisher confirms are not here.
//!
//! Bits pack eight to an octet in the order a method lists them; no method
//! here has more than five in a row, so every bit field is one octet.

use vstd::prelude::*;
use vstd::slice::slice_to_vec;
use vstd::string::*;
use vstd::utf8::{
    encode_utf8, encode_utf8_decode_utf8, encode_utf8_valid_utf8, is_ascii_chars_encode_utf8,
};

use crate::error::{protocol_error, refusal, seen, Error, ErrorView};
use crate::text::{
    after, before, cut, decimal, decimal_of, lemma_before, lenient, lenient_text, same,
};
use crate::wire::{
    big_endian, field_text, frame_bytes, frame_in, law_frame_round_trips,
    law_long_string_round_trips, law_number_reads_back, law_short_string_round_trips,
    lemma_capacities, lemma_five_grouped, lemma_nothing, lemma_octet_reads_back,
    lemma_short_string_length, lemma_width, long_string_bytes, long_string_in, number_in, preceded,
    put_bytes, put_empty_table, put_long, put_long_string, put_longlong, put_octet, put_short,
    put_short_string, short_string_bytes, short_string_in, table_in, Frame, FrameView, Kind, Pairs,
    Reader, FIELD_LONG_STRING, MAX_FRAME,
};

verus! {

/// A class id and a method id, as every method frame opens.
pub type Id = (u16, u16);

pub const CONNECTION_START: Id = (10, 10);

pub const CONNECTION_START_OK: Id = (10, 11);

pub const CONNECTION_TUNE: Id = (10, 30);

pub const CONNECTION_TUNE_OK: Id = (10, 31);

pub const CONNECTION_OPEN: Id = (10, 40);

pub const CONNECTION_OPEN_OK: Id = (10, 41);

pub const CONNECTION_CLOSE: Id = (10, 50);

pub const CONNECTION_CLOSE_OK: Id = (10, 51);

pub const CHANNEL_OPEN: Id = (20, 10);

pub const CHANNEL_OPEN_OK: Id = (20, 11);

pub const CHANNEL_CLOSE: Id = (20, 40);

pub const CHANNEL_CLOSE_OK: Id = (20, 41);

pub const QUEUE_DECLARE: Id = (50, 10);

pub const QUEUE_DECLARE_OK: Id = (50, 11);

pub const BASIC_CONSUME: Id = (60, 20);

pub const BASIC_CONSUME_OK: Id = (60, 21);

pub const BASIC_PUBLISH: Id = (60, 40);

pub const BASIC_DELIVER: Id = (60, 60);

pub const BASIC_ACK: Id = (60, 80);

/// queue.declare's bits (passive, durable, exclusive, auto-delete,
/// no-wait) with durable set.
pub const DURABLE: u8 = 2;

/// One method: which, and its arguments as written.
#[derive(Debug, PartialEq, Eq)]
pub struct Method {
    pub id: Id,
    pub arguments: Vec<u8>,
}

/// A [`Method`] as contracts speak of it.
pub struct MethodView {
    pub id: Id,
    pub arguments: Seq<u8>,
}

impl View for Method {
    type V = MethodView;

    open spec fn view(&self) -> MethodView {
        MethodView { id: self.id, arguments: self.arguments@ }
    }
}

impl Clone for Method {
    fn clone(&self) -> (method: Self)
        ensures
            method@ == self@,
    {
        Method { id: (self.id.0, self.id.1), arguments: slice_to_vec(self.arguments.as_slice()) }
    }
}

/// A method with no arguments.
pub open spec fn bare_of(id: Id) -> MethodView {
    MethodView { id, arguments: Seq::empty() }
}

/// A method as the frame that carries it on `channel`.
pub open spec fn frame_of_method(method: MethodView, channel: u16) -> FrameView {
    FrameView {
        kind: Kind::Method,
        channel,
        payload: big_endian(method.id.0 as nat, 2) + big_endian(method.id.1 as nat, 2)
            + method.arguments,
    }
}

/// The method a frame carries, or why it carries none.
pub open spec fn method_in(frame: FrameView) -> Result<MethodView, ErrorView> {
    if frame.kind != Kind::Method {
        Err(refusal("a frame where a method was expected"@))
    } else {
        match number_in(frame.payload, 2) {
            Err(error) => Err(error),
            Ok((class, after_class)) => match number_in(after_class, 2) {
                Err(error) => Err(error),
                Ok((method, arguments)) => Ok(
                    MethodView { id: (class as u16, method as u16), arguments },
                ),
            },
        }
    }
}

/// A method's ids as a diagnostic prints them.
pub open spec fn label_of(id: Id) -> Seq<char> {
    decimal(id.0 as nat) + "."@ + decimal(id.1 as nat)
}

/// A method on the wire, in its frame on `channel`.
pub open spec fn method_bytes(method: MethodView, channel: u16) -> Seq<u8> {
    frame_bytes(frame_of_method(method, channel))
}

/// Whether a frame counts the length of a method.
pub open spec fn sayable(method: MethodView) -> bool {
    method.arguments.len() + 4 <= u32::MAX
}

/// Whether a method fits a frame that peers read.
pub open spec fn compact(method: MethodView) -> bool {
    method.arguments.len() + 4 <= MAX_FRAME
}

/// Whether two method ids are the same.
pub fn same_id(left: Id, right: Id) -> (result: bool)
    ensures
        result == (left == right),
{
    left.0 == right.0 && left.1 == right.1
}

impl Method {
    /// A method and its arguments.
    pub fn new(id: Id, arguments: Vec<u8>) -> (method: Self)
        ensures
            method@ == (MethodView { id, arguments: arguments@ }),
    {
        Method { id, arguments }
    }

    /// A method with no arguments: the ok that answers a close.
    pub fn bare(id: Id) -> (method: Self)
        ensures
            method@ == bare_of(id),
    {
        Method::new(id, Vec::new())
    }

    /// As a method frame on `channel`.
    pub fn frame(&self, channel: u16) -> (frame: Frame)
        ensures
            frame@ == frame_of_method(self@, channel),
    {
        let mut payload: Vec<u8> = Vec::new();
        put_short(&mut payload, self.id.0);
        put_short(&mut payload, self.id.1);
        put_bytes(&mut payload, self.arguments.as_slice());
        assert(payload@ =~= frame_of_method(self@, channel).payload);
        Frame::new(Kind::Method, channel, payload)
    }

    /// As the bytes of its frame on `channel`.
    pub fn encode(&self, channel: u16) -> (bytes: Vec<u8>)
        requires
            sayable(self@),
        ensures
            bytes@ == method_bytes(self@, channel),
    {
        proof {
            lemma_width(self@.id.0 as nat, 2);
            lemma_width(self@.id.1 as nat, 2);
        }
        self.frame(channel).encode()
    }

    /// The method `frame` carries.
    ///
    /// # Errors
    /// A frame that is not a method frame, or too short to name one.
    pub fn of(frame: &Frame) -> (result: Result<Self, Error>)
        ensures
            seen(result) == method_in(frame@),
    {
        if frame.kind != Kind::Method {
            return Err(protocol_error("a frame where a method was expected".to_owned()));
        }
        let mut reader = Reader::new(frame.payload.as_slice());
        let class = reader.short()?;
        let method = reader.short()?;
        Ok(Method::new((class, method), slice_to_vec(reader.rest())))
    }

    /// Whether it is the method `id` names.
    pub fn is(&self, id: Id) -> (result: bool)
        ensures
            result == (self@.id == id),
    {
        same_id(self.id, id)
    }

    /// The arguments, read in the order the method lists them.
    pub fn reader(&self) -> (reader: Reader<'_>)
        ensures
            reader@ == self@.arguments,
    {
        Reader::new(self.arguments.as_slice())
    }

    /// `class.method` as a diagnostic prints it.
    pub fn label(&self) -> (label: String)
        ensures
            label@ == label_of(self@.id),
    {
        let mut label = decimal_of(self.id.0 as u64);
        label.append(".");
        label.append(decimal_of(self.id.1 as u64).as_str());
        label
    }
}

/// The fields of a table of long-string values, on the wire.
pub open spec fn fields_bytes(entries: Pairs) -> Seq<u8>
    decreases entries.len(),
{
    if entries.len() == 0 {
        Seq::empty()
    } else {
        fields_bytes(entries.drop_last()) + short_string_bytes(entries.last().0) + seq![
            FIELD_LONG_STRING,
        ] + long_string_bytes(encode_utf8(entries.last().1))
    }
}

/// Entries of a table, each taken by its view.
pub open spec fn entry_views(entries: Seq<(&str, &str)>) -> Pairs {
    entries.map_values(|entry: (&str, &str)| (entry.0@, entry.1@))
}

/// A field table of long-string values: the properties each side presents.
fn put_table(out: &mut Vec<u8>, entries: &[(&str, &str)])
    requires
        forall|i: int|
            0 <= i < entries@.len() ==> encode_utf8((#[trigger] entries@[i]).1@).len() <= u32::MAX,
        fields_bytes(entry_views(entries@)).len() <= u32::MAX,
    ensures
        final(out)@ == old(out)@ + long_string_bytes(fields_bytes(entry_views(entries@))),
{
    let mut inner: Vec<u8> = Vec::new();
    let mut at: usize = 0;
    assert(entry_views(entries@.take(0)) =~= Seq::empty());
    while at < entries.len()
        invariant
            at <= entries@.len(),
            forall|i: int|
                0 <= i < entries@.len() ==> encode_utf8((#[trigger] entries@[i]).1@).len()
                    <= u32::MAX,
            inner@ == fields_bytes(entry_views(entries@.take(at as int))),
        decreases entries@.len() - at,
    {
        let ghost before = inner@;
        put_short_string(&mut inner, entries[at].0);
        put_octet(&mut inner, FIELD_LONG_STRING);
        put_long_string(&mut inner, entries[at].1.as_bytes());
        at = at + 1;
        proof {
            let longer = entry_views(entries@.take(at as int));
            assert(longer.drop_last() =~= entry_views(entries@.take(at - 1)));
            assert(inner@ =~= fields_bytes(longer));
        }
    }
    assert(entries@.take(entries@.len() as int) =~= entries@);
    put_long_string(out, inner.as_slice());
}

/// The properties each side presents.
pub open spec fn properties() -> Pairs {
    seq![("product"@, "xmip"@)]
}

/// connection.start: version 0-9, the server properties, PLAIN, `en_US`.
pub open spec fn start_method() -> MethodView {
    MethodView {
        id: CONNECTION_START,
        arguments: seq![0u8, 9u8] + long_string_bytes(fields_bytes(properties()))
            + long_string_bytes(encode_utf8("PLAIN"@)) + long_string_bytes(encode_utf8("en_US"@)),
    }
}

/// connection.start: version 0-9, the server properties, PLAIN, `en_US`.
pub fn connection_start() -> (method: Method)
    ensures
        method@ == start_method(),
        compact(method@),
{
    let mut out: Vec<u8> = Vec::new();
    put_octet(&mut out, 0);
    put_octet(&mut out, 9);
    put_properties(&mut out);
    proof {
        lemma_properties();
    }
    put_long_string(&mut out, "PLAIN".as_bytes());
    put_long_string(&mut out, "en_US".as_bytes());
    assert(out@ =~= start_method().arguments);
    proof {
        lemma_start_length(Seq::empty(), Seq::empty());
    }
    Method::new(CONNECTION_START, out)
}

/// Append the properties each side presents.
fn put_properties(out: &mut Vec<u8>)
    ensures
        final(out)@ == old(out)@ + long_string_bytes(fields_bytes(properties())),
{
    let entries = [("product", "xmip")];
    proof {
        assert(entry_views(entries@) =~= properties());
        lemma_properties();
        reveal_strlit("xmip");
        is_ascii_chars_encode_utf8("xmip"@);
    }
    put_table(out, &entries);
}

/// The response PLAIN defines: NUL, user, NUL, password.
pub open spec fn plain_response(user: Seq<char>, password: Seq<char>) -> Seq<char> {
    seq!['\0'] + user + seq!['\0'] + password
}

/// connection.start-ok: the client properties, PLAIN, the response PLAIN
/// defines, and the locale.
pub open spec fn start_ok_method(user: Seq<char>, password: Seq<char>) -> MethodView {
    MethodView {
        id: CONNECTION_START_OK,
        arguments: long_string_bytes(fields_bytes(properties())) + short_string_bytes("PLAIN"@)
            + long_string_bytes(encode_utf8(plain_response(user, password)))
            + short_string_bytes("en_US"@),
    }
}

/// Whether connection.start-ok can be framed with this user and password:
/// its response and the octets around it are no more than a frame counts.
pub open spec fn frameable(user: Seq<char>, password: Seq<char>) -> bool {
    encode_utf8(plain_response(user, password)).len() + 41 <= u32::MAX
}

/// The response PLAIN defines: NUL, user, NUL, password.
fn plain_text(user: &str, password: &str) -> (response: String)
    ensures
        response@ == plain_response(user@, password@),
{
    let mut response = "\0".to_owned();
    proof {
        reveal_strlit("\0");
    }
    response.append(user);
    response.append("\0");
    response.append(password);
    assert("\0"@ =~= seq!['\0']);
    response
}

/// Whether connection.start-ok can be framed with this user and password.
pub fn can_frame(user: &str, password: &str) -> (result: bool)
    ensures
        result == frameable(user@, password@),
{
    plain_text(user, password).as_str().as_bytes().len() as u64 <= 0xFFFF_FFFF - 41
}

/// connection.start-ok: the client properties, PLAIN, the response PLAIN
/// defines (NUL, user, NUL, password) and the locale. A login that
/// [`can_frame`] refuses is not written.
pub fn connection_start_ok(user: &str, password: &str) -> (method: Method)
    requires
        frameable(user@, password@),
    ensures
        method@ == start_ok_method(user@, password@),
        sayable(method@),
{
    let mut out: Vec<u8> = Vec::new();
    put_properties(&mut out);
    put_short_string(&mut out, "PLAIN");
    let response = plain_text(user, password);
    put_long_string(&mut out, response.as_str().as_bytes());
    put_short_string(&mut out, "en_US");
    assert(out@ =~= start_ok_method(user@, password@).arguments);
    proof {
        lemma_start_length(user@, password@);
    }
    Method::new(CONNECTION_START_OK, out)
}

/// Who a PLAIN response presents: what stands between its first two NULs
/// and what stands between its second and third, each empty where there is
/// no such NUL.
pub open spec fn plain_login(response: Seq<char>) -> (Seq<char>, Seq<char>) {
    match after(response, '\0') {
        None => (Seq::empty(), Seq::empty()),
        Some(from_user) => (
            before(from_user, '\0'),
            match after(from_user, '\0') {
                None => Seq::empty(),
                Some(from_password) => before(from_password, '\0'),
            },
        ),
    }
}

/// Who a PLAIN response presents: the user and the password.
pub fn plain_parts(response: &str) -> (login: (String, String))
    ensures
        login@ == plain_login(response@),
{
    match cut(response, '\0').1 {
        None => (String::new(), String::new()),
        Some(from_user) => {
            let (user, more) = cut(from_user, '\0');
            let password = match more {
                None => String::new(),
                Some(from_password) => cut(from_password, '\0').0.to_owned(),
            };
            (user.to_owned(), password)
        },
    }
}

/// Who the arguments of a connection.start-ok present.
pub open spec fn login_in(arguments: Seq<u8>) -> Result<(Seq<char>, Seq<char>), ErrorView> {
    match long_string_in(arguments) {
        Err(error) => Err(error),
        Ok((_, after_table)) => match short_string_in(after_table) {
            Err(error) => Err(error),
            Ok((mechanism, after_mechanism)) => if mechanism != "PLAIN"@ {
                Err(refusal("a mechanism not spoken here: "@ + mechanism))
            } else {
                match long_string_in(after_mechanism) {
                    Err(error) => Err(error),
                    Ok((response, _)) => Ok(plain_login(lenient(response))),
                }
            },
        },
    }
}

/// Who connection.start-ok presents: the user and password in the PLAIN
/// response.
///
/// # Errors
/// Arguments that end early, or a mechanism other than PLAIN.
pub fn login_of(method: &Method) -> (result: Result<(String, String), Error>)
    ensures
        seen(result) == login_in(method@.arguments),
{
    let mut reader = method.reader();
    reader.skip_table()?;
    let mechanism = reader.short_string()?;
    if !same(mechanism.as_str(), "PLAIN") {
        let mut message = "a mechanism not spoken here: ".to_owned();
        message.append(mechanism.as_str());
        return Err(protocol_error(message));
    }
    let response = reader.long_string()?;
    let text = lenient_text(response.as_slice());
    Ok(plain_parts(text.as_str()))
}

/// Append an empty short string.
fn put_nothing(out: &mut Vec<u8>)
    ensures
        final(out)@ == old(out)@ + short_string_bytes(Seq::empty()),
{
    let nothing = String::new();
    put_short_string(out, nothing.as_str());
}

/// A tune or tune-ok: the limits, and no heartbeat.
pub open spec fn tune_method(id: Id, channel_max: u16, frame_max: u32) -> MethodView {
    MethodView {
        id: id,
        arguments: big_endian(channel_max as nat, 2) + big_endian(frame_max as nat, 4)
            + big_endian(0, 2),
    }
}

/// A tune ([`CONNECTION_TUNE`] as the broker proposes it, or
/// [`CONNECTION_TUNE_OK`] as the client settles) with no heartbeat.
pub fn tune(id: Id, channel_max: u16, frame_max: u32) -> (method: Method)
    ensures
        method@ == tune_method(id, channel_max, frame_max),
        compact(method@),
{
    let mut out: Vec<u8> = Vec::new();
    put_short(&mut out, channel_max);
    put_long(&mut out, frame_max);
    put_short(&mut out, 0);
    assert(out@ =~= tune_method(id, channel_max, frame_max).arguments);
    proof {
        lemma_tune_length(id, channel_max, frame_max);
    }
    Method::new(id, out)
}

/// connection.open on `virtual_host`.
pub open spec fn open_method(virtual_host: Seq<char>) -> MethodView {
    MethodView {
        id: CONNECTION_OPEN,
        arguments: short_string_bytes(virtual_host) + short_string_bytes(Seq::empty()) + seq![0u8],
    }
}

/// connection.open on `virtual_host`.
pub fn connection_open(virtual_host: &str) -> (method: Method)
    ensures
        method@ == open_method(virtual_host@),
        compact(method@),
{
    let mut out: Vec<u8> = Vec::new();
    put_short_string(&mut out, virtual_host);
    put_nothing(&mut out);
    put_octet(&mut out, 0);
    assert(out@ =~= open_method(virtual_host@).arguments);
    proof {
        lemma_open_length(virtual_host@);
    }
    Method::new(CONNECTION_OPEN, out)
}

/// connection.open-ok, its known-hosts empty as it is deprecated.
pub open spec fn open_ok_method() -> MethodView {
    MethodView {
        id: CONNECTION_OPEN_OK,
        arguments: short_string_bytes(Seq::empty()),
    }
}

/// connection.open-ok, its known-hosts empty as it is deprecated.
pub fn connection_open_ok() -> (method: Method)
    ensures
        method@ == open_ok_method(),
        compact(method@),
{
    let mut out: Vec<u8> = Vec::new();
    put_nothing(&mut out);
    assert(out@ =~= open_ok_method().arguments);
    proof {
        lemma_open_length(Seq::empty());
    }
    Method::new(CONNECTION_OPEN_OK, out)
}

/// A close: its reply code and text, and no method to blame.
pub open spec fn close_method(id: Id, code: u16, text: Seq<char>) -> MethodView {
    MethodView {
        id: id,
        arguments: big_endian(code as nat, 2) + short_string_bytes(text) + big_endian(0, 2)
            + big_endian(0, 2),
    }
}

/// A close ([`CONNECTION_CLOSE`] or [`CHANNEL_CLOSE`]) with its reply
/// code and text, and no method to blame.
pub fn close(id: Id, code: u16, text: &str) -> (method: Method)
    ensures
        method@ == close_method(id, code, text@),
        compact(method@),
{
    let mut out: Vec<u8> = Vec::new();
    put_short(&mut out, code);
    put_short_string(&mut out, text);
    put_short(&mut out, 0);
    put_short(&mut out, 0);
    assert(out@ =~= close_method(id, code, text@).arguments);
    proof {
        lemma_close_length(id, code, text@);
    }
    Method::new(id, out)
}

/// channel.open, its out-of-band empty as it is deprecated.
pub open spec fn channel_open_method() -> MethodView {
    MethodView {
        id: CHANNEL_OPEN,
        arguments: short_string_bytes(Seq::empty()),
    }
}

/// channel.open, its out-of-band empty as it is deprecated.
pub fn channel_open() -> (method: Method)
    ensures
        method@ == channel_open_method(),
        compact(method@),
{
    let mut out: Vec<u8> = Vec::new();
    put_nothing(&mut out);
    assert(out@ =~= channel_open_method().arguments);
    proof {
        lemma_open_length(Seq::empty());
    }
    Method::new(CHANNEL_OPEN, out)
}

/// channel.open-ok, its channel-id empty likewise.
pub open spec fn channel_open_ok_method() -> MethodView {
    MethodView {
        id: CHANNEL_OPEN_OK,
        arguments: long_string_bytes(Seq::empty()),
    }
}

/// channel.open-ok, its channel-id empty likewise.
pub fn channel_open_ok() -> (method: Method)
    ensures
        method@ == channel_open_ok_method(),
        compact(method@),
{
    let mut out: Vec<u8> = Vec::new();
    put_long_string(&mut out, Vec::new().as_slice());
    assert(out@ =~= channel_open_ok_method().arguments);
    proof {
        lemma_open_length(Seq::empty());
    }
    Method::new(CHANNEL_OPEN_OK, out)
}

/// queue.declare `queue`, durable, and nothing else.
pub open spec fn declare_method(queue: Seq<char>) -> MethodView {
    MethodView {
        id: QUEUE_DECLARE,
        arguments: big_endian(0, 2) + short_string_bytes(queue) + seq![DURABLE] + big_endian(0, 4),
    }
}

/// queue.declare `queue`, durable, and nothing else.
pub fn queue_declare(queue: &str) -> (method: Method)
    ensures
        method@ == declare_method(queue@),
        compact(method@),
{
    let mut out: Vec<u8> = Vec::new();
    put_short(&mut out, 0);
    put_short_string(&mut out, queue);
    put_octet(&mut out, DURABLE);
    put_empty_table(&mut out);
    assert(out@ =~= declare_method(queue@).arguments);
    proof {
        lemma_declare_length(queue@, 0);
    }
    Method::new(QUEUE_DECLARE, out)
}

/// queue.declare-ok: the queue, how many messages it holds, no consumers.
pub open spec fn declare_ok_method(queue: Seq<char>, messages: u32) -> MethodView {
    MethodView {
        id: QUEUE_DECLARE_OK,
        arguments: short_string_bytes(queue) + big_endian(messages as nat, 4) + big_endian(0, 4),
    }
}

/// queue.declare-ok: the queue, how many messages it holds, no consumers.
pub fn queue_declare_ok(queue: &str, messages: u32) -> (method: Method)
    ensures
        method@ == declare_ok_method(queue@, messages),
        compact(method@),
{
    let mut out: Vec<u8> = Vec::new();
    put_short_string(&mut out, queue);
    put_long(&mut out, messages);
    put_long(&mut out, 0);
    assert(out@ =~= declare_ok_method(queue@, messages).arguments);
    proof {
        lemma_declare_length(queue@, messages);
    }
    Method::new(QUEUE_DECLARE_OK, out)
}

/// basic.consume `queue` as `tag`, acknowledged by the consumer.
pub open spec fn consume_method(queue: Seq<char>, tag: Seq<char>) -> MethodView {
    MethodView {
        id: BASIC_CONSUME,
        arguments: big_endian(0, 2) + short_string_bytes(queue) + short_string_bytes(tag)
            + seq![0u8] + big_endian(0, 4),
    }
}

/// basic.consume `queue` as `tag`, acknowledged by the consumer.
pub fn basic_consume(queue: &str, tag: &str) -> (method: Method)
    ensures
        method@ == consume_method(queue@, tag@),
        compact(method@),
{
    let mut out: Vec<u8> = Vec::new();
    put_short(&mut out, 0);
    put_short_string(&mut out, queue);
    put_short_string(&mut out, tag);
    put_octet(&mut out, 0);
    put_empty_table(&mut out);
    assert(out@ =~= consume_method(queue@, tag@).arguments);
    proof {
        lemma_consume_length(queue@, tag@);
    }
    Method::new(BASIC_CONSUME, out)
}

/// basic.consume-ok under `tag`.
pub open spec fn consume_ok_method(tag: Seq<char>) -> MethodView {
    MethodView {
        id: BASIC_CONSUME_OK,
        arguments: short_string_bytes(tag),
    }
}

/// basic.consume-ok under `tag`.
pub fn basic_consume_ok(tag: &str) -> (method: Method)
    ensures
        method@ == consume_ok_method(tag@),
        compact(method@),
{
    let mut out: Vec<u8> = Vec::new();
    put_short_string(&mut out, tag);
    assert(out@ =~= consume_ok_method(tag@).arguments);
    proof {
        lemma_short_string_length(tag@);
    }
    Method::new(BASIC_CONSUME_OK, out)
}

/// basic.publish to `exchange` under `routing_key`.
pub open spec fn publish_method(exchange: Seq<char>, routing_key: Seq<char>) -> MethodView {
    MethodView {
        id: BASIC_PUBLISH,
        arguments: big_endian(0, 2) + short_string_bytes(exchange)
            + short_string_bytes(routing_key) + seq![0u8],
    }
}

/// basic.publish to `exchange` under `routing_key`, neither mandatory nor
/// immediate.
pub fn basic_publish(exchange: &str, routing_key: &str) -> (method: Method)
    ensures
        method@ == publish_method(exchange@, routing_key@),
        compact(method@),
{
    let mut out: Vec<u8> = Vec::new();
    put_short(&mut out, 0);
    put_short_string(&mut out, exchange);
    put_short_string(&mut out, routing_key);
    put_octet(&mut out, 0);
    assert(out@ =~= publish_method(exchange@, routing_key@).arguments);
    proof {
        lemma_publish_length(exchange@, routing_key@);
    }
    Method::new(BASIC_PUBLISH, out)
}

/// basic.deliver to consumer `tag`, not redelivered.
pub open spec fn deliver_method(
    tag: Seq<char>,
    delivery_tag: u64,
    exchange: Seq<char>,
    routing_key: Seq<char>,
) -> MethodView {
    MethodView {
        id: BASIC_DELIVER,
        arguments: short_string_bytes(tag) + big_endian(delivery_tag as nat, 8) + seq![0u8]
            + short_string_bytes(exchange) + short_string_bytes(routing_key),
    }
}

/// basic.deliver to consumer `tag`: `delivery_tag`, not redelivered, from
/// `exchange` under `routing_key`.
pub fn basic_deliver(tag: &str, delivery_tag: u64, exchange: &str, routing_key: &str) -> (method:
    Method)
    ensures
        method@ == deliver_method(tag@, delivery_tag, exchange@, routing_key@),
        compact(method@),
{
    let mut out: Vec<u8> = Vec::new();
    put_short_string(&mut out, tag);
    put_longlong(&mut out, delivery_tag);
    put_octet(&mut out, 0);
    put_short_string(&mut out, exchange);
    put_short_string(&mut out, routing_key);
    assert(out@ =~= deliver_method(tag@, delivery_tag, exchange@, routing_key@).arguments);
    proof {
        lemma_deliver_length(tag@, delivery_tag, exchange@, routing_key@);
    }
    Method::new(BASIC_DELIVER, out)
}

/// basic.ack of `delivery_tag`, and that one only.
pub open spec fn ack_method(delivery_tag: u64) -> MethodView {
    MethodView {
        id: BASIC_ACK,
        arguments: big_endian(delivery_tag as nat, 8) + seq![0u8],
    }
}

/// basic.ack of `delivery_tag`, and that one only.
pub fn basic_ack(delivery_tag: u64) -> (method: Method)
    ensures
        method@ == ack_method(delivery_tag),
        compact(method@),
{
    let mut out: Vec<u8> = Vec::new();
    put_longlong(&mut out, delivery_tag);
    put_octet(&mut out, 0);
    assert(out@ =~= ack_method(delivery_tag).arguments);
    proof {
        lemma_width(delivery_tag as nat, 8);
    }
    Method::new(BASIC_ACK, out)
}

/// The channel and frame limits a tune or tune-ok carries.
pub open spec fn tune_in(arguments: Seq<u8>) -> Result<(u16, u32), ErrorView> {
    match number_in(arguments, 2) {
        Err(error) => Err(error),
        Ok((channel_max, rest_a)) => match number_in(rest_a, 4) {
            Err(error) => Err(error),
            Ok((frame_max, _)) => Ok((channel_max as u16, frame_max as u32)),
        },
    }
}

/// The channel and frame limits a tune or tune-ok carries.
///
/// # Errors
/// Arguments that end early.
pub fn tune_of(method: &Method) -> (result: Result<(u16, u32), Error>)
    ensures
        seen(result) == tune_in(method@.arguments),
{
    let mut reader = method.reader();
    Ok((reader.short()?, reader.long()?))
}

/// The virtual host a connection.open names.
pub open spec fn virtual_host_in(arguments: Seq<u8>) -> Result<Seq<char>, ErrorView> {
    match short_string_in(arguments) {
        Err(error) => Err(error),
        Ok((virtual_host, _)) => Ok(virtual_host),
    }
}

/// The virtual host a connection.open names.
///
/// # Errors
/// Arguments that end early.
pub fn virtual_host_of(method: &Method) -> (result: Result<String, Error>)
    ensures
        seen(result) == virtual_host_in(method@.arguments),
{
    method.reader().short_string()
}

/// The reply code and text a close carries.
pub open spec fn close_in(arguments: Seq<u8>) -> Result<(u16, Seq<char>), ErrorView> {
    match number_in(arguments, 2) {
        Err(error) => Err(error),
        Ok((code, rest_a)) => match short_string_in(rest_a) {
            Err(error) => Err(error),
            Ok((text, _)) => Ok((code as u16, text)),
        },
    }
}

/// The reply code and text a close carries.
///
/// # Errors
/// Arguments that end early.
pub fn close_of(method: &Method) -> (result: Result<(u16, String), Error>)
    ensures
        seen(result) == close_in(method@.arguments),
{
    let mut reader = method.reader();
    Ok((reader.short()?, reader.short_string()?))
}

/// The queue a declare or a consume names, after the reserved ticket.
pub open spec fn queue_in(arguments: Seq<u8>) -> Result<Seq<char>, ErrorView> {
    match number_in(arguments, 2) {
        Err(error) => Err(error),
        Ok((_, rest_a)) => match short_string_in(rest_a) {
            Err(error) => Err(error),
            Ok((queue, _)) => Ok(queue),
        },
    }
}

/// The queue a declare or a consume names, after the reserved ticket.
///
/// # Errors
/// Arguments that end early.
pub fn queue_of(method: &Method) -> (result: Result<String, Error>)
    ensures
        seen(result) == queue_in(method@.arguments),
{
    let mut reader = method.reader();
    reader.short()?;
    reader.short_string()
}

/// The queue and message count a declare-ok reports.
pub open spec fn declare_ok_in(arguments: Seq<u8>) -> Result<(Seq<char>, u32), ErrorView> {
    match short_string_in(arguments) {
        Err(error) => Err(error),
        Ok((queue, rest_a)) => match number_in(rest_a, 4) {
            Err(error) => Err(error),
            Ok((messages, _)) => Ok((queue, messages as u32)),
        },
    }
}

/// The queue and message count a declare-ok reports.
///
/// # Errors
/// Arguments that end early.
pub fn declare_ok_of(method: &Method) -> (result: Result<(String, u32), Error>)
    ensures
        seen(result) == declare_ok_in(method@.arguments),
{
    let mut reader = method.reader();
    Ok((reader.short_string()?, reader.long()?))
}

/// The queue and consumer tag a consume names.
pub open spec fn consume_in(arguments: Seq<u8>) -> Result<(Seq<char>, Seq<char>), ErrorView> {
    match number_in(arguments, 2) {
        Err(error) => Err(error),
        Ok((_, rest_a)) => match short_string_in(rest_a) {
            Err(error) => Err(error),
            Ok((queue, rest_b)) => match short_string_in(rest_b) {
                Err(error) => Err(error),
                Ok((tag, _)) => Ok((queue, tag)),
            },
        },
    }
}

/// The queue and consumer tag a consume names.
///
/// # Errors
/// Arguments that end early.
pub fn consume_of(method: &Method) -> (result: Result<(String, String), Error>)
    ensures
        seen(result) == consume_in(method@.arguments),
{
    let mut reader = method.reader();
    reader.short()?;
    Ok((reader.short_string()?, reader.short_string()?))
}

/// The consumer tag a consume-ok confirms.
pub open spec fn tag_in(arguments: Seq<u8>) -> Result<Seq<char>, ErrorView> {
    match short_string_in(arguments) {
        Err(error) => Err(error),
        Ok((tag, _)) => Ok(tag),
    }
}

/// The consumer tag a consume-ok confirms.
///
/// # Errors
/// Arguments that end early.
pub fn tag_of(method: &Method) -> (result: Result<String, Error>)
    ensures
        seen(result) == tag_in(method@.arguments),
{
    method.reader().short_string()
}

/// The exchange and routing key a publish names.
pub open spec fn publish_in(arguments: Seq<u8>) -> Result<(Seq<char>, Seq<char>), ErrorView> {
    match number_in(arguments, 2) {
        Err(error) => Err(error),
        Ok((_, rest_a)) => match short_string_in(rest_a) {
            Err(error) => Err(error),
            Ok((exchange, rest_b)) => match short_string_in(rest_b) {
                Err(error) => Err(error),
                Ok((routing_key, _)) => Ok((exchange, routing_key)),
            },
        },
    }
}

/// The exchange and routing key a publish names.
///
/// # Errors
/// Arguments that end early.
pub fn publish_of(method: &Method) -> (result: Result<(String, String), Error>)
    ensures
        seen(result) == publish_in(method@.arguments),
{
    let mut reader = method.reader();
    reader.short()?;
    Ok((reader.short_string()?, reader.short_string()?))
}

/// The delivery tag, exchange and routing key a deliver carries.
pub open spec fn deliver_in(arguments: Seq<u8>) -> Result<(u64, Seq<char>, Seq<char>), ErrorView> {
    match short_string_in(arguments) {
        Err(error) => Err(error),
        Ok((_, rest_a)) => match number_in(rest_a, 8) {
            Err(error) => Err(error),
            Ok((delivery_tag, rest_b)) => match number_in(rest_b, 1) {
                Err(error) => Err(error),
                Ok((_, rest_c)) => match short_string_in(rest_c) {
                    Err(error) => Err(error),
                    Ok((exchange, rest_d)) => match short_string_in(rest_d) {
                        Err(error) => Err(error),
                        Ok((routing_key, _)) => Ok((delivery_tag as u64, exchange, routing_key)),
                    },
                },
            },
        },
    }
}

/// The delivery tag, exchange and routing key a deliver carries.
///
/// # Errors
/// Arguments that end early.
pub fn deliver_of(method: &Method) -> (result: Result<(u64, String, String), Error>)
    ensures
        seen(result) == deliver_in(method@.arguments),
{
    let mut reader = method.reader();
    reader.short_string()?;
    let delivery_tag = reader.longlong()?;
    reader.octet()?;
    Ok((delivery_tag, reader.short_string()?, reader.short_string()?))
}

/// The delivery tag an ack names.
pub open spec fn delivery_tag_in(arguments: Seq<u8>) -> Result<u64, ErrorView> {
    match number_in(arguments, 8) {
        Err(error) => Err(error),
        Ok((delivery_tag, _)) => Ok(delivery_tag as u64),
    }
}

/// The delivery tag an ack names.
///
/// # Errors
/// Arguments that end early.
pub fn delivery_tag_of(method: &Method) -> (result: Result<u64, Error>)
    ensures
        seen(result) == delivery_tag_in(method@.arguments),
{
    method.reader().longlong()
}

/// A method that is written as a frame is the frame that is read back, and
/// the method that frame carries, whatever follows it.
pub proof fn law_method_round_trips(method: MethodView, channel: u16, rest: Seq<u8>)
    requires
        method.arguments.len() + 4 <= MAX_FRAME,
    ensures
        frame_in(frame_bytes(frame_of_method(method, channel)) + rest) == Ok::<
            (Option<FrameView>, Seq<u8>),
            ErrorView,
        >((Some(frame_of_method(method, channel)), rest)),
        method_in(frame_of_method(method, channel)) == Ok::<MethodView, ErrorView>(method),
{
    let frame = frame_of_method(method, channel);
    lemma_width(method.id.0 as nat, 2);
    lemma_width(method.id.1 as nat, 2);
    law_frame_round_trips(frame, rest);
    law_method_is_carried(method, channel);
}

/// The method a method's own frame carries is that method, however long.
pub proof fn law_method_is_carried(method: MethodView, channel: u16)
    ensures
        method_in(frame_of_method(method, channel)) == Ok::<MethodView, ErrorView>(method),
{
    let frame = frame_of_method(method, channel);
    let second = big_endian(method.id.1 as nat, 2);
    lemma_capacities();
    law_number_reads_back(method.id.0 as nat, 2, second + method.arguments);
    law_number_reads_back(method.id.1 as nat, 2, method.arguments);
    assert(frame.payload =~= big_endian(method.id.0 as nat, 2) + (second + method.arguments));
}

/// Who a PLAIN response presents is who it was written for, where neither
/// the user nor the password holds a NUL.
pub proof fn law_plain_round_trips(user: Seq<char>, password: Seq<char>)
    requires
        !user.contains('\0'),
        !password.contains('\0'),
    ensures
        plain_login(plain_response(user, password)) == (user, password),
{
    let response = plain_response(user, password);
    let from_user = user + seq!['\0'] + password;
    assert(response[0] == '\0');
    lemma_before(response, '\0', 0);
    assert(response.skip(1) =~= from_user);
    assert forall|i: int| 0 <= i < user.len() implies from_user[i] != '\0' by {
        assert(user.contains(user[i]));
    }
    assert(from_user[user.len() as int] == '\0');
    lemma_before(from_user, '\0', user.len() as int);
    assert(from_user.take(user.len() as int) =~= user);
    assert(from_user.skip(user.len() as int + 1) =~= password);
    assert forall|i: int| 0 <= i < password.len() implies password[i] != '\0' by {
        assert(password.contains(password[i]));
    }
    lemma_before(password, '\0', password.len() as int);
    assert(password.take(password.len() as int) =~= password);
}

/// The login that connection.start-ok is written with is the login that is
/// read from it, where neither part holds a NUL.
pub proof fn law_login_round_trips(user: Seq<char>, password: Seq<char>)
    requires
        !user.contains('\0'),
        !password.contains('\0'),
        encode_utf8(plain_response(user, password)).len() <= u32::MAX,
    ensures
        login_in(start_ok_method(user, password).arguments) == Ok::<
            (Seq<char>, Seq<char>),
            ErrorView,
        >((user, password)),
{
    let response = plain_response(user, password);
    let fields = fields_bytes(properties());
    let locale = short_string_bytes("en_US"@);
    let after_mechanism = long_string_bytes(encode_utf8(response)) + locale;
    let after_table = short_string_bytes("PLAIN"@) + after_mechanism;
    lemma_properties();
    law_long_string_round_trips(fields, after_table);
    assert(start_ok_method(user, password).arguments =~= long_string_bytes(fields) + after_table);
    law_short_string_round_trips("PLAIN"@, after_mechanism);
    law_long_string_round_trips(encode_utf8(response), locale);
    encode_utf8_valid_utf8(response);
    encode_utf8_decode_utf8(response);
    law_plain_round_trips(user, password);
}

/// How long the fixed texts of the handshake are on the wire.
pub proof fn lemma_properties()
    ensures
        fields_bytes(properties()).len() == 17,
        encode_utf8("PLAIN"@).len() == 5,
        encode_utf8("en_US"@).len() == 5,
{
    reveal_strlit("product");
    reveal_strlit("xmip");
    reveal_strlit("PLAIN");
    reveal_strlit("en_US");
    is_ascii_chars_encode_utf8("product"@);
    is_ascii_chars_encode_utf8("xmip"@);
    is_ascii_chars_encode_utf8("PLAIN"@);
    is_ascii_chars_encode_utf8("en_US"@);
    reveal_with_fuel(fields_bytes, 2);
    lemma_width(4, 4);
    assert(properties().drop_last() =~= Seq::empty());
}

/// The limits a tune or tune-ok is written with are the limits read from it.
pub proof fn law_tune_round_trips(id: Id, channel_max: u16, frame_max: u32)
    ensures
        tune_in(tune_method(id, channel_max, frame_max).arguments) == Ok::<(u16, u32), ErrorView>(
            (channel_max, frame_max),
        ),
{
    lemma_capacities();
    let rest_3: Seq<u8> = Seq::empty();
    let rest_2 = big_endian(0, 2) + rest_3;
    let rest_1 = big_endian(frame_max as nat, 4) + rest_2;
    assert(tune_method(id, channel_max, frame_max).arguments =~= big_endian(channel_max as nat, 2)
        + rest_1);
    law_number_reads_back(channel_max as nat, 2, rest_1);
    law_number_reads_back(frame_max as nat, 4, rest_2);
}

/// The virtual host connection.open is written with is the one read from it.
pub proof fn law_open_round_trips(virtual_host: Seq<char>)
    requires
        encode_utf8(virtual_host).len() <= 255,
    ensures
        virtual_host_in(open_method(virtual_host).arguments) == Ok::<Seq<char>, ErrorView>(
            virtual_host,
        ),
{
    let rest_3: Seq<u8> = Seq::empty();
    let rest_2 = seq![0u8] + rest_3;
    let rest_1 = short_string_bytes(Seq::empty()) + rest_2;
    assert(open_method(virtual_host).arguments =~= short_string_bytes(virtual_host) + rest_1);
    law_short_string_round_trips(virtual_host, rest_1);
}

/// The code and text a close is written with are those read from it.
pub proof fn law_close_round_trips(id: Id, code: u16, text: Seq<char>)
    requires
        encode_utf8(text).len() <= 255,
    ensures
        close_in(close_method(id, code, text).arguments) == Ok::<(u16, Seq<char>), ErrorView>(
            (code, text),
        ),
{
    lemma_capacities();
    let rest_4: Seq<u8> = Seq::empty();
    let rest_3 = big_endian(0, 2) + rest_4;
    let rest_2 = big_endian(0, 2) + rest_3;
    let rest_1 = short_string_bytes(text) + rest_2;
    assert(close_method(id, code, text).arguments =~= big_endian(code as nat, 2) + rest_1);
    law_number_reads_back(code as nat, 2, rest_1);
    law_short_string_round_trips(text, rest_2);
}

/// The queue queue.declare is written with is the one read from it.
pub proof fn law_declare_round_trips(queue: Seq<char>)
    requires
        encode_utf8(queue).len() <= 255,
    ensures
        queue_in(declare_method(queue).arguments) == Ok::<Seq<char>, ErrorView>(queue),
{
    lemma_capacities();
    let rest_4: Seq<u8> = Seq::empty();
    let rest_3 = big_endian(0, 4) + rest_4;
    let rest_2 = seq![DURABLE] + rest_3;
    let rest_1 = short_string_bytes(queue) + rest_2;
    assert(declare_method(queue).arguments =~= big_endian(0, 2) + rest_1);
    law_number_reads_back(0, 2, rest_1);
    law_short_string_round_trips(queue, rest_2);
}

/// The queue and count queue.declare-ok is written with are those read from it.
pub proof fn law_declare_ok_round_trips(queue: Seq<char>, messages: u32)
    requires
        encode_utf8(queue).len() <= 255,
    ensures
        declare_ok_in(declare_ok_method(queue, messages).arguments) == Ok::<
            (Seq<char>, u32),
            ErrorView,
        >((queue, messages)),
{
    lemma_capacities();
    let rest_3: Seq<u8> = Seq::empty();
    let rest_2 = big_endian(0, 4) + rest_3;
    let rest_1 = big_endian(messages as nat, 4) + rest_2;
    assert(declare_ok_method(queue, messages).arguments =~= short_string_bytes(queue) + rest_1);
    law_short_string_round_trips(queue, rest_1);
    law_number_reads_back(messages as nat, 4, rest_2);
}

/// The queue and tag basic.consume is written with are those read from it,
/// and its queue is the one read from it as from a declare.
pub proof fn law_consume_round_trips(queue: Seq<char>, tag: Seq<char>)
    requires
        encode_utf8(queue).len() <= 255,
        encode_utf8(tag).len() <= 255,
    ensures
        consume_in(consume_method(queue, tag).arguments) == Ok::<
            (Seq<char>, Seq<char>),
            ErrorView,
        >((queue, tag)),
        queue_in(consume_method(queue, tag).arguments) == Ok::<Seq<char>, ErrorView>(queue),
{
    lemma_capacities();
    let rest_5: Seq<u8> = Seq::empty();
    let rest_4 = big_endian(0, 4) + rest_5;
    let rest_3 = seq![0u8] + rest_4;
    let rest_2 = short_string_bytes(tag) + rest_3;
    let rest_1 = short_string_bytes(queue) + rest_2;
    assert(consume_method(queue, tag).arguments =~= big_endian(0, 2) + rest_1);
    law_number_reads_back(0, 2, rest_1);
    law_short_string_round_trips(queue, rest_2);
    law_short_string_round_trips(tag, rest_3);
}

/// The tag basic.consume-ok is written with is the one read from it.
pub proof fn law_consume_ok_round_trips(tag: Seq<char>)
    requires
        encode_utf8(tag).len() <= 255,
    ensures
        tag_in(consume_ok_method(tag).arguments) == Ok::<Seq<char>, ErrorView>(tag),
{
    let rest_1: Seq<u8> = Seq::empty();
    assert(consume_ok_method(tag).arguments =~= short_string_bytes(tag) + rest_1);
    law_short_string_round_trips(tag, rest_1);
}

/// The exchange and routing key basic.publish is written with are those read
/// from it.
pub proof fn law_publish_round_trips(exchange: Seq<char>, routing_key: Seq<char>)
    requires
        encode_utf8(exchange).len() <= 255,
        encode_utf8(routing_key).len() <= 255,
    ensures
        publish_in(publish_method(exchange, routing_key).arguments) == Ok::<
            (Seq<char>, Seq<char>),
            ErrorView,
        >((exchange, routing_key)),
{
    lemma_capacities();
    let rest_4: Seq<u8> = Seq::empty();
    let rest_3 = seq![0u8] + rest_4;
    let rest_2 = short_string_bytes(routing_key) + rest_3;
    let rest_1 = short_string_bytes(exchange) + rest_2;
    assert(publish_method(exchange, routing_key).arguments =~= big_endian(0, 2) + rest_1);
    law_number_reads_back(0, 2, rest_1);
    law_short_string_round_trips(exchange, rest_2);
    law_short_string_round_trips(routing_key, rest_3);
}

/// The delivery tag, exchange and routing key basic.deliver is written with
/// are those read from it.
#[verifier::spinoff_prover]
#[verifier::rlimit(60)]
pub proof fn law_deliver_round_trips(
    tag: Seq<char>,
    delivery_tag: u64,
    exchange: Seq<char>,
    routing_key: Seq<char>,
)
    requires
        encode_utf8(tag).len() <= 255,
        encode_utf8(exchange).len() <= 255,
        encode_utf8(routing_key).len() <= 255,
    ensures
        deliver_in(deliver_method(tag, delivery_tag, exchange, routing_key).arguments) == Ok::<
            (u64, Seq<char>, Seq<char>),
            ErrorView,
        >((delivery_tag, exchange, routing_key)),
{
    lemma_capacities();
    let rest_5: Seq<u8> = Seq::empty();
    let rest_4 = short_string_bytes(routing_key) + rest_5;
    let rest_3 = short_string_bytes(exchange) + rest_4;
    let rest_2 = seq![0u8] + rest_3;
    let rest_1 = big_endian(delivery_tag as nat, 8) + rest_2;
    lemma_nothing(short_string_bytes(routing_key));
    lemma_five_grouped(
        short_string_bytes(tag),
        big_endian(delivery_tag as nat, 8),
        seq![0u8],
        short_string_bytes(exchange),
        short_string_bytes(routing_key),
    );
    law_short_string_round_trips(tag, rest_1);
    law_number_reads_back(delivery_tag as nat, 8, rest_2);
    lemma_octet_reads_back(0u8, rest_3);
    law_short_string_round_trips(exchange, rest_4);
    law_short_string_round_trips(routing_key, rest_5);
}

/// The delivery tag basic.ack is written with is the one read from it.
pub proof fn law_ack_round_trips(delivery_tag: u64)
    ensures
        delivery_tag_in(ack_method(delivery_tag).arguments) == Ok::<u64, ErrorView>(delivery_tag),
{
    lemma_capacities();
    let rest_2: Seq<u8> = Seq::empty();
    let rest_1 = seq![0u8] + rest_2;
    assert(ack_method(delivery_tag).arguments =~= big_endian(delivery_tag as nat, 8) + rest_1);
    law_number_reads_back(delivery_tag as nat, 8, rest_1);
}

/// Whether every entry of a table fits the wire: its key a short string,
/// its value a long one.
pub open spec fn entries_fit(entries: Pairs) -> bool {
    forall|i: int|
        0 <= i < entries.len() ==> encode_utf8(#[trigger] entries[i].0).len() <= 255
            && encode_utf8(entries[i].1).len() <= u32::MAX
}

/// One field of a long string at the front of others is the first that is
/// read.
proof fn lemma_one_field(key: Seq<char>, value: Seq<char>, tail: Seq<u8>)
    requires
        encode_utf8(key).len() <= 255,
        encode_utf8(value).len() <= u32::MAX,
    ensures
        table_in(
            short_string_bytes(key) + (seq![FIELD_LONG_STRING] + (long_string_bytes(
                encode_utf8(value),
            ) + tail)),
        ) == preceded(seq![(key, value)], table_in(tail)),
{
    let written = encode_utf8(value);
    let after_tag = long_string_bytes(written) + tail;
    let after_key = seq![FIELD_LONG_STRING] + after_tag;
    let field = short_string_bytes(key) + after_key;
    assert(field.len() > 0);
    law_short_string_round_trips(key, after_key);
    lemma_octet_reads_back(FIELD_LONG_STRING, after_tag);
    law_long_string_round_trips(written, tail);
    encode_utf8_valid_utf8(value);
    encode_utf8_decode_utf8(value);
    assert(field_text(FIELD_LONG_STRING, written) == Ok::<Seq<char>, ErrorView>(value));
}

/// The entries a table is written with are the entries that are read from
/// it, before those of whatever fields follow.
pub proof fn law_table_round_trips(entries: Pairs, tail: Seq<u8>)
    requires
        entries_fit(entries),
    ensures
        table_in(fields_bytes(entries) + tail) == preceded(entries, table_in(tail)),
    decreases entries.len(),
{
    if entries.len() == 0 {
        assert(fields_bytes(entries) + tail =~= tail);
        if let Ok(pairs) = table_in(tail) {
            assert(entries + pairs =~= pairs);
        }
    } else {
        let shorter = entries.drop_last();
        let (key, value) = entries.last();
        let written = long_string_bytes(encode_utf8(value));
        let field = short_string_bytes(key) + (seq![FIELD_LONG_STRING] + (written + tail));
        assert(entries_fit(shorter)) by {
            assert forall|i: int| 0 <= i < shorter.len() implies encode_utf8(
                #[trigger] shorter[i].0,
            ).len() <= 255 && encode_utf8(shorter[i].1).len() <= u32::MAX by {
                assert(encode_utf8(entries[i].0).len() <= 255);
            }
        }
        law_table_round_trips(shorter, field);
        lemma_five_grouped(
            fields_bytes(shorter),
            short_string_bytes(key),
            seq![FIELD_LONG_STRING],
            written,
            tail,
        );
        assert(encode_utf8(entries[entries.len() - 1].0).len() <= 255);
        lemma_one_field(key, value, tail);
        if let Ok(pairs) = table_in(tail) {
            assert(shorter + (seq![(key, value)] + pairs) =~= entries + pairs);
        }
    }
}

/// Every queue is declared durable, and nothing else: the octet of bits
/// after its name is the durable one.
pub proof fn law_declaration_is_durable(queue: Seq<char>)
    ensures
        declare_method(queue).arguments[2 + short_string_bytes(queue).len() as int] == DURABLE,
{
    lemma_width(0, 2);
    lemma_width(0, 4);
}

/// basic.publish fits a frame.
pub proof fn lemma_publish_length(exchange: Seq<char>, routing_key: Seq<char>)
    ensures
        publish_method(exchange, routing_key).arguments.len() <= 1000,
{
    lemma_width(0, 2);
    lemma_short_string_length(exchange);
    lemma_short_string_length(routing_key);
}

/// basic.deliver fits a frame.
pub proof fn lemma_deliver_length(
    tag: Seq<char>,
    delivery_tag: u64,
    exchange: Seq<char>,
    routing_key: Seq<char>,
)
    ensures
        deliver_method(tag, delivery_tag, exchange, routing_key).arguments.len() <= 1000,
{
    lemma_width(delivery_tag as nat, 8);
    lemma_short_string_length(tag);
    lemma_short_string_length(exchange);
    lemma_short_string_length(routing_key);
}

/// basic.consume fits a frame.
pub proof fn lemma_consume_length(queue: Seq<char>, tag: Seq<char>)
    ensures
        consume_method(queue, tag).arguments.len() <= 1000,
{
    lemma_width(0, 2);
    lemma_width(0, 4);
    lemma_short_string_length(queue);
    lemma_short_string_length(tag);
}

/// queue.declare and queue.declare-ok fit a frame.
pub proof fn lemma_declare_length(queue: Seq<char>, messages: u32)
    ensures
        declare_method(queue).arguments.len() <= 1000,
        declare_ok_method(queue, messages).arguments.len() <= 1000,
{
    lemma_width(0, 2);
    lemma_width(0, 4);
    lemma_width(messages as nat, 4);
    lemma_short_string_length(queue);
}

/// A tune fits a frame.
pub proof fn lemma_tune_length(id: Id, channel_max: u16, frame_max: u32)
    ensures
        tune_method(id, channel_max, frame_max).arguments.len() == 8,
{
    lemma_width(channel_max as nat, 2);
    lemma_width(frame_max as nat, 4);
    lemma_width(0, 2);
}

/// A close fits a frame.
pub proof fn lemma_close_length(id: Id, code: u16, text: Seq<char>)
    ensures
        close_method(id, code, text).arguments.len() <= 1000,
{
    lemma_width(code as nat, 2);
    lemma_width(0, 2);
    lemma_short_string_length(text);
}

/// connection.open and connection.open-ok fit a frame, and so do
/// channel.open and channel.open-ok.
pub proof fn lemma_open_length(virtual_host: Seq<char>)
    ensures
        open_method(virtual_host).arguments.len() <= 1000,
        open_ok_method().arguments.len() <= 1000,
        channel_open_method().arguments.len() <= 1000,
        channel_open_ok_method().arguments.len() <= 1000,
{
    lemma_width(0, 4);
    lemma_short_string_length(virtual_host);
    lemma_short_string_length(Seq::empty());
}

/// connection.start fits a frame, and connection.start-ok is its response
/// and a few octets more.
pub proof fn lemma_start_length(user: Seq<char>, password: Seq<char>)
    ensures
        start_method().arguments.len() == 41,
        start_ok_method(user, password).arguments.len() == encode_utf8(
            plain_response(user, password),
        ).len() + 37,
{
    lemma_properties();
    lemma_width(17, 4);
    lemma_width(5, 4);
    lemma_width(encode_utf8(plain_response(user, password)).len(), 4);
}

} // verus!
