use rabbitmq::method::{
    basic_ack, basic_consume, basic_consume_ok, basic_deliver, basic_publish, can_frame,
    channel_open, channel_open_ok, close, close_of, connection_open, connection_open_ok,
    connection_start,
    connection_start_ok, consume_of, declare_ok_of, deliver_of, delivery_tag_of, login_of,
    plain_parts, publish_of, queue_declare, queue_declare_ok, queue_of, tag_of, tune, tune_of,
    virtual_host_of, Method, CHANNEL_OPEN, CHANNEL_OPEN_OK, CONNECTION_CLOSE, CONNECTION_CLOSE_OK,
    CONNECTION_OPEN_OK, CONNECTION_START, CONNECTION_START_OK, CONNECTION_TUNE,
    CONNECTION_TUNE_OK, DURABLE,
};
use rabbitmq::wire::{
    put_long_string, put_short_string, read_frame, table, Frame, Kind, Reader,
};

fn back(method: &Method) -> Method {
    let frame = method.frame(1);
    let bytes = frame.encode();
    let read = read_frame(&mut bytes.as_slice())
        .expect("read")
        .expect("one");
    assert_eq!(read.channel, 1);
    Method::of(&read).expect("method")
}

#[test]
fn the_connection_methods_round_trip() {
    let start = back(&connection_start());
    assert!(start.is(CONNECTION_START));
    assert_eq!(start.label(), "10.10");
    let mut reader = start.reader();
    assert_eq!(
        (reader.octet().expect("0"), reader.octet().expect("9")),
        (0, 9)
    );
    let start_ok = back(&connection_start_ok("xmip", "secret"));
    assert_eq!(
        login_of(&start_ok).expect("login"),
        ("xmip".to_string(), "secret".to_string())
    );
    let tuned = back(&tune(CONNECTION_TUNE, 1, 4096));
    assert!(tuned.is(CONNECTION_TUNE));
    assert_eq!(tune_of(&tuned).expect("tune"), (1, 4096));
    assert_eq!(
        tune_of(&back(&tune(CONNECTION_TUNE_OK, 7, 8))).expect("tune-ok"),
        (7, 8)
    );
    let open = back(&connection_open("/vhost"));
    assert_eq!(virtual_host_of(&open).expect("vhost"), "/vhost");
    assert!(back(&connection_open_ok()).is(CONNECTION_OPEN_OK));
    let close = back(&close(CONNECTION_CLOSE, 403, "ACCESS_REFUSED"));
    assert_eq!(
        close_of(&close).expect("close"),
        (403, "ACCESS_REFUSED".to_string())
    );
    assert!(back(&Method::bare(CONNECTION_CLOSE_OK))
        .arguments
        .is_empty());
    assert!(back(&channel_open()).is(CHANNEL_OPEN));
    assert!(back(&channel_open_ok()).is(CHANNEL_OPEN_OK));
}

#[test]
fn the_queue_and_basic_methods_round_trip() {
    let declare = back(&queue_declare("orders"));
    assert_eq!(queue_of(&declare).expect("queue"), "orders");
    assert_eq!(
        declare.arguments[2 + 1 + 6],
        DURABLE,
        "durable and nothing else"
    );
    assert_eq!(
        declare_ok_of(&back(&queue_declare_ok("orders", 3))).expect("ok"),
        ("orders".to_string(), 3)
    );
    let consume = back(&basic_consume("orders", "tag-1"));
    assert_eq!(queue_of(&consume).expect("queue"), "orders");
    assert_eq!(
        consume_of(&consume).expect("consume"),
        ("orders".to_string(), "tag-1".to_string())
    );
    assert_eq!(
        tag_of(&back(&basic_consume_ok("tag-1"))).expect("tag"),
        "tag-1"
    );
    assert_eq!(
        publish_of(&back(&basic_publish("", "orders"))).expect("publish"),
        (String::new(), "orders".to_string())
    );
    let deliver = back(&basic_deliver("tag-1", 9, "", "orders"));
    assert_eq!(
        deliver_of(&deliver).expect("deliver"),
        (9, String::new(), "orders".to_string())
    );
    assert_eq!(delivery_tag_of(&back(&basic_ack(9))).expect("ack"), 9);
    let body = Frame::new(Kind::Body, 1, vec![1]);
    assert!(Method::of(&body).is_err(), "not a method");
    let short = Frame::new(Kind::Method, 1, vec![0]);
    assert!(Method::of(&short).is_err(), "too short to name one");
    assert!(deliver_of(&basic_ack(9)).is_err(), "ends early");
}

#[test]
fn the_methods_are_the_octets_that_brokers_expect() {
    let mut start = vec![0, 9, 0, 0, 0, 17, 7];
    start.extend(b"product");
    start.push(b'S');
    start.extend([0, 0, 0, 4]);
    start.extend(b"xmip");
    start.extend([0, 0, 0, 5]);
    start.extend(b"PLAIN");
    start.extend([0, 0, 0, 5]);
    start.extend(b"en_US");
    assert_eq!(connection_start().arguments, start);
    assert_eq!(
        tune(CONNECTION_TUNE_OK, 1, 1_048_576).arguments,
        [0, 1, 0, 16, 0, 0, 0, 0]
    );
    assert_eq!(connection_open("/").arguments, [1, b'/', 0, 0]);
    assert_eq!(channel_open().arguments, [0]);
    assert_eq!(channel_open_ok().arguments, [0, 0, 0, 0]);
    assert_eq!(connection_open_ok().arguments, [0]);
    assert_eq!(
        queue_declare("q").arguments,
        [0, 0, 1, b'q', 2, 0, 0, 0, 0]
    );
    assert_eq!(
        queue_declare_ok("q", 258).arguments,
        [1, b'q', 0, 0, 1, 2, 0, 0, 0, 0]
    );
    assert_eq!(
        basic_consume("q", "t").arguments,
        [0, 0, 1, b'q', 1, b't', 0, 0, 0, 0, 0]
    );
    assert_eq!(basic_publish("", "q").arguments, [0, 0, 0, 1, b'q', 0]);
    assert_eq!(
        basic_deliver("t", 3, "", "q").arguments,
        [1, b't', 0, 0, 0, 0, 0, 0, 0, 3, 0, 0, 1, b'q']
    );
    assert_eq!(basic_ack(5).arguments, [0, 0, 0, 0, 0, 0, 0, 5, 0]);
    assert_eq!(
        close(CONNECTION_CLOSE, 200, "bye").arguments,
        [0, 200, 3, b'b', b'y', b'e', 0, 0, 0, 0]
    );
}

#[test]
fn the_server_properties_read_as_the_table_they_are() {
    let start = connection_start();
    let mut reader = start.reader();
    reader.octet().expect("0");
    reader.octet().expect("9");
    let fields = reader.long_string().expect("table");
    assert_eq!(
        table(&fields).expect("fields"),
        [("product".to_string(), "xmip".to_string())]
    );
}

#[test]
fn a_mechanism_other_than_plain_is_not_spoken() {
    let mut arguments = Vec::new();
    put_long_string(&mut arguments, b"");
    put_short_string(&mut arguments, "EXTERNAL");
    put_long_string(&mut arguments, b"\0user\0password");
    let error = login_of(&Method::new(CONNECTION_START_OK, arguments))
        .err()
        .expect("not plain");
    assert_eq!(error.message, "a mechanism not spoken here: EXTERNAL");
    assert!(!error.retryable);
}

#[test]
fn a_plain_response_is_read_between_its_nuls() {
    let parts = |response: &str| plain_parts(response);
    let pair = |user: &str, password: &str| (user.to_string(), password.to_string());
    assert_eq!(parts("\0user\0password"), pair("user", "password"));
    assert_eq!(parts("as\0user\0pass\0more"), pair("user", "pass"));
    assert_eq!(parts("\0user"), pair("user", ""));
    assert_eq!(parts("user"), pair("", ""));
    assert_eq!(parts(""), pair("", ""));
    assert_eq!(parts("\0\0"), pair("", ""));
    assert_eq!(parts("\0å\0ö"), pair("å", "ö"));
}

#[test]
fn a_login_that_is_not_utf8_is_read_with_replacements() {
    let mut arguments = Vec::new();
    put_long_string(&mut arguments, b"");
    put_short_string(&mut arguments, "PLAIN");
    put_long_string(&mut arguments, b"\0us\xFFer\0pass");
    let (user, password) = login_of(&Method::new(CONNECTION_START_OK, arguments)).expect("login");
    assert_eq!(user, "us\u{FFFD}er");
    assert_eq!(password, "pass");
}

#[test]
fn arguments_that_end_early_are_refused_wherever_they_end() {
    let early = "a method that ends before its arguments do";
    let cut = |method: &Method, length: usize| {
        Method::new(method.id, method.arguments[..length].to_vec())
    };
    let open = connection_open("/vhost");
    assert_eq!(virtual_host_of(&cut(&open, 3)).err().expect("cut").message, early);
    let tuned = tune(CONNECTION_TUNE, 1, 2);
    assert_eq!(tune_of(&cut(&tuned, 1)).err().expect("cut").message, early);
    assert_eq!(tune_of(&cut(&tuned, 5)).err().expect("cut").message, early);
    let closing = close(CONNECTION_CLOSE, 403, "x");
    assert_eq!(close_of(&cut(&closing, 2)).err().expect("cut").message, early);
    assert_eq!(queue_of(&cut(&queue_declare("q"), 2)).err().expect("cut").message, early);
    let declared = queue_declare_ok("q", 1);
    assert_eq!(declare_ok_of(&cut(&declared, 4)).err().expect("cut").message, early);
    let consume = basic_consume("q", "t");
    assert_eq!(consume_of(&cut(&consume, 4)).err().expect("cut").message, early);
    assert_eq!(tag_of(&cut(&basic_consume_ok("t"), 1)).err().expect("cut").message, early);
    let publish = basic_publish("", "q");
    assert_eq!(publish_of(&cut(&publish, 3)).err().expect("cut").message, early);
    assert_eq!(delivery_tag_of(&cut(&basic_ack(1), 7)).err().expect("cut").message, early);
    let invalid = Method::new(CONNECTION_TUNE, vec![2, 0xC3, 0x28]);
    assert_eq!(tag_of(&invalid).err().expect("text").message, "a string that is not UTF-8");
}

#[test]
fn a_name_longer_than_a_short_string_is_cut() {
    let long = "q".repeat(300);
    let declare = back(&queue_declare(&long));
    assert_eq!(queue_of(&declare).expect("queue"), "q".repeat(255));
    let fits = "q".repeat(255);
    assert_eq!(queue_of(&back(&queue_declare(&fits))).expect("queue"), fits);
}

#[test]
fn an_ordinary_login_can_be_framed() {
    assert!(can_frame("xmip", "secret"));
    assert!(can_frame("", ""));
    assert!(can_frame("u", &"p".repeat(100_000)));
}

#[test]
fn a_clone_of_a_method_is_that_method() {
    let method = basic_deliver("tag", 7, "exchange", "key");
    assert_eq!(method.clone(), method);
    assert_eq!(
        method.encode(9),
        method.frame(9).encode(),
        "as bytes, its frame's"
    );
    let mut reader = Reader::new(&method.arguments);
    assert_eq!(reader.short_string().expect("tag"), "tag");
    assert_eq!(reader.longlong().expect("delivery tag"), 7);
}
