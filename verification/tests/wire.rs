use rabbitmq::wire::{
    frame_head, frame_of, heartbeat, len32, put_empty_table, put_long, put_long_string,
    put_longlong, put_octet, put_short, put_short_string, read_frame, table, Frame, Kind, Reader,
    FRAME_END,
};

#[test]
fn a_frame_round_trips_through_its_envelope() {
    let frame = Frame::new(Kind::Method, 1, vec![0, 10, 0, 11]);
    let bytes = frame.encode();
    assert_eq!(bytes[0], 1);
    assert_eq!(&bytes[1..3], &[0, 1]);
    assert_eq!(&bytes[3..7], &[0, 0, 0, 4]);
    assert_eq!(*bytes.last().expect("frame end"), FRAME_END);
    let back = read_frame(&mut bytes.as_slice()).expect("read").expect("one");
    assert_eq!(back, frame);
    assert!(read_frame(&mut &b""[..]).expect("closed").is_none());
    assert_eq!(Kind::of(8), Some(Kind::Heartbeat));
    assert_eq!(Kind::Body.octet(), 3);
}

#[test]
fn what_is_not_amqp_is_refused() {
    assert!(read_frame(&mut &b"AMQP\x00\x00\x09\x01"[..]).is_err(), "type");
    let mut bad_end = Frame::new(Kind::Body, 1, vec![7]).encode();
    *bad_end.last_mut().expect("last") = 0;
    assert!(read_frame(&mut bad_end.as_slice()).is_err(), "frame end");
    let huge = [3u8, 0, 1, 0xFF, 0xFF, 0xFF, 0xFF];
    assert!(read_frame(&mut &huge[..]).is_err(), "over the limit");
    let short = [1u8, 0, 1, 0, 0, 0, 4, 0];
    assert!(read_frame(&mut &short[..]).is_err(), "ends mid-payload");
}

#[test]
fn every_value_encoding_round_trips() {
    let mut out = Vec::new();
    put_octet(&mut out, 7);
    put_short(&mut out, 4096);
    put_long(&mut out, 131_072);
    put_longlong(&mut out, u64::MAX);
    put_short_string(&mut out, "orders");
    put_long_string(&mut out, b"a longer one");
    put_empty_table(&mut out);
    let mut reader = Reader::new(&out);
    assert_eq!(reader.octet().expect("octet"), 7);
    assert_eq!(reader.short().expect("short"), 4096);
    assert_eq!(reader.long().expect("long"), 131_072);
    assert_eq!(reader.longlong().expect("longlong"), u64::MAX);
    assert_eq!(reader.short_string().expect("short string"), "orders");
    assert_eq!(reader.long_string().expect("long string"), b"a longer one");
    reader.skip_table().expect("table");
    assert!(reader.rest().is_empty());
    assert!(reader.octet().is_err(), "nothing left");
    assert_eq!(len32(usize::MAX), u32::MAX);
}

#[test]
fn a_field_table_reads_the_types_a_broker_sends() {
    let mut inner = Vec::new();
    put_short_string(&mut inner, "publish");
    inner.push(b't');
    inner.push(1);
    let mut out = Vec::new();
    put_short_string(&mut out, "product");
    out.push(b'S');
    put_long_string(&mut out, b"RabbitMQ");
    put_short_string(&mut out, "channel_max");
    out.push(b'I');
    put_long(&mut out, 2047);
    put_short_string(&mut out, "capabilities");
    out.push(b'F');
    put_long_string(&mut out, &inner);
    put_short_string(&mut out, "nothing");
    out.push(b'V');
    let pairs = table(&out).expect("table");
    assert_eq!(pairs[0], ("product".into(), "RabbitMQ".into()));
    assert_eq!(pairs[1], ("channel_max".into(), "2047".into()));
    assert!(pairs[2].1.contains("publish"));
    assert_eq!(pairs[3], ("nothing".into(), String::new()));
    let mut unknown = Vec::new();
    put_short_string(&mut unknown, "x");
    unknown.push(b'?');
    assert!(table(&unknown).expect("stops").is_empty());
}

#[test]
fn field_tables_print_numbers_truths_and_nested_tables() {
    let mut inner = Vec::new();
    put_short_string(&mut inner, "a");
    inner.push(b't');
    inner.push(0);
    put_short_string(&mut inner, "b");
    inner.push(b'I');
    put_long(&mut inner, 0xFFFF_FFFE);
    assert_eq!(
        table(&inner).expect("table"),
        [
            ("a".to_string(), "false".to_string()),
            ("b".to_string(), "-2".to_string())
        ]
    );
    let mut outer = Vec::new();
    put_short_string(&mut outer, "in");
    outer.push(b'F');
    put_long_string(&mut outer, &inner);
    assert_eq!(
        table(&outer).expect("table"),
        [(
            "in".to_string(),
            "[(\"a\", \"false\"), (\"b\", \"-2\")]".to_string()
        )]
    );
    assert!(table(b"").expect("empty").is_empty());
}

#[test]
fn a_field_table_that_ends_in_a_value_is_refused() {
    let early = "a method that ends before its arguments do";
    let mut cut = Vec::new();
    put_short_string(&mut cut, "k");
    assert_eq!(table(&cut).err().expect("no tag").message, early);
    cut.push(b'S');
    cut.extend([0, 0, 0, 9, 1]);
    assert_eq!(table(&cut).err().expect("short").message, early);
    let mut invalid = Vec::new();
    put_short_string(&mut invalid, "k");
    invalid.push(b'S');
    put_long_string(&mut invalid, b"\xFF");
    assert_eq!(
        table(&invalid).err().expect("text").message,
        "a string that is not UTF-8"
    );
    let mut stops = Vec::new();
    put_short_string(&mut stops, "k");
    stops.push(b'V');
    put_short_string(&mut stops, "x");
    stops.push(b'?');
    stops.push(0xFF);
    assert_eq!(
        table(&stops).expect("stops"),
        [("k".to_string(), String::new())],
        "what was read before an unknown type is kept"
    );
}

#[test]
fn frames_that_are_refused_say_why() {
    let why = |bytes: &[u8]| {
        let mut reader = bytes;
        let error = read_frame(&mut reader).err().expect("refused");
        (error.message, error.retryable, reader.len())
    };
    assert_eq!(
        why(b"220 mail.example ESMTP\r\n"),
        ("a frame type AMQP does not define: 50".to_string(), false, 17)
    );
    assert_eq!(
        why(&[3, 0, 1, 0, 16, 0, 1, 9, 9]),
        (
            "a frame of 1048577 bytes, over the 1048576 byte limit".to_string(),
            false,
            2
        )
    );
    let (message, retryable, left) = why(&[1, 0, 1, 0, 0, 0, 4, 0]);
    assert!(message.starts_with("reading a frame payload"));
    assert!(retryable, "a connection that broke may come back");
    assert_eq!(left, 0);
    assert_eq!(
        why(&[8, 0, 0, 0, 0, 0, 0, 0xCF, 7]),
        ("a frame that does not end in 0xCE".to_string(), false, 1)
    );
    for length in 1..7 {
        let (message, retryable, left) = why(&[1, 0, 1, 0, 0, 0, 0][..length]);
        assert!(message.starts_with("reading a frame header"));
        assert!(retryable, "closed inside a frame, not between frames");
        assert_eq!(left, 0);
    }
    let mut closed = &[][..];
    assert!(read_frame(&mut closed).expect("closed").is_none());
}

#[test]
fn a_frame_is_read_in_two_parts_as_it_is_in_one() {
    let frame = Frame::new(Kind::Body, 258, vec![1, 2, 3]);
    let bytes = frame.encode();
    assert_eq!(bytes, [3, 1, 2, 0, 0, 0, 3, 1, 2, 3, 0xCE]);
    let head = frame_head(&bytes[..7]).expect("head");
    assert_eq!((head.kind, head.channel, head.size), (Kind::Body, 258, 3));
    assert_eq!(frame_of(head, bytes[7..].to_vec()).expect("frame"), frame);
    let head = frame_head(&bytes[..7]).expect("head");
    assert!(frame_of(head, Vec::new()).is_err(), "no frame end");
}

#[test]
fn every_kind_is_its_octet_and_its_name() {
    for (kind, octet, name) in [
        (Kind::Method, 1, "Method"),
        (Kind::Header, 2, "Header"),
        (Kind::Body, 3, "Body"),
        (Kind::Heartbeat, 8, "Heartbeat"),
    ] {
        assert_eq!(kind.octet(), octet);
        assert_eq!(Kind::of(octet), Some(kind));
        assert_eq!(kind.name(), name);
        assert_eq!(format!("{kind:?}"), name);
    }
    for octet in [0, 4, 5, 6, 7, 9, 255] {
        assert_eq!(Kind::of(octet), None);
    }
    assert_eq!(heartbeat(), [8, 0, 0, 0, 0, 0, 0, FRAME_END]);
}

#[test]
fn a_short_string_is_cut_at_255_octets_and_a_long_one_is_not() {
    let long = "x".repeat(256);
    let mut out = Vec::new();
    put_short_string(&mut out, &long);
    assert_eq!(out.len(), 256);
    assert_eq!(out[0], 255);
    let mut reader = Reader::new(&out);
    assert_eq!(reader.short_string().expect("text"), "x".repeat(255));
    let split = "x".repeat(254) + "å";
    let mut out = Vec::new();
    put_short_string(&mut out, &split);
    let mut reader = Reader::new(&out);
    assert!(reader.short_string().is_err(), "cut inside a character");
    let mut out = Vec::new();
    put_long_string(&mut out, long.as_bytes());
    assert_eq!(&out[..4], &[0, 0, 1, 0]);
}
