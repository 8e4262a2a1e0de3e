use rabbitmq::content;
use rabbitmq::content::{
    frames, read, Content, Progress, CLASS_BASIC, MAX_BODY, PERSISTENT, PROPERTY_FLAGS,
};
use rabbitmq::method::basic_ack;
use rabbitmq::wire::{put_longlong, put_short, Frame, Kind};

#[test]
fn content_is_a_header_and_the_body_frames_it_announces() {
    let body = vec![0x2a; 1000];
    let frames = frames(1, &body, 408);
    assert_eq!(frames.len(), 4, "a header and three bodies of 400");
    assert_eq!(frames[0].kind, Kind::Header);
    assert_eq!(&frames[0].payload[..4], &[0, 60, 0, 0]);
    assert_eq!(&frames[0].payload[4..12], &1000u64.to_be_bytes());
    assert_eq!(&frames[0].payload[12..14], &PROPERTY_FLAGS.to_be_bytes());
    assert_eq!(*frames[0].payload.last().expect("mode"), PERSISTENT);
    assert_eq!(frames[1].payload.len(), 400);
    let mut wire = Vec::new();
    for frame in &frames {
        wire.extend(frame.encode());
    }
    assert_eq!(read(&mut wire.as_slice()).expect("content"), body);
    let empty = content::frames(1, b"", 16);
    assert_eq!(empty.len(), 1, "an empty body is a header alone");
    assert!(read(&mut empty[0].encode().as_slice())
        .expect("empty")
        .is_empty());
}

#[test]
fn what_is_not_content_is_refused() {
    let method = basic_ack(1).frame(1).encode();
    assert!(read(&mut method.as_slice()).is_err(), "no header");
    let mut cut = Vec::new();
    for frame in &frames(1, b"abc", 16)[..1] {
        cut.extend(frame.encode());
    }
    assert!(read(&mut cut.as_slice()).is_err(), "broke off");
    let mut huge = Vec::new();
    put_short(&mut huge, CLASS_BASIC);
    put_short(&mut huge, 0);
    put_longlong(&mut huge, u64::MAX);
    put_short(&mut huge, 0);
    let bytes = Frame::new(Kind::Header, 1, huge).encode();
    assert!(read(&mut bytes.as_slice()).is_err(), "over the limit");
}

#[test]
fn a_content_header_is_forty_octets() {
    let header = &frames(7, b"abc", 4096)[0];
    assert_eq!(header.channel, 7);
    let mut expected = vec![0, 60, 0, 0, 0, 0, 0, 0, 0, 0, 0, 3, 0x90, 0, 24];
    expected.extend(b"application/octet-stream");
    expected.push(2);
    assert_eq!(header.payload, expected);
    assert_eq!(header.payload.len(), 40);
}

#[test]
fn a_frame_size_too_small_for_an_envelope_still_carries_an_octet() {
    for frame_max in [0, 1, 8, 9] {
        let frames = frames(1, b"abc", frame_max);
        assert_eq!(frames.len(), 4);
        assert_eq!(frames[1].payload, b"a");
        assert_eq!(frames[3].payload, b"c");
    }
    assert_eq!(frames(1, b"abc", 10)[1].payload, b"ab");
    for frame in &frames(1, &[1; 100], 20)[1..] {
        assert!(frame.encode().len() <= 20);
    }
}

#[test]
fn content_as_bytes_is_its_frames_one_after_the_other() {
    let mut wire = Vec::new();
    for frame in &frames(2, &[9; 50], 28) {
        wire.extend(frame.encode());
    }
    assert_eq!(content::encode(2, &[9; 50], 28), wire);
}

#[test]
fn reading_content_leaves_what_follows_it() {
    let mut wire = content::encode(1, b"one", 4096);
    wire.extend(content::encode(1, b"two", 4096));
    let mut reader = wire.as_slice();
    assert_eq!(read(&mut reader).expect("first"), b"one");
    assert_eq!(read(&mut reader).expect("second"), b"two");
    assert!(reader.is_empty());
}

#[test]
fn a_heartbeat_passes_a_body_by_and_not_a_header() {
    let heartbeat = Frame::new(Kind::Heartbeat, 0, Vec::new()).encode();
    let parts = frames(1, b"ab", 9);
    let mut wire = parts[0].encode();
    wire.extend(parts[1].encode());
    wire.extend(&heartbeat);
    wire.extend(parts[2].encode());
    assert_eq!(read(&mut wire.as_slice()).expect("content"), b"ab");
    let mut early = heartbeat;
    early.extend(parts[0].encode());
    let error = read(&mut early.as_slice()).err().expect("no header");
    assert_eq!(error.message, "content without its header");
    assert!(!error.retryable);
}

#[test]
fn a_body_over_the_limit_names_its_size_and_the_limit() {
    let mut header = Vec::new();
    put_short(&mut header, CLASS_BASIC);
    put_short(&mut header, 0);
    put_longlong(&mut header, MAX_BODY as u64 + 1);
    let bytes = Frame::new(Kind::Header, 1, header).encode();
    let error = read(&mut bytes.as_slice()).err().expect("over");
    assert_eq!(
        error.message,
        "a body of 67108865 bytes, over the 67108864 limit"
    );
    let short = Frame::new(Kind::Header, 1, vec![0, 60]).encode();
    let error = read(&mut short.as_slice()).err().expect("short");
    assert_eq!(error.message, "a method that ends before its arguments do");
}

#[test]
fn content_is_taken_frame_by_frame() {
    let parts = frames(1, b"abcd", 10);
    let Ok(Progress::More(content)) = Content::Header.take(Some(parts[0].clone())) else {
        panic!("a body of four is not whole with its header");
    };
    let Ok(Progress::More(content)) = content.take(Some(parts[1].clone())) else {
        panic!("nor with half of it");
    };
    let Ok(Progress::Whole(body)) = content.take(Some(parts[2].clone())) else {
        panic!("whole");
    };
    assert_eq!(body, b"abcd");
    let Ok(Progress::Whole(body)) = Content::Header.take(Some(frames(1, b"", 16)[0].clone()))
    else {
        panic!("an empty body is whole with its header");
    };
    assert!(body.is_empty());
    let Err(error) = (Content::Body { size: 4, body: vec![1] }).take(None) else {
        panic!("broke off");
    };
    assert_eq!(error.message, "a body that broke off");
}

#[test]
fn a_body_longer_than_its_header_announces_is_refused() {
    let mut wire = frames(1, b"abc", 4096)[0].encode();
    wire.extend(Frame::new(Kind::Body, 1, b"ab".to_vec()).encode());
    let mut over = wire.clone();
    over.extend(Frame::new(Kind::Body, 1, b"cd".to_vec()).encode());
    let error = read(&mut over.as_slice()).err().expect("longer");
    assert_eq!(error.message, "a body longer than its header announces");
    assert!(!error.retryable);
    wire.extend(Frame::new(Kind::Body, 1, b"c".to_vec()).encode());
    assert_eq!(read(&mut wire.as_slice()).expect("content"), b"abc");
}

#[test]
fn the_frame_that_completes_a_body_is_known_before_it_is_taken() {
    let parts = frames(1, b"abcd", 10);
    assert!(!Content::Header.completes(&Some(parts[0].clone())));
    assert!(Content::Header.completes(&Some(frames(1, b"", 16)[0].clone())));
    assert!(!Content::Header.completes(&Some(parts[1].clone())));
    let half = Content::Body { size: 4, body: vec![1, 2] };
    assert!(half.completes(&Some(parts[1].clone())));
    assert!(!half.completes(&Some(Frame::new(Kind::Body, 1, vec![3]))));
    assert!(!half.completes(&Some(Frame::new(Kind::Body, 1, vec![3, 4, 5]))));
    assert!(!half.completes(&Some(Frame::new(Kind::Heartbeat, 0, Vec::new()))));
    assert!(!half.completes(&None));
}

#[test]
fn the_properties_of_a_content_header_are_skipped() {
    let mut header = Vec::new();
    put_short(&mut header, CLASS_BASIC);
    put_short(&mut header, 0);
    put_longlong(&mut header, 2);
    let mut bare = Frame::new(Kind::Header, 1, header.clone()).encode();
    header.extend([0xFF, 0xFC, 1, 2, 3, 4, 5]);
    let mut full = Frame::new(Kind::Header, 1, header).encode();
    let body = Frame::new(Kind::Body, 1, vec![7, 8]).encode();
    bare.extend(&body);
    full.extend(&body);
    assert_eq!(read(&mut bare.as_slice()).expect("bare"), [7, 8]);
    assert_eq!(read(&mut full.as_slice()).expect("full"), [7, 8]);
}
