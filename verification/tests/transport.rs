use std::time::Duration;

use rabbitmq::arrived::Arrived;
use rabbitmq::client::{Client, Login, Next, Step};
use rabbitmq::queues::Queues;
use rabbitmq::session::{Answer, Event, Outcome, Session};
use rabbitmq::transport::{target, RabbitMqTransport, Receiving, Sending, Taking};
use rabbitmq::wire::{heartbeat, read_frame, Frame, MAX_FRAME, PROTOCOL_HEADER};

const PEER: &str = "127.0.0.1:49152";
const PORT: u16 = 49152;

fn secs(n: u64) -> Duration {
    Duration::from_secs(n)
}

fn far_end(queue: &str) -> RabbitMqTransport {
    RabbitMqTransport::new("127.0.0.1:0", queue)
        .logging_in(Login::new("xmip", "secret"))
        .timing_out_after(secs(2))
}

/// The bytes a peer wrote as the frames they are.
fn frames_of(bytes: &[u8]) -> Vec<Frame> {
    let mut reader = bytes;
    let mut frames = Vec::new();
    while !reader.is_empty() {
        frames.push(read_frame(&mut reader).expect("a frame").expect("whole"));
    }
    frames
}

/// Everything a client's side says to `bytes`, up to what comes of them.
fn near_hears(hear: &mut dyn FnMut(Option<Frame>) -> Step, bytes: &[u8]) -> (Vec<u8>, Next) {
    let mut said = Vec::new();
    for frame in frames_of(bytes) {
        let step = hear(Some(frame));
        said.extend(step.write);
        if !matches!(step.next, Next::Read) {
            return (said, step.next);
        }
    }
    (said, Next::Read)
}

/// Everything the far side says to `bytes`, and each thing that came of them.
fn far_hears(
    hear: &mut dyn FnMut(Option<Frame>) -> Answer,
    bytes: &[u8],
) -> (Vec<u8>, Vec<Outcome>) {
    let mut said = Vec::new();
    let mut outcomes = Vec::new();
    for frame in frames_of(bytes) {
        let answer = hear(Some(frame));
        said.extend(answer.write);
        if !matches!(answer.next, Outcome::Read) {
            outcomes.push(answer.next);
        }
    }
    (said, outcomes)
}

/// A header as the eight octets a client opens with.
fn header_of(bytes: &[u8]) -> [u8; 8] {
    bytes.try_into().expect("eight octets")
}

/// Have `sending` and a session of `far` talk until both are done: what was
/// published, and the queues the session is left with.
fn send_to_session(
    sending: &mut Sending,
    header: &[u8],
    far: &RabbitMqTransport,
    queues: Queues,
) -> (Vec<Arrived>, Session) {
    let (session, greeting) = far.accept_one(PEER, PORT, &header_of(header));
    let mut session = session.with_queues(queues);
    session.next_publish();
    let mut to_near = greeting.write;
    let mut published = Vec::new();
    let mut gone = false;
    loop {
        let (to_far, next) = near_hears(&mut |frame| sending.hear(frame), &to_near);
        if next == Next::Closed {
            break;
        }
        assert_eq!(next, Next::Read);
        let (said, outcomes) = far_hears(&mut |frame| session.hear(frame), &to_far);
        for outcome in outcomes {
            match outcome {
                Outcome::Accepted => {}
                Outcome::Happened(Event::Published(arrived)) => published.push(arrived),
                Outcome::Gone => gone = true,
                other => panic!("{other:?}"),
            }
        }
        to_near = said;
    }
    assert!(gone, "closed");
    (published, session)
}

/// Have `receiving` and `session` talk until the queue is quiet, and close:
/// what the session reported.
fn receive_from_session(
    receiving: &mut Receiving,
    header: &[u8],
    far: &RabbitMqTransport,
    queues: Queues,
) -> (Vec<Event>, Session) {
    let (session, greeting) = far.accept_one(PEER, PORT, &header_of(header));
    let mut session = session.with_queues(queues);
    session.next_event();
    let mut to_near = greeting.write;
    let mut events = Vec::new();
    loop {
        let (mut to_far, next) = near_hears(&mut |frame| receiving.hear(frame), &to_near);
        if next == Next::Closed {
            break;
        }
        assert_eq!(next, Next::Read);
        if to_far.is_empty() {
            assert!(receiving.awaits_delivery());
            to_far = receiving.quiet();
        }
        let (said, outcomes) = far_hears(&mut |frame| session.hear(frame), &to_far);
        for outcome in outcomes {
            match outcome {
                Outcome::Happened(event) => events.push(event),
                Outcome::Accepted | Outcome::Gone => {}
                other => panic!("{other:?}"),
            }
        }
        to_near = said;
    }
    (events, session)
}

/// Have `sending` and a take of `far` talk until the take is done.
fn round(
    sending: &mut Sending,
    header: &[u8],
    far: &RabbitMqTransport,
) -> Result<Arrived, rabbitmq::error::Error> {
    let (mut taking, greeting): (Taking, Answer) =
        far.take_one(PEER, PORT, &header_of(header));
    let mut to_near = greeting.write;
    loop {
        let (to_far, next) = near_hears(&mut |frame| sending.hear(frame), &to_near);
        assert_eq!(next, Next::Read);
        let (said, outcomes) = far_hears(
            &mut |frame| {
                assert!(taking.tags_last(&frame));
                taking.hear(frame)
            },
            &to_far,
        );
        for outcome in outcomes {
            return match outcome {
                Outcome::Happened(Event::Published(arrived)) => {
                    let (_, next) = near_hears(&mut |frame| sending.hear(frame), &said);
                    assert_eq!(next, Next::Closed);
                    Ok(arrived)
                }
                Outcome::Failed(error) => Err(error),
                other => panic!("{other:?}"),
            };
        }
        to_near = said;
    }
}

fn loopback_round(payload: &[u8]) -> Arrived {
    let loopback = RabbitMqTransport::loopback(secs(5));
    let (mut sending, header) = loopback.send_to("127.0.0.1:5672", payload);
    assert_eq!(sending.broker(), "127.0.0.1:5672");
    round(&mut sending, &header, &loopback).expect("round")
}

#[test]
fn a_client_publishes_to_a_session_and_the_session_delivers_to_a_receiver() {
    let far_end = far_end("orders");
    let address = "127.0.0.1:5672".to_string();
    let long = vec![0x2a; 300_000];
    let near = RabbitMqTransport::new(&address, "orders")
        .logging_in(Login::new("xmip", "secret"))
        .timing_out_after(secs(2));
    let mut queues = Queues::new();
    for (target, expected, queue) in [
        ("orders".to_string(), &b"order 1"[..], "orders"),
        (format!("rabbitmq://{address}"), &long, "orders"),
        (format!("rabbitmq://{address}/other"), b"", "other"),
    ] {
        let (mut sending, header) = near.send(&target, expected);
        assert_eq!(sending.broker(), address);
        let (published, session) = send_to_session(&mut sending, &header, &far_end, queues);
        assert_eq!(session.user(), "xmip");
        assert_eq!(session.virtual_host(), "/");
        assert_eq!(published.len(), 1, "one");
        assert_eq!(published[0].bytes, expected);
        assert_eq!(
            published[0].origin_uri,
            format!("rabbitmq://{PEER}/{queue}"),
            "the default exchange"
        );
        queues = session.into_queues();
    }
    assert_eq!(queues.get("orders").expect("orders").len(), 2);
    assert_eq!(queues.get("other").expect("other").len(), 1);
    let (mut receiving, header) = RabbitMqTransport::new(&address, "orders")
        .logging_in(Login::new("xmip", "secret"))
        .timing_out_after(Duration::from_millis(300))
        .receive();
    let (events, session) = receive_from_session(&mut receiving, &header, &far_end, queues);
    assert_eq!(events[0], Event::Declared("orders".to_string()));
    assert_eq!(events[1], Event::Consuming("orders".to_string()));
    assert_eq!(events[2], Event::Acked(1));
    assert_eq!(events[3], Event::Acked(2));
    assert_eq!(events.len(), 4);
    assert_eq!(
        session.queues().get("other").expect("other").len(),
        1,
        "not consumed"
    );
    let arrived = receiving.into_arrived();
    assert_eq!(arrived.len(), 2);
    assert_eq!(arrived[0].bytes, b"order 1");
    assert!(arrived[0].origin_uri.ends_with("/orders?delivery-tag=1"));
    assert_eq!(arrived[1].bytes, long, "many frames, one body");
    assert!(arrived[1].origin_uri.ends_with("/orders?delivery-tag=2"));
}

#[test]
fn a_refused_login_and_a_broker_that_is_not_amqp_are_permanent() {
    let far_end = far_end("x");
    let (mut stranger, header) = RabbitMqTransport::new("127.0.0.1:5672", "x")
        .logging_in(Login::new("xmip", "wrong"))
        .timing_out_after(secs(2))
        .connect();
    let (mut session, greeting) = far_end.accept_one(PEER, PORT, &header_of(&header));
    let (start_ok, next) = near_hears(&mut |frame| stranger.hear(frame), &greeting.write);
    assert_eq!(next, Next::Read);
    let (close, outcomes) = far_hears(&mut |frame| session.hear(frame), &start_ok);
    let [Outcome::Failed(refused)] = outcomes.as_slice() else {
        panic!("refused here too");
    };
    assert!(refused.message.contains("403"), "{refused:?}");
    let (close_ok, next) = near_hears(&mut |frame| stranger.hear(frame), &close);
    assert!(!close_ok.is_empty(), "the close is answered");
    let Next::Failed(error) = next else {
        panic!("refused");
    };
    assert!(!error.retryable, "{error:?}");
    assert!(error.message.contains("403 ACCESS_REFUSED"), "{error:?}");

    let mut greeting = &b"220 mail.example ESMTP\r\n"[..];
    let error = read_frame(&mut greeting).err().expect("not amqp");
    assert!(!error.retryable, "{error:?}");
    let transport = RabbitMqTransport::new("127.0.0.1:0", "x");
    assert_eq!(transport.name(), "rabbitmq");
    assert!(transport.directions().receives() && transport.directions().sends());
    assert_eq!(transport.resolve("rabbitmq://h:1/a"), ("h:1", "a"));
    assert_eq!(transport.resolve("rabbitmq://h:1"), ("h:1", "x"));
    assert_eq!(transport.resolve("b"), ("127.0.0.1:0", "b"));
}

#[test]
fn the_loopback_round_returns_the_payload_and_its_origin() {
    let arrived = loopback_round(b"published");
    assert_eq!(arrived.bytes, b"published");
    assert!(arrived.origin_uri.starts_with("rabbitmq://127.0.0.1:"));
    assert!(arrived.origin_uri.contains("probe"));
}

#[test]
fn the_loopback_returns_the_edge_payloads_whole() {
    let every_octet: Vec<u8> = (0..=255).collect();
    for (name, payload) in [
        ("nothing", Vec::new()),
        ("one octet", vec![0]),
        ("every octet", every_octet),
        ("frame ends", vec![0xCE; 64]),
        ("a protocol header", PROTOCOL_HEADER.to_vec()),
        ("a frame", heartbeat()),
        ("text", "åäö \u{1F407}\r\n".as_bytes().to_vec()),
        ("just under a frame", vec![1; MAX_FRAME - 9]),
        ("a frame whole", vec![2; MAX_FRAME - 8]),
        ("just over a frame", vec![3; MAX_FRAME - 7]),
        ("three frames", vec![4; 3 * MAX_FRAME]),
    ] {
        let arrived = loopback_round(&payload);
        assert!(arrived.bytes == payload, "{name} came back changed");
    }
}

#[test]
fn targets_resolve_to_a_broker_and_a_queue() {
    assert_eq!(target("rabbitmq", "rabbitmq://h/q"), Some(("h", "q")));
    assert_eq!(target("rabbitmq", "rabbitmq://h"), Some(("h", "")));
    assert_eq!(target("rabbitmq", "rabbitmq://h/"), Some(("h", "")));
    assert_eq!(target("rabbitmq", "rabbitmq://h/a/b"), Some(("h", "a/b")));
    assert_eq!(target("rabbitmq", "rabbitmq://"), Some(("", "")));
    assert_eq!(target("rabbitmq", "rabbitmq:/h/q"), None);
    assert_eq!(target("rabbitmq", "amqp://h/q"), None);
    assert_eq!(target("amqp", "amqp://h/q"), Some(("h", "q")));
    assert_eq!(target("rabbitmq", ""), None);
    let transport = RabbitMqTransport::new("broker", "queue");
    assert_eq!(transport.resolve("rabbitmq://h/"), ("h", "queue"));
    assert_eq!(transport.resolve("a/b"), ("broker", "a/b"));
    assert_eq!(transport.resolve(""), ("broker", ""));
}

#[test]
fn a_transport_is_built_one_part_at_a_time() {
    let transport = RabbitMqTransport::new("h:5672", "q");
    assert_eq!(transport.broker(), "h:5672");
    assert_eq!(transport.timeout(), None);
    assert_eq!(
        transport.timing_out_after(secs(3)).clone().timeout(),
        Some(secs(3))
    );
    let loopback = RabbitMqTransport::loopback(secs(9));
    assert_eq!(loopback.broker(), "127.0.0.1:0");
    assert_eq!(loopback.timeout(), Some(secs(9)));
    assert_eq!(loopback.resolve("rabbitmq://h"), ("h", "probe"));
}

#[test]
fn a_client_that_closes_without_publishing_fails_the_take() {
    let far = RabbitMqTransport::loopback(secs(5));
    let (mut client, header): (Client, Vec<u8>) =
        Client::connect("127.0.0.1:5672", &Login::default());
    let (mut taking, greeting) = far.take_one(PEER, PORT, &header_of(&header));
    let mut to_near = greeting.write;
    let mut failure = None;
    for _ in 0..6 {
        let (mut to_far, next) = near_hears(&mut |frame| client.hear(frame), &to_near);
        if next == Next::Connected {
            to_far = client.close();
        }
        let (said, outcomes) = far_hears(&mut |frame| taking.hear(frame), &to_far);
        for outcome in outcomes {
            if let Outcome::Failed(error) = outcome {
                failure = Some(error);
            }
        }
        to_near = said;
    }
    let error = failure.expect("failed");
    assert_eq!(error.message, "the client closed without publishing");
    assert!(!error.retryable);
}

#[test]
fn a_client_that_goes_after_it_published_is_taken_all_the_same() {
    let far = RabbitMqTransport::loopback(secs(5));
    let (mut sending, header) = far.send_to("h:1", b"kept");
    let (mut taking, greeting) = far.take_one(PEER, PORT, &header_of(&header));
    let mut to_near = greeting.write;
    for _ in 0..5 {
        let (to_far, _) = near_hears(&mut |frame| sending.hear(frame), &to_near);
        to_near = far_hears(&mut |frame| taking.hear(frame), &to_far).0;
    }
    let answer = taking.hear(None);
    let Outcome::Happened(Event::Published(arrived)) = answer.next else {
        panic!("taken");
    };
    assert_eq!(arrived.bytes, b"kept");
}

#[test]
fn a_receive_ends_with_what_it_has_when_the_broker_closes() {
    let far = far_end("orders");
    let mut queues = Queues::new();
    queues.push("orders", b"one".to_vec());
    let (mut receiving, header) = far.receive();
    let (session, greeting) = far.accept_one(PEER, PORT, &header_of(&header));
    let mut session = session.with_queues(queues);
    let mut to_near = greeting.write;
    for _ in 0..6 {
        let (to_far, _) = near_hears(&mut |frame| receiving.hear(frame), &to_near);
        to_near = far_hears(&mut |frame| session.hear(frame), &to_far).0;
    }
    assert!(receiving.awaits_delivery());
    assert_eq!(receiving.hear(None).next, Next::Ended);
    let arrived = receiving.into_arrived();
    assert_eq!(arrived.len(), 1);
    assert_eq!(
        arrived[0].origin_uri,
        "rabbitmq://127.0.0.1:0/orders?delivery-tag=1"
    );
}

#[test]
fn a_quiet_queue_is_no_streams_and_not_an_error() {
    let far = far_end("empty");
    let (mut receiving, header) = far.receive();
    let (events, session) = receive_from_session(&mut receiving, &header, &far, Queues::new());
    assert_eq!(
        events,
        [
            Event::Declared("empty".to_string()),
            Event::Consuming("empty".to_string())
        ]
    );
    assert!(receiving.into_arrived().is_empty());
    assert!(session.queues().get("empty").is_none());
}

#[test]
fn a_take_comes_to_the_first_of_two_publishes() {
    let far = RabbitMqTransport::loopback(secs(5));
    let (mut client, header) = Client::connect("h:1", &Login::default());
    let (mut taking, greeting) = far.take_one(PEER, PORT, &header_of(&header));
    let mut to_near = greeting.write;
    loop {
        let (to_far, next) = near_hears(&mut |frame| client.hear(frame), &to_near);
        if next == Next::Connected {
            break;
        }
        to_near = far_hears(&mut |frame| taking.hear(frame), &to_far).0;
    }
    let first = client.publish("probe", b"first");
    let (said, outcomes) = far_hears(&mut |frame| taking.hear(frame), &first);
    assert!(said.is_empty() && outcomes.is_empty());
    let second = client.publish("probe", b"second");
    let (_, outcomes) = far_hears(&mut |frame| taking.hear(frame), &second);
    let [Outcome::Happened(Event::Published(arrived))] = outcomes.as_slice() else {
        panic!("{outcomes:?}");
    };
    assert_eq!(arrived.bytes, b"first");
}

#[test]
fn a_send_says_nothing_of_its_body_before_the_queue_is_declared() {
    let far = far_end("orders");
    let needle = b"a body that is easy to find";
    let (mut sending, header) = far.send("orders", needle);
    let found = |said: &[u8]| said.windows(needle.len()).any(|part| part == needle);
    let (session, greeting) = far.accept_one(PEER, PORT, &header_of(&header));
    let mut session = session;
    let mut to_near = greeting.write;
    let mut declared = false;
    let mut published = false;
    loop {
        let (to_far, next) = near_hears(&mut |frame| sending.hear(frame), &to_near);
        if next == Next::Closed {
            break;
        }
        assert!(declared || !found(&to_far));
        published = published || found(&to_far);
        let (said, outcomes) = far_hears(&mut |frame| session.hear(frame), &to_far);
        declared = declared
            || outcomes.contains(&Outcome::Happened(Event::Declared("orders".to_string())));
        to_near = said;
    }
    assert!(declared && published);
}
