use rabbitmq::client::Login;
use rabbitmq::content;
use rabbitmq::method::{
    basic_ack, basic_consume, basic_consume_ok, basic_deliver, basic_publish, channel_open,
    channel_open_ok, close, connection_open, connection_open_ok, connection_start,
    connection_start_ok, deliver_of, queue_declare, queue_declare_ok, tune, Method, BASIC_DELIVER,
    CHANNEL_CLOSE, CHANNEL_CLOSE_OK, CONNECTION_CLOSE, CONNECTION_CLOSE_OK, CONNECTION_TUNE, CONNECTION_TUNE_OK,
};
use rabbitmq::queues::Queues;
use rabbitmq::session::{Answer, Event, Outcome, Session};
use rabbitmq::wire::{heartbeat, read_frame, Frame, Kind, MAX_FRAME, PROTOCOL_HEADER};

const PEER: &str = "10.0.0.7:40000";

fn hears(session: &mut Session, method: &Method, channel: u16) -> Answer {
    session.hear(Some(method.frame(channel)))
}

fn failure(answer: Answer) -> String {
    match answer.next {
        Outcome::Failed(error) => {
            assert!(!error.retryable);
            error.message
        }
        other => panic!("{other:?}"),
    }
}

fn greeted(expected: &Login) -> Session {
    let (session, answer) = Session::accept(PEER, 40000, expected, &PROTOCOL_HEADER);
    assert_eq!(answer.write, connection_start().encode(0));
    assert_eq!(answer.next, Outcome::Read);
    session
}

fn serving() -> Session {
    let mut session = greeted(&Login::default());
    hears(&mut session, &connection_start_ok("guest", "guest"), 0);
    hears(&mut session, &tune(CONNECTION_TUNE_OK, 1, 4096), 0);
    let answer = hears(&mut session, &connection_open("/"), 0);
    assert_eq!(answer.next, Outcome::Accepted);
    session
}

/// Publish and report what comes of it, and what was said.
fn publishes(session: &mut Session, exchange: &str, key: &str, body: &[u8]) -> Answer {
    let answer = hears(session, &basic_publish(exchange, key), 1);
    assert_eq!(answer.next, Outcome::Read);
    let mut last = answer;
    for frame in content::frames(1, body, 4096) {
        assert_eq!(last.next, Outcome::Read);
        last = session.hear(Some(frame));
    }
    last
}

#[test]
fn the_handshake_answers_each_step_and_knows_the_client() {
    let expected = Login::new("user", "password").on("/host");
    let mut session = greeted(&expected);
    let answer = hears(&mut session, &connection_start_ok("user", "password"), 0);
    assert_eq!(
        answer.write,
        tune(CONNECTION_TUNE, 1, 1_048_576).encode(0)
    );
    assert_eq!(session.user(), "user");
    let answer = hears(&mut session, &tune(CONNECTION_TUNE_OK, 1, 4096), 0);
    assert_eq!((answer.write, answer.next), (Vec::new(), Outcome::Read));
    let answer = hears(&mut session, &connection_open("/host"), 0);
    assert_eq!(answer.write, connection_open_ok().encode(0));
    assert_eq!(answer.next, Outcome::Accepted);
    assert_eq!(session.virtual_host(), "/host");
    let answer = hears(&mut session, &channel_open(), 3);
    assert_eq!(answer.write, channel_open_ok().encode(3));
    assert_eq!(answer.next, Outcome::Read);
}

#[test]
fn a_client_that_does_not_open_with_amqp_is_told_the_header() {
    let mut other = PROTOCOL_HEADER;
    other[7] = 0;
    let (mut session, answer) = Session::accept(PEER, 40000, &Login::default(), &other);
    assert_eq!(answer.write, PROTOCOL_HEADER);
    assert_eq!(failure(answer), "the client did not open with AMQP 0-9-1");
    let answer = session.hear(None);
    assert_eq!(answer.next, Outcome::Read, "over, and lets everything pass");
}

#[test]
fn a_login_that_is_not_expected_is_refused() {
    for (user, password) in [("guest", "wrong"), ("wrong", "guest"), ("", ""), ("guest", "")] {
        let mut session = greeted(&Login::default());
        let answer = hears(&mut session, &connection_start_ok(user, password), 0);
        assert_eq!(
            answer.write,
            close(
                CONNECTION_CLOSE,
                403,
                "ACCESS_REFUSED - login was refused"
            )
            .encode(0)
        );
        assert_eq!(
            failure(answer),
            "the client was refused: 403 ACCESS_REFUSED - login was refused"
        );
        assert_eq!(session.user(), "");
    }
}

#[test]
fn a_login_with_a_nul_is_never_the_one_expected() {
    let odd = Login::new("a\0b", "c");
    let mut session = greeted(&odd);
    let answer = hears(&mut session, &connection_start_ok("a\0b", "c"), 0);
    assert!(failure(answer).contains("403"));
}

#[test]
fn a_virtual_host_that_is_not_expected_is_refused() {
    let mut session = greeted(&Login::default().on("/mine"));
    hears(&mut session, &connection_start_ok("guest", "guest"), 0);
    hears(&mut session, &tune(CONNECTION_TUNE_OK, 1, 4096), 0);
    let answer = hears(&mut session, &connection_open("/theirs"), 0);
    let text = "NOT_ALLOWED - access to the virtual host was refused";
    assert_eq!(answer.write, close(CONNECTION_CLOSE, 530, text).encode(0));
    assert_eq!(
        failure(answer),
        format!("the client was refused: 530 {text}")
    );
}

#[test]
fn what_the_handshake_does_not_expect_is_a_failure() {
    let mut session = greeted(&Login::default());
    assert_eq!(
        failure(hears(&mut session, &connection_open("/"), 0)),
        "method 10.40 where connection.start-ok was expected"
    );
    let mut session = greeted(&Login::default());
    assert_eq!(
        failure(hears(&mut session, &connection_start_ok("g", "g"), 1)),
        "a Method frame on channel 1 where connection.start-ok was expected"
    );
    let mut session = greeted(&Login::default());
    hears(&mut session, &connection_start_ok("guest", "guest"), 0);
    let beat = Frame::new(Kind::Heartbeat, 0, Vec::new());
    assert_eq!(
        failure(session.hear(Some(beat))),
        "a Heartbeat frame on channel 0 where connection.tune-ok was expected"
    );
    let mut session = greeted(&Login::default());
    hears(&mut session, &connection_start_ok("guest", "guest"), 0);
    hears(&mut session, &tune(CONNECTION_TUNE_OK, 1, 4096), 0);
    assert_eq!(
        failure(session.hear(None)),
        "the client closed before connection.open"
    );
}

#[test]
fn what_is_published_is_kept_where_nobody_consumes_it() {
    let mut session = serving();
    let answer = publishes(&mut session, "", "orders", b"one");
    assert_eq!(answer.write, b"");
    let Outcome::Happened(Event::Published(arrived)) = answer.next else {
        panic!("published");
    };
    assert_eq!(arrived.bytes, b"one");
    assert_eq!(arrived.origin_uri, "rabbitmq://10.0.0.7:40000/orders");
    publishes(&mut session, "", "orders", b"two");
    publishes(&mut session, "topic", "orders", b"three");
    let orders = session.queues().get("orders").expect("orders");
    assert_eq!(orders, &vec![b"one".to_vec(), b"two".to_vec()]);
    let through = session.queues().get("topic/orders").expect("exchange");
    assert_eq!(through, &vec![b"three".to_vec()]);
    let answer = hears(&mut session, &queue_declare("orders"), 1);
    assert_eq!(answer.write, queue_declare_ok("orders", 2).encode(1));
    assert_eq!(
        answer.next,
        Outcome::Happened(Event::Declared("orders".to_string()))
    );
    let answer = hears(&mut session, &queue_declare("none"), 1);
    assert_eq!(answer.write, queue_declare_ok("none", 0).encode(1));
}

#[test]
fn a_consumer_is_given_what_was_kept_and_what_comes_after() {
    let mut queues = Queues::new();
    queues.push("orders", b"one".to_vec());
    queues.push("other", b"else".to_vec());
    queues.push("orders", b"two".to_vec());
    let mut session = serving().with_queues(queues);
    assert!(session.tags_last(&Some(basic_consume("orders", "").frame(5))));
    assert!(session.tags_last(&None));
    assert!(session.tag_left("orders"));
    let answer = hears(&mut session, &basic_consume("orders", ""), 5);
    let mut expected = basic_consume_ok("xmip.40000").encode(5);
    for (tag, body) in [(1, b"one"), (2, b"two")] {
        expected.extend(basic_deliver("xmip.40000", tag, "", "orders").encode(5));
        expected.extend(content::encode(5, body, MAX_FRAME));
    }
    assert_eq!(answer.write, expected);
    assert_eq!(
        answer.next,
        Outcome::Happened(Event::Consuming("orders".to_string()))
    );
    assert!(session.queues().get("orders").is_none(), "dry");
    let answer = publishes(&mut session, "", "orders", b"three");
    let mut expected = basic_deliver("xmip.40000", 3, "", "orders").encode(5);
    expected.extend(content::encode(5, b"three", MAX_FRAME));
    assert_eq!(answer.write, expected);
    assert!(session.queues().get("orders").is_none(), "still dry");
    let write = session.deliver("orders", b"four");
    assert!(write.starts_with(&basic_deliver("xmip.40000", 4, "", "orders").encode(5)));
    assert!(session.deliver("other", b"more").is_empty());
    assert_eq!(session.queues().get("other").expect("other").len(), 2);
    let answer = hears(&mut session, &basic_ack(2), 1);
    assert_eq!((answer.write, answer.next), (Vec::new(), Outcome::Happened(Event::Acked(2))));
    let answer = hears(&mut session, &close(CHANNEL_CLOSE, 200, "bye"), 5);
    assert_eq!(answer.write, Method::bare(CHANNEL_CLOSE_OK).encode(5));
    assert!(session.deliver("orders", b"five").is_empty(), "nobody consumes");
    assert_eq!(session.into_queues().get("orders").expect("kept").len(), 1);
}

#[test]
fn a_consumer_goes_by_the_tag_it_asks_for() {
    let mut session = serving();
    let answer = hears(&mut session, &basic_consume("orders", "mine"), 1);
    assert_eq!(answer.write, basic_consume_ok("mine").encode(1));
}

#[test]
fn only_what_is_published_is_reported_where_only_that_is_awaited() {
    let mut session = serving();
    session.next_publish();
    for method in [
        queue_declare("orders"),
        basic_consume("orders", "t"),
        basic_ack(1),
    ] {
        assert_eq!(hears(&mut session, &method, 1).next, Outcome::Read);
    }
    let answer = publishes(&mut session, "", "elsewhere", b"x");
    assert!(matches!(
        answer.next,
        Outcome::Happened(Event::Published(_))
    ));
    session.next_event();
    assert_eq!(
        hears(&mut session, &basic_ack(1), 1).next,
        Outcome::Happened(Event::Acked(1))
    );
}

#[test]
fn a_content_that_is_given_up_is_forgotten() {
    let mut session = serving();
    hears(&mut session, &basic_publish("", "orders"), 1);
    session.hear(Some(content::frames(1, b"abc", 4096)[0].clone()));
    session.next_event();
    assert_eq!(
        hears(&mut session, &basic_ack(7), 1).next,
        Outcome::Happened(Event::Acked(7))
    );
    assert!(session.queues().get("orders").is_none());
}

#[test]
fn what_is_not_served_is_refused() {
    let mut session = serving();
    let answer = hears(&mut session, &Method::bare((90, 10)), 1);
    assert_eq!(
        answer.write,
        close(CONNECTION_CLOSE, 540, "NOT_IMPLEMENTED").encode(0)
    );
    assert_eq!(failure(answer), "method 90.10 is not served here");
    for kind in [Kind::Header, Kind::Body] {
        let answer = session.hear(Some(Frame::new(kind, 1, vec![1])));
        assert_eq!(failure(answer), "content with no publish before it");
    }
    hears(&mut session, &basic_publish("", "orders"), 1);
    let answer = hears(&mut session, &basic_ack(1), 1);
    assert_eq!(failure(answer), "content without its header");
    let answer = hears(&mut session, &basic_ack(1), 1);
    assert_eq!(
        answer.next,
        Outcome::Happened(Event::Acked(1)),
        "and is served on"
    );
}

#[test]
fn arguments_that_end_early_fail_the_session() {
    let mut session = serving();
    let early = "a method that ends before its arguments do";
    for method in [
        queue_declare("q"),
        basic_consume("q", "t"),
        basic_publish("", "q"),
        basic_ack(1),
    ] {
        let cut = Method::new(method.id, vec![0]);
        let answer = hears(&mut session, &cut, 1);
        assert_eq!(answer.write, b"");
        assert_eq!(failure(answer), early);
    }
    let short = Frame::new(Kind::Method, 1, vec![0, 60]);
    assert_eq!(failure(session.hear(Some(short))), early);
}

#[test]
fn a_heartbeat_from_the_client_is_answered() {
    let mut session = serving();
    let answer = session.hear(Some(Frame::new(Kind::Heartbeat, 0, Vec::new())));
    assert_eq!(answer.write, heartbeat());
    assert_eq!(answer.next, Outcome::Read);
}

#[test]
fn a_client_that_closes_is_gone() {
    let mut session = serving();
    let answer = hears(&mut session, &close(CONNECTION_CLOSE, 200, "bye"), 0);
    assert_eq!(answer.write, Method::bare(CONNECTION_CLOSE_OK).encode(0));
    assert_eq!(answer.next, Outcome::Gone);
    let answer = session.hear(None);
    assert_eq!((answer.write, answer.next), (Vec::new(), Outcome::Gone));
}

#[test]
fn queues_hold_messages_by_name_in_the_order_they_came() {
    let mut queues = Queues::new();
    assert!(queues.get("a").is_none());
    queues.push("a", vec![1]);
    queues.push("b", vec![2]);
    queues.push("a", vec![3]);
    queues.push("a", Vec::new());
    assert_eq!(queues.get("a").expect("a"), &vec![vec![1], vec![3], vec![]]);
    assert_eq!(queues.remove("a").expect("a").len(), 3);
    assert!(queues.remove("a").is_none());
    assert_eq!(queues.get("b").expect("b"), &vec![vec![2]]);
}

/// The deliveries in what a session said: tag, queue and body.
fn deliveries(said: &[u8]) -> Vec<(u64, String, Vec<u8>)> {
    let mut reader = said;
    let mut found = Vec::new();
    while let Some(frame) = read_frame(&mut reader).expect("a frame") {
        let Ok(method) = Method::of(&frame) else {
            continue;
        };
        if method.is(BASIC_DELIVER) {
            let (tag, _, queue) = deliver_of(&method).expect("deliver");
            found.push((tag, queue, content::read(&mut reader).expect("content")));
        }
    }
    found
}

#[test]
fn tags_count_from_one_and_every_message_is_kept_or_delivered() {
    let mut session = serving();
    let mut said = Vec::new();
    said.extend(session.deliver("a", b"a1"));
    said.extend(publishes(&mut session, "", "b", b"b1").write);
    said.extend(hears(&mut session, &basic_consume("a", "one"), 1).write);
    said.extend(publishes(&mut session, "", "a", b"a2").write);
    said.extend(publishes(&mut session, "", "b", b"b2").write);
    said.extend(hears(&mut session, &close(CHANNEL_CLOSE, 200, "bye"), 1).write);
    said.extend(session.deliver("a", b"a3"));
    said.extend(hears(&mut session, &basic_consume("b", "two"), 2).write);
    session.next_publish();
    said.extend(session.deliver("b", b"b3"));
    said.extend(session.hear(Some(Frame::new(Kind::Heartbeat, 0, Vec::new()))).write);
    said.extend(hears(&mut session, &basic_consume("a", ""), 3).write);
    said.extend(session.deliver("b", b"b4"));
    let told = deliveries(&said);
    let expected = [
        (1, "a", b"a1"),
        (2, "a", b"a2"),
        (3, "b", b"b1"),
        (4, "b", b"b2"),
        (5, "b", b"b3"),
        (6, "a", b"a3"),
    ];
    assert_eq!(told.len(), expected.len());
    for (found, (tag, queue, body)) in told.iter().zip(expected) {
        assert_eq!(found, &(tag, queue.to_string(), body.to_vec()));
    }
    assert!(session.queues().get("a").is_none());
    assert_eq!(session.queues().get("b").expect("b"), &vec![b"b4".to_vec()]);
}

#[test]
fn a_message_over_the_limit_is_kept_or_delivered_too() {
    let long = vec![7; content::MAX_BODY + 1];
    let mut session = serving();
    assert!(session.deliver("kept", &long).is_empty());
    assert_eq!(session.queues().get("kept").expect("kept")[0].len(), long.len());
    hears(&mut session, &basic_consume("orders", "t"), 1);
    let said = session.deliver("orders", &long);
    assert!(session.queues().get("orders").is_none());
    let mut reader = said.as_slice();
    let deliver = read_frame(&mut reader).expect("a frame").expect("whole");
    let method = Method::of(&deliver).expect("method");
    assert_eq!(deliver_of(&method).expect("deliver").0, 1);
    let header = read_frame(&mut reader).expect("a frame").expect("whole");
    assert_eq!(header.payload[4..12], (long.len() as u64).to_be_bytes());
    let mut carried = 0;
    while let Some(frame) = read_frame(&mut reader).expect("a frame") {
        assert_eq!(frame.kind, Kind::Body);
        carried += frame.payload.len();
    }
    assert_eq!(carried, long.len());
}

#[test]
fn queues_are_named_compared_and_copied_by_what_they_hold() {
    let mut queues = Queues::new();
    assert!(queues.names().is_empty());
    queues.push("b", vec![1]);
    queues.push("a", vec![2]);
    queues.push("b", vec![3]);
    let mut names = queues.names();
    names.sort();
    assert_eq!(names, ["a", "b"]);
    let mut other = Queues::new();
    other.push("a", vec![2]);
    other.push("b", vec![1]);
    assert!(queues != other, "one message fewer");
    assert!(other != queues);
    other.push("b", vec![3]);
    assert!(queues == other, "whichever queue came first");
    let copy = queues.clone();
    assert!(copy == queues);
    queues.push("c", vec![]);
    assert!(copy != queues, "one queue more");
    assert!(queues != copy);
    queues.remove("c");
    assert!(copy == queues);
    let mut swapped = Queues::new();
    swapped.push("a", vec![2]);
    swapped.push("b", vec![3]);
    swapped.push("b", vec![1]);
    assert!(swapped != queues, "another order");
    assert!(format!("{queues:?}").contains("entries"));
}
