use rabbitmq::client::{delivery_origin, Client, Login, Next, Step};
use rabbitmq::content;
use rabbitmq::method::{
    basic_ack, basic_consume, basic_consume_ok, basic_deliver, basic_publish, channel_open,
    channel_open_ok, close, connection_open, connection_open_ok, connection_start,
    connection_start_ok, queue_declare, queue_declare_ok, tune, Method, CHANNEL_CLOSE,
    CHANNEL_CLOSE_OK, CONNECTION_CLOSE, CONNECTION_CLOSE_OK, CONNECTION_TUNE, CONNECTION_TUNE_OK,
};
use rabbitmq::wire::{heartbeat, read_frame, Frame, Kind, MAX_FRAME, PROTOCOL_HEADER};

fn frame_of(bytes: &[u8]) -> Frame {
    let mut reader = bytes;
    read_frame(&mut reader).expect("a frame").expect("whole")
}

fn hears(client: &mut Client, method: &Method, channel: u16) -> Step {
    client.hear(Some(method.frame(channel)))
}

fn connected() -> Client {
    let (mut client, _) = Client::connect("broker:5672", &Login::default());
    assert_eq!(hears(&mut client, &connection_start(), 0).next, Next::Read);
    hears(&mut client, &tune(CONNECTION_TUNE, 1, 4096), 0);
    hears(&mut client, &connection_open_ok(), 0);
    assert_eq!(
        hears(&mut client, &channel_open_ok(), 1).next,
        Next::Connected
    );
    client
}

#[test]
fn a_login_is_guest_on_the_default_host_until_it_says_otherwise() {
    let guest = Login::default();
    assert_eq!(guest, Login::new("guest", "guest"));
    assert_eq!(guest.virtual_host, "/");
    let elsewhere = Login::new("u", "p").on("/there");
    assert_eq!(elsewhere.user, "u");
    assert_eq!(elsewhere.password, "p");
    assert_eq!(elsewhere.virtual_host, "/there");
    assert_eq!(elsewhere.clone(), elsewhere);
}

#[test]
fn the_handshake_says_what_the_broker_waits_for() {
    let login = Login::new("user", "password").on("/host");
    let (mut client, header) = Client::connect("broker:5672", &login);
    assert_eq!(header, PROTOCOL_HEADER);
    let step = hears(&mut client, &connection_start(), 0);
    assert_eq!(
        step.write,
        connection_start_ok("user", "password").encode(0)
    );
    let step = hears(&mut client, &tune(CONNECTION_TUNE, 9, 4096), 0);
    let mut expected = tune(CONNECTION_TUNE_OK, 9, 4096).encode(0);
    expected.extend(connection_open("/host").encode(0));
    assert_eq!(step.write, expected);
    assert_eq!(client.frame_max(), 4096);
    let step = hears(&mut client, &connection_open_ok(), 0);
    assert_eq!(step.write, channel_open().encode(1));
    let step = hears(&mut client, &channel_open_ok(), 1);
    assert_eq!(step.write, b"");
    assert_eq!(step.next, Next::Connected);
}

#[test]
fn the_frame_size_is_the_smaller_of_the_proposal_and_the_limit() {
    for (proposed, settled) in [
        (0, MAX_FRAME),
        (1, 1),
        (4096, 4096),
        (1_048_576, MAX_FRAME),
        (1_048_577, MAX_FRAME),
        (u32::MAX, MAX_FRAME),
    ] {
        let (mut client, _) = Client::connect("b", &Login::default());
        hears(&mut client, &connection_start(), 0);
        hears(&mut client, &tune(CONNECTION_TUNE, 0, proposed), 0);
        assert_eq!(client.frame_max(), settled, "{proposed}");
    }
}

#[test]
fn what_is_asked_is_said_on_channel_one() {
    let mut client = connected();
    assert_eq!(client.declare("orders"), queue_declare("orders").encode(1));
    let step = hears(&mut client, &queue_declare_ok("orders", 3), 1);
    assert_eq!(step.next, Next::Declared(3));
    let mut expected = basic_publish("", "orders").encode(1);
    expected.extend(content::encode(1, &[7; 5000], 4096));
    assert_eq!(client.publish("orders", &[7; 5000]), expected);
    assert_eq!(
        client.consume("orders"),
        basic_consume("orders", "").encode(1)
    );
    let step = hears(&mut client, &basic_consume_ok("tag"), 1);
    assert_eq!(step.next, Next::Consuming("tag".to_string()));
    assert_eq!(client.ack(9), basic_ack(9).encode(1));
    assert_eq!(
        client.close(),
        close(CHANNEL_CLOSE, 200, "bye").encode(1)
    );
    let step = hears(&mut client, &Method::bare(CHANNEL_CLOSE_OK), 1);
    assert_eq!(step.write, close(CONNECTION_CLOSE, 200, "bye").encode(0));
    let step = hears(&mut client, &Method::bare(CONNECTION_CLOSE_OK), 0);
    assert_eq!(step.next, Next::Closed);
}

#[test]
fn a_delivery_is_its_body_its_tag_and_where_it_came_from() {
    let mut client = connected();
    client.next_delivery();
    assert!(client.awaits_delivery());
    hears(&mut client, &basic_deliver("t", 4, "", "key"), 1);
    assert!(!client.awaits_delivery(), "one is under way");
    let parts = content::frames(1, b"body", 10);
    assert_eq!(client.hear(Some(parts[0].clone())).next, Next::Read);
    let beat = client.hear(Some(Frame::new(Kind::Heartbeat, 0, Vec::new())));
    assert_eq!(beat.write, b"", "content takes its frames as they are");
    assert_eq!(client.hear(Some(parts[1].clone())).next, Next::Read);
    let Next::Delivered(delivery) = client.hear(Some(parts[2].clone())).next else {
        panic!("delivered");
    };
    assert_eq!(delivery.delivery_tag, 4);
    assert_eq!(delivery.arrived.bytes, b"body");
    assert_eq!(
        delivery.arrived.origin_uri,
        "rabbitmq://broker:5672/key?delivery-tag=4",
        "the routing key, where nothing is consumed"
    );
    client.consume("orders");
    hears(&mut client, &basic_consume_ok("t"), 1);
    client.next_delivery();
    hears(&mut client, &basic_deliver("t", 5, "", "key"), 1);
    let empty = content::frames(1, b"", 10);
    let Next::Delivered(delivery) = client.hear(Some(empty[0].clone())).next else {
        panic!("delivered");
    };
    assert_eq!(
        delivery.arrived.origin_uri,
        delivery_origin("broker:5672", "orders", 5)
    );
}

#[test]
fn what_is_not_awaited_passes_by() {
    let mut client = connected();
    client.declare("orders");
    for (frame, why) in [
        (queue_declare_ok("orders", 1).frame(2), "another channel"),
        (basic_consume_ok("t").frame(1), "another method"),
        (Frame::new(Kind::Header, 1, vec![1]), "a content header"),
        (Frame::new(Kind::Body, 1, vec![1]), "a body"),
    ] {
        let step = client.hear(Some(frame));
        assert_eq!(step.write, b"", "{why}");
        assert_eq!(step.next, Next::Read, "{why}");
    }
    let step = hears(&mut client, &queue_declare_ok("orders", 1), 1);
    assert_eq!(step.next, Next::Declared(1));
    let step = client.hear(None);
    assert_eq!(step.next, Next::Read, "nothing is awaited");
}

#[test]
fn a_heartbeat_is_answered_with_a_heartbeat() {
    let mut client = connected();
    client.declare("orders");
    let step = client.hear(Some(frame_of(&heartbeat())));
    assert_eq!(step.write, [8, 0, 0, 0, 0, 0, 0, 0xCE]);
    assert_eq!(step.next, Next::Read);
}

#[test]
fn a_broker_that_closes_fails_what_was_awaited() {
    let mut client = connected();
    client.declare("orders");
    let step = hears(&mut client, &close(CHANNEL_CLOSE, 404, "NOT_FOUND"), 1);
    assert_eq!(step.write, Method::bare(CHANNEL_CLOSE_OK).encode(1));
    let Next::Failed(error) = step.next else {
        panic!("failed");
    };
    assert_eq!(
        error.message,
        "the broker closed the channel while queue.declare-ok was awaited: 404 NOT_FOUND"
    );
    assert!(!error.retryable);
    client.consume("orders");
    let step = hears(&mut client, &close(CONNECTION_CLOSE, 320, "FORCED"), 0);
    assert_eq!(step.write, Method::bare(CONNECTION_CLOSE_OK).encode(0));
    let Next::Failed(error) = step.next else {
        panic!("failed");
    };
    assert_eq!(
        error.message,
        "the broker closed the connection while basic.consume-ok was awaited: 320 FORCED"
    );
}

#[test]
fn a_broker_that_closes_between_deliveries_ends_them() {
    let mut client = connected();
    client.next_delivery();
    let step = hears(&mut client, &close(CONNECTION_CLOSE, 320, "FORCED"), 0);
    assert_eq!(step.write, Method::bare(CONNECTION_CLOSE_OK).encode(0));
    assert_eq!(step.next, Next::Ended);
    client.next_delivery();
    let step = client.hear(None);
    assert_eq!(step.write, b"");
    assert_eq!(step.next, Next::Ended);
    client.next_delivery();
    let step = hears(&mut client, &close(CHANNEL_CLOSE, 406, "PRECONDITION"), 1);
    let Next::Failed(error) = step.next else {
        panic!("a channel that closes is a failure");
    };
    assert_eq!(
        error.message,
        "the broker closed the channel while a delivery was awaited: 406 PRECONDITION"
    );
}

#[test]
fn a_broker_that_goes_away_names_what_was_awaited() {
    let gone = |client: &mut Client| match client.hear(None).next {
        Next::Failed(error) => error.message,
        other => panic!("{other:?}"),
    };
    let (mut client, _) = Client::connect("b", &Login::default());
    assert_eq!(
        gone(&mut client),
        "the broker closed before connection.start"
    );
    let (mut client, _) = Client::connect("b", &Login::default());
    hears(&mut client, &connection_start(), 0);
    assert_eq!(gone(&mut client), "the broker closed before connection.tune");
    let (mut client, _) = Client::connect("b", &Login::default());
    hears(&mut client, &connection_start(), 0);
    hears(&mut client, &tune(CONNECTION_TUNE, 0, 0), 0);
    assert_eq!(
        gone(&mut client),
        "the broker closed before connection.open-ok"
    );
    let (mut client, _) = Client::connect("b", &Login::default());
    hears(&mut client, &connection_start(), 0);
    hears(&mut client, &tune(CONNECTION_TUNE, 0, 0), 0);
    hears(&mut client, &connection_open_ok(), 0);
    assert_eq!(gone(&mut client), "the broker closed before channel.open-ok");
    let mut client = connected();
    client.declare("q");
    assert_eq!(gone(&mut client), "the broker closed before queue.declare-ok");
    client.consume("q");
    assert_eq!(gone(&mut client), "the broker closed before basic.consume-ok");
    client.close();
    assert_eq!(gone(&mut client), "the broker closed before channel.close-ok");
    client.close();
    hears(&mut client, &Method::bare(CHANNEL_CLOSE_OK), 1);
    assert_eq!(
        gone(&mut client),
        "the broker closed before connection.close-ok"
    );
    client.next_delivery();
    hears(&mut client, &basic_deliver("t", 1, "", "q"), 1);
    assert_eq!(gone(&mut client), "content without its header");
}

#[test]
fn answers_that_end_early_fail_what_was_awaited() {
    let early = |next: Next| match next {
        Next::Failed(error) => assert_eq!(
            error.message,
            "a method that ends before its arguments do"
        ),
        other => panic!("{other:?}"),
    };
    let cut = |method: Method| Method::new(method.id, Vec::new());
    let mut client = connected();
    client.declare("q");
    early(hears(&mut client, &cut(queue_declare_ok("q", 1)), 1).next);
    client.consume("q");
    early(hears(&mut client, &cut(basic_consume_ok("t")), 1).next);
    client.next_delivery();
    early(hears(&mut client, &cut(basic_deliver("t", 1, "", "q")), 1).next);
    client.declare("q");
    early(hears(&mut client, &cut(close(CHANNEL_CLOSE, 1, "x")), 1).next);
    client.declare("q");
    early(client.hear(Some(Frame::new(Kind::Method, 1, vec![0]))).next);
    let (mut client, _) = Client::connect("b", &Login::default());
    hears(&mut client, &connection_start(), 0);
    early(hears(&mut client, &cut(tune(CONNECTION_TUNE, 0, 0)), 0).next);
}
