# rabbitmq

A RabbitMQ transport over AMQP 0-9-1, verified with Verus: a queue is a
Location, published to through the default exchange, declared durable first
and every message persistent, and every delivery is one Stream.

- `src/wire.rs`, `src/method.rs`, `src/content.rs`: the frame, the methods and
  the content, written and read.
- `src/client.rs`, `src/session.rs`: the two ends of a connection, each a state
  that hears a frame and says bytes.
- `src/transport.rs`: sending, receiving and taking one message, and the
  `rabbitmq://` targets and origins.
- `src/hearing.rs`: what hearing frame after frame comes to, for either end.
- `src/laws.rs`, `src/rounds.rs`: what holds of the two ends together: what is
  published arrives, what is held is delivered in order, what is sent is taken.
- `src/ledger.rs`: what holds of a session over its whole life: its delivery
  tags, and that every message is kept or delivered.
- `src/text.rs`, `src/queues.rs`, `src/arrived.rs`, `src/error.rs`: text,
  queues in memory, Streams and failures.
- `app/`: the sockets around it.
