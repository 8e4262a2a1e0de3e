//! Streams that arrive as deliveries from a `RabbitMQ` queue. One
//! basic.deliver is one Stream, the queue kept beside it.
//!
//! [`wire`] is the frame and the value encodings of AMQP 0-9-1, [`method`]
//! the methods a queue needs, [`content`] what a publish or a delivery
//! carries. [`client`] and [`session`] are the two ends of a connection, and
//! [`transport`] is `RabbitMQ`'s idiom over them: the queue as the Location,
//! declared durable before anything is published to it, every message
//! persistent. None of it does I/O: each end is a state that hears a frame
//! and says bytes.
//!
//! [`octets`] and [`layout`] hold what is true of everything that is
//! written, place by place, and [`reading`] of everything that is read.
//! [`conduct`] and [`service`] hold what the client's end and the session
//! say to each thing they may hear. [`hearing`] says what it is to hear frame
//! after frame. [`laws`], [`ledger`] and [`rounds`] hold what is true of the
//! two ends together, and of a session over its whole life.

pub mod arrived;
pub mod client;
pub mod conduct;
pub mod content;
pub mod error;
pub mod hearing;
pub mod laws;
pub mod layout;
pub mod ledger;
pub mod method;
pub mod octets;
pub mod queues;
pub mod reading;
pub mod rounds;
pub mod service;
pub mod session;
pub mod text;
pub mod transport;
pub mod wire;

pub use transport::RabbitMqTransport;
