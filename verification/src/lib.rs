//! An MQTT 3.1.1 client core: byte buffers, packet identifier pools and the
//! state machines of the QoS flows, with their contracts proved by Verus.

use vstd::prelude::*;
use crate::packet::{Pid, QosPid};

pub mod buffer;
pub mod stack_buffer;
pub mod packet;
pub mod pid;
pub mod unique_id;
pub mod codec;
pub mod writer;
pub mod seqs;
pub mod state;
pub mod publish;
pub mod receives;
pub mod subs;
pub mod ping;
pub mod request;
pub mod session;
pub mod config;
pub mod connection;
pub mod decode;
pub mod event_loop;

verus! {

#[verifier::external_type_specification]
#[verifier::external_body]
pub struct ExIoErrorKind(embedded_io_async::ErrorKind);

#[verifier::external_type_specification]
#[verifier::external_body]
pub struct ExPubsubError(embassy_sync::pubsub::Error);

/// The errors of the client
#[derive(Debug, PartialEq)]
pub enum MqttError {
    /// TCP connection failed
    ConnectionFailed2(embedded_io_async::ErrorKind),
    /// DNS failed
    DnsFailed,
    /// buffer too small
    BufferTooSmall,
    /// connection rejected by broker
    ConnackError,
    /// The connection was rejected because of invalid / missing authentication
    AuthenticationError,
    /// Error while encoding and decoding packets
    CodecError(mqttrs2::Error),
    /// Payload of received message is too long
    ReceivedMessageTooLong,
    /// The suback / unsuback packet arrived with an error code
    SubscribeOrUnsubscribeFailed,
    /// Some internal error occured
    InternalError,
    /// The send queue is full. According to the mqtt spec the connection should be closed in this situation
    QueueFull(QosPid),
    /// Received an ack for an unknown pid
    UnexpectedAck(Pid),
    /// Error with the event channel
    PubsubError(embassy_sync::pubsub::Error),
    /// topic size too big
    TopicSizeError,
}

impl From<embedded_io_async::ErrorKind> for MqttError {
    fn from(err_kind: embedded_io_async::ErrorKind) -> (r: Self) {
        MqttError::ConnectionFailed2(err_kind)
    }
}

impl vstd::std_specs::convert::FromSpecImpl<embedded_io_async::ErrorKind> for MqttError {
    open spec fn obeys_from_spec() -> bool {
        true
    }

    open spec fn from_spec(err_kind: embedded_io_async::ErrorKind) -> Self {
        MqttError::ConnectionFailed2(err_kind)
    }
}

impl From<embassy_sync::pubsub::Error> for MqttError {
    fn from(err: embassy_sync::pubsub::Error) -> (r: Self) {
        MqttError::PubsubError(err)
    }
}

impl vstd::std_specs::convert::FromSpecImpl<embassy_sync::pubsub::Error> for MqttError {
    open spec fn obeys_from_spec() -> bool {
        true
    }

    open spec fn from_spec(err: embassy_sync::pubsub::Error) -> Self {
        MqttError::PubsubError(err)
    }
}

impl From<mqttrs2::Error> for MqttError {
    fn from(value: mqttrs2::Error) -> (r: Self) {
        MqttError::CodecError(value)
    }
}

impl vstd::std_specs::convert::FromSpecImpl<mqttrs2::Error> for MqttError {
    open spec fn obeys_from_spec() -> bool {
        true
    }

    open spec fn from_spec(value: mqttrs2::Error) -> Self {
        MqttError::CodecError(value)
    }
}

} // verus!
