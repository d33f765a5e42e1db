use embedded_mqttc::codec::LastWill;
use embedded_mqttc::config::{AutoSubscribe, ClientConfig, ClientCredentials, Host, IpAddress, MQTT_DEFAULT_PORT};
use embedded_mqttc::connection::{
    auto_subscribe_chunks, check_incomplete_packet, connect_allowed, is_recoverable, process_connack, process_suback,
    write_connect, write_connect_checked, write_disconnect, connect_step, ConnectAction, ConnectEvent, ConnectionStateValue,
};
use embedded_mqttc::packet::{ConnectReturnCode, Pid, QoS, QosPid, Suback, SubscribeReturnCodes};
use embedded_mqttc::writer::PacketWriter;
use embedded_mqttc::MqttError;

/// Takes the next packet out of the send buffer and hands it to `f`.
fn take_packet<const N: usize, R>(w: &mut PacketWriter<N>, f: impl FnOnce(&mqttrs2::Packet<'_>) -> R) -> R {
    let buf = w.send_buffer();
    let (n, r) = {
        let data = buf.reaable_data();
        let (n, packet) = mqttrs2::decode_slice_with_len(data).unwrap().expect("there must be a packet");
        (n, f(&packet))
    };
    buf.add_bytes_read(n).unwrap();
    r
}

#[test]
fn connack_codes() {
    assert_eq!(process_connack(ConnectReturnCode::Accepted), Ok(()));
    assert_eq!(process_connack(ConnectReturnCode::RefusedProtocolVersion), Err(MqttError::ConnackError));
    assert_eq!(process_connack(ConnectReturnCode::RefusedIdentifierRejected), Err(MqttError::ConnackError));
    assert_eq!(process_connack(ConnectReturnCode::ServerUnavailable), Err(MqttError::ConnackError));
    assert_eq!(process_connack(ConnectReturnCode::BadUsernamePassword), Err(MqttError::AuthenticationError));
    assert_eq!(process_connack(ConnectReturnCode::NotAuthorized), Err(MqttError::AuthenticationError));
}

#[test]
fn connect_is_allowed_before_the_first_connection_and_after_errors() {
    assert!(connect_allowed(None));
    assert!(connect_allowed(Some(ConnectionStateValue::Error)));
    assert!(!connect_allowed(Some(ConnectionStateValue::Connected)));
    assert!(!connect_allowed(Some(ConnectionStateValue::ConnectSent)));
    assert!(!connect_allowed(Some(ConnectionStateValue::Disconnected)));
}

#[test]
fn recoverable_errors() {
    assert!(is_recoverable(&MqttError::ConnackError));
    assert!(is_recoverable(&MqttError::ReceivedMessageTooLong));
    assert!(is_recoverable(&MqttError::QueueFull(QosPid::AtMostOnce)));
    assert!(is_recoverable(&MqttError::UnexpectedAck(Pid::try_new(1).unwrap())));
    assert!(is_recoverable(&MqttError::ConnectionFailed2(embedded_io_async::ErrorKind::Other)));
    assert!(!is_recoverable(&MqttError::AuthenticationError));
    assert!(!is_recoverable(&MqttError::BufferTooSmall));
    assert!(!is_recoverable(&MqttError::TopicSizeError));
}

#[test]
fn incomplete_packet_in_full_buffer_is_too_large() {
    assert_eq!(check_incomplete_packet(true), Err(MqttError::BufferTooSmall));
    assert_eq!(check_incomplete_packet(false), Ok(()));
}

#[test]
fn auto_suback_checks_every_topic() {
    let subs = vec![AutoSubscribe::new("a", QoS::AtLeastOnce), AutoSubscribe::new("b", QoS::AtLeastOnce)];
    let pid = Pid::try_new(4).unwrap();
    let ok = Suback { pid, return_codes: vec![SubscribeReturnCodes::Success(QoS::AtMostOnce), SubscribeReturnCodes::Success(QoS::AtLeastOnce)] };
    assert_eq!(process_suback(&ok, &subs), Ok(()));
    let failed = Suback { pid, return_codes: vec![SubscribeReturnCodes::Success(QoS::AtLeastOnce), SubscribeReturnCodes::Failure] };
    assert_eq!(process_suback(&failed, &subs), Err(MqttError::SubscribeOrUnsubscribeFailed));
    // codes beyond the requested topics are not read
    assert_eq!(process_suback(&failed, &subs[..1]), Ok(()));
}

#[test]
fn auto_subscribes_go_five_to_a_packet() {
    let topics = ["t0", "t1", "t2", "t3", "t4", "t5", "t6"];
    let config = ClientConfig::new_with_auto_subscribes(Host::Hostname("broker"), None, "id", None, &topics, QoS::ExactlyOnce);
    let chunks = auto_subscribe_chunks(&config.auto_subscribes);
    assert_eq!(chunks.len(), 2);
    assert_eq!(chunks[0].topics, vec!["t0", "t1", "t2", "t3", "t4"]);
    assert_eq!(chunks[1].topics, vec!["t5", "t6"]);
    assert_eq!(chunks[1].qos, vec![QoS::ExactlyOnce, QoS::ExactlyOnce]);

    let mut w = PacketWriter::<256>::new();
    let pid = Pid::try_new(9).unwrap();
    assert_eq!(w.try_write_packet(&chunks[1].packet(pid)), Ok(true));
    take_packet(&mut w, |p| match p {
        mqttrs2::Packet::Subscribe(s) => {
            assert_eq!(s.pid, mqttrs2::Pid::try_from(9).unwrap());
            assert_eq!(s.topics.len(), 2);
            assert_eq!(s.topics[1].topic_path, "t6");
            assert_eq!(s.topics[1].qos, mqttrs2::QoS::ExactlyOnce);
        },
        p => panic!("unexpected packet {:?}", p),
    });
}

#[test]
fn connect_packet_carries_the_configuration() {
    let config = ClientConfig::new(
        Host::Ip(IpAddress::V4([127, 0, 0, 1])),
        None,
        "clien-12345",
        Some(ClientCredentials::new("user", "secret")),
    );
    assert_eq!(config.broker_port(), MQTT_DEFAULT_PORT);
    let will = LastWill { topic: "some/topic", message: b"i am a message", qos: QoS::ExactlyOnce, retain: true };
    let mut w = PacketWriter::<256>::new();
    assert_eq!(write_connect(&mut w, &config, Some(will)), Ok(()));
    take_packet(&mut w, |p| match p {
        mqttrs2::Packet::Connect(c) => {
            assert_eq!(c.client_id, "clien-12345");
            assert_eq!(c.keep_alive, 60);
            assert!(!c.clean_session);
            assert_eq!(c.username, Some("user"));
            assert_eq!(c.password, Some("secret".as_bytes()));
            let will = c.last_will.as_ref().unwrap();
            assert_eq!(will.topic, "some/topic");
            assert_eq!(will.message, b"i am a message");
            assert_eq!(will.qos, mqttrs2::QoS::ExactlyOnce);
            assert!(will.retain);
        },
        p => panic!("unexpected packet: {:?}", p),
    });
}

#[test]
fn connect_that_does_not_fit_is_too_large() {
    let config = ClientConfig::new(Host::Hostname("h"), Some(1884), "a-rather-long-client-identifier", None);
    assert_eq!(config.broker_port(), 1884);
    let mut w = PacketWriter::<16>::new();
    assert_eq!(write_connect(&mut w, &config, None), Err(MqttError::BufferTooSmall));
}

#[test]
fn disconnect_is_two_bytes() {
    let mut w = PacketWriter::<16>::new();
    assert_eq!(write_disconnect(&mut w), Ok(()));
    assert_eq!(w.send_buffer().reaable_data(), &[0xE0, 0]);
    let mut tiny = PacketWriter::<1>::new();
    assert_eq!(write_disconnect(&mut tiny), Err(MqttError::BufferTooSmall));
}

#[test]
fn connect_steps_accepted() {
    let s = connect_step(ConnectEvent::ConnectSent);
    assert_eq!(s.state, Some(ConnectionStateValue::ConnectSent));
    assert!(matches!(s.action, ConnectAction::AwaitConnack));
    let s = connect_step(ConnectEvent::Connack(ConnectReturnCode::Accepted));
    assert_eq!(s.state, None);
    assert!(matches!(s.action, ConnectAction::SendAutoSubscribes));
    let s = connect_step(ConnectEvent::AutoSubscribed(Ok(())));
    assert_eq!(s.state, Some(ConnectionStateValue::Connected));
    assert!(matches!(s.action, ConnectAction::Finish(Ok(()))));
}

#[test]
fn connect_steps_bad_credentials() {
    let s = connect_step(ConnectEvent::Connack(ConnectReturnCode::BadUsernamePassword));
    assert_eq!(s.state, Some(ConnectionStateValue::Error));
    assert!(matches!(s.action, ConnectAction::Finish(Err(MqttError::AuthenticationError))));
    let s = connect_step(ConnectEvent::Connack(ConnectReturnCode::ServerUnavailable));
    assert_eq!(s.state, Some(ConnectionStateValue::Error));
    assert!(matches!(s.action, ConnectAction::Finish(Err(MqttError::ConnackError))));
}

#[test]
fn connect_steps_failures_keep_the_state() {
    let s = connect_step(ConnectEvent::OtherPacket);
    assert_eq!(s.state, None);
    assert!(matches!(s.action, ConnectAction::Finish(Err(MqttError::ConnackError))));
    let s = connect_step(ConnectEvent::AutoSubscribed(Err(MqttError::SubscribeOrUnsubscribeFailed)));
    assert_eq!(s.state, None);
    assert!(matches!(s.action, ConnectAction::Finish(Err(MqttError::SubscribeOrUnsubscribeFailed))));
}

#[test]
fn connect_with_overlong_client_id_is_refused() {
    let id = "x".repeat(70_000);
    let config = ClientConfig::new(Host::Hostname("h"), None, &id, None);
    let mut w = PacketWriter::<1024>::new();
    assert_eq!(write_connect_checked(&mut w, &config, None), Err(MqttError::BufferTooSmall));
    assert!(!w.send_buffer().has_remaining_len());
    let config = ClientConfig::new(Host::Hostname("h"), None, "id", None);
    assert_eq!(write_connect_checked(&mut w, &config, None), Ok(()));
    assert!(w.send_buffer().has_remaining_len());
}
