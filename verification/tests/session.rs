use embedded_mqttc::packet::{InPacket, Pid, Publish, QoS, QosPid, Suback, SubscribeReturnCodes};
use embedded_mqttc::pid::PidPool;
use embedded_mqttc::session::Session;
use embedded_mqttc::state::{MqttEvent, SendResult};
use embedded_mqttc::unique_id::UniqueID;
use embedded_mqttc::writer::PacketWriter;
use embedded_mqttc::MqttError;

/// Takes the next packet out of the send buffer and hands it to `f`.
fn take_packet<const N: usize, R>(w: &mut PacketWriter<N>, f: impl FnOnce(&mqttrs2::Packet<'_>) -> R) -> R {
    let buf = w.send_buffer();
    let (n, r) = {
        let data = buf.reaable_data();
        let (n, packet) = mqttrs2::decode_slice_with_len(data).unwrap().expect("there must be a packet");
        (n, f(&packet))
    };
    buf.add_bytes_read(n).unwrap();
    r
}

#[test]
fn session_round_trip_of_a_qos_1_publish() {
    let mut session = Session::<4, 1024, 128>::new(0);
    let mut w = PacketWriter::<1024>::new();
    let mut pids = PidPool::new();
    let mut events: Vec<MqttEvent> = Vec::new();

    let pid = pids.next_pid();
    let publish = Publish { dup: false, qospid: QosPid::AtLeastOnce(pid), retain: false, topic_name: "topic", payload: b"a test payload" };
    assert_eq!(session.publishes.try_publish(&publish, UniqueID(7)), Ok(true));

    assert_eq!(session.send_packets(&mut w, 0, &mut events), Ok(SendResult::SentAll));
    take_packet(&mut w, |p| match p {
        mqttrs2::Packet::Publish(p) => assert_eq!(p.topic_name, "topic"),
        p => panic!("unexpected packet {:?}", p),
    });
    assert!(!w.send_buffer().has_remaining_len());

    let (received, result) = session.process_packet(&InPacket::Puback(pid), &mut pids, 0, &mut events);
    assert!(received.is_none());
    assert_eq!(result, Ok(()));
    assert_eq!(events, vec![MqttEvent::PublishDone(UniqueID(7))]);
}

#[test]
fn session_hands_on_received_publishes_and_acknowledges_them() {
    let mut session = Session::<4, 1024, 128>::new(0);
    let mut w = PacketWriter::<1024>::new();
    let mut pids = PidPool::new();
    let mut events: Vec<MqttEvent> = Vec::new();

    let pid = Pid::try_new(34).unwrap();
    let publish = Publish { dup: false, qospid: QosPid::ExactlyOnce(pid), retain: false, topic_name: "test-topic", payload: b"test" };
    let (received, result) = session.process_packet(&InPacket::Publish(publish), &mut pids, 0, &mut events);
    assert_eq!(result, Ok(()));
    let received = received.expect("the publish is handed on");
    assert_eq!(received.topic_name, "test-topic");

    session.send_packets(&mut w, 0, &mut events).unwrap();
    take_packet(&mut w, |p| assert_eq!(*p, mqttrs2::Packet::Pubrec(mqttrs2::Pid::try_from(34).unwrap())));

    let (received, result) = session.process_packet(&InPacket::Pubrel(pid), &mut pids, 0, &mut events);
    assert!(received.is_none());
    assert_eq!(result, Ok(()));
    session.send_packets(&mut w, 0, &mut events).unwrap();
    take_packet(&mut w, |p| assert_eq!(*p, mqttrs2::Packet::Pubcomp(mqttrs2::Pid::try_from(34).unwrap())));
}

#[test]
fn session_subscribe_and_ping() {
    let mut session = Session::<4, 1024, 128>::new(0);
    let mut w = PacketWriter::<1024>::new();
    let mut pids = PidPool::new();
    let mut events: Vec<MqttEvent> = Vec::new();

    assert!(session.subs.add_subscribe_request(&["a/b"], QoS::AtLeastOnce, UniqueID(3), &mut pids));
    // 31 s in: the subscribe and a ping go out in one round
    assert_eq!(session.send_packets(&mut w, 31_000_000, &mut events), Ok(SendResult::SentAll));
    let pid = take_packet(&mut w, |p| match p {
        mqttrs2::Packet::Subscribe(s) => s.pid,
        p => panic!("unexpected packet {:?}", p),
    });
    take_packet(&mut w, |p| assert_eq!(*p, mqttrs2::Packet::Pingreq));

    let suback = Suback { pid: Pid::try_new(pid.get()).unwrap(), return_codes: vec![SubscribeReturnCodes::Success(QoS::AtLeastOnce)] };
    let (_, result) = session.process_packet(&InPacket::Suback(suback), &mut pids, 31_000_000, &mut events);
    assert_eq!(result, Ok(()));
    assert_eq!(events, vec![MqttEvent::SubscribeDone(UniqueID(3), Ok(QoS::AtLeastOnce))]);

    let (_, result) = session.process_packet(&InPacket::Pingresp, &mut pids, 32_000_000, &mut events);
    assert_eq!(result, Ok(()));
    assert_eq!(session.ping.ping_pause(32_000_000), 30_010_000);

    let (_, result) = session.process_packet(&InPacket::Unexpected, &mut pids, 32_000_000, &mut events);
    assert_eq!(result, Ok(()));
}

#[test]
fn session_reports_unknown_acks() {
    let mut session = Session::<4, 1024, 128>::new(0);
    let mut pids = PidPool::new();
    let mut events: Vec<MqttEvent> = Vec::new();
    let pid = Pid::try_new(5).unwrap();
    let (_, result) = session.process_packet(&InPacket::Pubcomp(pid), &mut pids, 0, &mut events);
    assert_eq!(result, Err(MqttError::UnexpectedAck(pid)));
}
