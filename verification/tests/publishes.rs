use embedded_mqttc::packet::{InPacket, Publish, QosPid};
use embedded_mqttc::pid::PidPool;
use embedded_mqttc::publish::{OwnedPublish, PublishesInner};
use embedded_mqttc::state::{MqttEvent, SendResult};
use embedded_mqttc::unique_id::UniqueID;
use embedded_mqttc::writer::PacketWriter;
use embedded_mqttc::MqttError;

/// Takes the next packet out of the send buffer and hands it to `f`.
fn take_packet<const N: usize, R>(w: &mut PacketWriter<N>, f: impl FnOnce(&mqttrs2::Packet<'_>) -> R) -> R {
    let buf = w.send_buffer();
    let (n, r) = {
        let data = buf.reaable_data();
        let (n, packet) = mqttrs2::decode_slice_with_len(data).unwrap().expect("there must be a packet");
        (n, f(&packet))
    };
    buf.add_bytes_read(n).unwrap();
    r
}

fn codec_pid(pid: embedded_mqttc::packet::Pid) -> mqttrs2::Pid {
    mqttrs2::Pid::try_from(pid.get()).unwrap()
}

fn assert_empty(inner: &PublishesInner<4, 1024, 128>) {
    assert_eq!(inner.awaiting_puback(), 0);
    assert_eq!(inner.awaiting_pubcomp(), 0);
    assert_eq!(inner.awaiting_pubrec(), 0);
    assert_eq!(inner.pending_publishes(), 0);
}

/// Whether `pid` is the next identifier the pool hands out, that is,
/// whether it was freed into a pool that held no other freed identifier.
fn is_freed(pids: &mut PidPool, pid: embedded_mqttc::packet::Pid) -> bool {
    pids.next_pid() == pid
}

#[test]
fn test_qos_0_publish() {
    let mut w = PacketWriter::<1024>::new();
    let mut publishes = PublishesInner::<4, 1024, 128>::new();
    let mut events: Vec<MqttEvent> = Vec::new();

    let publish = Publish {
        dup: false,
        qospid: QosPid::AtMostOnce,
        retain: false,
        topic_name: "a/test/tpic",
        payload: "a test payload".as_bytes(),
    };

    let unique_id = UniqueID(45);

    // add publish to queue
    assert_eq!(publishes.try_publish(&publish, unique_id), Ok(true));

    // send publish
    let send_result = publishes.send_packets(&mut w, 0, &mut events).unwrap();
    assert_eq!(send_result, SendResult::SentAll);

    // assert publish written
    take_packet(&mut w, |packet| match packet {
        mqttrs2::Packet::Publish(p) => {
            assert!(!p.dup);
            assert_eq!(p.qospid, mqttrs2::QosPid::AtMostOnce);
            assert!(!p.retain);
            assert_eq!(p.topic_name, "a/test/tpic");
            assert_eq!(p.payload, "a test payload".as_bytes());
        },
        packet => panic!("unexpected packet {:?}", packet),
    });

    // assert event fired
    assert_eq!(events, vec![MqttEvent::PublishDone(unique_id)]);

    // assert empty state
    assert_empty(&publishes);
}

#[test]
fn test_qos_1_publish() {
    let mut w = PacketWriter::<1024>::new();
    let mut publishes = PublishesInner::<4, 1024, 128>::new();
    let mut events: Vec<MqttEvent> = Vec::new();
    let mut pids = PidPool::new();

    let pid = pids.next_pid();

    let publish = Publish {
        dup: false,
        qospid: QosPid::AtLeastOnce(pid),
        retain: false,
        topic_name: "a/test/tpic",
        payload: "a test payload".as_bytes(),
    };

    let unique_id = UniqueID(45);

    // add publish to queue
    assert_eq!(publishes.try_publish(&publish, unique_id), Ok(true));

    // send publish
    let send_result = publishes.send_packets(&mut w, 0, &mut events).unwrap();
    assert_eq!(send_result, SendResult::SentAll);

    // assert publish written
    take_packet(&mut w, |packet| match packet {
        mqttrs2::Packet::Publish(p) => {
            assert!(!p.dup);
            assert_eq!(p.qospid, mqttrs2::QosPid::AtLeastOnce(codec_pid(pid)));
            assert!(!p.retain);
            assert_eq!(p.topic_name, "a/test/tpic");
            assert_eq!(p.payload, "a test payload".as_bytes());
        },
        packet => panic!("unexpected packet {:?}", packet),
    });

    // assert event not fired
    assert!(events.is_empty());

    // assert request in puback await queue
    assert_eq!(publishes.awaiting_puback(), 1);

    assert!(!is_freed(&mut pids, pid));

    // receive puback
    publishes.process_incoming_packet(&InPacket::Puback(pid), &mut pids, &mut events).unwrap();

    assert!(is_freed(&mut pids, pid));

    // assert event fired
    assert_eq!(events, vec![MqttEvent::PublishDone(unique_id)]);

    // assert empty state
    assert_empty(&publishes);
}

#[test]
fn test_qos_2_publish() {
    let mut w = PacketWriter::<1024>::new();
    let mut publishes = PublishesInner::<4, 1024, 128>::new();
    let mut events: Vec<MqttEvent> = Vec::new();
    let mut pids = PidPool::new();

    let pid = pids.next_pid();

    let publish = Publish {
        dup: false,
        qospid: QosPid::ExactlyOnce(pid),
        retain: false,
        topic_name: "a/test/tpic",
        payload: "a test payload".as_bytes(),
    };

    let unique_id = UniqueID(45);

    // add publish to queue
    assert_eq!(publishes.try_publish(&publish, unique_id), Ok(true));

    // send publish
    let send_result = publishes.send_packets(&mut w, 0, &mut events).unwrap();
    assert_eq!(send_result, SendResult::SentAll);

    // assert publish written
    take_packet(&mut w, |packet| match packet {
        mqttrs2::Packet::Publish(p) => {
            assert!(!p.dup);
            assert_eq!(p.qospid, mqttrs2::QosPid::ExactlyOnce(codec_pid(pid)));
            assert!(!p.retain);
            assert_eq!(p.topic_name, "a/test/tpic");
            assert_eq!(p.payload, "a test payload".as_bytes());
        },
        packet => panic!("unexpected packet {:?}", packet),
    });

    // assert request in pubrec await queue
    assert_eq!(publishes.awaiting_pubrec(), 1);

    // receive pubrec
    publishes.process_incoming_packet(&InPacket::Pubrec(pid), &mut pids, &mut events).unwrap();

    // assert request in pubrel send queue
    assert_eq!(publishes.pending_pubrel(), 1);

    // send pubrel
    let send_result = publishes.send_packets(&mut w, 0, &mut events).unwrap();
    assert_eq!(send_result, SendResult::SentAll);

    // assert pubrel written
    take_packet(&mut w, |packet| match packet {
        mqttrs2::Packet::Pubrel(p) => {
            assert_eq!(*p, codec_pid(pid));
        },
        packet => panic!("unexpected packet {:?}", packet),
    });

    // assert request in pubcomp await queue
    assert_eq!(publishes.awaiting_pubcomp(), 1);

    // assert event not fired until now
    assert!(events.is_empty());

    assert!(!is_freed(&mut pids, pid));

    // receive pubcomp
    publishes.process_incoming_packet(&InPacket::Pubcomp(pid), &mut pids, &mut events).unwrap();

    assert!(is_freed(&mut pids, pid));

    // assert event fired
    assert_eq!(events, vec![MqttEvent::PublishDone(unique_id)]);

    // assert empty state
    assert_empty(&publishes);
}

#[test]
fn publish_unknown_acks_are_refused() {
    let mut publishes = PublishesInner::<4, 1024, 128>::new();
    let mut events: Vec<MqttEvent> = Vec::new();
    let mut pids = PidPool::new();
    let pid = pids.next_pid();
    assert_eq!(
        publishes.process_incoming_packet(&InPacket::Puback(pid), &mut pids, &mut events),
        Err(MqttError::UnexpectedAck(pid))
    );
    assert_eq!(
        publishes.process_incoming_packet(&InPacket::Pubcomp(pid), &mut pids, &mut events),
        Err(MqttError::UnexpectedAck(pid))
    );
    // a PUBREC for an unknown pid still queues a PUBREL
    assert_eq!(publishes.process_incoming_packet(&InPacket::Pubrec(pid), &mut pids, &mut events), Ok(()));
    assert_eq!(publishes.pending_pubrel(), 1);
    assert!(events.is_empty());
}

#[test]
fn publish_second_puback_is_refused() {
    let mut w = PacketWriter::<1024>::new();
    let mut publishes = PublishesInner::<4, 1024, 128>::new();
    let mut events: Vec<MqttEvent> = Vec::new();
    let mut pids = PidPool::new();
    let pid = pids.next_pid();
    let publish = Publish { dup: false, qospid: QosPid::AtLeastOnce(pid), retain: false, topic_name: "t", payload: b"p" };
    publishes.try_publish(&publish, UniqueID(1)).unwrap();
    publishes.send_packets(&mut w, 0, &mut events).unwrap();
    assert_eq!(publishes.process_incoming_packet(&InPacket::Puback(pid), &mut pids, &mut events), Ok(()));
    assert_eq!(
        publishes.process_incoming_packet(&InPacket::Puback(pid), &mut pids, &mut events),
        Err(MqttError::UnexpectedAck(pid))
    );
    assert_eq!(events, vec![MqttEvent::PublishDone(UniqueID(1))]);
}

#[test]
fn publish_queue_full_and_size_errors() {
    let mut publishes = PublishesInner::<1, 4, 3>::new();
    let too_long_topic = Publish { dup: false, qospid: QosPid::AtMostOnce, retain: false, topic_name: "abcd", payload: b"x" };
    assert_eq!(publishes.try_publish(&too_long_topic, UniqueID(1)), Err(MqttError::TopicSizeError));
    let too_long_payload = Publish { dup: false, qospid: QosPid::AtMostOnce, retain: false, topic_name: "abc", payload: b"12345" };
    assert_eq!(publishes.try_publish(&too_long_payload, UniqueID(1)), Err(MqttError::BufferTooSmall));
    let fits = Publish { dup: false, qospid: QosPid::AtMostOnce, retain: false, topic_name: "abc", payload: b"1234" };
    assert_eq!(publishes.try_publish(&fits, UniqueID(1)), Ok(true));
    assert_eq!(publishes.try_publish(&fits, UniqueID(2)), Ok(false));
    assert_eq!(publishes.pending_publishes(), 1);
}

#[test]
fn publish_partially_sent_when_buffer_full() {
    // the publish takes 2 + 2 + 1 + 4 = 9 bytes: it does not fit 8
    let mut w = PacketWriter::<8>::new();
    let mut publishes = PublishesInner::<4, 16, 16>::new();
    let mut events: Vec<MqttEvent> = Vec::new();
    let publish = Publish { dup: false, qospid: QosPid::AtMostOnce, retain: false, topic_name: "t", payload: b"1234" };
    publishes.try_publish(&publish, UniqueID(3)).unwrap();
    assert_eq!(publishes.send_packets(&mut w, 0, &mut events), Ok(SendResult::PartiallySent));
    assert_eq!(publishes.pending_publishes(), 1);
    assert!(events.is_empty());
}

#[test]
fn publish_is_resent_as_dup_after_resend_duration() {
    let mut w = PacketWriter::<1024>::new();
    let mut publishes = PublishesInner::<4, 1024, 128>::new();
    let mut events: Vec<MqttEvent> = Vec::new();
    let mut pids = PidPool::new();
    let pid = pids.next_pid();
    let publish = Publish { dup: false, qospid: QosPid::AtLeastOnce(pid), retain: false, topic_name: "t", payload: b"p" };
    publishes.try_publish(&publish, UniqueID(1)).unwrap();
    publishes.send_packets(&mut w, 1_000_000, &mut events).unwrap();
    take_packet(&mut w, |p| assert!(matches!(p, mqttrs2::Packet::Publish(_))));

    // 5 s later: not yet overdue
    assert_eq!(publishes.resend_publishes(&mut w, 6_000_000), Ok(SendResult::SentAll));
    assert!(!w.send_buffer().has_remaining_len());

    // later: sent again, marked as duplicate
    assert_eq!(publishes.resend_publishes(&mut w, 6_000_001), Ok(SendResult::SentAll));
    take_packet(&mut w, |packet| match packet {
        mqttrs2::Packet::Publish(p) => {
            assert!(p.dup);
            assert_eq!(p.qospid, mqttrs2::QosPid::AtLeastOnce(codec_pid(pid)));
        },
        packet => panic!("unexpected packet {:?}", packet),
    });
}

#[test]
fn owned_publish_copies_fields() {
    let publish = Publish { dup: true, qospid: QosPid::AtMostOnce, retain: true, topic_name: "a/b", payload: b"xyz" };
    let owned = OwnedPublish::<8, 8>::new_from_publish(&publish, UniqueID(9)).unwrap();
    assert!(owned.dup);
    assert!(owned.retain);
    assert_eq!(owned.topic_name, "a/b");
    assert_eq!(owned.payload, b"xyz".to_vec());
    assert_eq!(owned.unique_id, UniqueID(9));
}

#[test]
fn publish_waits_in_the_send_queue_while_acks_are_full() {
    let mut w = PacketWriter::<1024>::new();
    let mut publishes = PublishesInner::<1, 64, 64>::new();
    let mut events: Vec<MqttEvent> = Vec::new();
    let mut pids = PidPool::new();
    let first = pids.next_pid();
    let second = pids.next_pid();
    let p1 = Publish { dup: false, qospid: QosPid::AtLeastOnce(first), retain: false, topic_name: "t", payload: b"1" };
    let p2 = Publish { dup: false, qospid: QosPid::AtLeastOnce(second), retain: false, topic_name: "t", payload: b"2" };
    assert_eq!(publishes.try_publish(&p1, UniqueID(1)), Ok(true));
    assert_eq!(publishes.send_packets(&mut w, 0, &mut events), Ok(SendResult::SentAll));
    assert_eq!(publishes.try_publish(&p2, UniqueID(2)), Ok(true));
    // the PUBACK queue holds one entry: the second publish stays queued
    assert_eq!(publishes.send_packets(&mut w, 0, &mut events), Ok(SendResult::SentAll));
    assert_eq!(publishes.awaiting_puback(), 1);
    assert_eq!(publishes.pending_publishes(), 1);
    // its PUBACK makes room
    publishes.process_incoming_packet(&InPacket::Puback(first), &mut pids, &mut events).unwrap();
    assert_eq!(publishes.send_packets(&mut w, 0, &mut events), Ok(SendResult::SentAll));
    assert_eq!(publishes.awaiting_puback(), 1);
    assert_eq!(publishes.pending_publishes(), 0);
    assert_eq!(events, vec![MqttEvent::PublishDone(UniqueID(1))]);
}

#[test]
fn publish_pubrel_without_unique_id_is_detected() {
    let w = PacketWriter::<64>::new();
    let mut publishes = PublishesInner::<4, 64, 64>::new();
    let mut events: Vec<MqttEvent> = Vec::new();
    let mut pids = PidPool::new();
    let pid = pids.next_pid();
    assert!(!publishes.pubrel_would_panic(&w, 0));
    // a PUBREC for no waiting publish queues a PUBREL without unique id
    publishes.process_incoming_packet(&InPacket::Pubrec(pid), &mut pids, &mut events).unwrap();
    assert!(publishes.pubrel_would_panic(&w, 0));
}
