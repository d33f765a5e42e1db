use embedded_mqttc::packet::{Pid, Publish, QosPid};
use embedded_mqttc::receives::{ReceivedPublish, ReceivesInner};
use embedded_mqttc::state::SendResult;
use embedded_mqttc::writer::PacketWriter;
use embedded_mqttc::MqttError;

/// Takes the next packet out of the send buffer and hands it to `f`.
fn take_packet<const N: usize, R>(w: &mut PacketWriter<N>, f: impl FnOnce(&mqttrs2::Packet<'_>) -> R) -> R {
    let buf = w.send_buffer();
    let (n, r) = {
        let data = buf.reaable_data();
        let (n, packet) = mqttrs2::decode_slice_with_len(data).unwrap().expect("there must be a packet");
        (n, f(&packet))
    };
    buf.add_bytes_read(n).unwrap();
    r
}

fn codec_pid(pid: Pid) -> mqttrs2::Pid {
    mqttrs2::Pid::try_from(pid.get()).unwrap()
}

fn assert_received(received: &ReceivedPublish<1024, 128>, publish: &Publish) {
    assert_eq!(received.dup, publish.dup);
    assert_eq!(received.qospid, publish.qospid);
    assert_eq!(received.payload, publish.payload.to_vec());
    assert_eq!(received.retain, publish.retain);
    assert_eq!(received.topic_name, publish.topic_name);
}

fn assert_all_empty(inner: &ReceivesInner<4>) {
    assert_eq!(inner.awaiting_pubrel(), 0);
    assert_eq!(inner.pending_pubacks(), 0);
    assert_eq!(inner.pending_pubcomps(), 0);
    assert_eq!(inner.pending_pubrecs(), 0);
}

#[test]
fn test_qos_0_receive() {
    let mut receives = ReceivesInner::<4>::new();

    let publish = Publish {
        dup: false,
        qospid: QosPid::AtMostOnce,
        retain: false,
        topic_name: "test/topic",
        payload: "test-payload".as_bytes(),
    };

    let (received, result) = receives.on_publish::<1024, 128>(&publish);
    result.unwrap();

    let received_publish = received.expect("expect there to be a publish");
    assert_received(&received_publish, &publish);

    assert_all_empty(&receives);
}

#[test]
fn test_qos_1_receive() {
    let mut w = PacketWriter::<1024>::new();
    let mut receives = ReceivesInner::<4>::new();

    let pid = Pid::try_new(8).unwrap();

    let publish = Publish {
        dup: false,
        qospid: QosPid::AtLeastOnce(pid),
        retain: false,
        topic_name: "test/topic",
        payload: "test-payload".as_bytes(),
    };

    let (received, result) = receives.on_publish::<1024, 128>(&publish);
    result.unwrap();

    // expect an entry in send_puback
    assert_eq!(receives.pending_pubacks(), 1);

    // expect publish in queue
    let received_publish = received.expect("expect there to be a publish");
    assert_received(&received_publish, &publish);

    // Send puback
    let send_result = receives.send_packets(&mut w).unwrap();
    assert_eq!(send_result, SendResult::SentAll);

    take_packet(&mut w, |packet| match packet {
        mqttrs2::Packet::Puback(puback_pid) if *puback_pid == codec_pid(pid) => {},
        p => panic!("unexpected packet while expecting puback: {:?}", p),
    });

    assert_all_empty(&receives);
}

#[test]
fn test_qos_2_receive() {
    let mut w = PacketWriter::<1024>::new();
    let mut receives = ReceivesInner::<4>::new();

    let pid = Pid::try_new(8).unwrap();

    let publish = Publish {
        dup: false,
        qospid: QosPid::ExactlyOnce(pid),
        retain: false,
        topic_name: "test/topic",
        payload: "test-payload".as_bytes(),
    };

    let (received, result) = receives.on_publish::<1024, 128>(&publish);
    result.unwrap();

    // expect an entry in send_pubrec
    assert_eq!(receives.pending_pubrecs(), 1);

    // expect publish in queue
    let received_publish = received.expect("expect there to be a publish");
    assert_received(&received_publish, &publish);

    // Send pubrec
    let send_result = receives.send_packets(&mut w).unwrap();
    assert_eq!(send_result, SendResult::SentAll);

    take_packet(&mut w, |packet| match packet {
        mqttrs2::Packet::Pubrec(pubrec_pid) if *pubrec_pid == codec_pid(pid) => {},
        p => panic!("unexpected packet while expecting puback: {:?}", p),
    });

    // expect an entry in await_pubrel
    assert_eq!(receives.awaiting_pubrel(), 1);

    // receive pubrel
    receives.on_pubrel(pid).unwrap();

    // expect an entry in send_pubcomp
    assert_eq!(receives.pending_pubcomps(), 1);

    // Send pubcomp
    let send_result = receives.send_packets(&mut w).unwrap();
    assert_eq!(send_result, SendResult::SentAll);

    take_packet(&mut w, |packet| match packet {
        mqttrs2::Packet::Pubcomp(pubcomp_pid) if *pubcomp_pid == codec_pid(pid) => {},
        p => panic!("unexpected packet while expecting puback: {:?}", p),
    });

    // assert all queues empty
    assert_all_empty(&receives);
}

#[test]
fn test_no_dup_in_qos_2() {
    let mut receives = ReceivesInner::<4>::new();

    let pid = Pid::try_new(8).unwrap();

    let publish = Publish {
        dup: false,
        qospid: QosPid::ExactlyOnce(pid),
        retain: false,
        topic_name: "test/topic",
        payload: "test-payload".as_bytes(),
    };

    let (received, result) = receives.on_publish::<1024, 128>(&publish);
    result.unwrap();

    // expect an entry in send_pubrec
    assert_eq!(receives.pending_pubrecs(), 1);

    // expect publish in queue
    let received_publish = received.expect("expect there to be a publish");
    assert_received(&received_publish, &publish);

    // receive a dup publish
    let dup_publish = Publish {
        dup: true,
        qospid: QosPid::ExactlyOnce(pid),
        retain: false,
        topic_name: "test/topic",
        payload: "test-payload".as_bytes(),
    };

    // No dup notification
    let (received, result) = receives.on_publish::<1024, 128>(&dup_publish);
    result.unwrap();
    assert!(received.is_none());
}

#[test]
fn test_send_pubrec_publish() {
    let mut w = PacketWriter::<1024>::new();
    let mut receives = ReceivesInner::<4>::new();

    let pid = Pid::try_new(8).unwrap();

    let publish = Publish {
        dup: false,
        qospid: QosPid::ExactlyOnce(pid),
        retain: false,
        topic_name: "test/topic",
        payload: "test-payload".as_bytes(),
    };

    // first publish
    let (received, result) = receives.on_publish::<1024, 128>(&publish);
    result.unwrap();
    assert!(received.is_some());

    // Send pubrec
    let send_result = receives.send_packets(&mut w).unwrap();
    assert_eq!(send_result, SendResult::SentAll);

    take_packet(&mut w, |packet| match packet {
        mqttrs2::Packet::Pubrec(pubrec_pid) if *pubrec_pid == codec_pid(pid) => {},
        p => panic!("unexpected packet while expecting puback: {:?}", p),
    });

    // second publish
    let (received, result) = receives.on_publish::<1024, 128>(&publish);
    result.unwrap();
    assert!(received.is_none());

    // Send pubrec again
    let send_result = receives.send_packets(&mut w).unwrap();
    assert_eq!(send_result, SendResult::SentAll);

    take_packet(&mut w, |packet| match packet {
        mqttrs2::Packet::Pubrec(pubrec_pid) if *pubrec_pid == codec_pid(pid) => {},
        p => panic!("unexpected packet while expecting puback: {:?}", p),
    });
}

#[test]
fn test_send_pubcomp_to_pubrel() {
    let mut w = PacketWriter::<1024>::new();
    let mut receives = ReceivesInner::<4>::new();

    let pid = Pid::try_new(8).unwrap();

    // Receive pubrel
    receives.on_pubrel(pid).unwrap();

    // Send pubcomp
    let send_result = receives.send_packets(&mut w).unwrap();
    assert_eq!(send_result, SendResult::SentAll);

    take_packet(&mut w, |packet| match packet {
        mqttrs2::Packet::Pubcomp(pubcomp_pid) if *pubcomp_pid == codec_pid(pid) => {},
        p => panic!("unexpected packet while expecting puback: {:?}", p),
    });

    // Receive pubrel again
    receives.on_pubrel(pid).unwrap();

    // Send pubcomp again
    let send_result = receives.send_packets(&mut w).unwrap();
    assert_eq!(send_result, SendResult::SentAll);

    take_packet(&mut w, |packet| match packet {
        mqttrs2::Packet::Pubcomp(pubcomp_pid) if *pubcomp_pid == codec_pid(pid) => {},
        p => panic!("unexpected packet while expecting puback: {:?}", p),
    });
}

#[test]
fn receives_oversized_publish_is_refused() {
    let mut receives = ReceivesInner::<4>::new();
    let pid = Pid::try_new(3).unwrap();
    let long_topic = Publish { dup: false, qospid: QosPid::AtLeastOnce(pid), retain: false, topic_name: "abcde", payload: b"x" };
    let (received, result) = receives.on_publish::<8, 4>(&long_topic);
    assert!(received.is_none());
    assert_eq!(result, Err(MqttError::TopicSizeError));
    assert_eq!(receives.pending_pubacks(), 0);

    let long_payload = Publish { dup: false, qospid: QosPid::AtMostOnce, retain: false, topic_name: "abc", payload: b"123456789" };
    let (received, result) = receives.on_publish::<8, 4>(&long_payload);
    assert!(received.is_none());
    assert_eq!(result, Err(MqttError::BufferTooSmall));

    // QoS 2: the PUBREC is owed even where the publish cannot be handed on
    let long_qos2 = Publish { dup: false, qospid: QosPid::ExactlyOnce(pid), retain: false, topic_name: "abcde", payload: b"x" };
    let (received, result) = receives.on_publish::<8, 4>(&long_qos2);
    assert!(received.is_none());
    assert_eq!(result, Err(MqttError::TopicSizeError));
    assert_eq!(receives.pending_pubrecs(), 1);
}

#[test]
fn receives_full_puback_queue_hands_on_and_fails() {
    let mut receives = ReceivesInner::<1>::new();
    let p1 = Pid::try_new(1).unwrap();
    let p2 = Pid::try_new(2).unwrap();
    let first = Publish { dup: false, qospid: QosPid::AtLeastOnce(p1), retain: false, topic_name: "t", payload: b"1" };
    let second = Publish { dup: false, qospid: QosPid::AtLeastOnce(p2), retain: false, topic_name: "t", payload: b"2" };
    assert_eq!(receives.on_publish::<8, 8>(&first).1, Ok(()));
    let (received, result) = receives.on_publish::<8, 8>(&second);
    assert!(received.is_some());
    assert_eq!(result, Err(MqttError::QueueFull(QosPid::AtLeastOnce(p2))));
    assert_eq!(receives.pending_pubacks(), 1);
}

#[test]
fn receives_full_pubcomp_queue_refuses_pubrel() {
    let mut receives = ReceivesInner::<1>::new();
    let p1 = Pid::try_new(1).unwrap();
    let p2 = Pid::try_new(2).unwrap();
    assert_eq!(receives.on_pubrel(p1), Ok(()));
    assert_eq!(receives.on_pubrel(p2), Err(MqttError::QueueFull(QosPid::AtLeastOnce(p2))));
}

#[test]
fn receives_send_sends_every_queued_ack_in_order() {
    // SentAll means every queued acknowledgement went out, in queue order
    let mut w = PacketWriter::<1024>::new();
    let mut receives = ReceivesInner::<4>::new();
    for v in 1..=3u16 {
        let pid = Pid::try_new(v).unwrap();
        let publish = Publish { dup: false, qospid: QosPid::AtLeastOnce(pid), retain: false, topic_name: "t", payload: b"x" };
        receives.on_publish::<8, 8>(&publish).1.unwrap();
    }
    assert_eq!(receives.send_packets(&mut w), Ok(SendResult::SentAll));
    assert_eq!(receives.pending_pubacks(), 0);
    take_packet(&mut w, |p| assert_eq!(*p, mqttrs2::Packet::Puback(mqttrs2::Pid::try_from(1).unwrap())));
    take_packet(&mut w, |p| assert_eq!(*p, mqttrs2::Packet::Puback(mqttrs2::Pid::try_from(2).unwrap())));
    take_packet(&mut w, |p| assert_eq!(*p, mqttrs2::Packet::Puback(mqttrs2::Pid::try_from(3).unwrap())));
}

#[test]
fn received_publish_try_from() {
    let publish = Publish { dup: true, qospid: QosPid::AtMostOnce, retain: false, topic_name: "x/y", payload: b"data" };
    let received = ReceivedPublish::<4, 3>::try_from(&publish).unwrap();
    assert_eq!(received.topic_name, "x/y");
    assert_eq!(received.payload, b"data".to_vec());
    assert!(ReceivedPublish::<3, 3>::try_from(&publish).is_err());
}
