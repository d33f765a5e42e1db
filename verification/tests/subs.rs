use embedded_mqttc::packet::{Pid, QoS, Suback, SubscribeReturnCodes};
use embedded_mqttc::pid::PidPool;
use embedded_mqttc::state::{MqttEvent, SendResult};
use embedded_mqttc::subs::{RequestType, SubsInner};
use embedded_mqttc::unique_id::UniqueID;
use embedded_mqttc::writer::PacketWriter;
use embedded_mqttc::MqttError;

/// Takes the next packet out of the send buffer and hands it to `f`.
fn take_packet<const N: usize, R>(w: &mut PacketWriter<N>, f: impl FnOnce(&mqttrs2::Packet<'_>) -> R) -> R {
    let buf = w.send_buffer();
    let (n, r) = {
        let data = buf.reaable_data();
        let (n, packet) = mqttrs2::decode_slice_with_len(data).unwrap().expect("there must be a packet");
        (n, f(&packet))
    };
    buf.add_bytes_read(n).unwrap();
    r
}

fn our_pid(pid: mqttrs2::Pid) -> Pid {
    Pid::try_new(pid.get()).unwrap()
}

#[test]
fn sub2_test_subscribe() {
    let mut w = PacketWriter::<1024>::new();
    let mut pids = PidPool::new();
    let mut subs = SubsInner::<128, 4>::new();

    assert!(subs.add_subscribe_request(&["test/topic"], QoS::AtMostOnce, UniqueID(6), &mut pids));

    let mut events: Vec<MqttEvent> = Vec::new();

    let send_result = subs.send(&mut w, 0).unwrap();

    assert_eq!(send_result, SendResult::SentAll);

    let pid = take_packet(&mut w, |p| match p {
        mqttrs2::Packet::Subscribe(subscribe) => subscribe.pid,
        p => panic!("sent unexpected packet {:?}", p),
    });

    let suback = Suback { pid: our_pid(pid), return_codes: vec![SubscribeReturnCodes::Success(QoS::AtMostOnce)] };

    subs.on_suback(&suback, &mut pids, &mut events).unwrap();

    let event = events.pop().expect("expect a sub success event");
    assert_eq!(event, MqttEvent::SubscribeDone(UniqueID(6), Ok(QoS::AtMostOnce)))
}

#[test]
fn test_parallel_subscribe() {
    // room for exactly one SUBSCRIBE of one 12 byte topic (19 bytes)
    let mut w = PacketWriter::<19>::new();
    let mut pids = PidPool::new();
    let mut subs = SubsInner::<128, 4>::new();

    assert!(subs.add_subscribe_request(&["test/topic/0"], QoS::AtMostOnce, UniqueID(0), &mut pids));
    assert!(subs.add_subscribe_request(&["test/topic/1"], QoS::AtMostOnce, UniqueID(1), &mut pids));

    let mut events: Vec<MqttEvent> = Vec::new();

    // "Send" subscribe packets
    for i in 0..2u32 {
        let send_result = subs.send(&mut w, 0).unwrap();

        let expected_send_result = if i + 1 < 2 { SendResult::PartiallySent } else { SendResult::SentAll };
        assert_eq!(send_result, expected_send_result);

        let pid = take_packet(&mut w, |p| match p {
            mqttrs2::Packet::Subscribe(subscribe) => subscribe.pid,
            p => panic!("sent unexpected packet {:?}", p),
        });

        let suback = Suback { pid: our_pid(pid), return_codes: vec![SubscribeReturnCodes::Success(QoS::AtMostOnce)] };

        subs.on_suback(&suback, &mut pids, &mut events).unwrap();

        let event = events.pop().expect("expect a sub success event");
        assert_eq!(event, MqttEvent::SubscribeDone(UniqueID(i), Ok(QoS::AtMostOnce)))
    }
}

#[test]
fn test_unsubscribe() {
    let mut w = PacketWriter::<1024>::new();
    let mut pids = PidPool::new();
    let mut subs = SubsInner::<128, 4>::new();

    assert!(subs.add_unsubscribe_request(&["test/topic"], UniqueID(6), &mut pids));

    let mut events: Vec<MqttEvent> = Vec::new();

    let send_result = subs.send(&mut w, 0).unwrap();

    assert_eq!(send_result, SendResult::SentAll);

    let pid = take_packet(&mut w, |p| match p {
        mqttrs2::Packet::Unsubscribe(unsubscribe) => unsubscribe.pid,
        p => panic!("sent unexpected packet {:?}", p),
    });

    subs.on_unsuback(our_pid(pid), &mut pids, &mut events);

    let event = events.pop().expect("expect a sub success event");
    assert_eq!(event, MqttEvent::UnsubscribeDone(UniqueID(6)))
}

#[test]
fn subs_failed_topic_fails_the_request() {
    let mut w = PacketWriter::<1024>::new();
    let mut pids = PidPool::new();
    let mut subs = SubsInner::<128, 4>::new();
    let mut events: Vec<MqttEvent> = Vec::new();
    assert!(subs.add_subscribe_request(&["a", "b"], QoS::AtLeastOnce, UniqueID(2), &mut pids));
    subs.send(&mut w, 0).unwrap();
    let pid = take_packet(&mut w, |p| match p {
        mqttrs2::Packet::Subscribe(s) => {
            assert_eq!(s.topics.len(), 2);
            assert_eq!(s.topics[0].topic_path, "a");
            assert_eq!(s.topics[0].qos, mqttrs2::QoS::AtLeastOnce);
            assert_eq!(s.topics[1].topic_path, "b");
            s.pid
        },
        p => panic!("sent unexpected packet {:?}", p),
    });
    let suback = Suback {
        pid: our_pid(pid),
        return_codes: vec![SubscribeReturnCodes::Success(QoS::AtMostOnce), SubscribeReturnCodes::Failure],
    };
    subs.on_suback(&suback, &mut pids, &mut events).unwrap();
    assert_eq!(events, vec![MqttEvent::SubscribeDone(UniqueID(2), Err(MqttError::SubscribeOrUnsubscribeFailed))]);
    // a second SUBACK for the same pid finds no request
    subs.on_suback(&suback, &mut pids, &mut events).unwrap();
    assert_eq!(events.len(), 1);
    assert_eq!(subs.awaiting_acks(), 0);
}

#[test]
fn subs_queue_full_refuses_requests() {
    let mut pids = PidPool::new();
    let mut subs = SubsInner::<128, 1>::new();
    assert!(subs.add_subscribe_request(&["a"], QoS::AtMostOnce, UniqueID(1), &mut pids));
    assert!(!subs.add_unsubscribe_request(&["a"], UniqueID(2), &mut pids));
    assert_eq!(subs.pending_requests(), 1);
    // no pid was taken for the refused request
    assert_eq!(pids.next_pid().get(), 2);
}

#[test]
fn subs_request_waits_while_acks_are_full() {
    let mut w = PacketWriter::<1024>::new();
    let mut pids = PidPool::new();
    let mut subs = SubsInner::<128, 1>::new();
    assert!(subs.add_subscribe_request(&["a"], QoS::AtMostOnce, UniqueID(1), &mut pids));
    assert_eq!(subs.send(&mut w, 0), Ok(SendResult::SentAll));
    assert!(subs.add_subscribe_request(&["b"], QoS::AtMostOnce, UniqueID(2), &mut pids));
    assert_eq!(subs.send(&mut w, 0), Ok(SendResult::PartiallySent));
    assert_eq!(subs.pending_requests(), 1);
    assert_eq!(subs.awaiting_acks(), 1);
}

#[test]
fn subs_overdue_request_is_sent_again() {
    let mut w = PacketWriter::<1024>::new();
    let mut pids = PidPool::new();
    let mut subs = SubsInner::<128, 4>::new();
    assert!(subs.add_unsubscribe_request(&["a/b"], UniqueID(1), &mut pids));
    subs.send(&mut w, 0).unwrap();
    take_packet(&mut w, |p| assert!(matches!(p, mqttrs2::Packet::Unsubscribe(_))));
    subs.send(&mut w, 5_000_000).unwrap();
    assert!(!w.send_buffer().has_remaining_len());
    subs.send(&mut w, 5_000_001).unwrap();
    take_packet(&mut w, |p| match p {
        mqttrs2::Packet::Unsubscribe(u) => assert_eq!(u.topics, vec!["a/b".to_string()]),
        p => panic!("sent unexpected packet {:?}", p),
    });
}

#[test]
fn request_type_is_unsub() {
    assert!(RequestType::Unsubscribe.is_unsub());
    assert!(!RequestType::Subscribe(QoS::ExactlyOnce).is_unsub());
}
