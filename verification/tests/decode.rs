use embedded_mqttc::decode::{decode_safe_check, frame_of, header_valid_check, read_packet, try_read_packet, Frame, ReceivedPacket};
use embedded_mqttc::packet::{ConnectReturnCode, InPacket, Pid, QoS, QosPid, SubscribeReturnCodes};
use embedded_mqttc::stack_buffer::StackBuffer;
use embedded_mqttc::MqttError;

fn buffer_with<const N: usize>(bytes: &[u8]) -> StackBuffer<N> {
    let mut buf = StackBuffer::<N>::new();
    buf.push(bytes).unwrap();
    buf
}

#[test]
fn decode_puback_marks_its_bytes_read() {
    let mut buf = buffer_with::<16>(&[0x40, 2, 0, 5, 0xD0]);
    let packet = read_packet(&mut buf).unwrap().unwrap();
    assert!(matches!(packet, ReceivedPacket::Puback(pid) if pid == Pid::try_new(5).unwrap()));
    assert_eq!(buf.reaable_data(), &[0xD0]);
}

#[test]
fn decode_incomplete_packet_leaves_the_buffer() {
    let mut buf = buffer_with::<16>(&[0x40, 2, 0]);
    assert!(matches!(read_packet(&mut buf), Ok(None)));
    assert_eq!(buf.reaable_data(), &[0x40, 2, 0]);
    let mut buf = buffer_with::<16>(&[0x30]);
    assert!(matches!(read_packet(&mut buf), Ok(None)));
}

#[test]
fn decode_connack_codes() {
    let mut buf = buffer_with::<16>(&[0x20, 2, 0, 4]);
    match read_packet(&mut buf).unwrap().unwrap() {
        ReceivedPacket::Connack { session_present, code } => {
            assert!(!session_present);
            assert_eq!(code, ConnectReturnCode::BadUsernamePassword);
        },
        p => panic!("unexpected {:?}", p),
    }
    let mut buf = buffer_with::<16>(&[0x20, 2, 1, 0]);
    assert!(matches!(read_packet(&mut buf).unwrap().unwrap(),
        ReceivedPacket::Connack { session_present: true, code: ConnectReturnCode::Accepted }));
}

#[test]
fn decode_publish_with_topic_and_payload() {
    let bytes = [0x32, 10, 0, 3, b'a', b'/', b'b', 0, 7, b'h', b'i', b'!'];
    let mut buf = buffer_with::<32>(&bytes);
    let packet = read_packet(&mut buf).unwrap().unwrap();
    match &packet {
        ReceivedPacket::Publish { dup, qospid, retain, topic, payload } => {
            assert!(!dup && !retain);
            assert_eq!(*qospid, QosPid::AtLeastOnce(Pid::try_new(7).unwrap()));
            assert_eq!(topic, "a/b");
            assert_eq!(payload.as_slice(), b"hi!");
        },
        p => panic!("unexpected {:?}", p),
    }
    match packet.as_in_packet() {
        InPacket::Publish(p) => {
            assert_eq!(p.topic_name, "a/b");
            assert_eq!(p.payload, b"hi!");
        },
        p => panic!("unexpected {:?}", p),
    }
    assert!(!buf.has_remaining_len());
}

#[test]
fn decode_suback_return_codes() {
    let mut buf = buffer_with::<16>(&[0x90, 4, 0, 9, 1, 0x80]);
    match read_packet(&mut buf).unwrap().unwrap() {
        ReceivedPacket::Suback(s) => {
            assert_eq!(s.pid, Pid::try_new(9).unwrap());
            assert_eq!(s.return_codes, vec![SubscribeReturnCodes::Success(QoS::AtLeastOnce), SubscribeReturnCodes::Failure]);
        },
        p => panic!("unexpected {:?}", p),
    }
}

#[test]
fn decode_invalid_header_is_a_codec_error() {
    let mut buf = buffer_with::<16>(&[0xF0, 0]);
    assert!(matches!(read_packet(&mut buf), Err(MqttError::CodecError(_))));
    assert_eq!(buf.reaable_data(), &[0xF0, 0]);
}

#[test]
fn decode_client_side_packet_is_unexpected() {
    let mut buf = buffer_with::<16>(&[0xC0, 0]);
    assert!(matches!(read_packet(&mut buf).unwrap().unwrap(), ReceivedPacket::Unexpected));
}

#[test]
fn decode_full_buffer_without_packet_is_too_small() {
    let mut buf = buffer_with::<4>(&[0x30, 10, 0, 1]);
    assert!(matches!(try_read_packet(&mut buf), Err(MqttError::BufferTooSmall)));
    let mut buf = buffer_with::<8>(&[0x30, 10, 0, 1]);
    assert!(matches!(try_read_packet(&mut buf), Ok(None)));
}

#[test]
fn decode_frames() {
    assert_eq!(frame_of(&[0x30]), Frame::Short);
    assert_eq!(frame_of(&[0x30, 0x80]), Frame::Short);
    assert_eq!(frame_of(&[0x30, 0x81, 0x01]), Frame::Done(3, 129));
    assert_eq!(frame_of(&[0x30, 0xFF, 0xFF, 0xFF, 0x7F]), Frame::Done(5, 268_435_455));
    assert_eq!(frame_of(&[0x30, 0x80, 0x80, 0x80, 0x80, 0]), Frame::TooLong);
}

#[test]
fn decode_headers() {
    assert!(header_valid_check(0x40));
    assert!(header_valid_check(0x62));
    assert!(!header_valid_check(0x60));
    assert!(header_valid_check(0x3D));
    assert!(!header_valid_check(0x36));
    assert!(!header_valid_check(0xF0));
    assert!(!header_valid_check(0x00));
}

#[test]
fn decode_safe_refuses_bodies_past_the_buffer() {
    // a CONNACK and a PUBACK without their two bytes
    assert!(!decode_safe_check(&[0x20, 0]));
    assert!(!decode_safe_check(&[0x40, 0]));
    // the same followed by more bytes are read from those
    assert!(decode_safe_check(&[0x40, 0, 0, 1]));
    // a QoS 1 PUBLISH whose packet identifier lies past its end
    assert!(!decode_safe_check(&[0x32, 3, 0, 1, b'a', 0, 5]));
    assert!(decode_safe_check(&[0x32, 5, 0, 1, b'a', 0, 5]));
    // incomplete packets and invalid headers are safe
    assert!(decode_safe_check(&[0x20]));
    assert!(decode_safe_check(&[0xF0, 0]));
    assert!(decode_safe_check(&[0xD0, 0]));
}
