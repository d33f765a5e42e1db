use embedded_mqttc::ping::{PingState, PingStateInner};
use embedded_mqttc::state::SendResult;
use embedded_mqttc::writer::PacketWriter;

const SEC: u64 = 1_000_000;

#[test]
fn ping_pause_counts_down_to_half_keep_alive() {
    let ping = PingState::new(0);
    // 30 s after the last success, plus 10 ms
    assert_eq!(ping.ping_pause(0), 30 * SEC + 10_000);
    assert_eq!(ping.ping_pause(10 * SEC), 20 * SEC + 10_000);
    assert_eq!(ping.ping_pause(30 * SEC), 10_000);
    assert_eq!(ping.ping_pause(30 * SEC + 1), 0);
}

#[test]
fn ping_is_sent_when_due_and_resent_without_answer() {
    let mut w = PacketWriter::<16>::new();
    let mut ping = PingState::new(0);

    // not due yet: nothing written
    assert_eq!(ping.send(&mut w, 20 * SEC), Ok(SendResult::SentAll));
    assert!(!w.send_buffer().has_remaining_len());

    // due: a PINGREQ is written
    assert_eq!(ping.send(&mut w, 40 * SEC), Ok(SendResult::SentAll));
    assert_eq!(w.send_buffer().reaable_data(), &[0xC0, 0]);
    w.send_buffer().add_bytes_read(2).unwrap();

    // waiting for the answer: the pause is the retry time
    assert_eq!(ping.ping_pause(42 * SEC), 3 * SEC + 10_000);
    assert_eq!(ping.send(&mut w, 42 * SEC), Ok(SendResult::SentAll));
    assert!(!w.send_buffer().has_remaining_len());

    // no answer for more than 5 s: sent again
    assert_eq!(ping.send(&mut w, 46 * SEC), Ok(SendResult::SentAll));
    assert_eq!(w.send_buffer().reaable_data(), &[0xC0, 0]);
}

#[test]
fn ping_response_resets_the_keep_alive() {
    let mut w = PacketWriter::<16>::new();
    let mut ping = PingState::new(0);
    ping.send(&mut w, 40 * SEC).unwrap();
    ping.on_ping_response(42 * SEC);
    assert_eq!(ping.ping_pause(42 * SEC), 30 * SEC + 10_000);
}

#[test]
fn ping_waits_for_room_in_the_send_buffer() {
    let mut w = PacketWriter::<1>::new();
    let mut ping = PingState::new(0);
    assert_eq!(ping.send(&mut w, 40 * SEC), Ok(SendResult::PartiallySent));
    // still due
    assert_eq!(ping.ping_pause(40 * SEC), 0);
}

#[test]
fn ping_state_inner_variants() {
    let a = PingStateInner::PingSuccess(5);
    let b = PingStateInner::AwaitingResponse { last_success: 5, ping_request_sent: 7 };
    assert_ne!(a, b);
}
