use embedded_mqttc::connection::ConnectionStateValue;
use embedded_mqttc::event_loop::{loop_step, LoopAction, LoopEvent};
use embedded_mqttc::request::RequestNotification;
use embedded_mqttc::state::SendResult;

#[test]
fn loop_connects_unless_connected() {
    assert_eq!(loop_step(LoopEvent::RoundStarts(None)), LoopAction::Connect);
    assert_eq!(loop_step(LoopEvent::RoundStarts(Some(ConnectionStateValue::Error))), LoopAction::Connect);
    assert_eq!(loop_step(LoopEvent::RoundStarts(Some(ConnectionStateValue::Connected))), LoopAction::SendPackets);
    assert_eq!(loop_step(LoopEvent::Connected), LoopAction::SendPackets);
}

#[test]
fn loop_reads_without_waiting_after_a_full_send_buffer() {
    assert_eq!(loop_step(LoopEvent::Sent(SendResult::PartiallySent)), LoopAction::ReadWithoutWaiting);
    assert_eq!(loop_step(LoopEvent::Sent(SendResult::SentAll)), LoopAction::WaitForEvent);
}

#[test]
fn loop_stops_only_on_disconnect() {
    assert_eq!(loop_step(LoopEvent::RequestArrived(RequestNotification::Disconnect)), LoopAction::EndRound(false));
    assert_eq!(loop_step(LoopEvent::RequestArrived(RequestNotification::NewRequest)), LoopAction::EndRound(true));
    assert_eq!(loop_step(LoopEvent::PingDue), LoopAction::EndRound(true));
    assert_eq!(loop_step(LoopEvent::PacketArrived), LoopAction::ProcessPacket);
}
