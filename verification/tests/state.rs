use embedded_mqttc::state::{elapsed, SendResult};
use embedded_mqttc::MqttError;

#[test]
fn send_results_combine() {
    assert_eq!(SendResult::SentAll + SendResult::SentAll, SendResult::SentAll);
    assert_eq!(SendResult::SentAll + SendResult::PartiallySent, SendResult::PartiallySent);
    assert_eq!(SendResult::PartiallySent + SendResult::SentAll, SendResult::PartiallySent);
    assert_eq!(SendResult::PartiallySent + SendResult::PartiallySent, SendResult::PartiallySent);
}

#[test]
fn next_sync_runs_only_after_everything_was_sent() {
    let r = SendResult::SentAll.next_sync(|| Ok(SendResult::PartiallySent));
    assert_eq!(r, Ok(SendResult::PartiallySent));
    let r = SendResult::PartiallySent.next_sync(|| -> Result<SendResult, MqttError> { panic!("must not run") });
    assert_eq!(r, Ok(SendResult::PartiallySent));
    let r = SendResult::SentAll.next_sync(|| Err(MqttError::InternalError));
    assert_eq!(r, Err(MqttError::InternalError));
}

#[test]
fn elapsed_saturates() {
    assert_eq!(elapsed(10, 3), 7);
    assert_eq!(elapsed(3, 10), 0);
}
