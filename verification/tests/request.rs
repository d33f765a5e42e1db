use embedded_mqttc::request::{RequestNotification, RequestState};

#[test]
fn test_notify() {
    let mut request_state = RequestState::new();

    assert_eq!(request_state.next_notification(), None);

    request_state.notify(RequestNotification::NewRequest);
    let value = request_state.next_notification();
    assert_eq!(value, Some(RequestNotification::NewRequest));

    // again
    assert_eq!(request_state.next_notification(), None);
}

#[test]
fn test_multi_notify() {
    let mut request_state = RequestState::new();

    assert_eq!(request_state.next_notification(), None);

    request_state.notify(RequestNotification::NewRequest);
    request_state.notify(RequestNotification::NewRequest);
    request_state.notify(RequestNotification::NewRequest);
    request_state.notify(RequestNotification::NewRequest);

    let value = request_state.next_notification();
    assert_eq!(value, Some(RequestNotification::NewRequest));

    // again
    assert_eq!(request_state.next_notification(), None);
}

#[test]
fn test_disconnect_notify() {
    let mut request_state = RequestState::new();

    assert_eq!(request_state.next_notification(), None);

    request_state.notify(RequestNotification::Disconnect);

    let value = request_state.next_notification();
    assert_eq!(value, Some(RequestNotification::Disconnect));

    // again
    let value = request_state.next_notification();
    assert_eq!(value, Some(RequestNotification::Disconnect));
}

#[test]
fn test_disconnect_multi_notify() {
    let mut request_state = RequestState::new();

    assert_eq!(request_state.next_notification(), None);

    request_state.notify(RequestNotification::Disconnect);
    request_state.notify(RequestNotification::NewRequest);
    request_state.notify(RequestNotification::NewRequest);

    let value = request_state.next_notification();
    assert_eq!(value, Some(RequestNotification::Disconnect));

    // again
    let value = request_state.next_notification();
    assert_eq!(value, Some(RequestNotification::Disconnect));
}

#[test]
fn request_shorthands_notify() {
    let mut request_state = RequestState::new();
    request_state.notify_new_request();
    assert_eq!(request_state.next_notification(), Some(RequestNotification::NewRequest));
    request_state.notify_disconnect();
    request_state.notify_new_request();
    assert_eq!(request_state.next_notification(), Some(RequestNotification::Disconnect));
}
