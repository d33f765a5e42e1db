use embedded_mqttc::config::{AutoSubscribe, ClientConfig, ClientCredentials, Host, MAX_TOPIC_SIZE, MQTT_PAYLOAD_MAX_SIZE};
use embedded_mqttc::packet::QoS;

#[test]
fn client_credentials_new() {
    let c = ClientCredentials::new("user", "pass");
    assert_eq!(c.username, "user");
    assert_eq!(c.password, "pass");
}

#[test]
fn auto_subscribe_new() {
    let a = AutoSubscribe::new("some/default/topic", QoS::AtLeastOnce);
    assert_eq!(a.topic, "some/default/topic");
    assert_eq!(a.qos, QoS::AtLeastOnce);
}

#[test]
fn config_with_auto_subscribes() {
    let config = ClientConfig::new_with_auto_subscribes(Host::Hostname("asghfdasdhasdh"), None, "id", None, &["test1", "test2"], QoS::AtLeastOnce);
    assert_eq!(config.auto_subscribes.len(), 2);
    assert_eq!(config.auto_subscribes[0].topic, "test1");
    assert_eq!(config.auto_subscribes[1].topic, "test2");
    assert_eq!(config.auto_subscribes[1].qos, QoS::AtLeastOnce);
    let plain = ClientConfig::new(Host::Hostname("h"), Some(1), "id", None);
    assert!(plain.auto_subscribes.is_empty());
}

#[test]
fn limits() {
    assert_eq!(MAX_TOPIC_SIZE, 64);
    assert_eq!(MQTT_PAYLOAD_MAX_SIZE, 1024);
}
