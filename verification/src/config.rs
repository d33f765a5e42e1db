//! The configuration of a client: where the broker is, who connects, and the
//! topics subscribed to on every connect.
use vstd::prelude::*;
use vstd::utf8::encode_utf8;
use crate::packet::QoS;

verus! {

/// Most bytes of a topic
pub const MAX_TOPIC_SIZE: usize = 64;

/// Most bytes of a payload
pub const MQTT_PAYLOAD_MAX_SIZE: usize = 1024;

/// Most topics subscribed to on every connect
pub const MAX_AUTO_SUBSCRIBES: usize = 10;

/// The port of the broker where the configuration names none
pub const MQTT_DEFAULT_PORT: u16 = 1883;

/// Credentials used to connect to the broker
#[derive(Clone, Copy)]
pub struct ClientCredentials<'a> {
    pub username: &'a str,
    pub password: &'a str,
}

impl<'a> ClientCredentials<'a> {
    pub fn new(username: &'a str, password: &'a str) -> (c: Self)
        ensures
            c.username == username,
            c.password == password,
    {
        ClientCredentials { username, password }
    }
}

/// A topic subscribed to after every connect, also after reconnects. This
/// is the preferred way to subscribe to topics.
#[derive(Debug, Clone)]
pub struct AutoSubscribe {
    pub topic: String,
    pub qos: QoS,
}

impl AutoSubscribe {
    /// The topic has at most `MAX_TOPIC_SIZE` bytes.
    pub open spec fn wf(&self) -> bool {
        encode_utf8(self.topic@).len() <= MAX_TOPIC_SIZE
    }

    pub fn new(topic: &str, qos: QoS) -> (a: Self)
        requires
            encode_utf8(topic@).len() <= MAX_TOPIC_SIZE,
        ensures
            a.wf(),
            a.topic@ == topic@,
            a.qos == qos,
    {
        AutoSubscribe { topic: topic.to_owned(), qos }
    }
}

/// An IP address: four bytes (v4) or eight 16 bit groups (v6).
#[derive(Debug, Clone, Copy, PartialEq, Eq)]
pub enum IpAddress {
    V4([u8; 4]),
    V6([u16; 8]),
}

/// Where the broker is: a name to resolve or an address.
#[derive(Clone, Copy)]
pub enum Host<'a> {
    Hostname(&'a str),
    Ip(IpAddress),
}

/// The configuration of a client.
#[derive(Clone)]
pub struct ClientConfig<'a> {
    pub host: Host<'a>,
    pub port: Option<u16>,
    pub client_id: &'a str,
    pub credentials: Option<ClientCredentials<'a>>,
    pub auto_subscribes: Vec<AutoSubscribe>,
}

/// At most `MAX_AUTO_SUBSCRIBES` topics, each of at most `MAX_TOPIC_SIZE` bytes.
pub open spec fn auto_topics_fit(topics: Seq<&str>) -> bool {
    &&& topics.len() <= MAX_AUTO_SUBSCRIBES
    &&& forall|i: int| 0 <= i < topics.len() ==> encode_utf8(#[trigger] topics[i]@).len() <= MAX_TOPIC_SIZE
}

impl<'a> ClientConfig<'a> {
    /// At most `MAX_AUTO_SUBSCRIBES` auto subscribes, each well formed.
    pub open spec fn wf(&self) -> bool {
        &&& self.auto_subscribes@.len() <= MAX_AUTO_SUBSCRIBES
        &&& forall|i: int| 0 <= i < self.auto_subscribes@.len() ==> (#[trigger] self.auto_subscribes@[i]).wf()
    }

    /// A configuration without auto subscribes.
    pub fn new(host: Host<'a>, port: Option<u16>, client_id: &'a str, credentials: Option<ClientCredentials<'a>>) -> (c: Self)
        ensures
            c.wf(),
            c.host == host,
            c.port == port,
            c.client_id == client_id,
            c.credentials == credentials,
            c.auto_subscribes@.len() == 0,
    {
        ClientConfig { host, port, client_id, credentials, auto_subscribes: Vec::new() }
    }

    /// A configuration that subscribes to each of `auto_subscribes`, in
    /// order, at `qos` after every connect.
    pub fn new_with_auto_subscribes(
        host: Host<'a>,
        port: Option<u16>,
        client_id: &'a str,
        credentials: Option<ClientCredentials<'a>>,
        auto_subscribes: &[&str],
        qos: QoS,
    ) -> (c: Self)
        requires
            auto_topics_fit(auto_subscribes@),
        ensures
            c.wf(),
            c.host == host,
            c.port == port,
            c.client_id == client_id,
            c.credentials == credentials,
            c.auto_subscribes@.len() == auto_subscribes@.len(),
            forall|i: int| 0 <= i < auto_subscribes@.len() ==> (#[trigger] c.auto_subscribes@[i]).topic@ == auto_subscribes@[i]@
                && c.auto_subscribes@[i].qos == qos,
    {
        let mut this = ClientConfig { host, port, client_id, credentials, auto_subscribes: Vec::new() };
        let mut i: usize = 0;
        while i < auto_subscribes.len()
            invariant
                i <= auto_subscribes@.len(),
                auto_topics_fit(auto_subscribes@),
                this.host == host,
                this.port == port,
                this.client_id == client_id,
                this.credentials == credentials,
                this.auto_subscribes@.len() == i,
                forall|j: int| 0 <= j < i ==> (#[trigger] this.auto_subscribes@[j]).topic@ == auto_subscribes@[j]@
                    && this.auto_subscribes@[j].qos == qos && this.auto_subscribes@[j].wf(),
            decreases auto_subscribes@.len() - i,
        {
            let a = AutoSubscribe::new(auto_subscribes[i], qos);
            this.auto_subscribes.push(a);
            i = i + 1;
        }
        this
    }

    /// The port to connect to: the configured one, else `MQTT_DEFAULT_PORT`.
    pub fn broker_port(&self) -> (p: u16)
        ensures
            p == match self.port {
                Some(p) => p,
                None => MQTT_DEFAULT_PORT,
            },
    {
        match self.port {
            Some(p) => p,
            None => MQTT_DEFAULT_PORT,
        }
    }
}

} // verus!
