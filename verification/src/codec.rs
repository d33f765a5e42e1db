//! Encoding of the packets this client sends, by the `mqttrs2` codec.
use vstd::prelude::*;
use vstd::utf8::encode_utf8;
use crate::packet::QoS;

verus! {

#[verifier::external_type_specification]
#[verifier::external_body]
pub struct ExCodecError(mqttrs2::Error);

/// The outcome of encoding one packet into a byte slice.
#[derive(Debug)]
pub enum Encoded {
    /// The packet was written to the front of the slice; the number of bytes.
    Written(usize),
    /// The slice is too small for the packet (the codec's `WriteZero`).
    NoSpace,
    /// The codec refused the packet.
    Failed(mqttrs2::Error),
}

/// The four bytes of an acknowledgement packet: the fixed header byte, the
/// remaining length 2 and the packet identifier, high byte first.
pub open spec fn ack_bytes(header: u8, pid: u16) -> Seq<u8> {
    seq![header, 2u8, (pid / 256) as u8, (pid % 256) as u8]
}

/// What encoding an acknowledgement into `old` gives.
pub open spec fn encodes_ack(header: u8, pid: u16, old: Seq<u8>, new: Seq<u8>, r: Encoded) -> bool {
    &&& old.len() >= 4 ==> r == Encoded::Written(4) && new == ack_bytes(header, pid) + old.skip(4)
    &&& old.len() < 4 ==> r == Encoded::NoSpace && new == old
}

/// What encoding a packet of two fixed bytes into `old` gives.
pub open spec fn encodes_two(header: u8, old: Seq<u8>, new: Seq<u8>, r: Encoded) -> bool {
    &&& old.len() >= 2 ==> r == Encoded::Written(2) && new == seq![header, 0u8] + old.skip(2)
    &&& old.len() < 2 ==> r == Encoded::NoSpace && new == old
}

/// What encoding a packet with the given bytes into `old` gives: the bytes at
/// the front where they fit; else `NoSpace`, the slice's length kept.
pub open spec fn encodes_bytes(bytes: Seq<u8>, old: Seq<u8>, new: Seq<u8>, r: Encoded) -> bool {
    &&& bytes.len() <= old.len() ==> r == Encoded::Written(bytes.len() as usize) && new == bytes + old.skip(bytes.len() as int)
    &&& bytes.len() > old.len() ==> r == Encoded::NoSpace && new.len() == old.len()
}

/// The remaining length of a fixed header: seven bits a byte, lowest
/// first, the top bit set on all bytes but the last.
pub open spec fn length_bytes(len: nat) -> Seq<u8>
    decreases len,
{
    if len < 128 {
        seq![len as u8]
    } else {
        seq![(len % 128 + 128) as u8] + length_bytes(len / 128)
    }
}

/// A 16 bit number, high byte first.
pub open spec fn u16_bytes(v: nat) -> Seq<u8> {
    seq![(v / 256) as u8, (v % 256) as u8]
}

/// Bytes with their 16 bit length in front.
pub open spec fn prefixed_bytes(b: Seq<u8>) -> Seq<u8> {
    u16_bytes(b.len()) + b
}

/// A string as UTF-8 with its 16 bit length in front.
pub open spec fn string_bytes(s: Seq<char>) -> Seq<u8> {
    prefixed_bytes(encode_utf8(s))
}

/// A packet: its fixed header byte, the remaining length and the rest.
pub open spec fn packet_bytes(header: u8, body: Seq<u8>) -> Seq<u8> {
    seq![header] + length_bytes(body.len()) + body
}

/// The two QoS bits of a QoS.
pub open spec fn qos_bits(qos: QoS) -> nat {
    match qos {
        QoS::AtMostOnce => 0,
        QoS::AtLeastOnce => 1,
        QoS::ExactlyOnce => 2,
    }
}

/// The bytes of a PUBLISH packet as `mqttrs2` encodes it: header 0x30 with
/// the dup flag (8), the QoS (times 2) and the retain flag (1); the topic;
/// the packet identifier for QoS 1 and 2; the payload.
pub open spec fn publish_bytes(dup: bool, qos: QoS, pid: u16, retain: bool, topic: Seq<char>, payload: Seq<u8>) -> Seq<u8> {
    let header = 0x30 + (if dup { 8nat } else { 0nat }) + 2 * qos_bits(qos) + (if retain { 1nat } else { 0nat });
    let pid_bytes = if qos == QoS::AtMostOnce { Seq::<u8>::empty() } else { u16_bytes(pid as nat) };
    packet_bytes(header as u8, string_bytes(topic) + pid_bytes + payload)
}

/// The topics of a SUBSCRIBE from the first `n`, each followed by its QoS.
pub open spec fn subscribe_topics_bytes(topics: Seq<Seq<char>>, qos: Seq<QoS>, n: nat) -> Seq<u8>
    decreases n,
{
    if n == 0 {
        Seq::empty()
    } else {
        subscribe_topics_bytes(topics, qos, (n - 1) as nat) + string_bytes(topics[n - 1]) + seq![qos_bits(qos[n - 1]) as u8]
    }
}

/// The bytes of a SUBSCRIBE packet as `mqttrs2` encodes it: header 0x82, the
/// packet identifier, and each topic with its QoS.
pub open spec fn subscribe_bytes(pid: u16, topics: Seq<Seq<char>>, qos: Seq<QoS>) -> Seq<u8> {
    packet_bytes(0x82u8, u16_bytes(pid as nat) + subscribe_topics_bytes(topics, qos, topics.len()))
}

/// The strings of the first `n` topics, one after the other.
pub open spec fn topics_bytes(topics: Seq<Seq<char>>, n: nat) -> Seq<u8>
    decreases n,
{
    if n == 0 {
        Seq::empty()
    } else {
        topics_bytes(topics, (n - 1) as nat) + string_bytes(topics[n - 1])
    }
}

/// The connect flags: clean session (2), last will (4) with its QoS (times
/// 8) and retain flag (32), password (64), user name (128).
pub open spec fn connect_flags(
    clean_session: bool,
    last_will: Option<(Seq<char>, Seq<u8>, QoS, bool)>,
    username: Option<Seq<char>>,
    password: Option<Seq<u8>>,
) -> nat {
    (if clean_session { 2nat } else { 0nat })
        + (match last_will {
            Some((_, _, qos, retain)) => 4 + 8 * qos_bits(qos) + (if retain { 32nat } else { 0nat }),
            None => 0nat,
        })
        + (if password is Some { 64nat } else { 0nat })
        + (if username is Some { 128nat } else { 0nat })
}

/// The bytes of a CONNECT packet (protocol 3.1.1) as `mqttrs2` encodes it:
/// header 0x10; protocol name "MQTT" and level 4; the flags; the keep alive;
/// the client id; the last will's topic and message; the user name; the
/// password.
pub open spec fn connect_bytes(
    keep_alive: u16,
    client_id: Seq<char>,
    clean_session: bool,
    last_will: Option<(Seq<char>, Seq<u8>, QoS, bool)>,
    username: Option<Seq<char>>,
    password: Option<Seq<u8>>,
) -> Seq<u8> {
    let protocol = seq![0u8, 4u8, 0x4Du8, 0x51u8, 0x54u8, 0x54u8, 4u8];
    let will = match last_will {
        Some((topic, message, _, _)) => string_bytes(topic) + prefixed_bytes(message),
        None => Seq::empty(),
    };
    let user = match username {
        Some(u) => string_bytes(u),
        None => Seq::empty(),
    };
    let pass = match password {
        Some(p) => prefixed_bytes(p),
        None => Seq::empty(),
    };
    let body = protocol + seq![connect_flags(clean_session, last_will, username, password) as u8]
        + u16_bytes(keep_alive as nat) + string_bytes(client_id) + will + user + pass;
    packet_bytes(0x10u8, body)
}

/// The message the broker publishes for this client when it disconnects
/// without a DISCONNECT.
#[derive(Debug, Clone, Copy)]
pub struct LastWill<'a> {
    pub topic: &'a str,
    pub message: &'a [u8],
    pub qos: QoS,
    pub retain: bool,
}

pub open spec fn will_view(w: Option<LastWill>) -> Option<(Seq<char>, Seq<u8>, QoS, bool)> {
    match w {
        Some(w) => Some((w.topic@, w.message@, w.qos, w.retain)),
        None => None,
    }
}

pub open spec fn opt_str_view(s: Option<&str>) -> Option<Seq<char>> {
    match s {
        Some(s) => Some(s@),
        None => None,
    }
}

pub open spec fn opt_bytes_view(s: Option<&[u8]>) -> Option<Seq<u8>> {
    match s {
        Some(s) => Some(s@),
        None => None,
    }
}

/// The strings and byte strings of a CONNECT fit their 16 bit length prefixes.
pub open spec fn connect_encodable(client_id: &str, last_will: Option<LastWill>, username: Option<&str>, password: Option<&[u8]>) -> bool {
    &&& encode_utf8(client_id@).len() <= 65535
    &&& (last_will matches Some(w) ==> encode_utf8(w.topic@).len() <= 65535 && w.message@.len() <= 65535)
    &&& (username matches Some(u) ==> encode_utf8(u@).len() <= 65535)
    &&& (password matches Some(p) ==> p@.len() <= 65535)
}

/// The bytes of an UNSUBSCRIBE packet as `mqttrs2` encodes it: header 0xA2,
/// the packet identifier and the topics.
pub open spec fn unsubscribe_bytes(pid: u16, topics: Seq<Seq<char>>) -> Seq<u8> {
    packet_bytes(0xA2u8, u16_bytes(pid as nat) + topics_bytes(topics, topics.len()))
}

/// Topics whose byte lengths fit the 16 bit length prefix, at most five of them.
pub open spec fn topics_encodable(topics: Seq<String>) -> bool {
    &&& topics.len() <= 5
    &&& forall|i: int| 0 <= i < topics.len() ==> encode_utf8(#[trigger] topics[i]@).len() <= 65535
}

pub open spec fn topic_views(topics: Seq<String>) -> Seq<Seq<char>> {
    topics.map_values(|t: String| t@)
}

/// `mqttrs2::encode_slice` of `Packet::Puback`: checks for four bytes of room,
/// then writes header 0x40, length 2 and the identifier.
#[verifier::external_body]
pub(crate) fn encode_puback(pid: u16, buf: &mut [u8]) -> (r: Encoded)
    requires
        pid != 0,
    ensures
        encodes_ack(0x40, pid, old(buf)@, final(buf)@, r),
{
    let packet = mqttrs2::Packet::Puback(mqttrs2::Pid::try_from(pid).unwrap());
    match mqttrs2::encode_slice(&packet, buf) {
        Ok(n) => Encoded::Written(n),
        Err(mqttrs2::Error::WriteZero) => Encoded::NoSpace,
        Err(e) => Encoded::Failed(e),
    }
}

/// `mqttrs2::encode_slice` of `Packet::Pubrec`: header 0x50, length 2, identifier.
#[verifier::external_body]
pub(crate) fn encode_pubrec(pid: u16, buf: &mut [u8]) -> (r: Encoded)
    requires
        pid != 0,
    ensures
        encodes_ack(0x50, pid, old(buf)@, final(buf)@, r),
{
    let packet = mqttrs2::Packet::Pubrec(mqttrs2::Pid::try_from(pid).unwrap());
    match mqttrs2::encode_slice(&packet, buf) {
        Ok(n) => Encoded::Written(n),
        Err(mqttrs2::Error::WriteZero) => Encoded::NoSpace,
        Err(e) => Encoded::Failed(e),
    }
}

/// `mqttrs2::encode_slice` of `Packet::Pubrel`: header 0x62, length 2, identifier.
#[verifier::external_body]
pub(crate) fn encode_pubrel(pid: u16, buf: &mut [u8]) -> (r: Encoded)
    requires
        pid != 0,
    ensures
        encodes_ack(0x62, pid, old(buf)@, final(buf)@, r),
{
    let packet = mqttrs2::Packet::Pubrel(mqttrs2::Pid::try_from(pid).unwrap());
    match mqttrs2::encode_slice(&packet, buf) {
        Ok(n) => Encoded::Written(n),
        Err(mqttrs2::Error::WriteZero) => Encoded::NoSpace,
        Err(e) => Encoded::Failed(e),
    }
}

/// `mqttrs2::encode_slice` of `Packet::Pubcomp`: header 0x70, length 2, identifier.
#[verifier::external_body]
pub(crate) fn encode_pubcomp(pid: u16, buf: &mut [u8]) -> (r: Encoded)
    requires
        pid != 0,
    ensures
        encodes_ack(0x70, pid, old(buf)@, final(buf)@, r),
{
    let packet = mqttrs2::Packet::Pubcomp(mqttrs2::Pid::try_from(pid).unwrap());
    match mqttrs2::encode_slice(&packet, buf) {
        Ok(n) => Encoded::Written(n),
        Err(mqttrs2::Error::WriteZero) => Encoded::NoSpace,
        Err(e) => Encoded::Failed(e),
    }
}

/// `mqttrs2::encode_slice` of `Packet::Pingreq`: the bytes 0xC0, 0.
#[verifier::external_body]
pub(crate) fn encode_pingreq(buf: &mut [u8]) -> (r: Encoded)
    ensures
        encodes_two(0xC0, old(buf)@, final(buf)@, r),
{
    match mqttrs2::encode_slice(&mqttrs2::Packet::Pingreq, buf) {
        Ok(n) => Encoded::Written(n),
        Err(mqttrs2::Error::WriteZero) => Encoded::NoSpace,
        Err(e) => Encoded::Failed(e),
    }
}

/// `mqttrs2::encode_slice` of `Packet::Disconnect`: the bytes 0xE0, 0.
#[verifier::external_body]
pub(crate) fn encode_disconnect(buf: &mut [u8]) -> (r: Encoded)
    ensures
        encodes_two(0xE0, old(buf)@, final(buf)@, r),
{
    match mqttrs2::encode_slice(&mqttrs2::Packet::Disconnect, buf) {
        Ok(n) => Encoded::Written(n),
        Err(mqttrs2::Error::WriteZero) => Encoded::NoSpace,
        Err(e) => Encoded::Failed(e),
    }
}

/// `mqttrs2::encode_slice` of `Packet::Publish`: writes the packet where all
/// of it fits, else reports `WriteZero`. Which bytes it writes are
/// `publish_bytes`; the pid is read only for QoS 1 and 2.
#[verifier::external_body]
pub(crate) fn encode_publish(dup: bool, qos: QoS, pid: u16, retain: bool, topic: &str, payload: &[u8], buf: &mut [u8]) -> (r: Encoded)
    requires
        qos != QoS::AtMostOnce ==> pid != 0,
        encode_utf8(topic@).len() <= 65535,
        payload@.len() <= 200_000_000,
    ensures
        encodes_bytes(publish_bytes(dup, qos, pid, retain, topic@, payload@), old(buf)@, final(buf)@, r),
{
    let qospid = match qos {
        QoS::AtMostOnce => mqttrs2::QosPid::AtMostOnce,
        QoS::AtLeastOnce => mqttrs2::QosPid::AtLeastOnce(mqttrs2::Pid::try_from(pid).unwrap()),
        QoS::ExactlyOnce => mqttrs2::QosPid::ExactlyOnce(mqttrs2::Pid::try_from(pid).unwrap()),
    };
    let packet = mqttrs2::Packet::Publish(mqttrs2::Publish { dup, qospid, retain, topic_name: topic, payload });
    match mqttrs2::encode_slice(&packet, buf) {
        Ok(n) => Encoded::Written(n),
        Err(mqttrs2::Error::WriteZero) => Encoded::NoSpace,
        Err(e) => Encoded::Failed(e),
    }
}

/// `mqttrs2::encode_slice` of `Packet::Subscribe`, topic `i` at `qos[i]`:
/// writes the packet where all of it fits, else reports `WriteZero`. Which
/// bytes it writes are `subscribe_bytes`.
#[verifier::external_body]
pub(crate) fn encode_subscribe(pid: u16, topics: &Vec<String>, qos: &Vec<QoS>, buf: &mut [u8]) -> (r: Encoded)
    requires
        pid != 0,
        topics_encodable(topics@),
        qos@.len() == topics@.len(),
    ensures
        encodes_bytes(subscribe_bytes(pid, topic_views(topics@), qos@), old(buf)@, final(buf)@, r),
{
    let topics = topics.iter().zip(qos.iter()).map(|(t, q)| mqttrs2::SubscribeTopic { topic_path: t.clone(), qos: match q {
        QoS::AtMostOnce => mqttrs2::QoS::AtMostOnce,
        QoS::AtLeastOnce => mqttrs2::QoS::AtLeastOnce,
        QoS::ExactlyOnce => mqttrs2::QoS::ExactlyOnce,
    } }).collect();
    let packet = mqttrs2::Packet::Subscribe(mqttrs2::Subscribe { pid: mqttrs2::Pid::try_from(pid).unwrap(), topics });
    match mqttrs2::encode_slice(&packet, buf) {
        Ok(n) => Encoded::Written(n),
        Err(mqttrs2::Error::WriteZero) => Encoded::NoSpace,
        Err(e) => Encoded::Failed(e),
    }
}

/// `mqttrs2::encode_slice` of `Packet::Connect` with protocol 3.1.1: writes
/// the packet where all of it fits, else reports `WriteZero`. Which bytes it
/// writes are `connect_bytes`.
#[verifier::external_body]
pub(crate) fn encode_connect(
    keep_alive: u16,
    client_id: &str,
    clean_session: bool,
    last_will: Option<LastWill>,
    username: Option<&str>,
    password: Option<&[u8]>,
    buf: &mut [u8],
) -> (r: Encoded)
    requires
        connect_encodable(client_id, last_will, username, password),
    ensures
        encodes_bytes(
            connect_bytes(keep_alive, client_id@, clean_session, will_view(last_will), opt_str_view(username), opt_bytes_view(password)),
            old(buf)@, final(buf)@, r),
{
    let last_will = last_will.map(|w| mqttrs2::LastWill { topic: w.topic, message: w.message, retain: w.retain, qos: match w.qos {
        QoS::AtMostOnce => mqttrs2::QoS::AtMostOnce,
        QoS::AtLeastOnce => mqttrs2::QoS::AtLeastOnce,
        QoS::ExactlyOnce => mqttrs2::QoS::ExactlyOnce,
    } });
    let connect = mqttrs2::Connect { protocol: mqttrs2::Protocol::MQTT311, keep_alive, client_id, clean_session, last_will, username, password };
    match mqttrs2::encode_slice(&mqttrs2::Packet::Connect(connect), buf) {
        Ok(n) => Encoded::Written(n),
        Err(mqttrs2::Error::WriteZero) => Encoded::NoSpace,
        Err(e) => Encoded::Failed(e),
    }
}

/// `mqttrs2::encode_slice` of `Packet::Unsubscribe`: writes the packet where
/// all of it fits, else reports `WriteZero`. Which bytes it writes are
/// `unsubscribe_bytes`.
#[verifier::external_body]
pub(crate) fn encode_unsubscribe(pid: u16, topics: &Vec<String>, buf: &mut [u8]) -> (r: Encoded)
    requires
        pid != 0,
        topics_encodable(topics@),
    ensures
        encodes_bytes(unsubscribe_bytes(pid, topic_views(topics@)), old(buf)@, final(buf)@, r),
{
    let topics = topics.clone();
    let packet = mqttrs2::Packet::Unsubscribe(mqttrs2::Unsubscribe { pid: mqttrs2::Pid::try_from(pid).unwrap(), topics });
    match mqttrs2::encode_slice(&packet, buf) {
        Ok(n) => Encoded::Written(n),
        Err(mqttrs2::Error::WriteZero) => Encoded::NoSpace,
        Err(e) => Encoded::Failed(e),
    }
}

} // verus!
