//! The decisions of the connection to the broker: the CONNECT it sends, how
//! it reads the CONNACK and the answers to the auto subscribes, and which
//! errors it recovers from by connecting again.
use vstd::prelude::*;
use vstd::utf8::encode_utf8;
use crate::codec::{LastWill, will_view};
use crate::config::{AutoSubscribe, ClientConfig, MAX_AUTO_SUBSCRIBES};
use crate::packet::{ConnectReturnCode, Pid, QoS, Suback, SubscribeReturnCodes};
use crate::writer::{OutPacket, PacketWriter, SentPacket, sent_bytes};
use crate::MqttError;

verus! {

/// Keep alive interval announced in the CONNECT, in seconds
pub const KEEP_ALIVE_SECS: u16 = 60;

/// Most topics of one auto subscribe packet
pub const AUTO_SUBSCRIBE_CHUNK: usize = 5;

/// Where the connection stands.
#[derive(Debug, Clone, Copy, PartialEq, Eq, Structural)]
pub enum ConnectionStateValue {
    ConnectSent,
    Connected,
    Disconnected,
    Error,
}

/// A connection may be opened before the first one and after an error.
pub open spec fn connect_allowed_spec(state: Option<ConnectionStateValue>) -> bool {
    state is None || state == Some(ConnectionStateValue::Error)
}

/// Whether a connection may be opened in `state`.
pub fn connect_allowed(state: Option<ConnectionStateValue>) -> (r: bool)
    ensures
        r == connect_allowed_spec(state),
{
    match state {
        None => true,
        Some(ConnectionStateValue::Error) => true,
        Some(_) => false,
    }
}

/// What a CONNACK code means: accepted; refused for the protocol, the
/// identifier or an unavailable server (`ConnackError`); refused for the
/// credentials (`AuthenticationError`).
pub open spec fn connack_result(code: ConnectReturnCode) -> Result<(), MqttError> {
    match code {
        ConnectReturnCode::Accepted => Ok(()),
        ConnectReturnCode::RefusedProtocolVersion => Err(MqttError::ConnackError),
        ConnectReturnCode::RefusedIdentifierRejected => Err(MqttError::ConnackError),
        ConnectReturnCode::ServerUnavailable => Err(MqttError::ConnackError),
        ConnectReturnCode::BadUsernamePassword => Err(MqttError::AuthenticationError),
        ConnectReturnCode::NotAuthorized => Err(MqttError::AuthenticationError),
    }
}

/// The CONNACK codes: only `Accepted` connects; a refusal for the protocol
/// version, the client identifier or an unavailable server is a
/// `ConnackError`, one for the credentials or the authorisation an
/// `AuthenticationError`.
pub proof fn lemma_connack_codes(code: ConnectReturnCode)
    ensures
        connack_result(code) is Ok <==> code == ConnectReturnCode::Accepted,
        code == ConnectReturnCode::RefusedProtocolVersion ==> connack_result(code) == Err::<(), MqttError>(MqttError::ConnackError),
        code == ConnectReturnCode::RefusedIdentifierRejected ==> connack_result(code) == Err::<(), MqttError>(MqttError::ConnackError),
        code == ConnectReturnCode::ServerUnavailable ==> connack_result(code) == Err::<(), MqttError>(MqttError::ConnackError),
        code == ConnectReturnCode::BadUsernamePassword ==> connack_result(code) == Err::<(), MqttError>(MqttError::AuthenticationError),
        code == ConnectReturnCode::NotAuthorized ==> connack_result(code) == Err::<(), MqttError>(MqttError::AuthenticationError),
        state_after_connack(code) == (if code == ConnectReturnCode::Accepted { ConnectionStateValue::Connected } else { ConnectionStateValue::Error }),
{
}

/// Reads the code of a CONNACK; see `connack_result`.
pub fn process_connack(code: ConnectReturnCode) -> (r: Result<(), MqttError>)
    ensures
        r == connack_result(code),
{
    match code {
        ConnectReturnCode::Accepted => Ok(()),
        ConnectReturnCode::RefusedProtocolVersion | ConnectReturnCode::RefusedIdentifierRejected | ConnectReturnCode::ServerUnavailable => {
            Err(MqttError::ConnackError)
        },
        ConnectReturnCode::BadUsernamePassword | ConnectReturnCode::NotAuthorized => Err(MqttError::AuthenticationError),
    }
}

/// The connection state after a CONNACK with `code` (where accepted, once
/// the auto subscribes are done).
pub open spec fn state_after_connack(code: ConnectReturnCode) -> ConnectionStateValue {
    if code == ConnectReturnCode::Accepted { ConnectionStateValue::Connected } else { ConnectionStateValue::Error }
}

/// What happens while a connection is opened, in the order it happens.
pub enum ConnectEvent {
    /// The CONNECT was written and sent
    ConnectSent,
    /// The broker answered with a CONNACK with this code
    Connack(ConnectReturnCode),
    /// The broker answered with a packet other than a CONNACK
    OtherPacket,
    /// The auto subscribes were sent and answered (`Ok`), or failed
    AutoSubscribed(Result<(), MqttError>),
}

/// What opening a connection does next.
pub enum ConnectAction {
    /// Read the broker's answer to the CONNECT
    AwaitConnack,
    /// Send the auto subscribes and read their answers
    SendAutoSubscribes,
    /// Opening ends with this result
    Finish(Result<(), MqttError>),
}

/// One step of opening a connection: the state to report (`None`: the
/// state stays as it is) and what comes next.
pub struct ConnectStep {
    pub state: Option<ConnectionStateValue>,
    pub action: ConnectAction,
}

/// The step after `event`. Once the CONNECT is sent the connection is
/// `ConnectSent` and waits for the CONNACK. An accepted CONNACK leads to the
/// auto subscribes, and the connection is `Connected` once they are done; a
/// refused one makes it `Error` and ends with `connack_result`. Another
/// packet in place of the CONNACK ends with `ConnackError`, and a failed
/// auto subscribe ends with its error; neither changes the state.
pub open spec fn connect_step_spec(event: ConnectEvent) -> ConnectStep {
    match event {
        ConnectEvent::ConnectSent => ConnectStep {
            state: Some(ConnectionStateValue::ConnectSent),
            action: ConnectAction::AwaitConnack,
        },
        ConnectEvent::Connack(code) => if code == ConnectReturnCode::Accepted {
            ConnectStep { state: None, action: ConnectAction::SendAutoSubscribes }
        } else {
            ConnectStep { state: Some(ConnectionStateValue::Error), action: ConnectAction::Finish(connack_result(code)) }
        },
        ConnectEvent::OtherPacket => ConnectStep { state: None, action: ConnectAction::Finish(Err(MqttError::ConnackError)) },
        ConnectEvent::AutoSubscribed(res) => match res {
            Ok(()) => ConnectStep { state: Some(ConnectionStateValue::Connected), action: ConnectAction::Finish(Ok(())) },
            Err(e) => ConnectStep { state: None, action: ConnectAction::Finish(Err(e)) },
        },
    }
}

/// Decides the step after `event`; see `connect_step_spec`.
pub fn connect_step(event: ConnectEvent) -> (r: ConnectStep)
    ensures
        r == connect_step_spec(event),
{
    match event {
        ConnectEvent::ConnectSent => ConnectStep {
            state: Some(ConnectionStateValue::ConnectSent),
            action: ConnectAction::AwaitConnack,
        },
        ConnectEvent::Connack(code) => {
            let res = process_connack(code);
            match res {
                Ok(()) => ConnectStep { state: None, action: ConnectAction::SendAutoSubscribes },
                Err(e) => ConnectStep { state: Some(ConnectionStateValue::Error), action: ConnectAction::Finish(Err(e)) },
            }
        },
        ConnectEvent::OtherPacket => ConnectStep { state: None, action: ConnectAction::Finish(Err(MqttError::ConnackError)) },
        ConnectEvent::AutoSubscribed(res) => match res {
            Ok(()) => ConnectStep { state: Some(ConnectionStateValue::Connected), action: ConnectAction::Finish(Ok(())) },
            Err(e) => ConnectStep { state: None, action: ConnectAction::Finish(Err(e)) },
        },
    }
}

/// Opening a connection: once the CONNECT is sent the connection is
/// `ConnectSent`. Where the broker accepts it and the auto subscribes go
/// through, it ends `Connected` with `Ok`; where the broker refuses it, it
/// ends at once in `Error` with `ConnackError` or, for the credentials,
/// `AuthenticationError`. Either way the state reached is
/// `state_after_connack` and the result `connack_result`.
pub proof fn lemma_connect_outcome(code: ConnectReturnCode)
    ensures
        connect_step_spec(ConnectEvent::ConnectSent).state == Some(ConnectionStateValue::ConnectSent),
        connect_step_spec(ConnectEvent::ConnectSent).action == ConnectAction::AwaitConnack,
        code == ConnectReturnCode::Accepted ==> {
            &&& connect_step_spec(ConnectEvent::Connack(code)).action == ConnectAction::SendAutoSubscribes
            &&& connect_step_spec(ConnectEvent::AutoSubscribed(Ok(()))).state == Some(state_after_connack(code))
            &&& connect_step_spec(ConnectEvent::AutoSubscribed(Ok(()))).action == ConnectAction::Finish(connack_result(code))
        },
        code != ConnectReturnCode::Accepted ==> {
            &&& connect_step_spec(ConnectEvent::Connack(code)).state == Some(state_after_connack(code))
            &&& connect_step_spec(ConnectEvent::Connack(code)).action == ConnectAction::Finish(connack_result(code))
        },
        code == ConnectReturnCode::BadUsernamePassword ==>
            connect_step_spec(ConnectEvent::Connack(code)).state == Some(ConnectionStateValue::Error)
            && connect_step_spec(ConnectEvent::Connack(code)).action == ConnectAction::Finish(Err(MqttError::AuthenticationError)),
{
}

/// What a SUBACK answers the auto subscribes of a packet: failure where the
/// broker refused one of the topics (a different QoS is accepted).
pub open spec fn auto_suback_result(codes: Seq<SubscribeReturnCodes>, n: nat) -> Result<(), MqttError> {
    if exists|i: int| 0 <= i < codes.len() && i < n && codes[i] == SubscribeReturnCodes::Failure {
        Err(MqttError::SubscribeOrUnsubscribeFailed)
    } else {
        Ok(())
    }
}

/// Reads the SUBACK that answers a packet of auto subscribes; see
/// `auto_suback_result`.
pub fn process_suback(suback: &Suback, auto_subscribes: &[AutoSubscribe]) -> (r: Result<(), MqttError>)
    ensures
        r == auto_suback_result(suback.return_codes@, auto_subscribes@.len()),
{
    let n = if suback.return_codes.len() < auto_subscribes.len() { suback.return_codes.len() } else { auto_subscribes.len() };
    let mut i: usize = 0;
    while i < n
        invariant
            n <= suback.return_codes@.len(),
            n <= auto_subscribes@.len(),
            n == suback.return_codes@.len() || n == auto_subscribes@.len(),
            i <= n,
            forall|j: int| 0 <= j < i ==> suback.return_codes@[j] != SubscribeReturnCodes::Failure,
        decreases n - i,
    {
        match suback.return_codes[i] {
            SubscribeReturnCodes::Success(_) => {},
            SubscribeReturnCodes::Failure => {
                return Err(MqttError::SubscribeOrUnsubscribeFailed);
            },
        }
        i = i + 1;
    }
    Ok(())
}

/// The errors after which the event loop marks the connection failed and
/// connects again: network, CONNACK, codec, message size, queue and
/// unexpected acknowledgement errors. On any other it stops.
pub open spec fn recoverable(err: MqttError) -> bool {
    match err {
        MqttError::ConnectionFailed2(_) => true,
        MqttError::ConnackError => true,
        MqttError::CodecError(_) => true,
        MqttError::ReceivedMessageTooLong => true,
        MqttError::QueueFull(_) => true,
        MqttError::UnexpectedAck(_) => true,
        _ => false,
    }
}

/// Whether the event loop recovers from `err`; see `recoverable`.
pub fn is_recoverable(err: &MqttError) -> (r: bool)
    ensures
        r == recoverable(*err),
{
    match err {
        MqttError::ConnectionFailed2(_) | MqttError::ConnackError | MqttError::CodecError(_) | MqttError::ReceivedMessageTooLong
        | MqttError::QueueFull(_) | MqttError::UnexpectedAck(_) => true,
        _ => false,
    }
}

/// Reading the receive buffer gave no whole packet: where the buffer is
/// full, no packet will ever fit it (`BufferTooSmall`); else more bytes
/// are needed.
pub fn check_incomplete_packet(buffer_full: bool) -> (r: Result<(), MqttError>)
    ensures
        buffer_full ==> r == Err::<(), MqttError>(MqttError::BufferTooSmall),
        !buffer_full ==> r == Ok::<(), MqttError>(()),
{
    if buffer_full {
        Err(MqttError::BufferTooSmall)
    } else {
        Ok(())
    }
}

/// The CONNECT a client sends: protocol 3.1.1, `KEEP_ALIVE_SECS`, its
/// client id, no clean session, its last will and its credentials (the
/// password as its UTF-8 bytes).
pub open spec fn connect_model(config: ClientConfig, last_will: Option<LastWill>) -> SentPacket {
    SentPacket::Connect {
        keep_alive: KEEP_ALIVE_SECS,
        client_id: config.client_id@,
        clean_session: false,
        last_will: will_view(last_will),
        username: match config.credentials {
            Some(c) => Some(c.username@),
            None => None,
        },
        password: match config.credentials {
            Some(c) => Some(encode_utf8(c.password@)),
            None => None,
        },
    }
}

/// The CONNECT a client sends keeps its session (no clean session),
/// announces a keep alive of 60 seconds and carries the configured client
/// id, last will and credentials, the password as its UTF-8 bytes.
pub proof fn lemma_connect_carries_config(config: ClientConfig, last_will: Option<LastWill>)
    ensures
        connect_model(config, last_will) matches SentPacket::Connect { keep_alive, client_id, clean_session, last_will: w, username, password }
            && keep_alive == 60
            && !clean_session
            && client_id == config.client_id@
            && w == will_view(last_will)
            && (config.credentials is None ==> username is None && password is None)
            && (config.credentials matches Some(c) ==> username == Some(c.username@) && password == Some(encode_utf8(c.password@))),
{
}

/// The strings of the CONNECT fit their 16 bit length prefixes.
pub open spec fn connect_fits_codec(config: ClientConfig, last_will: Option<LastWill>) -> bool {
    &&& encode_utf8(config.client_id@).len() <= 65535
    &&& (last_will matches Some(w) ==> encode_utf8(w.topic@).len() <= 65535 && w.message@.len() <= 65535)
    &&& (config.credentials matches Some(c) ==> encode_utf8(c.username@).len() <= 65535 && encode_utf8(c.password@).len() <= 65535)
}

/// Whether the strings of the CONNECT fit their 16 bit length prefixes; see
/// `connect_fits_codec`.
pub fn connect_fits_codec_check(config: &ClientConfig, last_will: Option<LastWill>) -> (r: bool)
    ensures
        r == connect_fits_codec(*config, last_will),
{
    let will_ok = match last_will {
        Some(w) => w.topic.as_bytes().len() <= 65535 && w.message.len() <= 65535,
        None => true,
    };
    let credentials_ok = match config.credentials {
        Some(c) => c.username.as_bytes().len() <= 65535 && c.password.as_bytes().len() <= 65535,
        None => true,
    };
    config.client_id.as_bytes().len() <= 65535 && will_ok && credentials_ok
}

/// Writes the CONNECT as `write_connect` does; where one of its strings is
/// longer than a 16 bit length prefix can say, the packet is longer than
/// 64 KiB and is refused with `BufferTooSmall`, nothing written.
pub fn write_connect_checked<const W: usize>(w: &mut PacketWriter<W>, config: &ClientConfig, last_will: Option<LastWill>) -> (r: Result<(), MqttError>)
    requires
        old(w).wf(),
    ensures
        final(w).wf(),
        !connect_fits_codec(*config, last_will) ==> r == Err::<(), MqttError>(MqttError::BufferTooSmall) && *final(w) == *old(w),
        connect_fits_codec(*config, last_will) ==> {
            let packet = connect_model(*config, last_will);
            let p = PacketWriter::<W>::full_flip(old(w).positions());
            let len = sent_bytes(packet).len();
            &&& len <= W - p.1 ==> r == Ok::<(), MqttError>(())
                && final(w).pending() == old(w).pending() + sent_bytes(packet)
                && final(w).log() == old(w).log().push(packet)
                && final(w).positions() == (0nat, p.1 + len)
            &&& len > W - p.1 ==> r == Err::<(), MqttError>(MqttError::BufferTooSmall)
                && final(w).pending() == old(w).pending()
                && final(w).log() == old(w).log()
                && final(w).positions() == p
        },
{
    if !connect_fits_codec_check(config, last_will) {
        return Err(MqttError::BufferTooSmall);
    }
    write_connect(w, config, last_will)
}

/// Writes the CONNECT into the send buffer; `BufferTooSmall` where it does
/// not fit.
pub fn write_connect<const W: usize>(w: &mut PacketWriter<W>, config: &ClientConfig, last_will: Option<LastWill>) -> (r: Result<(), MqttError>)
    requires
        old(w).wf(),
        connect_fits_codec(*config, last_will),
    ensures
        final(w).wf(),
        ({
            let packet = connect_model(*config, last_will);
            let p = PacketWriter::<W>::full_flip(old(w).positions());
            let len = sent_bytes(packet).len();
            &&& len <= W - p.1 ==> r == Ok::<(), MqttError>(())
                && final(w).pending() == old(w).pending() + sent_bytes(packet)
                && final(w).log() == old(w).log().push(packet)
                && final(w).positions() == (0nat, p.1 + len)
            &&& len > W - p.1 ==> r == Err::<(), MqttError>(MqttError::BufferTooSmall)
                && final(w).pending() == old(w).pending()
                && final(w).log() == old(w).log()
                && final(w).positions() == p
        }),
{
    let (username, password) = match config.credentials {
        Some(c) => (Some(c.username), Some(c.password.as_bytes())),
        None => (None, None),
    };
    let packet = OutPacket::Connect {
        keep_alive: KEEP_ALIVE_SECS,
        client_id: config.client_id,
        clean_session: false,
        last_will,
        username,
        password,
    };
    let sent = w.try_write_packet_checked(&packet)?;
    if !sent {
        return Err(MqttError::BufferTooSmall);
    }
    Ok(())
}

/// The DISCONNECT cannot find the send buffer holding bytes and no room:
/// the buffer was sent empty before (else the code panics).
pub open spec fn disconnect_fits<const W: usize>(pos: (nat, nat)) -> bool {
    let p = PacketWriter::<W>::full_flip(pos);
    !(2 > W - p.1 && p.1 > 0)
}

/// Writes the DISCONNECT into the send buffer; `BufferTooSmall` where even
/// the empty buffer cannot hold its two bytes.
pub fn write_disconnect<const W: usize>(w: &mut PacketWriter<W>) -> (r: Result<(), MqttError>)
    requires
        old(w).wf(),
        disconnect_fits::<W>(old(w).positions()),
    ensures
        final(w).wf(),
        W >= 2 + PacketWriter::<W>::full_flip(old(w).positions()).1 ==> r == Ok::<(), MqttError>(())
            && final(w).pending() == old(w).pending() + seq![0xE0u8, 0u8]
            && final(w).log() == old(w).log().push(SentPacket::Disconnect)
            && final(w).positions() == (0nat, PacketWriter::<W>::full_flip(old(w).positions()).1 + 2),
        W < 2 ==> r == Err::<(), MqttError>(MqttError::BufferTooSmall)
            && final(w).pending() == old(w).pending()
            && final(w).log() == old(w).log(),
{
    let sent = w.try_write_packet_checked(&OutPacket::Disconnect)?;
    if !sent {
        proof { assert(false); }
        return Err(MqttError::InternalError);
    }
    Ok(())
}

/// The topics of one auto subscribe packet with their QoS.
pub struct AutoSubscribeChunk {
    pub topics: Vec<String>,
    pub qos: Vec<QoS>,
}

impl AutoSubscribeChunk {
    /// The SUBSCRIBE of this chunk under `pid`.
    pub fn packet(&self, pid: Pid) -> (p: OutPacket<'_>)
        ensures
            p == (OutPacket::SubscribeEach { pid, topics: &self.topics, qos: &self.qos }),
    {
        OutPacket::SubscribeEach { pid, topics: &self.topics, qos: &self.qos }
    }
}

/// Chunk `k` holds the auto subscribes from `k * 5` on, five of them or
/// those left.
pub open spec fn chunk_holds(c: AutoSubscribeChunk, subs: Seq<AutoSubscribe>, k: int) -> bool {
    let s = k * 5;
    let n = if subs.len() - s < 5 { subs.len() - s } else { 5 };
    &&& c.topics@.len() == n
    &&& c.qos@.len() == n
    &&& forall|j: int| 0 <= j < n ==> (#[trigger] c.topics@[j])@ == subs[s + j].topic@
    &&& forall|j: int| 0 <= j < n ==> #[trigger] c.qos@[j] == subs[s + j].qos
}

/// The auto subscribes, `AUTO_SUBSCRIBE_CHUNK` to a packet, in order; see
/// `chunk_holds`.
pub fn auto_subscribe_chunks(auto_subscribes: &[AutoSubscribe]) -> (chunks: Vec<AutoSubscribeChunk>)
    requires
        auto_subscribes@.len() <= MAX_AUTO_SUBSCRIBES,
    ensures
        chunks@.len() == (auto_subscribes@.len() + 4) / 5,
        forall|k: int| 0 <= k < chunks@.len() ==> chunk_holds(#[trigger] chunks@[k], auto_subscribes@, k),
{
    let mut chunks: Vec<AutoSubscribeChunk> = Vec::new();
    let mut start: usize = 0;
    while start < auto_subscribes.len()
        invariant
            auto_subscribes@.len() <= MAX_AUTO_SUBSCRIBES,
            start == chunks@.len() * 5,
            chunks@.len() == 0 || (chunks@.len() - 1) * 5 < auto_subscribes@.len(),
            forall|k: int| 0 <= k < chunks@.len() ==> chunk_holds(#[trigger] chunks@[k], auto_subscribes@, k),
        decreases auto_subscribes@.len() + AUTO_SUBSCRIBE_CHUNK - start,
    {
        let end = if auto_subscribes.len() - start < AUTO_SUBSCRIBE_CHUNK { auto_subscribes.len() } else { start + AUTO_SUBSCRIBE_CHUNK };
        let mut topics: Vec<String> = Vec::new();
        let mut qos: Vec<QoS> = Vec::new();
        let mut i: usize = start;
        while i < end
            invariant
                start <= i <= end <= auto_subscribes@.len(),
                topics@.len() == i - start,
                qos@.len() == i - start,
                forall|j: int| 0 <= j < i - start ==> (#[trigger] topics@[j])@ == auto_subscribes@[start + j].topic@,
                forall|j: int| 0 <= j < i - start ==> #[trigger] qos@[j] == auto_subscribes@[start + j].qos,
            decreases end - i,
        {
            let t = auto_subscribes[i].topic.as_str().to_owned();
            topics.push(t);
            qos.push(auto_subscribes[i].qos);
            proof {
                assert(topics@[i - start]@ == auto_subscribes@[start + (i - start)].topic@);
                assert(qos@[i - start] == auto_subscribes@[start + (i - start)].qos);
            }
            i = i + 1;
        }
        let chunk = AutoSubscribeChunk { topics, qos };
        assert(chunk_holds(chunk, auto_subscribes@, chunks@.len() as int));
        chunks.push(chunk);
        start = start + AUTO_SUBSCRIBE_CHUNK;
    }
    chunks
}

} // verus!
