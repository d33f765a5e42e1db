//! The send side of a connection: packets are encoded into a send buffer.
use vstd::prelude::*;
use vstd::utf8::encode_utf8;
use crate::codec::{Encoded, LastWill, encodes_bytes, ack_bytes, publish_bytes, subscribe_bytes, unsubscribe_bytes, connect_bytes, topics_encodable, topic_views, will_view, opt_str_view, opt_bytes_view, connect_encodable, encode_publish, encode_puback, encode_pubrec, encode_pubrel, encode_pubcomp, encode_subscribe, encode_unsubscribe, encode_pingreq, encode_disconnect, encode_connect};
use crate::packet::{Pid, QoS, QosPid};
use crate::stack_buffer::StackBuffer;
use crate::MqttError;

verus! {

/// A packet this client sends, borrowing its contents.
pub enum OutPacket<'a> {
    Publish { dup: bool, qospid: QosPid, retain: bool, topic: &'a str, payload: &'a [u8] },
    Puback(Pid),
    Pubrec(Pid),
    Pubrel(Pid),
    Pubcomp(Pid),
    /// Every topic at the same QoS
    Subscribe { pid: Pid, topics: &'a Vec<String>, qos: QoS },
    /// Topic `i` at `qos[i]`
    SubscribeEach { pid: Pid, topics: &'a Vec<String>, qos: &'a Vec<QoS> },
    Unsubscribe { pid: Pid, topics: &'a Vec<String> },
    Pingreq,
    Disconnect,
    /// A CONNECT with protocol 3.1.1
    Connect {
        keep_alive: u16,
        client_id: &'a str,
        clean_session: bool,
        last_will: Option<LastWill<'a>>,
        username: Option<&'a str>,
        password: Option<&'a [u8]>,
    },
}

/// The mathematical model of a sent packet.
pub enum SentPacket {
    Publish { dup: bool, qospid: QosPid, retain: bool, topic: Seq<char>, payload: Seq<u8> },
    Puback(u16),
    Pubrec(u16),
    Pubrel(u16),
    Pubcomp(u16),
    Subscribe { pid: u16, topics: Seq<Seq<char>>, qos: Seq<QoS> },
    Unsubscribe { pid: u16, topics: Seq<Seq<char>> },
    Pingreq,
    Disconnect,
    Connect {
        keep_alive: u16,
        client_id: Seq<char>,
        clean_session: bool,
        last_will: Option<(Seq<char>, Seq<u8>, QoS, bool)>,
        username: Option<Seq<char>>,
        password: Option<Seq<u8>>,
    },
}

pub open spec fn pid_or_zero(qospid: QosPid) -> u16 {
    match qospid.spec_pid() {
        Some(p) => p@,
        None => 0,
    }
}

/// The bytes of a sent packet on the wire.
pub open spec fn sent_bytes(p: SentPacket) -> Seq<u8> {
    match p {
        SentPacket::Publish { dup, qospid, retain, topic, payload } =>
            publish_bytes(dup, qospid.spec_qos(), pid_or_zero(qospid), retain, topic, payload),
        SentPacket::Puback(pid) => ack_bytes(0x40, pid),
        SentPacket::Pubrec(pid) => ack_bytes(0x50, pid),
        SentPacket::Pubrel(pid) => ack_bytes(0x62, pid),
        SentPacket::Pubcomp(pid) => ack_bytes(0x70, pid),
        SentPacket::Subscribe { pid, topics, qos } => subscribe_bytes(pid, topics, qos),
        SentPacket::Unsubscribe { pid, topics } => unsubscribe_bytes(pid, topics),
        SentPacket::Pingreq => seq![0xC0u8, 0u8],
        SentPacket::Disconnect => seq![0xE0u8, 0u8],
        SentPacket::Connect { keep_alive, client_id, clean_session, last_will, username, password } =>
            connect_bytes(keep_alive, client_id, clean_session, last_will, username, password),
    }
}

/// The bytes of a sequence of packets, one after the other.
pub open spec fn bytes_of(s: Seq<SentPacket>) -> Seq<u8>
    decreases s.len(),
{
    if s.len() == 0 {
        Seq::empty()
    } else {
        bytes_of(s.drop_last()) + sent_bytes(s.last())
    }
}

pub proof fn lemma_bytes_of_push(s: Seq<SentPacket>, p: SentPacket)
    ensures
        bytes_of(s.push(p)) == bytes_of(s) + sent_bytes(p),
{
    assert(s.push(p).drop_last() =~= s);
}

/// The bytes of two sequences of packets, one after the other.
pub proof fn lemma_bytes_of_concat(s: Seq<SentPacket>, t: Seq<SentPacket>)
    ensures
        bytes_of(s + t) == bytes_of(s) + bytes_of(t),
    decreases t.len(),
{
    if t.len() == 0 {
        assert(s + t =~= s);
        assert(bytes_of(s) + Seq::<u8>::empty() =~= bytes_of(s));
    } else {
        lemma_bytes_of_concat(s, t.drop_last());
        assert((s + t).drop_last() =~= s + t.drop_last());
        assert((s + t).last() == t.last());
        assert(bytes_of(s) + bytes_of(t.drop_last()) + sent_bytes(t.last()) =~= bytes_of(s) + (bytes_of(t.drop_last()) + sent_bytes(t.last())));
    }
}

impl<'a> OutPacket<'a> {
    pub open spec fn model(&self) -> SentPacket {
        match *self {
            OutPacket::Publish { dup, qospid, retain, topic, payload } =>
                SentPacket::Publish { dup, qospid, retain, topic: topic@, payload: payload@ },
            OutPacket::Puback(pid) => SentPacket::Puback(pid@),
            OutPacket::Pubrec(pid) => SentPacket::Pubrec(pid@),
            OutPacket::Pubrel(pid) => SentPacket::Pubrel(pid@),
            OutPacket::Pubcomp(pid) => SentPacket::Pubcomp(pid@),
            OutPacket::Subscribe { pid, topics, qos } =>
                SentPacket::Subscribe { pid: pid@, topics: topic_views(topics@), qos: Seq::new(topics@.len(), |i: int| qos) },
            OutPacket::SubscribeEach { pid, topics, qos } => SentPacket::Subscribe { pid: pid@, topics: topic_views(topics@), qos: qos@ },
            OutPacket::Unsubscribe { pid, topics } => SentPacket::Unsubscribe { pid: pid@, topics: topic_views(topics@) },
            OutPacket::Pingreq => SentPacket::Pingreq,
            OutPacket::Disconnect => SentPacket::Disconnect,
            OutPacket::Connect { keep_alive, client_id, clean_session, last_will, username, password } => SentPacket::Connect {
                keep_alive,
                client_id: client_id@,
                clean_session,
                last_will: will_view(last_will),
                username: opt_str_view(username),
                password: opt_bytes_view(password),
            },
        }
    }

    /// The packet's strings and payload fit the codec's length fields.
    pub open spec fn encodable(&self) -> bool {
        match *self {
            OutPacket::Publish { topic, payload, .. } =>
                encode_utf8(topic@).len() <= 65535 && payload@.len() <= 200_000_000,
            OutPacket::Subscribe { topics, .. } => topics_encodable(topics@),
            OutPacket::SubscribeEach { topics, qos, .. } => topics_encodable(topics@) && qos@.len() == topics@.len(),
            OutPacket::Connect { client_id, last_will, username, password, .. } => connect_encodable(client_id, last_will, username, password),
            OutPacket::Unsubscribe { topics, .. } => topics_encodable(topics@),
            _ => true,
        }
    }
}

/// Encodes the packet at the front of `buf` where it fits.
fn encode_packet(packet: &OutPacket, buf: &mut [u8]) -> (r: Encoded)
    requires
        packet.encodable(),
    ensures
        encodes_bytes(sent_bytes(packet.model()), old(buf)@, final(buf)@, r),
{
    match packet {
        OutPacket::Publish { dup, qospid, retain, topic, payload } => {
            let pid = match qospid.pid() {
                Some(p) => p.get(),
                None => 0,
            };
            encode_publish(*dup, qospid.qos(), pid, *retain, topic, payload, buf)
        },
        OutPacket::Puback(pid) => encode_puback(pid.get(), buf),
        OutPacket::Pubrec(pid) => encode_pubrec(pid.get(), buf),
        OutPacket::Pubrel(pid) => encode_pubrel(pid.get(), buf),
        OutPacket::Pubcomp(pid) => encode_pubcomp(pid.get(), buf),
        OutPacket::Subscribe { pid, topics, qos } => {
            let mut each: Vec<QoS> = Vec::new();
            let mut i: usize = 0;
            while i < topics.len()
                invariant
                    i <= topics@.len(),
                    each@ == Seq::new(i as nat, |j: int| *qos),
                decreases topics@.len() - i,
            {
                each.push(*qos);
                i = i + 1;
                proof { assert(each@ =~= Seq::new(i as nat, |j: int| *qos)); }
            }
            encode_subscribe(pid.get(), topics, &each, buf)
        },
        OutPacket::SubscribeEach { pid, topics, qos } => encode_subscribe(pid.get(), topics, qos, buf),
        OutPacket::Unsubscribe { pid, topics } => encode_unsubscribe(pid.get(), topics, buf),
        OutPacket::Pingreq => encode_pingreq(buf),
        OutPacket::Disconnect => encode_disconnect(buf),
        OutPacket::Connect { keep_alive, client_id, clean_session, last_will, username, password } =>
            encode_connect(*keep_alive, client_id, *clean_session, *last_will, *username, *password, buf),
    }
}

/// Encodes packets into a send buffer of `N` bytes, from which the network
/// takes them; keeps the log of the packets written.
pub struct PacketWriter<const N: usize> {
    buffer: StackBuffer<N>,
    log: Ghost<Seq<SentPacket>>,
}

impl<const N: usize> PacketWriter<N> {
    pub closed spec fn buffer(&self) -> StackBuffer<N> {
        self.buffer
    }

    /// The packets written so far, oldest first
    pub closed spec fn log(&self) -> Seq<SentPacket> {
        self.log@
    }

    pub open spec fn wf(&self) -> bool {
        self.buffer().wf()
    }

    /// The bytes waiting to be sent
    pub open spec fn pending(&self) -> Seq<u8> {
        self.buffer().readable()
    }

    /// The read and write positions of the send buffer
    pub open spec fn positions(&self) -> (nat, nat) {
        (self.buffer().read_pos(), self.buffer().write_pos())
    }

    /// The positions after the flip that a write access makes where the
    /// write position is at the end of the buffer.
    pub open spec fn flip_positions(pos: (nat, nat)) -> (nat, nat) {
        if pos.1 == N { (0, (pos.1 - pos.0) as nat) } else { pos }
    }

    /// The room a packet finds at the given positions.
    pub open spec fn room_at(pos: (nat, nat)) -> nat {
        (N - Self::flip_positions(pos).1) as nat
    }

    /// The positions after a packet of `len` bytes was written.
    pub open spec fn positions_after(pos: (nat, nat), len: nat) -> (nat, nat) {
        (Self::flip_positions(pos).0, Self::flip_positions(pos).1 + len)
    }

    /// The room a packet finds: the bytes behind the write position, after
    /// the flip that a write access makes where that position is at the end.
    pub open spec fn room(&self) -> nat {
        Self::room_at(self.positions())
    }

    /// `after` holds the packets of `before` and, behind them, more: its
    /// pending bytes are those of `before` followed by the added packets.
    pub open spec fn appended(before: Self, after: Self) -> bool {
        &&& before.log().len() <= after.log().len()
        &&& after.log().take(before.log().len() as int) == before.log()
        &&& after.pending() == before.pending() + bytes_of(after.log().skip(before.log().len() as int))
    }

    pub proof fn lemma_appended_refl(a: Self)
        ensures
            Self::appended(a, a),
    {
        assert(a.log().take(a.log().len() as int) =~= a.log());
        assert(a.log().skip(a.log().len() as int) =~= Seq::<SentPacket>::empty());
        assert(a.pending() + Seq::<u8>::empty() =~= a.pending());
    }

    pub proof fn lemma_appended_trans(a: Self, b: Self, c: Self)
        requires
            Self::appended(a, b),
            Self::appended(b, c),
        ensures
            Self::appended(a, c),
    {
        let la = a.log().len() as int;
        let lb = b.log().len() as int;
        assert(c.log().take(la) =~= c.log().take(lb).take(la));
        assert(c.log().skip(la) =~= b.log().skip(la) + c.log().skip(lb));
        lemma_bytes_of_concat(b.log().skip(la), c.log().skip(lb));
        assert(a.pending() + bytes_of(b.log().skip(la)) + bytes_of(c.log().skip(lb))
            =~= a.pending() + (bytes_of(b.log().skip(la)) + bytes_of(c.log().skip(lb))));
    }

    pub fn new() -> (w: Self)
        ensures
            w.wf(),
            w.pending() == Seq::<u8>::empty(),
            w.log() == Seq::<SentPacket>::empty(),
            w.positions() == (0nat, 0nat),
    {
        PacketWriter { buffer: StackBuffer::new(), log: Ghost(Seq::empty()) }
    }

    /// The read and write positions of the send buffer
    pub fn current_positions(&self) -> (r: (usize, usize))
        ensures
            r.0 == self.positions().0,
            r.1 == self.positions().1,
    {
        self.buffer.positions()
    }

    /// Lends out the send buffer, e.g. to hand its bytes to the network.
    pub fn send_buffer(&mut self) -> (b: &mut StackBuffer<N>)
        ensures
            *b == old(self).buffer(),
            final(self).buffer() == *final(b),
            final(self).log() == old(self).log(),
    {
        &mut self.buffer
    }

    /// Tries to encode the packet behind the pending bytes. `Ok(false)` where
    /// the packet does not fit the room left; the packet may be tried later.
    pub fn try_write_packet(&mut self, packet: &OutPacket) -> (r: Result<bool, MqttError>)
        requires
            old(self).wf(),
            packet.encodable(),
        ensures
            final(self).wf(),
            r is Ok,
            r == Ok::<bool, MqttError>(true) <==> sent_bytes(packet.model()).len() <= old(self).room(),
            r == Ok::<bool, MqttError>(true) ==> final(self).pending() == old(self).pending() + sent_bytes(packet.model())
                && final(self).log() == old(self).log().push(packet.model())
                && final(self).positions() == Self::positions_after(old(self).positions(), sent_bytes(packet.model()).len()),
            r == Ok::<bool, MqttError>(false) ==> final(self).pending() == old(self).pending()
                && final(self).log() == old(self).log()
                && final(self).positions() == Self::flip_positions(old(self).positions()),
    {
        let ghost before = self.buffer;
        let buf = self.buffer.writeable_data();
        let encoded = encode_packet(packet, buf);
        match encoded {
            Encoded::Written(n) => {
                let _ = self.buffer.commit_bytes_written(n);
                proof {
                    self.log@ = self.log@.push(packet.model());
                    let (b, rp, wp) = before.write_view();
                    assert(self.pending() =~= before.readable() + sent_bytes(packet.model()));
                }
                Ok(true)
            },
            Encoded::NoSpace => {
                proof {
                    assert(self.pending() =~= before.readable());
                }
                Ok(false)
            },
            Encoded::Failed(e) => Err(MqttError::CodecError(e)),
        }
    }

    /// The positions after the readable bytes were moved to the front.
    pub open spec fn full_flip(pos: (nat, nat)) -> (nat, nat) {
        (0, (pos.1 - pos.0) as nat)
    }

    /// Moves the pending bytes to the front, then tries to encode the packet
    /// behind them. `Ok(false)` where it does not fit the room left (it may
    /// be tried once bytes were sent); `BufferTooSmall` where it does not fit
    /// even the empty buffer.
    pub fn try_write_packet_checked(&mut self, packet: &OutPacket) -> (r: Result<bool, MqttError>)
        requires
            old(self).wf(),
            packet.encodable(),
        ensures
            final(self).wf(),
            ({
                let p = Self::full_flip(old(self).positions());
                let len = sent_bytes(packet.model()).len();
                &&& len <= N - p.1 ==> r == Ok::<bool, MqttError>(true)
                    && final(self).pending() == old(self).pending() + sent_bytes(packet.model())
                    && final(self).log() == old(self).log().push(packet.model())
                    && final(self).positions() == (0nat, p.1 + len)
                &&& len > N - p.1 && p.1 == 0 ==> r == Err::<bool, MqttError>(MqttError::BufferTooSmall)
                &&& len > N - p.1 && p.1 > 0 ==> r == Ok::<bool, MqttError>(false)
                &&& len > N - p.1 ==> final(self).pending() == old(self).pending()
                    && final(self).log() == old(self).log()
                    && final(self).positions() == p
            }),
    {
        self.buffer.flip();
        let sent = self.try_write_packet(packet)?;
        if !sent && self.buffer.is_max_capacity() {
            return Err(MqttError::BufferTooSmall);
        }
        Ok(sent)
    }
}

} // verus!
