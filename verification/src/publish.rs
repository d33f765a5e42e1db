//! Outgoing publishes and their QoS 1 and QoS 2 acknowledgement flows.
use vstd::prelude::*;
use vstd::utf8::encode_utf8;
use crate::packet::{InPacket, Pid, Publish, QoS, QosPid};
use crate::pid::{PidPool, PidPoolView, pool_free};
use crate::state::{Instant, MqttEvent, SendResult, RESEND_DURATION, elapsed, spec_elapsed, overdue};
use crate::unique_id::UniqueID;
use crate::writer::{OutPacket, PacketWriter, SentPacket, sent_bytes, bytes_of, lemma_bytes_of_push};
use crate::seqs::{is_first, first_index, lemma_first_index, lemma_first_index_cases, lemma_no_index, lemma_remove_only};
use crate::MqttError;

verus! {

/// A publish with owned topic and payload, waiting to be sent or acknowledged.
pub struct OwnedPublish<const BUFFER: usize, const TOPIC_SIZE: usize> {
    pub dup: bool,
    pub qospid: QosPid,
    pub retain: bool,
    pub topic_name: String,
    pub payload: Vec<u8>,
    pub unique_id: UniqueID,
}

impl<const BUFFER: usize, const TOPIC_SIZE: usize> OwnedPublish<BUFFER, TOPIC_SIZE> {
    /// The topic fits `TOPIC_SIZE` bytes and the payload `BUFFER` bytes.
    pub open spec fn wf(&self) -> bool {
        &&& encode_utf8(self.topic_name@).len() <= TOPIC_SIZE
        &&& self.payload@.len() <= BUFFER
    }

    /// The packet this publish is sent as.
    pub open spec fn model(&self) -> SentPacket {
        SentPacket::Publish {
            dup: self.dup,
            qospid: self.qospid,
            retain: self.retain,
            topic: self.topic_name@,
            payload: self.payload@,
        }
    }

    /// Borrows the publish as a packet to send.
    pub fn borrow(&self) -> (p: OutPacket<'_>)
        ensures
            p.model() == self.model(),
            self.wf() && TOPIC_SIZE <= 65535 && BUFFER <= 200_000_000 ==> p.encodable(),
    {
        OutPacket::Publish {
            dup: self.dup,
            qospid: self.qospid,
            retain: self.retain,
            topic: self.topic_name.as_str(),
            payload: self.payload.as_slice(),
        }
    }

    /// Copies a publish; fails where the topic exceeds `TOPIC_SIZE` bytes
    /// (checked first) or the payload exceeds `BUFFER` bytes.
    pub fn new_from_publish(publish: &Publish, unique_id: UniqueID) -> (r: Result<Self, MqttError>)
        ensures
            encode_utf8(publish.topic_name@).len() > TOPIC_SIZE ==> r == Err::<Self, MqttError>(MqttError::TopicSizeError),
            encode_utf8(publish.topic_name@).len() <= TOPIC_SIZE && publish.payload@.len() > BUFFER
                ==> r == Err::<Self, MqttError>(MqttError::BufferTooSmall),
            encode_utf8(publish.topic_name@).len() <= TOPIC_SIZE && publish.payload@.len() <= BUFFER ==> (r matches Ok(o) && {
                &&& o.wf()
                &&& o.dup == publish.dup
                &&& o.qospid == publish.qospid
                &&& o.retain == publish.retain
                &&& o.topic_name@ == publish.topic_name@
                &&& o.payload@ == publish.payload@
                &&& o.unique_id == unique_id
            }),
    {
        if publish.topic_name.as_bytes().len() > TOPIC_SIZE {
            return Err(MqttError::TopicSizeError);
        }
        if publish.payload.len() > BUFFER {
            return Err(MqttError::BufferTooSmall);
        }
        Ok(OwnedPublish {
            dup: publish.dup,
            qospid: publish.qospid,
            retain: publish.retain,
            topic_name: publish.topic_name.to_owned(),
            payload: vstd::slice::slice_to_vec(publish.payload),
            unique_id,
        })
    }
}

/// A QoS 1 publish sent and waiting for its PUBACK.
pub struct AwaitPuback<const BUFFER: usize, const TOPIC_SIZE: usize> {
    pub pid: Pid,
    pub publish: OwnedPublish<BUFFER, TOPIC_SIZE>,
    pub publish_sent: Instant,
}

/// A QoS 2 publish sent and waiting for its PUBREC.
pub struct AwaitPubrec<const BUFFER: usize, const TOPIC_SIZE: usize> {
    pub pid: Pid,
    pub publish: OwnedPublish<BUFFER, TOPIC_SIZE>,
    pub publish_sent: Instant,
}

/// A PUBREL sent and waiting for its PUBCOMP.
pub struct AwaitPubcomp {
    pub pid: Pid,
    pub pubrel_sent: Instant,
    pub unique_id: UniqueID,
}

/// A PUBREL to send. It is sent for every PUBREC received, so where no
/// publish waits for that PUBREC there is no unique id.
pub struct SendPubrel {
    pub pid: Pid,
    pub unique_id: Option<UniqueID>,
}


/// Whether a QoS 1 entry waits for `pid`
pub open spec fn puback_for<const B: usize, const T: usize>(pid: Pid) -> spec_fn(AwaitPuback<B, T>) -> bool {
    |e: AwaitPuback<B, T>| e.pid == pid
}

/// Whether a QoS 2 entry waits for the PUBREC of `pid`
pub open spec fn pubrec_for<const B: usize, const T: usize>(pid: Pid) -> spec_fn(AwaitPubrec<B, T>) -> bool {
    |e: AwaitPubrec<B, T>| e.pid == pid
}

/// Whether a QoS 2 entry waits for the PUBCOMP of `pid`
pub open spec fn pubcomp_for(pid: Pid) -> spec_fn(AwaitPubcomp) -> bool {
    |e: AwaitPubcomp| e.pid == pid
}

/// The publish as it waits after its first send: marked as a duplicate.
pub open spec fn with_dup<const B: usize, const T: usize>(p: OwnedPublish<B, T>) -> OwnedPublish<B, T> {
    OwnedPublish { dup: true, ..p }
}

/// The state of a pass over the send queue: what is kept in the send
/// queue, the two waiting queues, the events raised, the packets sent, the
/// send buffer's positions, and whether the pass stopped on a full buffer.
pub struct PublishPass<const B: usize, const T: usize> {
    pub kept: Seq<OwnedPublish<B, T>>,
    pub pubacks: Seq<AwaitPuback<B, T>>,
    pub pubrecs: Seq<AwaitPubrec<B, T>>,
    pub events: Seq<MqttEvent>,
    pub sent: Seq<SentPacket>,
    pub pos: (nat, nat),
    pub partial: bool,
}

/// A pass over the publishes `rest`, front first. A publish whose waiting
/// queue is full stays and the pass goes on; a publish that does not fit the
/// send buffer stops the pass with everything from it kept; a sent publish
/// raises `PublishDone` (QoS 0) or waits, marked as a duplicate, for its
/// PUBACK (QoS 1) or PUBREC (QoS 2).
pub open spec fn publish_pass<const P: usize, const B: usize, const T: usize, const W: usize>(
    s: PublishPass<B, T>,
    rest: Seq<OwnedPublish<B, T>>,
    now: Instant,
) -> PublishPass<B, T>
    decreases rest.len(),
{
    if rest.len() == 0 {
        s
    } else {
        let p = rest[0];
        let has_space = match p.qospid {
            QosPid::AtMostOnce => true,
            QosPid::AtLeastOnce(_) => s.pubacks.len() < P,
            QosPid::ExactlyOnce(_) => s.pubrecs.len() < P,
        };
        if !has_space {
            publish_pass::<P, B, T, W>(PublishPass { kept: s.kept.push(p), ..s }, rest.drop_first(), now)
        } else {
            let len = sent_bytes(p.model()).len();
            if len > PacketWriter::<W>::room_at(s.pos) {
                PublishPass { kept: s.kept + rest, pos: PacketWriter::<W>::flip_positions(s.pos), partial: true, ..s }
            } else {
                let pos = PacketWriter::<W>::positions_after(s.pos, len);
                let sent = s.sent.push(p.model());
                let next = match p.qospid {
                    QosPid::AtMostOnce => PublishPass { events: s.events.push(MqttEvent::PublishDone(p.unique_id)), sent, pos, ..s },
                    QosPid::AtLeastOnce(pid) => PublishPass {
                        pubacks: s.pubacks.push(AwaitPuback { pid, publish: with_dup(p), publish_sent: now }), sent, pos, ..s },
                    QosPid::ExactlyOnce(pid) => PublishPass {
                        pubrecs: s.pubrecs.push(AwaitPubrec { pid, publish: with_dup(p), publish_sent: now }), sent, pos, ..s },
                };
                publish_pass::<P, B, T, W>(next, rest.drop_first(), now)
            }
        }
    }
}

/// A pass over the send queue loses and duplicates no publish: each one it
/// met is still queued, waits for its acknowledgement or was reported done;
/// and each one that left the send queue was sent.
pub proof fn lemma_publish_pass_conserves<const P: usize, const B: usize, const T: usize, const W: usize>(
    s: PublishPass<B, T>,
    rest: Seq<OwnedPublish<B, T>>,
    now: Instant,
)
    ensures
        ({
            let r = publish_pass::<P, B, T, W>(s, rest, now);
            &&& r.kept.len() + r.pubacks.len() + r.pubrecs.len() + r.events.len()
                == s.kept.len() + rest.len() + s.pubacks.len() + s.pubrecs.len() + s.events.len()
            &&& r.sent.len() - s.sent.len() == (r.pubacks.len() - s.pubacks.len()) + (r.pubrecs.len() - s.pubrecs.len())
                + (r.events.len() - s.events.len())
        }),
    decreases rest.len(),
{
    if rest.len() > 0 {
        let p = rest[0];
        let has_space = match p.qospid {
            QosPid::AtMostOnce => true,
            QosPid::AtLeastOnce(_) => s.pubacks.len() < P,
            QosPid::ExactlyOnce(_) => s.pubrecs.len() < P,
        };
        if !has_space {
            lemma_publish_pass_conserves::<P, B, T, W>(PublishPass { kept: s.kept.push(p), ..s }, rest.drop_first(), now);
        } else {
            let len = sent_bytes(p.model()).len();
            if len <= PacketWriter::<W>::room_at(s.pos) {
                let pos = PacketWriter::<W>::positions_after(s.pos, len);
                let sent = s.sent.push(p.model());
                let next = match p.qospid {
                    QosPid::AtMostOnce => PublishPass { events: s.events.push(MqttEvent::PublishDone(p.unique_id)), sent, pos, ..s },
                    QosPid::AtLeastOnce(pid) => PublishPass {
                        pubacks: s.pubacks.push(AwaitPuback { pid, publish: with_dup(p), publish_sent: now }), sent, pos, ..s },
                    QosPid::ExactlyOnce(pid) => PublishPass {
                        pubrecs: s.pubrecs.push(AwaitPubrec { pid, publish: with_dup(p), publish_sent: now }), sent, pos, ..s },
                };
                lemma_publish_pass_conserves::<P, B, T, W>(next, rest.drop_first(), now);
            }
        }
    }
}

/// What a pass over the send queue adds to the waiting queues and the
/// events, from `s` to `r`: the entries before are kept; each QoS 1 publish
/// sent waits for the PUBACK of its own packet identifier, and each QoS 2
/// publish for the PUBREC of its own, both marked as duplicates and stamped
/// `now`; the only events raised are `PublishDone`.
pub open spec fn pass_adds_waiting<const B: usize, const T: usize>(s: PublishPass<B, T>, r: PublishPass<B, T>, now: Instant) -> bool {
    &&& s.pubacks.len() <= r.pubacks.len() && r.pubacks.subrange(0, s.pubacks.len() as int) == s.pubacks
    &&& s.pubrecs.len() <= r.pubrecs.len() && r.pubrecs.subrange(0, s.pubrecs.len() as int) == s.pubrecs
    &&& s.events.len() <= r.events.len() && r.events.subrange(0, s.events.len() as int) == s.events
    &&& s.sent.len() <= r.sent.len() && r.sent.subrange(0, s.sent.len() as int) == s.sent
    &&& forall|i: int| s.pubacks.len() <= i < r.pubacks.len() ==> {
        &&& (#[trigger] r.pubacks[i]).publish_sent == now
        &&& r.pubacks[i].publish.dup
        &&& r.pubacks[i].publish.qospid == QosPid::AtLeastOnce(r.pubacks[i].pid)
    }
    &&& forall|i: int| s.pubrecs.len() <= i < r.pubrecs.len() ==> {
        &&& (#[trigger] r.pubrecs[i]).publish_sent == now
        &&& r.pubrecs[i].publish.dup
        &&& r.pubrecs[i].publish.qospid == QosPid::ExactlyOnce(r.pubrecs[i].pid)
    }
    &&& forall|i: int| s.events.len() <= i < r.events.len() ==> #[trigger] r.events[i] is PublishDone
}

/// A sent publish waits for the acknowledgement of its QoS under its own
/// packet identifier, stamped with the time of sending; see
/// `pass_adds_waiting`.
pub proof fn lemma_publish_pass_waits<const P: usize, const B: usize, const T: usize, const W: usize>(
    s: PublishPass<B, T>,
    rest: Seq<OwnedPublish<B, T>>,
    now: Instant,
)
    ensures
        pass_adds_waiting::<B, T>(s, publish_pass::<P, B, T, W>(s, rest, now), now),
    decreases rest.len(),
{
    let r = publish_pass::<P, B, T, W>(s, rest, now);
    if rest.len() == 0 {
        assert(r.pubacks.subrange(0, s.pubacks.len() as int) =~= s.pubacks);
        assert(r.pubrecs.subrange(0, s.pubrecs.len() as int) =~= s.pubrecs);
        assert(r.events.subrange(0, s.events.len() as int) =~= s.events);
        assert(r.sent.subrange(0, s.sent.len() as int) =~= s.sent);
    } else {
        let p = rest[0];
        let has_space = match p.qospid {
            QosPid::AtMostOnce => true,
            QosPid::AtLeastOnce(_) => s.pubacks.len() < P,
            QosPid::ExactlyOnce(_) => s.pubrecs.len() < P,
        };
        if !has_space {
            let next = PublishPass { kept: s.kept.push(p), ..s };
            lemma_publish_pass_waits::<P, B, T, W>(next, rest.drop_first(), now);
        } else {
            let len = sent_bytes(p.model()).len();
            if len > PacketWriter::<W>::room_at(s.pos) {
                assert(r.pubacks.subrange(0, s.pubacks.len() as int) =~= s.pubacks);
                assert(r.pubrecs.subrange(0, s.pubrecs.len() as int) =~= s.pubrecs);
                assert(r.events.subrange(0, s.events.len() as int) =~= s.events);
                assert(r.sent.subrange(0, s.sent.len() as int) =~= s.sent);
            } else {
                let pos = PacketWriter::<W>::positions_after(s.pos, len);
                let sent = s.sent.push(p.model());
                let next = match p.qospid {
                    QosPid::AtMostOnce => PublishPass { events: s.events.push(MqttEvent::PublishDone(p.unique_id)), sent, pos, ..s },
                    QosPid::AtLeastOnce(pid) => PublishPass {
                        pubacks: s.pubacks.push(AwaitPuback { pid, publish: with_dup(p), publish_sent: now }), sent, pos, ..s },
                    QosPid::ExactlyOnce(pid) => PublishPass {
                        pubrecs: s.pubrecs.push(AwaitPubrec { pid, publish: with_dup(p), publish_sent: now }), sent, pos, ..s },
                };
                lemma_publish_pass_waits::<P, B, T, W>(next, rest.drop_first(), now);
                assert(next.pubacks.subrange(0, s.pubacks.len() as int) =~= s.pubacks);
                assert(next.pubrecs.subrange(0, s.pubrecs.len() as int) =~= s.pubrecs);
                assert(next.events.subrange(0, s.events.len() as int) =~= s.events);
                assert(next.sent.subrange(0, s.sent.len() as int) =~= s.sent);
                assert(pass_adds_waiting::<B, T>(s, next, now));
                lemma_adds_waiting_trans::<B, T>(s, next, r, now);
            }
        }
    }
}

proof fn lemma_adds_waiting_trans<const B: usize, const T: usize>(a: PublishPass<B, T>, b: PublishPass<B, T>, c: PublishPass<B, T>, now: Instant)
    requires
        pass_adds_waiting::<B, T>(a, b, now),
        pass_adds_waiting::<B, T>(b, c, now),
    ensures
        pass_adds_waiting::<B, T>(a, c, now),
{
    assert(c.pubacks.subrange(0, a.pubacks.len() as int) =~= c.pubacks.subrange(0, b.pubacks.len() as int).subrange(0, a.pubacks.len() as int));
    assert(c.pubrecs.subrange(0, a.pubrecs.len() as int) =~= c.pubrecs.subrange(0, b.pubrecs.len() as int).subrange(0, a.pubrecs.len() as int));
    assert(c.events.subrange(0, a.events.len() as int) =~= c.events.subrange(0, b.events.len() as int).subrange(0, a.events.len() as int));
    assert(c.sent.subrange(0, a.sent.len() as int) =~= c.sent.subrange(0, b.sent.len() as int).subrange(0, a.sent.len() as int));
    assert forall|i: int| a.pubacks.len() <= i < c.pubacks.len() implies {
        &&& (#[trigger] c.pubacks[i]).publish_sent == now
        &&& c.pubacks[i].publish.dup
        &&& c.pubacks[i].publish.qospid == QosPid::AtLeastOnce(c.pubacks[i].pid)
    } by {
        if i < b.pubacks.len() {
            assert(c.pubacks[i] == c.pubacks.subrange(0, b.pubacks.len() as int)[i]);
            assert(b.pubacks[i] == c.pubacks[i]);
        }
    }
    assert forall|i: int| a.pubrecs.len() <= i < c.pubrecs.len() implies {
        &&& (#[trigger] c.pubrecs[i]).publish_sent == now
        &&& c.pubrecs[i].publish.dup
        &&& c.pubrecs[i].publish.qospid == QosPid::ExactlyOnce(c.pubrecs[i].pid)
    } by {
        if i < b.pubrecs.len() {
            assert(c.pubrecs[i] == c.pubrecs.subrange(0, b.pubrecs.len() as int)[i]);
            assert(b.pubrecs[i] == c.pubrecs[i]);
        }
    }
    assert forall|i: int| a.events.len() <= i < c.events.len() implies #[trigger] c.events[i] is PublishDone by {
        if i < b.events.len() {
            assert(c.events[i] == c.events.subrange(0, b.events.len() as int)[i]);
            assert(b.events[i] == c.events[i]);
        }
    }
}

/// The state of a pass over the PUBREL queue: the entries kept, the PUBCOMP
/// queue, the packets sent, the send buffer's positions, whether the pass
/// stopped on a full buffer, and whether it met a PUBREL without unique id
/// that it would move to the PUBCOMP queue (where the code panics).
pub struct PubrelPass {
    pub kept: Seq<SendPubrel>,
    pub pubcomps: Seq<AwaitPubcomp>,
    pub sent: Seq<SentPacket>,
    pub pos: (nat, nat),
    pub partial: bool,
    pub panics: bool,
}

/// A pass over the PUBRELs `rest`, front first. While the PUBCOMP queue is
/// full, PUBRELs stay; a PUBREL that does not fit the send buffer stops the
/// pass; a sent PUBREL waits for its PUBCOMP.
pub open spec fn pubrel_pass<const P: usize, const W: usize>(s: PubrelPass, rest: Seq<SendPubrel>, now: Instant) -> PubrelPass
    decreases rest.len(),
{
    if rest.len() == 0 {
        s
    } else {
        let e = rest[0];
        if s.pubcomps.len() >= P {
            pubrel_pass::<P, W>(PubrelPass { kept: s.kept.push(e), ..s }, rest.drop_first(), now)
        } else {
            let len = sent_bytes(SentPacket::Pubrel(e.pid@)).len();
            if len > PacketWriter::<W>::room_at(s.pos) {
                PubrelPass { kept: s.kept + rest, pos: PacketWriter::<W>::flip_positions(s.pos), partial: true, ..s }
            } else {
                match e.unique_id {
                    None => PubrelPass { panics: true, ..s },
                    Some(uid) => pubrel_pass::<P, W>(
                        PubrelPass {
                            pubcomps: s.pubcomps.push(AwaitPubcomp { pid: e.pid, pubrel_sent: now, unique_id: uid }),
                            sent: s.sent.push(SentPacket::Pubrel(e.pid@)),
                            pos: PacketWriter::<W>::positions_after(s.pos, len),
                            ..s
                        },
                        rest.drop_first(),
                        now,
                    ),
                }
            }
        }
    }
}

/// What a pass over the PUBREL queue adds, from `s` to `r`: the entries
/// before are kept, and each PUBREL sent is for the packet identifier of the
/// entry that then waits for its PUBCOMP, stamped `now`.
pub open spec fn pubrel_pass_adds(s: PubrelPass, r: PubrelPass, now: Instant) -> bool {
    &&& s.pubcomps.len() <= r.pubcomps.len() && r.pubcomps.subrange(0, s.pubcomps.len() as int) == s.pubcomps
    &&& s.sent.len() <= r.sent.len() && r.sent.subrange(0, s.sent.len() as int) == s.sent
    &&& r.sent.len() - s.sent.len() == r.pubcomps.len() - s.pubcomps.len()
    &&& forall|j: int| 0 <= j < r.pubcomps.len() - s.pubcomps.len() ==> {
        &&& (#[trigger] r.pubcomps[s.pubcomps.len() + j]).pubrel_sent == now
        &&& r.sent[s.sent.len() + j] == SentPacket::Pubrel(r.pubcomps[s.pubcomps.len() + j].pid@)
    }
}

proof fn lemma_pubrel_pass_adds_trans(a: PubrelPass, b: PubrelPass, c: PubrelPass, now: Instant)
    requires
        pubrel_pass_adds(a, b, now),
        pubrel_pass_adds(b, c, now),
    ensures
        pubrel_pass_adds(a, c, now),
{
    assert(c.pubcomps.subrange(0, a.pubcomps.len() as int) =~= c.pubcomps.subrange(0, b.pubcomps.len() as int).subrange(0, a.pubcomps.len() as int));
    assert(c.sent.subrange(0, a.sent.len() as int) =~= c.sent.subrange(0, b.sent.len() as int).subrange(0, a.sent.len() as int));
    let d = b.pubcomps.len() - a.pubcomps.len();
    assert forall|j: int| 0 <= j < c.pubcomps.len() - a.pubcomps.len() implies {
        &&& (#[trigger] c.pubcomps[a.pubcomps.len() + j]).pubrel_sent == now
        &&& c.sent[a.sent.len() + j] == SentPacket::Pubrel(c.pubcomps[a.pubcomps.len() + j].pid@)
    } by {
        if j < d {
            assert(c.pubcomps[a.pubcomps.len() + j] == c.pubcomps.subrange(0, b.pubcomps.len() as int)[a.pubcomps.len() + j]);
            assert(c.sent[a.sent.len() + j] == c.sent.subrange(0, b.sent.len() as int)[a.sent.len() + j]);
            assert(b.pubcomps[a.pubcomps.len() + j].pubrel_sent == now);
        } else {
            let k = j - d;
            assert(c.pubcomps[b.pubcomps.len() + k].pubrel_sent == now);
        }
    }
}

/// A PUBREL sent waits for the PUBCOMP of its own packet identifier, stamped
/// with the time of sending; see `pubrel_pass_adds`.
pub proof fn lemma_pubrel_pass_waits<const P: usize, const W: usize>(s: PubrelPass, rest: Seq<SendPubrel>, now: Instant)
    ensures
        pubrel_pass_adds(s, pubrel_pass::<P, W>(s, rest, now), now),
    decreases rest.len(),
{
    let r = pubrel_pass::<P, W>(s, rest, now);
    assert(s.pubcomps.subrange(0, s.pubcomps.len() as int) =~= s.pubcomps);
    assert(s.sent.subrange(0, s.sent.len() as int) =~= s.sent);
    if rest.len() > 0 {
        let e = rest[0];
        if s.pubcomps.len() >= P {
            lemma_pubrel_pass_waits::<P, W>(PubrelPass { kept: s.kept.push(e), ..s }, rest.drop_first(), now);
        } else {
            let len = sent_bytes(SentPacket::Pubrel(e.pid@)).len();
            if len <= PacketWriter::<W>::room_at(s.pos) {
                if let Some(uid) = e.unique_id {
                    let next = PubrelPass {
                        pubcomps: s.pubcomps.push(AwaitPubcomp { pid: e.pid, pubrel_sent: now, unique_id: uid }),
                        sent: s.sent.push(SentPacket::Pubrel(e.pid@)),
                        pos: PacketWriter::<W>::positions_after(s.pos, len),
                        ..s
                    };
                    lemma_pubrel_pass_waits::<P, W>(next, rest.drop_first(), now);
                    assert(next.pubcomps.subrange(0, s.pubcomps.len() as int) =~= s.pubcomps);
                    assert(next.sent.subrange(0, s.sent.len() as int) =~= s.sent);
                    assert(next.pubcomps[s.pubcomps.len() as int] == AwaitPubcomp { pid: e.pid, pubrel_sent: now, unique_id: uid });
                    assert(pubrel_pass_adds(s, next, now));
                    lemma_pubrel_pass_adds_trans(s, next, r, now);
                }
            }
        }
    }
}

/// The state of a resend pass: the entries visited, the packets sent, the
/// send buffer's positions, and whether the pass stopped on a full buffer.
pub struct ResendPass<E> {
    pub done: Seq<E>,
    pub sent: Seq<SentPacket>,
    pub pos: (nat, nat),
    pub partial: bool,
}

/// A resend pass over QoS 1 entries: every entry whose publish was sent more
/// than `RESEND_DURATION` ago is sent again and stamped `now`; a publish that
/// does not fit the send buffer stops the pass.
pub open spec fn resend_puback_pass<const B: usize, const T: usize, const W: usize>(
    s: ResendPass<AwaitPuback<B, T>>,
    rest: Seq<AwaitPuback<B, T>>,
    now: Instant,
) -> ResendPass<AwaitPuback<B, T>>
    decreases rest.len(),
{
    if rest.len() == 0 {
        s
    } else {
        let e = rest[0];
        if spec_elapsed(now, e.publish_sent) <= RESEND_DURATION {
            resend_puback_pass::<B, T, W>(ResendPass { done: s.done.push(e), ..s }, rest.drop_first(), now)
        } else {
            let len = sent_bytes(e.publish.model()).len();
            if len > PacketWriter::<W>::room_at(s.pos) {
                ResendPass { done: s.done + rest, pos: PacketWriter::<W>::flip_positions(s.pos), partial: true, ..s }
            } else {
                resend_puback_pass::<B, T, W>(
                    ResendPass {
                        done: s.done.push(AwaitPuback { publish_sent: now, ..e }),
                        sent: s.sent.push(e.publish.model()),
                        pos: PacketWriter::<W>::positions_after(s.pos, len),
                        ..s
                    },
                    rest.drop_first(),
                    now,
                )
            }
        }
    }
}

/// The resend pass over QoS 2 entries waiting for their PUBREC; as
/// `resend_puback_pass`.
pub open spec fn resend_pubrec_pass<const B: usize, const T: usize, const W: usize>(
    s: ResendPass<AwaitPubrec<B, T>>,
    rest: Seq<AwaitPubrec<B, T>>,
    now: Instant,
) -> ResendPass<AwaitPubrec<B, T>>
    decreases rest.len(),
{
    if rest.len() == 0 {
        s
    } else {
        let e = rest[0];
        if spec_elapsed(now, e.publish_sent) <= RESEND_DURATION {
            resend_pubrec_pass::<B, T, W>(ResendPass { done: s.done.push(e), ..s }, rest.drop_first(), now)
        } else {
            let len = sent_bytes(e.publish.model()).len();
            if len > PacketWriter::<W>::room_at(s.pos) {
                ResendPass { done: s.done + rest, pos: PacketWriter::<W>::flip_positions(s.pos), partial: true, ..s }
            } else {
                resend_pubrec_pass::<B, T, W>(
                    ResendPass {
                        done: s.done.push(AwaitPubrec { publish_sent: now, ..e }),
                        sent: s.sent.push(e.publish.model()),
                        pos: PacketWriter::<W>::positions_after(s.pos, len),
                        ..s
                    },
                    rest.drop_first(),
                    now,
                )
            }
        }
    }
}

/// The publishes of the overdue entries of `rest`, in order.
pub open spec fn overdue_puback_publishes<const B: usize, const T: usize>(rest: Seq<AwaitPuback<B, T>>, now: Instant) -> Seq<SentPacket>
    decreases rest.len(),
{
    if rest.len() == 0 {
        Seq::empty()
    } else {
        (if overdue(rest[0].publish_sent, now) { seq![rest[0].publish.model()] } else { Seq::empty() })
            + overdue_puback_publishes::<B, T>(rest.drop_first(), now)
    }
}

/// `rest` with every overdue entry stamped `now`.
pub open spec fn stamp_overdue_pubacks<const B: usize, const T: usize>(rest: Seq<AwaitPuback<B, T>>, now: Instant) -> Seq<AwaitPuback<B, T>> {
    Seq::new(rest.len(), |i: int| if overdue(rest[i].publish_sent, now) { AwaitPuback { publish_sent: now, ..rest[i] } } else { rest[i] })
}

/// An overdue QoS 1 publish is sent again: a pass that did not stop on a full send
/// buffer has sent the publish of every overdue entry, in order and nothing
/// else, and stamped those entries `now`, the others unchanged.
pub proof fn lemma_resend_puback_pass_resends_overdue<const B: usize, const T: usize, const W: usize>(
    s: ResendPass<AwaitPuback<B, T>>,
    rest: Seq<AwaitPuback<B, T>>,
    now: Instant,
)
    ensures
        ({
            let r = resend_puback_pass::<B, T, W>(s, rest, now);
            !r.partial ==> r.sent == s.sent + overdue_puback_publishes::<B, T>(rest, now)
                && r.done == s.done + stamp_overdue_pubacks::<B, T>(rest, now)
        }),
    decreases rest.len(),
{
    if rest.len() == 0 {
        assert(s.sent + Seq::<SentPacket>::empty() =~= s.sent);
        assert(s.done + stamp_overdue_pubacks::<B, T>(rest, now) =~= s.done);
    } else {
        let e = rest[0];
        let tail = rest.drop_first();
        let st = if overdue(e.publish_sent, now) { AwaitPuback { publish_sent: now, ..e } } else { e };
        assert(stamp_overdue_pubacks::<B, T>(rest, now) =~= seq![st] + stamp_overdue_pubacks::<B, T>(tail, now));
        if spec_elapsed(now, e.publish_sent) <= RESEND_DURATION {
            let s2 = ResendPass { done: s.done.push(e), ..s };
            lemma_resend_puback_pass_resends_overdue::<B, T, W>(s2, tail, now);
            assert(overdue_puback_publishes::<B, T>(rest, now) =~= overdue_puback_publishes::<B, T>(tail, now));
            assert(s.done.push(e) + stamp_overdue_pubacks::<B, T>(tail, now) =~= s.done + (seq![st] + stamp_overdue_pubacks::<B, T>(tail, now)));
        } else {
            let len = sent_bytes(e.publish.model()).len();
            if len <= PacketWriter::<W>::room_at(s.pos) {
                let s2 = ResendPass {
                    done: s.done.push(AwaitPuback { publish_sent: now, ..e }),
                    sent: s.sent.push(e.publish.model()),
                    pos: PacketWriter::<W>::positions_after(s.pos, len),
                    ..s
                };
                lemma_resend_puback_pass_resends_overdue::<B, T, W>(s2, tail, now);
                assert(s.sent.push(e.publish.model()) + overdue_puback_publishes::<B, T>(tail, now)
                    =~= s.sent + overdue_puback_publishes::<B, T>(rest, now));
                assert(s2.done + stamp_overdue_pubacks::<B, T>(tail, now) =~= s.done + (seq![st] + stamp_overdue_pubacks::<B, T>(tail, now)));
            }
        }
    }
}

/// The publishes of the overdue entries of `rest`, in order.
pub open spec fn overdue_pubrec_publishes<const B: usize, const T: usize>(rest: Seq<AwaitPubrec<B, T>>, now: Instant) -> Seq<SentPacket>
    decreases rest.len(),
{
    if rest.len() == 0 {
        Seq::empty()
    } else {
        (if overdue(rest[0].publish_sent, now) { seq![rest[0].publish.model()] } else { Seq::empty() })
            + overdue_pubrec_publishes::<B, T>(rest.drop_first(), now)
    }
}

/// `rest` with every overdue entry stamped `now`.
pub open spec fn stamp_overdue_pubrecs<const B: usize, const T: usize>(rest: Seq<AwaitPubrec<B, T>>, now: Instant) -> Seq<AwaitPubrec<B, T>> {
    Seq::new(rest.len(), |i: int| if overdue(rest[i].publish_sent, now) { AwaitPubrec { publish_sent: now, ..rest[i] } } else { rest[i] })
}

/// An overdue QoS 2 publish waiting for its PUBREC is sent again: a pass that did not stop on a full send
/// buffer has sent the publish of every overdue entry, in order and nothing
/// else, and stamped those entries `now`, the others unchanged.
pub proof fn lemma_resend_pubrec_pass_resends_overdue<const B: usize, const T: usize, const W: usize>(
    s: ResendPass<AwaitPubrec<B, T>>,
    rest: Seq<AwaitPubrec<B, T>>,
    now: Instant,
)
    ensures
        ({
            let r = resend_pubrec_pass::<B, T, W>(s, rest, now);
            !r.partial ==> r.sent == s.sent + overdue_pubrec_publishes::<B, T>(rest, now)
                && r.done == s.done + stamp_overdue_pubrecs::<B, T>(rest, now)
        }),
    decreases rest.len(),
{
    if rest.len() == 0 {
        assert(s.sent + Seq::<SentPacket>::empty() =~= s.sent);
        assert(s.done + stamp_overdue_pubrecs::<B, T>(rest, now) =~= s.done);
    } else {
        let e = rest[0];
        let tail = rest.drop_first();
        let st = if overdue(e.publish_sent, now) { AwaitPubrec { publish_sent: now, ..e } } else { e };
        assert(stamp_overdue_pubrecs::<B, T>(rest, now) =~= seq![st] + stamp_overdue_pubrecs::<B, T>(tail, now));
        if spec_elapsed(now, e.publish_sent) <= RESEND_DURATION {
            let s2 = ResendPass { done: s.done.push(e), ..s };
            lemma_resend_pubrec_pass_resends_overdue::<B, T, W>(s2, tail, now);
            assert(overdue_pubrec_publishes::<B, T>(rest, now) =~= overdue_pubrec_publishes::<B, T>(tail, now));
            assert(s.done.push(e) + stamp_overdue_pubrecs::<B, T>(tail, now) =~= s.done + (seq![st] + stamp_overdue_pubrecs::<B, T>(tail, now)));
        } else {
            let len = sent_bytes(e.publish.model()).len();
            if len <= PacketWriter::<W>::room_at(s.pos) {
                let s2 = ResendPass {
                    done: s.done.push(AwaitPubrec { publish_sent: now, ..e }),
                    sent: s.sent.push(e.publish.model()),
                    pos: PacketWriter::<W>::positions_after(s.pos, len),
                    ..s
                };
                lemma_resend_pubrec_pass_resends_overdue::<B, T, W>(s2, tail, now);
                assert(s.sent.push(e.publish.model()) + overdue_pubrec_publishes::<B, T>(tail, now)
                    =~= s.sent + overdue_pubrec_publishes::<B, T>(rest, now));
                assert(s2.done + stamp_overdue_pubrecs::<B, T>(tail, now) =~= s.done + (seq![st] + stamp_overdue_pubrecs::<B, T>(tail, now)));
            }
        }
    }
}

/// The resend pass over PUBRELs waiting for their PUBCOMP: every PUBREL sent
/// more than `RESEND_DURATION` ago is sent again and stamped `now`.
pub open spec fn resend_pubrel_pass<const W: usize>(s: ResendPass<AwaitPubcomp>, rest: Seq<AwaitPubcomp>, now: Instant) -> ResendPass<AwaitPubcomp>
    decreases rest.len(),
{
    if rest.len() == 0 {
        s
    } else {
        let e = rest[0];
        if spec_elapsed(now, e.pubrel_sent) <= RESEND_DURATION {
            resend_pubrel_pass::<W>(ResendPass { done: s.done.push(e), ..s }, rest.drop_first(), now)
        } else {
            let len = sent_bytes(SentPacket::Pubrel(e.pid@)).len();
            if len > PacketWriter::<W>::room_at(s.pos) {
                ResendPass { done: s.done + rest, pos: PacketWriter::<W>::flip_positions(s.pos), partial: true, ..s }
            } else {
                resend_pubrel_pass::<W>(
                    ResendPass {
                        done: s.done.push(AwaitPubcomp { pubrel_sent: now, ..e }),
                        sent: s.sent.push(SentPacket::Pubrel(e.pid@)),
                        pos: PacketWriter::<W>::positions_after(s.pos, len),
                        ..s
                    },
                    rest.drop_first(),
                    now,
                )
            }
        }
    }
}

/// The PUBRELs of the overdue entries of `rest`, in order.
pub open spec fn overdue_pubrel_packets(rest: Seq<AwaitPubcomp>, now: Instant) -> Seq<SentPacket>
    decreases rest.len(),
{
    if rest.len() == 0 {
        Seq::empty()
    } else {
        (if overdue(rest[0].pubrel_sent, now) { seq![SentPacket::Pubrel(rest[0].pid@)] } else { Seq::empty() })
            + overdue_pubrel_packets(rest.drop_first(), now)
    }
}

/// `rest` with every overdue entry stamped `now`.
pub open spec fn stamp_overdue_pubrels(rest: Seq<AwaitPubcomp>, now: Instant) -> Seq<AwaitPubcomp> {
    Seq::new(rest.len(), |i: int| if overdue(rest[i].pubrel_sent, now) { AwaitPubcomp { pubrel_sent: now, ..rest[i] } } else { rest[i] })
}

/// An overdue PUBREL is sent again: a pass that did not stop on a full send
/// buffer has sent the PUBRELs of every overdue entry, in order and nothing
/// else, and stamped those entries `now`, the others unchanged.
pub proof fn lemma_resend_pubrel_pass_resends_overdue<const W: usize>(
    s: ResendPass<AwaitPubcomp>,
    rest: Seq<AwaitPubcomp>,
    now: Instant,
)
    ensures
        ({
            let r = resend_pubrel_pass::<W>(s, rest, now);
            !r.partial ==> r.sent == s.sent + overdue_pubrel_packets(rest, now)
                && r.done == s.done + stamp_overdue_pubrels(rest, now)
        }),
    decreases rest.len(),
{
    if rest.len() == 0 {
        assert(s.sent + Seq::<SentPacket>::empty() =~= s.sent);
        assert(s.done + stamp_overdue_pubrels(rest, now) =~= s.done);
    } else {
        let e = rest[0];
        let tail = rest.drop_first();
        let st = if overdue(e.pubrel_sent, now) { AwaitPubcomp { pubrel_sent: now, ..e } } else { e };
        assert(stamp_overdue_pubrels(rest, now) =~= seq![st] + stamp_overdue_pubrels(tail, now));
        if spec_elapsed(now, e.pubrel_sent) <= RESEND_DURATION {
            let s2 = ResendPass { done: s.done.push(e), ..s };
            lemma_resend_pubrel_pass_resends_overdue::<W>(s2, tail, now);
            assert(overdue_pubrel_packets(rest, now) =~= overdue_pubrel_packets(tail, now));
            assert(s.done.push(e) + stamp_overdue_pubrels(tail, now) =~= s.done + (seq![st] + stamp_overdue_pubrels(tail, now)));
        } else {
            let len = sent_bytes(SentPacket::Pubrel(e.pid@)).len();
            if len <= PacketWriter::<W>::room_at(s.pos) {
                let s2 = ResendPass {
                    done: s.done.push(AwaitPubcomp { pubrel_sent: now, ..e }),
                    sent: s.sent.push(SentPacket::Pubrel(e.pid@)),
                    pos: PacketWriter::<W>::positions_after(s.pos, len),
                    ..s
                };
                lemma_resend_pubrel_pass_resends_overdue::<W>(s2, tail, now);
                assert(s.sent.push(SentPacket::Pubrel(e.pid@)) + overdue_pubrel_packets(tail, now)
                    =~= s.sent + overdue_pubrel_packets(rest, now));
                assert(s2.done + stamp_overdue_pubrels(tail, now) =~= s.done + (seq![st] + stamp_overdue_pubrels(tail, now)));
            }
        }
    }
}

/// The queues of the outgoing publishes together with the events raised and
/// the packets written to the send buffer.
pub struct Outbox<const B: usize, const T: usize> {
    pub sends: Seq<OwnedPublish<B, T>>,
    pub pubacks: Seq<AwaitPuback<B, T>>,
    pub pubrecs: Seq<AwaitPubrec<B, T>>,
    pub pubrels: Seq<SendPubrel>,
    pub pubcomps: Seq<AwaitPubcomp>,
    pub events: Seq<MqttEvent>,
    pub sent: Seq<SentPacket>,
    pub pos: (nat, nat),
}

/// The pass over the queued PUBRELs of `o`.
pub open spec fn pubrel_stage<const P: usize, const B: usize, const T: usize, const W: usize>(o: Outbox<B, T>, now: Instant) -> PubrelPass {
    pubrel_pass::<P, W>(
        PubrelPass { kept: Seq::empty(), pubcomps: o.pubcomps, sent: o.sent, pos: o.pos, partial: false, panics: false },
        o.pubrels,
        now,
    )
}

/// What one round of sending does to `o`: the queued PUBRELs, then the
/// queued publishes, then the overdue publishes and the overdue PUBRELs, each
/// step only where the one before did not stop on a full send buffer.
pub open spec fn send_packets_outcome<const P: usize, const B: usize, const T: usize, const W: usize>(
    o: Outbox<B, T>,
    now: Instant,
) -> (Outbox<B, T>, SendResult) {
    let a = pubrel_stage::<P, B, T, W>(o, now);
    let o1 = Outbox { pubrels: a.kept, pubcomps: a.pubcomps, sent: a.sent, pos: a.pos, ..o };
    if a.partial {
        (o1, SendResult::PartiallySent)
    } else {
        let b = publish_pass::<P, B, T, W>(
            PublishPass { kept: Seq::empty(), pubacks: o1.pubacks, pubrecs: o1.pubrecs, events: o1.events, sent: o1.sent, pos: o1.pos, partial: false },
            o1.sends,
            now,
        );
        let o2 = Outbox { sends: b.kept, pubacks: b.pubacks, pubrecs: b.pubrecs, events: b.events, sent: b.sent, pos: b.pos, ..o1 };
        if b.partial {
            (o2, SendResult::PartiallySent)
        } else {
            let c = resend_puback_pass::<B, T, W>(ResendPass { done: Seq::empty(), sent: o2.sent, pos: o2.pos, partial: false }, o2.pubacks, now);
            let o3 = Outbox { pubacks: c.done, sent: c.sent, pos: c.pos, ..o2 };
            if c.partial {
                (o3, SendResult::PartiallySent)
            } else {
                let d = resend_pubrec_pass::<B, T, W>(ResendPass { done: Seq::empty(), sent: o3.sent, pos: o3.pos, partial: false }, o3.pubrecs, now);
                let o4 = Outbox { pubrecs: d.done, sent: d.sent, pos: d.pos, ..o3 };
                if d.partial {
                    (o4, SendResult::PartiallySent)
                } else {
                    let e = resend_pubrel_pass::<W>(ResendPass { done: Seq::empty(), sent: o4.sent, pos: o4.pos, partial: false }, o4.pubcomps, now);
                    let o5 = Outbox { pubcomps: e.done, sent: e.sent, pos: e.pos, ..o4 };
                    (o5, if e.partial { SendResult::PartiallySent } else { SendResult::SentAll })
                }
            }
        }
    }
}

/// An acknowledgement of an outgoing publish arrives. PUBACK and PUBCOMP:
/// the first entry waiting for it is done, its pid goes back to the pool
/// and `PublishDone` is raised; an unknown pid is refused with
/// `UnexpectedAck`. PUBREC: the first publish waiting for it is dropped and a
/// PUBREL queued (without unique id where none waited); `QueueFull` where the
/// PUBREL queue is full, the waiting entry dropped all the same. Any other
/// packet changes nothing.
pub open spec fn incoming_ack_outcome<const P: usize, const B: usize, const T: usize>(o: Outbox<B, T>, pids: PidPoolView, p: InPacket)
    -> (Outbox<B, T>, PidPoolView, Result<(), MqttError>)
{
    match p {
        InPacket::Puback(pid) => {
            let i = first_index(o.pubacks, puback_for(pid));
            if i >= 0 {
                (Outbox { pubacks: o.pubacks.remove(i), events: o.events.push(MqttEvent::PublishDone(o.pubacks[i].publish.unique_id)), ..o },
                    pool_free(pids, pid@), Ok(()))
            } else {
                (o, pids, Err(MqttError::UnexpectedAck(pid)))
            }
        },
        InPacket::Pubrec(pid) => {
            let i = first_index(o.pubrecs, pubrec_for(pid));
            let uid = if i >= 0 { Some(o.pubrecs[i].publish.unique_id) } else { None::<UniqueID> };
            let pubrecs = if i >= 0 { o.pubrecs.remove(i) } else { o.pubrecs };
            if o.pubrels.len() < P {
                (Outbox { pubrecs, pubrels: o.pubrels.push(SendPubrel { pid, unique_id: uid }), ..o }, pids, Ok(()))
            } else {
                (Outbox { pubrecs, ..o }, pids, Err(MqttError::QueueFull(QosPid::ExactlyOnce(pid))))
            }
        },
        InPacket::Pubcomp(pid) => {
            let i = first_index(o.pubcomps, pubcomp_for(pid));
            if i >= 0 {
                (Outbox { pubcomps: o.pubcomps.remove(i), events: o.events.push(MqttEvent::PublishDone(o.pubcomps[i].unique_id)), ..o },
                    pool_free(pids, pid@), Ok(()))
            } else {
                (o, pids, Err(MqttError::UnexpectedAck(pid)))
            }
        },
        _ => (o, pids, Ok(())),
    }
}

/// A PUBACK answers the QoS 1 publish it is for: where one waits for `pid`,
/// the first such is removed, the others kept in order, `PublishDone` is
/// raised with its unique id and `pid` goes back to the pool; where none
/// waits, `UnexpectedAck(pid)` and nothing changes.
pub proof fn lemma_puback_answers_its_publish<const P: usize, const B: usize, const T: usize>(o: Outbox<B, T>, pids: PidPoolView, pid: Pid)
    ensures
        ({
            let (o1, v1, r) = incoming_ack_outcome::<P, B, T>(o, pids, InPacket::Puback(pid));
            &&& (exists|k: int| 0 <= k < o.pubacks.len() && #[trigger] o.pubacks[k].pid == pid) ==> exists|k: int| {
                &&& 0 <= k < o.pubacks.len() && o.pubacks[k].pid == pid
                &&& (forall|j: int| 0 <= j < k ==> #[trigger] o.pubacks[j].pid != pid)
                &&& o1 == Outbox { pubacks: o.pubacks.remove(k), events: o.events.push(MqttEvent::PublishDone(o.pubacks[k].publish.unique_id)), ..o }
                &&& v1 == pool_free(pids, pid@)
                &&& r == Ok::<(), MqttError>(())
            }
            &&& !(exists|k: int| 0 <= k < o.pubacks.len() && #[trigger] o.pubacks[k].pid == pid) ==>
                o1 == o && v1 == pids && r == Err::<(), MqttError>(MqttError::UnexpectedAck(pid))
        }),
{
    let f = puback_for::<B, T>(pid);
    lemma_first_index_cases(o.pubacks, f);
    if exists|k: int| 0 <= k < o.pubacks.len() && #[trigger] o.pubacks[k].pid == pid {
        let k = choose|k: int| 0 <= k < o.pubacks.len() && #[trigger] o.pubacks[k].pid == pid;
        assert(f(o.pubacks[k]));
        let i = first_index(o.pubacks, f);
        assert forall|j: int| 0 <= j < i implies #[trigger] o.pubacks[j].pid != pid by {
            assert(!f(o.pubacks[j]));
        }
    } else {
        assert(!(exists|k: int| 0 <= k < o.pubacks.len() && #[trigger] f(o.pubacks[k])));
    }
}

/// A PUBCOMP answers the QoS 2 publish whose PUBREL waits for it: where one
/// waits for `pid`, the first such is removed, the others kept in order,
/// `PublishDone` is raised with its unique id and `pid` goes back to the
/// pool; where none waits, `UnexpectedAck(pid)` and nothing changes.
pub proof fn lemma_pubcomp_answers_its_publish<const P: usize, const B: usize, const T: usize>(o: Outbox<B, T>, pids: PidPoolView, pid: Pid)
    ensures
        ({
            let (o1, v1, r) = incoming_ack_outcome::<P, B, T>(o, pids, InPacket::Pubcomp(pid));
            &&& (exists|k: int| 0 <= k < o.pubcomps.len() && #[trigger] o.pubcomps[k].pid == pid) ==> exists|k: int| {
                &&& 0 <= k < o.pubcomps.len() && o.pubcomps[k].pid == pid
                &&& (forall|j: int| 0 <= j < k ==> #[trigger] o.pubcomps[j].pid != pid)
                &&& o1 == Outbox { pubcomps: o.pubcomps.remove(k), events: o.events.push(MqttEvent::PublishDone(o.pubcomps[k].unique_id)), ..o }
                &&& v1 == pool_free(pids, pid@)
                &&& r == Ok::<(), MqttError>(())
            }
            &&& !(exists|k: int| 0 <= k < o.pubcomps.len() && #[trigger] o.pubcomps[k].pid == pid) ==>
                o1 == o && v1 == pids && r == Err::<(), MqttError>(MqttError::UnexpectedAck(pid))
        }),
{
    let f = pubcomp_for(pid);
    lemma_first_index_cases(o.pubcomps, f);
    if exists|k: int| 0 <= k < o.pubcomps.len() && #[trigger] o.pubcomps[k].pid == pid {
        let k = choose|k: int| 0 <= k < o.pubcomps.len() && #[trigger] o.pubcomps[k].pid == pid;
        assert(f(o.pubcomps[k]));
        let i = first_index(o.pubcomps, f);
        assert forall|j: int| 0 <= j < i implies #[trigger] o.pubcomps[j].pid != pid by {
            assert(!f(o.pubcomps[j]));
        }
    } else {
        assert(!(exists|k: int| 0 <= k < o.pubcomps.len() && #[trigger] f(o.pubcomps[k])));
    }
}

/// A PUBREC is answered with a PUBREL for the same `pid`: the first QoS 2
/// publish waiting for it is removed (the others kept in order) and the
/// PUBREL is queued with its unique id, or with none where no publish
/// waits; where the PUBREL queue is full, `QueueFull` and no PUBREL. No
/// event is raised, no pid freed, and the other queues are untouched.
pub proof fn lemma_pubrec_answered_with_pubrel<const P: usize, const B: usize, const T: usize>(o: Outbox<B, T>, pids: PidPoolView, pid: Pid)
    ensures
        ({
            let (o1, v1, r) = incoming_ack_outcome::<P, B, T>(o, pids, InPacket::Pubrec(pid));
            &&& v1 == pids
            &&& o1.sends == o.sends && o1.pubacks == o.pubacks && o1.pubcomps == o.pubcomps
            &&& o1.events == o.events && o1.sent == o.sent && o1.pos == o.pos
            &&& (exists|k: int| 0 <= k < o.pubrecs.len() && #[trigger] o.pubrecs[k].pid == pid) ==> exists|k: int| {
                &&& 0 <= k < o.pubrecs.len() && o.pubrecs[k].pid == pid
                &&& (forall|j: int| 0 <= j < k ==> #[trigger] o.pubrecs[j].pid != pid)
                &&& o1.pubrecs == o.pubrecs.remove(k)
                &&& o.pubrels.len() < P ==> o1.pubrels == o.pubrels.push(SendPubrel { pid, unique_id: Some(o.pubrecs[k].publish.unique_id) })
                    && r == Ok::<(), MqttError>(())
            }
            &&& !(exists|k: int| 0 <= k < o.pubrecs.len() && #[trigger] o.pubrecs[k].pid == pid) ==> o1.pubrecs == o.pubrecs
                && (o.pubrels.len() < P ==> o1.pubrels == o.pubrels.push(SendPubrel { pid, unique_id: None }) && r == Ok::<(), MqttError>(()))
            &&& o.pubrels.len() >= P ==> o1.pubrels == o.pubrels && r == Err::<(), MqttError>(MqttError::QueueFull(QosPid::ExactlyOnce(pid)))
        }),
{
    let f = pubrec_for::<B, T>(pid);
    lemma_first_index_cases(o.pubrecs, f);
    if exists|k: int| 0 <= k < o.pubrecs.len() && #[trigger] o.pubrecs[k].pid == pid {
        let k = choose|k: int| 0 <= k < o.pubrecs.len() && #[trigger] o.pubrecs[k].pid == pid;
        assert(f(o.pubrecs[k]));
        let i = first_index(o.pubrecs, f);
        assert forall|j: int| 0 <= j < i implies #[trigger] o.pubrecs[j].pid != pid by {
            assert(!f(o.pubrecs[j]));
        }
    } else {
        assert(!(exists|k: int| 0 <= k < o.pubrecs.len() && #[trigger] f(o.pubrecs[k])));
    }
}

/// An acknowledgement answers its publish once: where at most one QoS 1
/// publish waits for a packet identifier, a second PUBACK for it is refused
/// with `UnexpectedAck` and raises no event; the same holds of PUBCOMPs and
/// the PUBRELs waiting for them.
pub proof fn lemma_ack_answers_once<const P: usize, const B: usize, const T: usize>(
    o: Outbox<B, T>,
    pids: PidPoolView,
    ack: InPacket,
)
    requires
        ack matches InPacket::Puback(pid) ==> forall|i: int, j: int| 0 <= i < o.pubacks.len() && 0 <= j < o.pubacks.len()
            && puback_for::<B, T>(pid)(#[trigger] o.pubacks[i]) && puback_for::<B, T>(pid)(#[trigger] o.pubacks[j]) ==> i == j,
        ack matches InPacket::Pubcomp(pid) ==> forall|i: int, j: int| 0 <= i < o.pubcomps.len() && 0 <= j < o.pubcomps.len()
            && pubcomp_for(pid)(#[trigger] o.pubcomps[i]) && pubcomp_for(pid)(#[trigger] o.pubcomps[j]) ==> i == j,
        ack is Puback || ack is Pubcomp,
    ensures
        ({
            let (o1, v1, _) = incoming_ack_outcome::<P, B, T>(o, pids, ack);
            let (o2, v2, r2) = incoming_ack_outcome::<P, B, T>(o1, v1, ack);
            &&& o2 == o1
            &&& v2 == v1
            &&& r2 == Err::<(), MqttError>(MqttError::UnexpectedAck(match ack {
                InPacket::Puback(pid) => pid,
                InPacket::Pubcomp(pid) => pid,
                _ => arbitrary(),
            }))
        }),
{
    match ack {
        InPacket::Puback(pid) => {
            if first_index(o.pubacks, puback_for::<B, T>(pid)) >= 0 {
                lemma_remove_only(o.pubacks, puback_for::<B, T>(pid));
            }
        },
        InPacket::Pubcomp(pid) => {
            if first_index(o.pubcomps, pubcomp_for(pid)) >= 0 {
                lemma_remove_only(o.pubcomps, pubcomp_for(pid));
            }
        },
        _ => {},
    }
}

/// The queues of outgoing publishes, each holding at most `PARALLEL_PUBLISHES` entries.
pub struct PublishesInner<const PARALLEL_PUBLISHES: usize, const BUFFER: usize, const TOPIC_SIZE: usize> {
    send_publish: Vec<OwnedPublish<BUFFER, TOPIC_SIZE>>,
    // QoS 1
    await_puback: Vec<AwaitPuback<BUFFER, TOPIC_SIZE>>,
    // QoS 2: the payload is dropped once the PUBREC arrives
    await_pubrec: Vec<AwaitPubrec<BUFFER, TOPIC_SIZE>>,
    send_pubrel: Vec<SendPubrel>,
    // the state is dropped once the PUBCOMP arrives
    await_pubcomp: Vec<AwaitPubcomp>,
}

impl<const P: usize, const B: usize, const T: usize> PublishesInner<P, B, T> {
    pub closed spec fn send_queue(&self) -> Seq<OwnedPublish<B, T>> {
        self.send_publish@
    }

    pub closed spec fn puback_queue(&self) -> Seq<AwaitPuback<B, T>> {
        self.await_puback@
    }

    pub closed spec fn pubrec_queue(&self) -> Seq<AwaitPubrec<B, T>> {
        self.await_pubrec@
    }

    pub closed spec fn pubrel_queue(&self) -> Seq<SendPubrel> {
        self.send_pubrel@
    }

    pub closed spec fn pubcomp_queue(&self) -> Seq<AwaitPubcomp> {
        self.await_pubcomp@
    }

    /// The queues with the given events, packets written and send buffer positions.
    pub open spec fn outbox(&self, events: Seq<MqttEvent>, sent: Seq<SentPacket>, pos: (nat, nat)) -> Outbox<B, T> {
        Outbox {
            sends: self.send_queue(),
            pubacks: self.puback_queue(),
            pubrecs: self.pubrec_queue(),
            pubrels: self.pubrel_queue(),
            pubcomps: self.pubcomp_queue(),
            events,
            sent,
            pos,
        }
    }

    /// Every queue within bounds; the publishes of bounded size; the waiting
    /// entries keyed by the pid of their publish.
    pub open spec fn wf(&self) -> bool {
        &&& self.send_queue().len() <= P
        &&& self.puback_queue().len() <= P
        &&& self.pubrec_queue().len() <= P
        &&& self.pubrel_queue().len() <= P
        &&& self.pubcomp_queue().len() <= P
        &&& forall|i: int| 0 <= i < self.send_queue().len() ==> (#[trigger] self.send_queue()[i]).wf()
        &&& forall|i: int| 0 <= i < self.puback_queue().len() ==> {
            let e = #[trigger] self.puback_queue()[i];
            e.publish.wf() && e.publish.qospid == QosPid::AtLeastOnce(e.pid)
        }
        &&& forall|i: int| 0 <= i < self.pubrec_queue().len() ==> {
            let e = #[trigger] self.pubrec_queue()[i];
            e.publish.wf() && e.publish.qospid == QosPid::ExactlyOnce(e.pid)
        }
    }

    pub fn new() -> (s: Self)
        ensures
            s.wf(),
            s.send_queue() == Seq::<OwnedPublish<B, T>>::empty(),
            s.puback_queue() == Seq::<AwaitPuback<B, T>>::empty(),
            s.pubrec_queue() == Seq::<AwaitPubrec<B, T>>::empty(),
            s.pubrel_queue() == Seq::<SendPubrel>::empty(),
            s.pubcomp_queue() == Seq::<AwaitPubcomp>::empty(),
    {
        let s = PublishesInner {
            send_publish: Vec::new(),
            await_puback: Vec::new(),
            await_pubrec: Vec::new(),
            send_pubrel: Vec::new(),
            await_pubcomp: Vec::new(),
        };
        proof {
            assert(s.send_queue() =~= Seq::<OwnedPublish<B, T>>::empty());
            assert(s.puback_queue() =~= Seq::<AwaitPuback<B, T>>::empty());
            assert(s.pubrec_queue() =~= Seq::<AwaitPubrec<B, T>>::empty());
            assert(s.pubrel_queue() =~= Seq::<SendPubrel>::empty());
            assert(s.pubcomp_queue() =~= Seq::<AwaitPubcomp>::empty());
        }
        s
    }

    fn find_puback(&self, pid: Pid) -> (r: Option<usize>)
        ensures
            r matches Some(i) ==> is_first(self.puback_queue(), puback_for(pid), i as int),
            r is None ==> forall|j: int| 0 <= j < self.puback_queue().len() ==> !(#[trigger] puback_for(pid)(self.puback_queue()[j])),
    {
        let mut i: usize = 0;
        while i < self.await_puback.len()
            invariant
                i <= self.await_puback@.len(),
                forall|j: int| 0 <= j < i ==> !(#[trigger] puback_for(pid)(self.puback_queue()[j])),
            decreases self.await_puback@.len() - i,
        {
            if self.await_puback[i].pid == pid {
                return Some(i);
            }
            i = i + 1;
        }
        None
    }

    fn find_pubrec(&self, pid: Pid) -> (r: Option<usize>)
        ensures
            r matches Some(i) ==> is_first(self.pubrec_queue(), pubrec_for(pid), i as int),
            r is None ==> forall|j: int| 0 <= j < self.pubrec_queue().len() ==> !(#[trigger] pubrec_for(pid)(self.pubrec_queue()[j])),
    {
        let mut i: usize = 0;
        while i < self.await_pubrec.len()
            invariant
                i <= self.await_pubrec@.len(),
                forall|j: int| 0 <= j < i ==> !(#[trigger] pubrec_for(pid)(self.pubrec_queue()[j])),
            decreases self.await_pubrec@.len() - i,
        {
            if self.await_pubrec[i].pid == pid {
                return Some(i);
            }
            i = i + 1;
        }
        None
    }

    fn find_pubcomp(&self, pid: Pid) -> (r: Option<usize>)
        ensures
            r matches Some(i) ==> is_first(self.pubcomp_queue(), pubcomp_for(pid), i as int),
            r is None ==> forall|j: int| 0 <= j < self.pubcomp_queue().len() ==> !(#[trigger] pubcomp_for(pid)(self.pubcomp_queue()[j])),
    {
        let mut i: usize = 0;
        while i < self.await_pubcomp.len()
            invariant
                i <= self.await_pubcomp@.len(),
                forall|j: int| 0 <= j < i ==> !(#[trigger] pubcomp_for(pid)(self.pubcomp_queue()[j])),
            decreases self.await_pubcomp@.len() - i,
        {
            if self.await_pubcomp[i].pid == pid {
                return Some(i);
            }
            i = i + 1;
        }
        None
    }

    /// A PUBACK arrived: the first QoS 1 publish waiting for `pid` is done,
    /// its pid goes back to the pool and a `PublishDone` event is raised.
    /// An unknown pid is refused with `UnexpectedAck`.
    pub fn process_puback(&mut self, pid: Pid, pids: &mut PidPool, events: &mut Vec<MqttEvent>) -> (r: Result<(), MqttError>)
        requires
            old(self).wf(),
            old(pids).wf(),
        ensures
            final(self).wf(),
            final(pids).wf(),
            final(self).send_queue() == old(self).send_queue(),
            final(self).pubrec_queue() == old(self).pubrec_queue(),
            final(self).pubrel_queue() == old(self).pubrel_queue(),
            final(self).pubcomp_queue() == old(self).pubcomp_queue(),
            ({
                let i = first_index(old(self).puback_queue(), puback_for(pid));
                &&& i >= 0 ==> r == Ok::<(), MqttError>(())
                    && final(self).puback_queue() == old(self).puback_queue().remove(i)
                    && final(pids).view() == pool_free(old(pids).view(), pid@)
                    && final(events)@ == old(events)@.push(MqttEvent::PublishDone(old(self).puback_queue()[i].publish.unique_id))
                &&& i < 0 ==> r == Err::<(), MqttError>(MqttError::UnexpectedAck(pid))
                    && final(self).puback_queue() == old(self).puback_queue()
                    && final(pids).view() == old(pids).view()
                    && final(events)@ == old(events)@
            }),
    {
        match self.find_puback(pid) {
            Some(index) => {
                proof { lemma_first_index(self.puback_queue(), puback_for(pid), index as int); }
                let publish = self.await_puback.remove(index);
                pids.free_pid(publish.pid);
                events.push(MqttEvent::PublishDone(publish.publish.unique_id));
                Ok(())
            },
            None => {
                proof { lemma_no_index(self.puback_queue(), puback_for(pid)); }
                Err(MqttError::UnexpectedAck(pid))
            },
        }
    }

    /// A PUBREC arrived: the first QoS 2 publish waiting for it drops its
    /// payload and a PUBREL is queued. A PUBREC for an unknown pid (a
    /// duplicate) still queues a PUBREL, without a unique id. Where the PUBREL
    /// queue is full the result is `QueueFull`.
    pub fn process_pubrec(&mut self, pid: Pid) -> (r: Result<(), MqttError>)
        requires
            old(self).wf(),
        ensures
            final(self).wf(),
            final(self).send_queue() == old(self).send_queue(),
            final(self).puback_queue() == old(self).puback_queue(),
            final(self).pubcomp_queue() == old(self).pubcomp_queue(),
            ({
                let i = first_index(old(self).pubrec_queue(), pubrec_for(pid));
                let uid = if i >= 0 { Some(old(self).pubrec_queue()[i].publish.unique_id) } else { None::<UniqueID> };
                &&& i >= 0 ==> final(self).pubrec_queue() == old(self).pubrec_queue().remove(i)
                &&& i < 0 ==> final(self).pubrec_queue() == old(self).pubrec_queue()
                &&& old(self).pubrel_queue().len() < P ==> r == Ok::<(), MqttError>(())
                    && final(self).pubrel_queue() == old(self).pubrel_queue().push(SendPubrel { pid, unique_id: uid })
                &&& old(self).pubrel_queue().len() >= P ==> r == Err::<(), MqttError>(MqttError::QueueFull(QosPid::ExactlyOnce(pid)))
                    && final(self).pubrel_queue() == old(self).pubrel_queue()
            }),
    {
        let send_pubrel = match self.find_pubrec(pid) {
            Some(index) => {
                proof { lemma_first_index(self.pubrec_queue(), pubrec_for(pid), index as int); }
                let await_pubrec = self.await_pubrec.remove(index);
                SendPubrel { pid: await_pubrec.pid, unique_id: Some(await_pubrec.publish.unique_id) }
            },
            None => {
                proof { lemma_no_index(self.pubrec_queue(), pubrec_for(pid)); }
                SendPubrel { pid, unique_id: None }
            },
        };
        if self.send_pubrel.len() < P {
            self.send_pubrel.push(send_pubrel);
            Ok(())
        } else {
            Err(MqttError::QueueFull(QosPid::ExactlyOnce(send_pubrel.pid)))
        }
    }

    /// A PUBCOMP arrived: the first PUBREL waiting for `pid` is done, its pid
    /// goes back to the pool and a `PublishDone` event is raised. An unknown
    /// pid is refused with `UnexpectedAck`.
    pub fn process_pubcomp(&mut self, pid: Pid, pids: &mut PidPool, events: &mut Vec<MqttEvent>) -> (r: Result<(), MqttError>)
        requires
            old(self).wf(),
            old(pids).wf(),
        ensures
            final(self).wf(),
            final(pids).wf(),
            final(self).send_queue() == old(self).send_queue(),
            final(self).puback_queue() == old(self).puback_queue(),
            final(self).pubrec_queue() == old(self).pubrec_queue(),
            final(self).pubrel_queue() == old(self).pubrel_queue(),
            ({
                let i = first_index(old(self).pubcomp_queue(), pubcomp_for(pid));
                &&& i >= 0 ==> r == Ok::<(), MqttError>(())
                    && final(self).pubcomp_queue() == old(self).pubcomp_queue().remove(i)
                    && final(pids).view() == pool_free(old(pids).view(), pid@)
                    && final(events)@ == old(events)@.push(MqttEvent::PublishDone(old(self).pubcomp_queue()[i].unique_id))
                &&& i < 0 ==> r == Err::<(), MqttError>(MqttError::UnexpectedAck(pid))
                    && final(self).pubcomp_queue() == old(self).pubcomp_queue()
                    && final(pids).view() == old(pids).view()
                    && final(events)@ == old(events)@
            }),
    {
        match self.find_pubcomp(pid) {
            Some(index) => {
                proof { lemma_first_index(self.pubcomp_queue(), pubcomp_for(pid), index as int); }
                let publish = self.await_pubcomp.remove(index);
                pids.free_pid(publish.pid);
                events.push(MqttEvent::PublishDone(publish.unique_id));
                Ok(())
            },
            None => {
                proof { lemma_no_index(self.pubcomp_queue(), pubcomp_for(pid)); }
                Err(MqttError::UnexpectedAck(pid))
            },
        }
    }

    /// Adds a publish to the send queue. `Ok(false)` where the queue is full
    /// (the caller waits and tries again); the size errors of
    /// `OwnedPublish::new_from_publish` where the publish does not fit.
    pub fn try_publish(&mut self, publish: &Publish, unique_id: UniqueID) -> (r: Result<bool, MqttError>)
        requires
            old(self).wf(),
        ensures
            final(self).wf(),
            final(self).puback_queue() == old(self).puback_queue(),
            final(self).pubrec_queue() == old(self).pubrec_queue(),
            final(self).pubrel_queue() == old(self).pubrel_queue(),
            final(self).pubcomp_queue() == old(self).pubcomp_queue(),
            old(self).send_queue().len() >= P ==> r == Ok::<bool, MqttError>(false) && final(self).send_queue() == old(self).send_queue(),
            old(self).send_queue().len() < P && encode_utf8(publish.topic_name@).len() > T
                ==> r == Err::<bool, MqttError>(MqttError::TopicSizeError) && final(self).send_queue() == old(self).send_queue(),
            old(self).send_queue().len() < P && encode_utf8(publish.topic_name@).len() <= T && publish.payload@.len() > B
                ==> r == Err::<bool, MqttError>(MqttError::BufferTooSmall) && final(self).send_queue() == old(self).send_queue(),
            old(self).send_queue().len() < P && encode_utf8(publish.topic_name@).len() <= T && publish.payload@.len() <= B
                ==> r == Ok::<bool, MqttError>(true) && final(self).send_queue().len() == old(self).send_queue().len() + 1
                && final(self).send_queue().drop_last() == old(self).send_queue()
                && ({
                    let o = final(self).send_queue().last();
                    &&& o.dup == publish.dup
                    &&& o.qospid == publish.qospid
                    &&& o.retain == publish.retain
                    &&& o.topic_name@ == publish.topic_name@
                    &&& o.payload@ == publish.payload@
                    &&& o.unique_id == unique_id
                }),
    {
        if self.send_publish.len() >= P {
            Ok(false)
        } else {
            let owned = OwnedPublish::new_from_publish(publish, unique_id)?;
            self.send_publish.push(owned);
            proof {
                assert(self.send_queue().drop_last() =~= old(self).send_queue());
            }
            Ok(true)
        }
    }

    /// Sends the publishes of the send queue, front first, as far as the
    /// send buffer takes them; see `publish_pass`.
    pub fn send_pending_publishes<const W: usize>(&mut self, w: &mut PacketWriter<W>, now: Instant, events: &mut Vec<MqttEvent>)
        -> (r: Result<SendResult, MqttError>)
        requires
            old(self).wf(),
            old(w).wf(),
            T <= 65535,
            B <= 200_000_000,
        ensures
            final(self).wf(),
            final(w).wf(),
            final(self).pubrel_queue() == old(self).pubrel_queue(),
            final(self).pubcomp_queue() == old(self).pubcomp_queue(),
            ({
                let res = publish_pass::<P, B, T, W>(
                    PublishPass {
                        kept: Seq::empty(),
                        pubacks: old(self).puback_queue(),
                        pubrecs: old(self).pubrec_queue(),
                        events: old(events)@,
                        sent: old(w).log(),
                        pos: old(w).positions(),
                        partial: false,
                    },
                    old(self).send_queue(),
                    now,
                );
                &&& final(self).send_queue() == res.kept
                &&& final(self).puback_queue() == res.pubacks
                &&& final(self).pubrec_queue() == res.pubrecs
                &&& final(events)@ == res.events
                &&& final(w).log() == res.sent
                &&& final(w).positions() == res.pos
                &&& final(w).pending() == old(w).pending() + bytes_of(res.sent.skip(old(w).log().len() as int))
                &&& PacketWriter::<W>::appended(*old(w), *final(w))
                &&& r == Ok::<SendResult, MqttError>(if res.partial { SendResult::PartiallySent } else { SendResult::SentAll })
            }),
    {
        let ghost init = PublishPass::<B, T> {
            kept: Seq::empty(),
            pubacks: old(self).puback_queue(),
            pubrecs: old(self).pubrec_queue(),
            events: old(events)@,
            sent: old(w).log(),
            pos: old(w).positions(),
            partial: false,
        };
        let ghost goal = publish_pass::<P, B, T, W>(init, old(self).send_queue(), now);
        let ghost log0 = old(w).log();
        let ghost pending0 = old(w).pending();
        let mut i: usize = 0;
        let mut partial = false;
        proof {
            assert(self.send_publish@.take(0) =~= Seq::<OwnedPublish<B, T>>::empty());
            assert(self.send_publish@.skip(0) =~= self.send_publish@);
            assert(w.log().skip(log0.len() as int) =~= Seq::<SentPacket>::empty());
            assert(pending0 + Seq::<u8>::empty() =~= pending0);
        }
        while !partial && i < self.send_publish.len()
            invariant
                self.wf(),
                w.wf(),
                T <= 65535,
                B <= 200_000_000,
                i <= self.send_publish@.len(),
                self.send_pubrel@ == old(self).send_pubrel@,
                self.await_pubcomp@ == old(self).await_pubcomp@,
                log0.len() <= w.log().len(),
                w.log().take(log0.len() as int) == log0,
                w.pending() == pending0 + bytes_of(w.log().skip(log0.len() as int)),
                !partial ==> publish_pass::<P, B, T, W>(
                    PublishPass {
                        kept: self.send_publish@.take(i as int),
                        pubacks: self.await_puback@,
                        pubrecs: self.await_pubrec@,
                        events: events@,
                        sent: w.log(),
                        pos: w.positions(),
                        partial: false,
                    },
                    self.send_publish@.skip(i as int),
                    now,
                ) == goal,
                partial ==> goal == (PublishPass {
                        kept: self.send_publish@,
                        pubacks: self.await_puback@,
                        pubrecs: self.await_pubrec@,
                        events: events@,
                        sent: w.log(),
                        pos: w.positions(),
                        partial: true,
                    }),
            decreases self.send_publish@.len() - i, (if partial { 0int } else { 1int }),
        {
            let ghost cur = PublishPass::<B, T> {
                kept: self.send_publish@.take(i as int),
                pubacks: self.await_puback@,
                pubrecs: self.await_pubrec@,
                events: events@,
                sent: w.log(),
                pos: w.positions(),
                partial: false,
            };
            let ghost rest = self.send_publish@.skip(i as int);
            assert(rest[0] == self.send_publish@[i as int]);
            let has_space = match self.send_publish[i].qospid {
                QosPid::AtMostOnce => true,
                QosPid::AtLeastOnce(_) => self.await_puback.len() < P,
                QosPid::ExactlyOnce(_) => self.await_pubrec.len() < P,
            };
            if has_space {
                let sent = {
                    let packet = self.send_publish[i].borrow();
                    w.try_write_packet(&packet)?
                };
                if !sent {
                    partial = true;
                    proof {
                        assert(cur.kept + rest =~= self.send_publish@);
                    }
                } else {
                    let ghost w_log = w.log();
                    proof {
                        assert(w_log =~= cur.sent.push(w_log.last()));
                        lemma_bytes_of_push(cur.sent.skip(log0.len() as int), w_log.last());
                        assert(w_log.skip(log0.len() as int) =~= cur.sent.skip(log0.len() as int).push(w_log.last()));
                    }
                    let mut current = self.send_publish.remove(i);
                    current.dup = true;
                    match current.qospid {
                        QosPid::AtMostOnce => {
                            events.push(MqttEvent::PublishDone(current.unique_id));
                        },
                        QosPid::AtLeastOnce(pid) => {
                            self.await_puback.push(AwaitPuback { pid, publish: current, publish_sent: now });
                        },
                        QosPid::ExactlyOnce(pid) => {
                            self.await_pubrec.push(AwaitPubrec { pid, publish: current, publish_sent: now });
                        },
                    }
                    proof {
                        assert(self.send_publish@.take(i as int) =~= cur.kept);
                        assert(self.send_publish@.skip(i as int) =~= rest.drop_first());
                        assert(w.log().take(log0.len() as int) =~= log0);
                    }
                }
            } else {
                i = i + 1;
                proof {
                    assert(self.send_publish@.take(i as int) =~= cur.kept.push(rest[0]));
                    assert(self.send_publish@.skip(i as int) =~= rest.drop_first());
                }
            }
        }
        if partial {
            return Ok(SendResult::PartiallySent);
        }
        proof {
            assert(self.send_publish@.take(i as int) =~= self.send_publish@);
            assert(self.send_publish@.skip(i as int) =~= Seq::<OwnedPublish<B, T>>::empty());
        }
        Ok(SendResult::SentAll)
    }

    /// Sends the queued PUBRELs, front first, as far as the send buffer and
    /// the PUBCOMP queue take them; see `pubrel_pass`.
    pub fn send_pending_pubrel<const W: usize>(&mut self, w: &mut PacketWriter<W>, now: Instant) -> (r: Result<SendResult, MqttError>)
        requires
            old(self).wf(),
            old(w).wf(),
            !pubrel_pass::<P, W>(
                PubrelPass { kept: Seq::empty(), pubcomps: old(self).pubcomp_queue(), sent: old(w).log(), pos: old(w).positions(), partial: false, panics: false },
                old(self).pubrel_queue(),
                now,
            ).panics,
        ensures
            final(self).wf(),
            final(w).wf(),
            final(self).send_queue() == old(self).send_queue(),
            final(self).puback_queue() == old(self).puback_queue(),
            final(self).pubrec_queue() == old(self).pubrec_queue(),
            ({
                let res = pubrel_pass::<P, W>(
                    PubrelPass { kept: Seq::empty(), pubcomps: old(self).pubcomp_queue(), sent: old(w).log(), pos: old(w).positions(), partial: false, panics: false },
                    old(self).pubrel_queue(),
                    now,
                );
                &&& final(self).pubrel_queue() == res.kept
                &&& final(self).pubcomp_queue() == res.pubcomps
                &&& final(w).log() == res.sent
                &&& final(w).positions() == res.pos
                &&& final(w).pending() == old(w).pending() + bytes_of(res.sent.skip(old(w).log().len() as int))
                &&& PacketWriter::<W>::appended(*old(w), *final(w))
                &&& r == Ok::<SendResult, MqttError>(if res.partial { SendResult::PartiallySent } else { SendResult::SentAll })
            }),
    {
        let ghost goal = pubrel_pass::<P, W>(
            PubrelPass { kept: Seq::empty(), pubcomps: old(self).pubcomp_queue(), sent: old(w).log(), pos: old(w).positions(), partial: false, panics: false },
            old(self).pubrel_queue(),
            now,
        );
        let ghost log0 = old(w).log();
        let ghost pending0 = old(w).pending();
        let mut i: usize = 0;
        let mut partial = false;
        proof {
            assert(self.send_pubrel@.take(0) =~= Seq::<SendPubrel>::empty());
            assert(self.send_pubrel@.skip(0) =~= self.send_pubrel@);
            assert(w.log().skip(log0.len() as int) =~= Seq::<SentPacket>::empty());
            assert(pending0 + Seq::<u8>::empty() =~= pending0);
        }
        while !partial && i < self.send_pubrel.len()
            invariant
                self.wf(),
                w.wf(),
                i <= self.send_pubrel@.len(),
                self.send_publish@ == old(self).send_publish@,
                self.await_puback@ == old(self).await_puback@,
                self.await_pubrec@ == old(self).await_pubrec@,
                log0.len() <= w.log().len(),
                w.log().take(log0.len() as int) == log0,
                w.pending() == pending0 + bytes_of(w.log().skip(log0.len() as int)),
                !goal.panics,
                !partial ==> pubrel_pass::<P, W>(
                    PubrelPass {
                        kept: self.send_pubrel@.take(i as int),
                        pubcomps: self.await_pubcomp@,
                        sent: w.log(),
                        pos: w.positions(),
                        partial: false,
                        panics: false,
                    },
                    self.send_pubrel@.skip(i as int),
                    now,
                ) == goal,
                partial ==> goal == (PubrelPass {
                    kept: self.send_pubrel@,
                    pubcomps: self.await_pubcomp@,
                    sent: w.log(),
                    pos: w.positions(),
                    partial: true,
                    panics: false,
                }),
            decreases self.send_pubrel@.len() - i, (if partial { 0int } else { 1int }),
        {
            let ghost cur = PubrelPass {
                kept: self.send_pubrel@.take(i as int),
                pubcomps: self.await_pubcomp@,
                sent: w.log(),
                pos: w.positions(),
                partial: false,
                panics: false,
            };
            let ghost rest = self.send_pubrel@.skip(i as int);
            assert(rest[0] == self.send_pubrel@[i as int]);
            if self.await_pubcomp.len() < P {
                let pid = self.send_pubrel[i].pid;
                let sent = w.try_write_packet(&OutPacket::Pubrel(pid))?;
                if !sent {
                    partial = true;
                    proof {
                        assert(cur.kept + rest =~= self.send_pubrel@);
                    }
                } else {
                    let ghost w_log = w.log();
                    proof {
                        assert(w_log =~= cur.sent.push(w_log.last()));
                        lemma_bytes_of_push(cur.sent.skip(log0.len() as int), w_log.last());
                        assert(w_log.skip(log0.len() as int) =~= cur.sent.skip(log0.len() as int).push(w_log.last()));
                    }
                    let current = self.send_pubrel.remove(i);
                    let unique_id = match current.unique_id {
                        Some(uid) => uid,
                        None => {
                            proof { assert(false); }
                            UniqueID(0)
                        },
                    };
                    self.await_pubcomp.push(AwaitPubcomp { pid: current.pid, pubrel_sent: now, unique_id });
                    proof {
                        assert(self.send_pubrel@.take(i as int) =~= cur.kept);
                        assert(self.send_pubrel@.skip(i as int) =~= rest.drop_first());
                        assert(w.log().take(log0.len() as int) =~= log0);
                    }
                }
            } else {
                i = i + 1;
                proof {
                    assert(self.send_pubrel@.take(i as int) =~= cur.kept.push(rest[0]));
                    assert(self.send_pubrel@.skip(i as int) =~= rest.drop_first());
                }
            }
        }
        if partial {
            return Ok(SendResult::PartiallySent);
        }
        proof {
            assert(self.send_pubrel@.take(i as int) =~= self.send_pubrel@);
            assert(self.send_pubrel@.skip(i as int) =~= Seq::<SendPubrel>::empty());
        }
        Ok(SendResult::SentAll)
    }

    /// Sends again, front first, the QoS 1 publishes whose PUBACK is overdue;
    /// see `resend_puback_pass`.
    fn resend_pubacks<const W: usize>(&mut self, w: &mut PacketWriter<W>, now: Instant) -> (r: Result<SendResult, MqttError>)
        requires
            old(self).wf(),
            old(w).wf(),
            T <= 65535,
            B <= 200_000_000,
        ensures
            final(self).wf(),
            final(w).wf(),
            final(self).send_queue() == old(self).send_queue(),
            final(self).pubrec_queue() == old(self).pubrec_queue(),
            final(self).pubrel_queue() == old(self).pubrel_queue(),
            final(self).pubcomp_queue() == old(self).pubcomp_queue(),
            ({
                let res = resend_puback_pass::<B, T, W>(
                    ResendPass { done: Seq::empty(), sent: old(w).log(), pos: old(w).positions(), partial: false },
                    old(self).puback_queue(),
                    now,
                );
                &&& final(self).puback_queue() == res.done
                &&& final(w).log() == res.sent
                &&& final(w).positions() == res.pos
                &&& final(w).pending() == old(w).pending() + bytes_of(res.sent.skip(old(w).log().len() as int))
                &&& PacketWriter::<W>::appended(*old(w), *final(w))
                &&& r == Ok::<SendResult, MqttError>(if res.partial { SendResult::PartiallySent } else { SendResult::SentAll })
            }),
    {
        let ghost goal = resend_puback_pass::<B, T, W>(
            ResendPass { done: Seq::empty(), sent: old(w).log(), pos: old(w).positions(), partial: false },
            old(self).puback_queue(),
            now,
        );
        let ghost log0 = old(w).log();
        let ghost pending0 = old(w).pending();
        let ghost q0 = old(self).await_puback@;
        let mut i: usize = 0;
        let mut partial = false;
        proof {
            assert(q0.take(0) =~= Seq::<AwaitPuback<B, T>>::empty());
            assert(q0.skip(0) =~= q0);
            assert(w.log().skip(log0.len() as int) =~= Seq::<SentPacket>::empty());
            assert(pending0 + Seq::<u8>::empty() =~= pending0);
        }
        while !partial && i < self.await_puback.len()
            invariant
                self.wf(),
                w.wf(),
                T <= 65535,
                B <= 200_000_000,
                i <= self.await_puback@.len(),
                self.await_puback@.len() == q0.len(),
                self.await_puback@.skip(i as int) == q0.skip(i as int),
                self.send_publish@ == old(self).send_publish@,
                self.await_pubrec@ == old(self).await_pubrec@,
                self.send_pubrel@ == old(self).send_pubrel@,
                self.await_pubcomp@ == old(self).await_pubcomp@,
                log0.len() <= w.log().len(),
                w.log().take(log0.len() as int) == log0,
                w.pending() == pending0 + bytes_of(w.log().skip(log0.len() as int)),
                !partial ==> resend_puback_pass::<B, T, W>(
                    ResendPass { done: self.await_puback@.take(i as int), sent: w.log(), pos: w.positions(), partial: false },
                    q0.skip(i as int),
                    now,
                ) == goal,
                partial ==> goal == (ResendPass { done: self.await_puback@, sent: w.log(), pos: w.positions(), partial: true }),
            decreases self.await_puback@.len() - i, (if partial { 0int } else { 1int }),
        {
            let ghost cur = ResendPass { done: self.await_puback@.take(i as int), sent: w.log(), pos: w.positions(), partial: false };
            let ghost rest = q0.skip(i as int);
            assert(rest[0] == self.await_puback@[i as int]) by {
                assert(self.await_puback@.skip(i as int)[0] == self.await_puback@[i as int]);
            }
            if elapsed(now, self.await_puback[i].publish_sent) > RESEND_DURATION {
                let sent = {
                    let packet = self.await_puback[i].publish.borrow();
                    w.try_write_packet(&packet)?
                };
                if !sent {
                    partial = true;
                    proof {
                        assert(cur.done + rest =~= self.await_puback@);
                    }
                } else {
                    let ghost w_log = w.log();
                    proof {
                        assert(w_log =~= cur.sent.push(w_log.last()));
                        lemma_bytes_of_push(cur.sent.skip(log0.len() as int), w_log.last());
                        assert(w_log.skip(log0.len() as int) =~= cur.sent.skip(log0.len() as int).push(w_log.last()));
                    }
                    let mut entry = self.await_puback.remove(i);
                    entry.publish_sent = now;
                    self.await_puback.insert(i, entry);
                    i = i + 1;
                    proof {
                        assert(self.await_puback@.take(i as int) =~= cur.done.push(AwaitPuback { publish_sent: now, ..rest[0] }));
                        assert(self.await_puback@.skip(i as int) =~= rest.drop_first());
                        assert(q0.skip(i as int) =~= rest.drop_first());
                        assert(w.log().take(log0.len() as int) =~= log0);
                    }
                }
            } else {
                i = i + 1;
                proof {
                    assert(self.await_puback@.take(i as int) =~= cur.done.push(rest[0]));
                    assert(self.await_puback@.skip(i as int) =~= rest.drop_first());
                    assert(q0.skip(i as int) =~= rest.drop_first());
                }
            }
        }
        if partial {
            return Ok(SendResult::PartiallySent);
        }
        proof {
            assert(self.await_puback@.take(i as int) =~= self.await_puback@);
            assert(q0.skip(i as int) =~= Seq::<AwaitPuback<B, T>>::empty());
        }
        Ok(SendResult::SentAll)
    }
    /// Sends again, front first, the QoS 2 publishes whose PUBREC is overdue;
    /// see `resend_pubrec_pass`.
    fn resend_pubrecs<const W: usize>(&mut self, w: &mut PacketWriter<W>, now: Instant) -> (r: Result<SendResult, MqttError>)
        requires
            old(self).wf(),
            old(w).wf(),
            T <= 65535,
            B <= 200_000_000,
        ensures
            final(self).wf(),
            final(w).wf(),
            final(self).send_queue() == old(self).send_queue(),
            final(self).puback_queue() == old(self).puback_queue(),
            final(self).pubrel_queue() == old(self).pubrel_queue(),
            final(self).pubcomp_queue() == old(self).pubcomp_queue(),
            ({
                let res = resend_pubrec_pass::<B, T, W>(
                    ResendPass { done: Seq::empty(), sent: old(w).log(), pos: old(w).positions(), partial: false },
                    old(self).pubrec_queue(),
                    now,
                );
                &&& final(self).pubrec_queue() == res.done
                &&& final(w).log() == res.sent
                &&& final(w).positions() == res.pos
                &&& final(w).pending() == old(w).pending() + bytes_of(res.sent.skip(old(w).log().len() as int))
                &&& PacketWriter::<W>::appended(*old(w), *final(w))
                &&& r == Ok::<SendResult, MqttError>(if res.partial { SendResult::PartiallySent } else { SendResult::SentAll })
            }),
    {
        let ghost goal = resend_pubrec_pass::<B, T, W>(
            ResendPass { done: Seq::empty(), sent: old(w).log(), pos: old(w).positions(), partial: false },
            old(self).pubrec_queue(),
            now,
        );
        let ghost log0 = old(w).log();
        let ghost pending0 = old(w).pending();
        let ghost q0 = old(self).await_pubrec@;
        let mut i: usize = 0;
        let mut partial = false;
        proof {
            assert(q0.take(0) =~= Seq::<AwaitPubrec<B, T>>::empty());
            assert(q0.skip(0) =~= q0);
            assert(w.log().skip(log0.len() as int) =~= Seq::<SentPacket>::empty());
            assert(pending0 + Seq::<u8>::empty() =~= pending0);
        }
        while !partial && i < self.await_pubrec.len()
            invariant
                self.wf(),
                w.wf(),
                T <= 65535,
                B <= 200_000_000,
                i <= self.await_pubrec@.len(),
                self.await_pubrec@.len() == q0.len(),
                self.await_pubrec@.skip(i as int) == q0.skip(i as int),
                self.send_publish@ == old(self).send_publish@,
                self.await_puback@ == old(self).await_puback@,
                self.send_pubrel@ == old(self).send_pubrel@,
                self.await_pubcomp@ == old(self).await_pubcomp@,
                log0.len() <= w.log().len(),
                w.log().take(log0.len() as int) == log0,
                w.pending() == pending0 + bytes_of(w.log().skip(log0.len() as int)),
                !partial ==> resend_pubrec_pass::<B, T, W>(
                    ResendPass { done: self.await_pubrec@.take(i as int), sent: w.log(), pos: w.positions(), partial: false },
                    q0.skip(i as int),
                    now,
                ) == goal,
                partial ==> goal == (ResendPass { done: self.await_pubrec@, sent: w.log(), pos: w.positions(), partial: true }),
            decreases self.await_pubrec@.len() - i, (if partial { 0int } else { 1int }),
        {
            let ghost cur = ResendPass { done: self.await_pubrec@.take(i as int), sent: w.log(), pos: w.positions(), partial: false };
            let ghost rest = q0.skip(i as int);
            assert(rest[0] == self.await_pubrec@[i as int]) by {
                assert(self.await_pubrec@.skip(i as int)[0] == self.await_pubrec@[i as int]);
            }
            if elapsed(now, self.await_pubrec[i].publish_sent) > RESEND_DURATION {
                let sent = {
                    let packet = self.await_pubrec[i].publish.borrow();
                    w.try_write_packet(&packet)?
                };
                if !sent {
                    partial = true;
                    proof {
                        assert(cur.done + rest =~= self.await_pubrec@);
                    }
                } else {
                    let ghost w_log = w.log();
                    proof {
                        assert(w_log =~= cur.sent.push(w_log.last()));
                        lemma_bytes_of_push(cur.sent.skip(log0.len() as int), w_log.last());
                        assert(w_log.skip(log0.len() as int) =~= cur.sent.skip(log0.len() as int).push(w_log.last()));
                    }
                    let mut entry = self.await_pubrec.remove(i);
                    entry.publish_sent = now;
                    self.await_pubrec.insert(i, entry);
                    i = i + 1;
                    proof {
                        assert(self.await_pubrec@.take(i as int) =~= cur.done.push(AwaitPubrec { publish_sent: now, ..rest[0] }));
                        assert(self.await_pubrec@.skip(i as int) =~= rest.drop_first());
                        assert(q0.skip(i as int) =~= rest.drop_first());
                        assert(w.log().take(log0.len() as int) =~= log0);
                    }
                }
            } else {
                i = i + 1;
                proof {
                    assert(self.await_pubrec@.take(i as int) =~= cur.done.push(rest[0]));
                    assert(self.await_pubrec@.skip(i as int) =~= rest.drop_first());
                    assert(q0.skip(i as int) =~= rest.drop_first());
                }
            }
        }
        if partial {
            return Ok(SendResult::PartiallySent);
        }
        proof {
            assert(self.await_pubrec@.take(i as int) =~= self.await_pubrec@);
            assert(q0.skip(i as int) =~= Seq::<AwaitPubrec<B, T>>::empty());
        }
        Ok(SendResult::SentAll)
    }
    /// Sends again, front first, the PUBRELs whose PUBCOMP is overdue;
    /// see `resend_pubrel_pass`.
    fn resend_pubrel<const W: usize>(&mut self, w: &mut PacketWriter<W>, now: Instant) -> (r: Result<SendResult, MqttError>)
        requires
            old(self).wf(),
            old(w).wf(),
        ensures
            final(self).wf(),
            final(w).wf(),
            final(self).send_queue() == old(self).send_queue(),
            final(self).pubrec_queue() == old(self).pubrec_queue(),
            final(self).pubrel_queue() == old(self).pubrel_queue(),
            final(self).puback_queue() == old(self).puback_queue(),
            ({
                let res = resend_pubrel_pass::<W>(
                    ResendPass { done: Seq::empty(), sent: old(w).log(), pos: old(w).positions(), partial: false },
                    old(self).pubcomp_queue(),
                    now,
                );
                &&& final(self).pubcomp_queue() == res.done
                &&& final(w).log() == res.sent
                &&& final(w).positions() == res.pos
                &&& final(w).pending() == old(w).pending() + bytes_of(res.sent.skip(old(w).log().len() as int))
                &&& PacketWriter::<W>::appended(*old(w), *final(w))
                &&& r == Ok::<SendResult, MqttError>(if res.partial { SendResult::PartiallySent } else { SendResult::SentAll })
            }),
    {
        let ghost goal = resend_pubrel_pass::<W>(
            ResendPass { done: Seq::empty(), sent: old(w).log(), pos: old(w).positions(), partial: false },
            old(self).pubcomp_queue(),
            now,
        );
        let ghost log0 = old(w).log();
        let ghost pending0 = old(w).pending();
        let ghost q0 = old(self).await_pubcomp@;
        let mut i: usize = 0;
        let mut partial = false;
        proof {
            assert(q0.take(0) =~= Seq::<AwaitPubcomp>::empty());
            assert(q0.skip(0) =~= q0);
            assert(w.log().skip(log0.len() as int) =~= Seq::<SentPacket>::empty());
            assert(pending0 + Seq::<u8>::empty() =~= pending0);
        }
        while !partial && i < self.await_pubcomp.len()
            invariant
                self.wf(),
                w.wf(),
                i <= self.await_pubcomp@.len(),
                self.await_pubcomp@.len() == q0.len(),
                self.await_pubcomp@.skip(i as int) == q0.skip(i as int),
                self.send_publish@ == old(self).send_publish@,
                self.await_pubrec@ == old(self).await_pubrec@,
                self.send_pubrel@ == old(self).send_pubrel@,
                self.await_puback@ == old(self).await_puback@,
                log0.len() <= w.log().len(),
                w.log().take(log0.len() as int) == log0,
                w.pending() == pending0 + bytes_of(w.log().skip(log0.len() as int)),
                !partial ==> resend_pubrel_pass::<W>(
                    ResendPass { done: self.await_pubcomp@.take(i as int), sent: w.log(), pos: w.positions(), partial: false },
                    q0.skip(i as int),
                    now,
                ) == goal,
                partial ==> goal == (ResendPass { done: self.await_pubcomp@, sent: w.log(), pos: w.positions(), partial: true }),
            decreases self.await_pubcomp@.len() - i, (if partial { 0int } else { 1int }),
        {
            let ghost cur = ResendPass { done: self.await_pubcomp@.take(i as int), sent: w.log(), pos: w.positions(), partial: false };
            let ghost rest = q0.skip(i as int);
            assert(rest[0] == self.await_pubcomp@[i as int]) by {
                assert(self.await_pubcomp@.skip(i as int)[0] == self.await_pubcomp@[i as int]);
            }
            if elapsed(now, self.await_pubcomp[i].pubrel_sent) > RESEND_DURATION {
                let pid = self.await_pubcomp[i].pid;
                let sent = w.try_write_packet(&OutPacket::Pubrel(pid))?;
                if !sent {
                    partial = true;
                    proof {
                        assert(cur.done + rest =~= self.await_pubcomp@);
                    }
                } else {
                    let ghost w_log = w.log();
                    proof {
                        assert(w_log =~= cur.sent.push(w_log.last()));
                        lemma_bytes_of_push(cur.sent.skip(log0.len() as int), w_log.last());
                        assert(w_log.skip(log0.len() as int) =~= cur.sent.skip(log0.len() as int).push(w_log.last()));
                    }
                    let mut entry = self.await_pubcomp.remove(i);
                    entry.pubrel_sent = now;
                    self.await_pubcomp.insert(i, entry);
                    i = i + 1;
                    proof {
                        assert(self.await_pubcomp@.take(i as int) =~= cur.done.push(AwaitPubcomp { pubrel_sent: now, ..rest[0] }));
                        assert(self.await_pubcomp@.skip(i as int) =~= rest.drop_first());
                        assert(q0.skip(i as int) =~= rest.drop_first());
                        assert(w.log().take(log0.len() as int) =~= log0);
                    }
                }
            } else {
                i = i + 1;
                proof {
                    assert(self.await_pubcomp@.take(i as int) =~= cur.done.push(rest[0]));
                    assert(self.await_pubcomp@.skip(i as int) =~= rest.drop_first());
                    assert(q0.skip(i as int) =~= rest.drop_first());
                }
            }
        }
        if partial {
            return Ok(SendResult::PartiallySent);
        }
        proof {
            assert(self.await_pubcomp@.take(i as int) =~= self.await_pubcomp@);
            assert(q0.skip(i as int) =~= Seq::<AwaitPubcomp>::empty());
        }
        Ok(SendResult::SentAll)
    }

    /// Sends again the publishes whose acknowledgement is overdue: first
    /// those waiting for a PUBACK, then, unless the send buffer filled up,
    /// those waiting for a PUBREC.
    pub fn resend_publishes<const W: usize>(&mut self, w: &mut PacketWriter<W>, now: Instant) -> (r: Result<SendResult, MqttError>)
        requires
            old(self).wf(),
            old(w).wf(),
            T <= 65535,
            B <= 200_000_000,
        ensures
            final(self).wf(),
            final(w).wf(),
            final(self).send_queue() == old(self).send_queue(),
            final(self).pubrel_queue() == old(self).pubrel_queue(),
            final(self).pubcomp_queue() == old(self).pubcomp_queue(),
            ({
                let a = resend_puback_pass::<B, T, W>(
                    ResendPass { done: Seq::empty(), sent: old(w).log(), pos: old(w).positions(), partial: false },
                    old(self).puback_queue(),
                    now,
                );
                let b = resend_pubrec_pass::<B, T, W>(
                    ResendPass { done: Seq::empty(), sent: a.sent, pos: a.pos, partial: false },
                    old(self).pubrec_queue(),
                    now,
                );
                &&& final(self).puback_queue() == a.done
                &&& a.partial ==> final(self).pubrec_queue() == old(self).pubrec_queue()
                    && final(w).log() == a.sent
                    && final(w).positions() == a.pos
                    && r == Ok::<SendResult, MqttError>(SendResult::PartiallySent)
                &&& !a.partial ==> final(self).pubrec_queue() == b.done
                    && final(w).log() == b.sent
                    && final(w).positions() == b.pos
                    && r == Ok::<SendResult, MqttError>(if b.partial { SendResult::PartiallySent } else { SendResult::SentAll })
                &&& PacketWriter::<W>::appended(*old(w), *final(w))
            }),
    {
        let first = self.resend_pubacks(w, now)?;
        if first == SendResult::PartiallySent {
            return Ok(first);
        }
        let ghost w1 = *w;
        let second = self.resend_pubrecs(w, now)?;
        proof {
            PacketWriter::<W>::lemma_appended_trans(*old(w), w1, *w);
        }
        Ok(second)
    }

    /// One round of sending: the queued PUBRELs, the queued publishes, then
    /// the overdue publishes and PUBRELs, stopping at the first step that
    /// finds the send buffer full; see `send_packets_outcome`.
    pub fn send_packets<const W: usize>(&mut self, w: &mut PacketWriter<W>, now: Instant, events: &mut Vec<MqttEvent>)
        -> (r: Result<SendResult, MqttError>)
        requires
            old(self).wf(),
            old(w).wf(),
            T <= 65535,
            B <= 200_000_000,
            !pubrel_stage::<P, B, T, W>(old(self).outbox(old(events)@, old(w).log(), old(w).positions()), now).panics,
        ensures
            final(self).wf(),
            final(w).wf(),
            PacketWriter::<W>::appended(*old(w), *final(w)),
            ({
                let (o, res) = send_packets_outcome::<P, B, T, W>(old(self).outbox(old(events)@, old(w).log(), old(w).positions()), now);
                &&& final(self).outbox(final(events)@, final(w).log(), final(w).positions()) == o
                &&& r == Ok::<SendResult, MqttError>(res)
            }),
    {
        let ghost w0 = *w;
        let a = self.send_pending_pubrel(w, now)?;
        if a == SendResult::PartiallySent {
            return Ok(a);
        }
        let ghost w1 = *w;
        let b = self.send_pending_publishes(w, now, events)?;
        proof { PacketWriter::<W>::lemma_appended_trans(w0, w1, *w); }
        if b == SendResult::PartiallySent {
            return Ok(b);
        }
        let ghost w2 = *w;
        let c = self.resend_pubacks(w, now)?;
        proof { PacketWriter::<W>::lemma_appended_trans(w0, w2, *w); }
        if c == SendResult::PartiallySent {
            return Ok(c);
        }
        let ghost w3 = *w;
        let d = self.resend_pubrecs(w, now)?;
        proof { PacketWriter::<W>::lemma_appended_trans(w0, w3, *w); }
        if d == SendResult::PartiallySent {
            return Ok(d);
        }
        let ghost w4 = *w;
        let e = self.resend_pubrel(w, now)?;
        proof { PacketWriter::<W>::lemma_appended_trans(w0, w4, *w); }
        Ok(e)
    }

    /// Hands an acknowledgement of an outgoing publish to its flow; see
    /// `incoming_ack_outcome`.
    pub fn process_incoming_packet(&mut self, packet: &InPacket, pids: &mut PidPool, events: &mut Vec<MqttEvent>) -> (r: Result<(), MqttError>)
        requires
            old(self).wf(),
            old(pids).wf(),
        ensures
            final(self).wf(),
            final(pids).wf(),
            ({
                let (o, v, res) = incoming_ack_outcome::<P, B, T>(old(self).outbox(old(events)@, Seq::empty(), (0, 0)), old(pids).view(), *packet);
                &&& final(self).outbox(final(events)@, Seq::empty(), (0, 0)) == o
                &&& final(pids).view() == v
                &&& r == res
            }),
    {
        match packet {
            InPacket::Puback(pid) => self.process_puback(*pid, pids, events),
            InPacket::Pubrec(pid) => self.process_pubrec(*pid),
            InPacket::Pubcomp(pid) => self.process_pubcomp(*pid, pids, events),
            _ => Ok(()),
        }
    }

    /// Number of publishes waiting to be sent
    pub fn pending_publishes(&self) -> (n: usize)
        ensures
            n == self.send_queue().len(),
    {
        self.send_publish.len()
    }

    /// Number of QoS 1 publishes waiting for their PUBACK
    pub fn awaiting_puback(&self) -> (n: usize)
        ensures
            n == self.puback_queue().len(),
    {
        self.await_puback.len()
    }

    /// Number of QoS 2 publishes waiting for their PUBREC
    pub fn awaiting_pubrec(&self) -> (n: usize)
        ensures
            n == self.pubrec_queue().len(),
    {
        self.await_pubrec.len()
    }

    /// Number of PUBRELs waiting to be sent
    pub fn pending_pubrel(&self) -> (n: usize)
        ensures
            n == self.pubrel_queue().len(),
    {
        self.send_pubrel.len()
    }

    /// Number of PUBRELs waiting for their PUBCOMP
    pub fn awaiting_pubcomp(&self) -> (n: usize)
        ensures
            n == self.pubcomp_queue().len(),
    {
        self.await_pubcomp.len()
    }

    /// Whether the next pass over the queued PUBRELs would move a PUBREL
    /// without unique id to the PUBCOMP queue, where the code panics; see
    /// `pubrel_pass`.
    pub fn pubrel_would_panic<const W: usize>(&self, w: &PacketWriter<W>, now: Instant) -> (r: bool)
        requires
            self.wf(),
            w.wf(),
        ensures
            r == pubrel_pass::<P, W>(
                PubrelPass { kept: Seq::empty(), pubcomps: self.pubcomp_queue(), sent: w.log(), pos: w.positions(), partial: false, panics: false },
                self.pubrel_queue(),
                now,
            ).panics,
    {
        let ghost goal = pubrel_pass::<P, W>(
            PubrelPass { kept: Seq::empty(), pubcomps: self.pubcomp_queue(), sent: w.log(), pos: w.positions(), partial: false, panics: false },
            self.pubrel_queue(),
            now,
        );
        let ghost mut kept: Seq<SendPubrel> = Seq::empty();
        let ghost mut pubcomps: Seq<AwaitPubcomp> = self.pubcomp_queue();
        let ghost mut sent: Seq<SentPacket> = w.log();
        let (mut rp, mut wp) = w.current_positions();
        let mut count: usize = self.await_pubcomp.len();
        let mut i: usize = 0;
        proof {
            assert(self.send_pubrel@.skip(0) =~= self.send_pubrel@);
        }
        while i < self.send_pubrel.len()
            invariant
                self.wf(),
                i <= self.send_pubrel@.len(),
                count == pubcomps.len(),
                count <= P,
                rp <= wp <= W,
                goal == pubrel_pass::<P, W>(
                    PubrelPass { kept: Seq::empty(), pubcomps: self.pubcomp_queue(), sent: w.log(), pos: w.positions(), partial: false, panics: false },
                    self.pubrel_queue(),
                    now,
                ),
                pubrel_pass::<P, W>(
                    PubrelPass { kept, pubcomps, sent, pos: (rp as nat, wp as nat), partial: false, panics: false },
                    self.send_pubrel@.skip(i as int),
                    now,
                ) == goal,
            decreases self.send_pubrel@.len() - i,
        {
            let ghost rest = self.send_pubrel@.skip(i as int);
            assert(rest[0] == self.send_pubrel@[i as int]);
            assert(rest.drop_first() =~= self.send_pubrel@.skip(i + 1));
            if count >= P {
                proof { kept = kept.push(rest[0]); }
                i = i + 1;
            } else {
                let (frp, fwp) = if wp == W { (0, wp - rp) } else { (rp, wp) };
                proof {
                    assert(sent_bytes(SentPacket::Pubrel(rest[0].pid@)).len() == 4);
                    assert(PacketWriter::<W>::flip_positions((rp as nat, wp as nat)) == (frp as nat, fwp as nat));
                    assert(PacketWriter::<W>::room_at((rp as nat, wp as nat)) == W - fwp);
                }
                if 4 > W - fwp {
                    return false;
                }
                match self.send_pubrel[i].unique_id {
                    None => {
                        return true;
                    },
                    Some(uid) => {
                        proof {
                            pubcomps = pubcomps.push(AwaitPubcomp { pid: rest[0].pid, pubrel_sent: now, unique_id: uid });
                            sent = sent.push(SentPacket::Pubrel(rest[0].pid@));
                        }
                        count = count + 1;
                        rp = frp;
                        wp = fwp + 4;
                        i = i + 1;
                    },
                }
            }
        }
        false
    }
}

} // verus!
