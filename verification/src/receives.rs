//! Incoming publishes and the acknowledgements this client owes for them.
use vstd::prelude::*;
use vstd::utf8::encode_utf8;
use crate::packet::{Pid, Publish, QosPid};
use crate::state::SendResult;
use crate::writer::{OutPacket, PacketWriter, SentPacket, sent_bytes, lemma_bytes_of_push};
use crate::seqs::{is_first, first_index, lemma_first_index, lemma_no_index, lemma_first_exists, lemma_first_index_cases};
use crate::MqttError;

verus! {

/// A publish received from the broker, with owned topic and payload.
pub struct ReceivedPublish<const BUFFER: usize, const TOPIC_SIZE: usize> {
    pub dup: bool,
    pub qospid: QosPid,
    pub retain: bool,
    pub topic_name: String,
    pub payload: Vec<u8>,
}

/// The topic of `p` fits `T` bytes and its payload `B` bytes.
pub open spec fn publish_fits<const B: usize, const T: usize>(p: Publish) -> bool {
    encode_utf8(p.topic_name@).len() <= T && p.payload@.len() <= B
}

/// The error a publish that does not fit is refused with: the topic is
/// checked first.
pub open spec fn conversion_error<const T: usize>(p: Publish) -> MqttError {
    if encode_utf8(p.topic_name@).len() > T {
        MqttError::TopicSizeError
    } else {
        MqttError::BufferTooSmall
    }
}

impl<const BUFFER: usize, const TOPIC_SIZE: usize> ReceivedPublish<BUFFER, TOPIC_SIZE> {
    /// The topic fits `TOPIC_SIZE` bytes and the payload `BUFFER` bytes.
    pub open spec fn wf(&self) -> bool {
        encode_utf8(self.topic_name@).len() <= TOPIC_SIZE && self.payload@.len() <= BUFFER
    }

    /// This publish holds the fields of `p`.
    pub open spec fn copies(&self, p: Publish) -> bool {
        &&& self.dup == p.dup
        &&& self.qospid == p.qospid
        &&& self.retain == p.retain
        &&& self.topic_name@ == p.topic_name@
        &&& self.payload@ == p.payload@
    }

    /// Copies a received publish; fails where the topic exceeds `TOPIC_SIZE`
    /// bytes (checked first) or the payload exceeds `BUFFER` bytes.
    pub fn try_from(publish: &Publish) -> (r: Result<Self, MqttError>)
        ensures
            publish_fits::<BUFFER, TOPIC_SIZE>(*publish) ==> (r matches Ok(o) && o.copies(*publish) && o.wf()),
            !publish_fits::<BUFFER, TOPIC_SIZE>(*publish) ==> r == Err::<Self, MqttError>(conversion_error::<TOPIC_SIZE>(*publish)),
    {
        if publish.topic_name.as_bytes().len() > TOPIC_SIZE {
            return Err(MqttError::TopicSizeError);
        }
        if publish.payload.len() > BUFFER {
            return Err(MqttError::BufferTooSmall);
        }
        Ok(ReceivedPublish {
            dup: publish.dup,
            qospid: publish.qospid,
            retain: publish.retain,
            topic_name: publish.topic_name.to_owned(),
            payload: vstd::slice::slice_to_vec(publish.payload),
        })
    }
}

/// The acknowledgements this client sends for received publishes.
#[derive(Debug, Clone, Copy, PartialEq, Eq, Structural)]
pub enum AckKind {
    Puback,
    Pubrec,
    Pubcomp,
}

/// The packet that acknowledges `pid` with `kind`.
pub open spec fn ack_packet(kind: AckKind, pid: Pid) -> SentPacket {
    match kind {
        AckKind::Puback => SentPacket::Puback(pid@),
        AckKind::Pubrec => SentPacket::Pubrec(pid@),
        AckKind::Pubcomp => SentPacket::Pubcomp(pid@),
    }
}

/// The queues of received publishes: PUBACKs to send (QoS 1), PUBRECs to
/// send, PUBRECs sent and waiting for their PUBREL, PUBCOMPs to send (QoS 2).
pub struct ReceivesView {
    pub pubacks: Seq<Pid>,
    pub pubrecs: Seq<Pid>,
    pub await_pubrel: Seq<Pid>,
    pub pubcomps: Seq<Pid>,
}

/// Whether an entry is `pid`.
pub open spec fn pid_is(pid: Pid) -> spec_fn(Pid) -> bool {
    |x: Pid| x == pid
}

/// A QoS 2 exchange for `pid` is under way: its PUBREC is queued or sent,
/// or its PUBCOMP is queued.
pub open spec fn is_pending(v: ReceivesView, pid: Pid) -> bool {
    v.await_pubrel.contains(pid) || v.pubrecs.contains(pid) || v.pubcomps.contains(pid)
}

/// A QoS 2 publish for `pid` arrives: a PUBREC is always queued (`QueueFull`
/// where that queue is full, with nothing else done); the publish is handed
/// on unless the exchange for `pid` is already under way, in which case it is
/// a duplicate. `fits` says whether the publish can be copied, `err` is the
/// error where it cannot. The result is the new queues, whether the publish
/// was handed on, and the outcome.
pub open spec fn qos2_outcome<const P: usize>(v: ReceivesView, pid: Pid, fits: bool, err: MqttError)
    -> (ReceivesView, bool, Result<(), MqttError>)
{
    if v.pubrecs.len() >= P {
        (v, false, Err(MqttError::QueueFull(QosPid::AtLeastOnce(pid))))
    } else {
        let v1 = ReceivesView { pubrecs: v.pubrecs.push(pid), ..v };
        if is_pending(v, pid) {
            (v1, false, Ok(()))
        } else if fits {
            (v1, true, Ok(()))
        } else {
            (v1, false, Err(err))
        }
    }
}

/// A publish arrives. QoS 0: handed on. QoS 1: handed on, then a PUBACK is
/// queued (`QueueFull` where that queue is full, after the hand-over). QoS 2:
/// see `qos2_outcome`. A publish that cannot be copied is refused with
/// `conversion_error` before anything else is done (QoS 0 and 1).
pub open spec fn publish_outcome<const P: usize, const B: usize, const T: usize>(v: ReceivesView, p: Publish)
    -> (ReceivesView, bool, Result<(), MqttError>)
{
    let fits = publish_fits::<B, T>(p);
    let err = conversion_error::<T>(p);
    match p.qospid {
        QosPid::AtMostOnce => if fits { (v, true, Ok(())) } else { (v, false, Err(err)) },
        QosPid::AtLeastOnce(pid) => if !fits {
            (v, false, Err(err))
        } else if v.pubacks.len() >= P {
            (v, true, Err(MqttError::QueueFull(QosPid::AtLeastOnce(pid))))
        } else {
            (ReceivesView { pubacks: v.pubacks.push(pid), ..v }, true, Ok(()))
        },
        QosPid::ExactlyOnce(pid) => qos2_outcome::<P>(v, pid, fits, err),
    }
}

/// A PUBREL for `pid` arrives: a PUBCOMP is always queued (`QueueFull` where
/// that queue is full, with nothing else done) and the first PUBREC waiting
/// for it, if any, is done.
pub open spec fn pubrel_outcome<const P: usize>(v: ReceivesView, pid: Pid) -> (ReceivesView, Result<(), MqttError>) {
    if v.pubcomps.len() >= P {
        (v, Err(MqttError::QueueFull(QosPid::AtLeastOnce(pid))))
    } else {
        let i = first_index(v.await_pubrel, pid_is(pid));
        let awaiting = if i >= 0 { v.await_pubrel.remove(i) } else { v.await_pubrel };
        (ReceivesView { pubcomps: v.pubcomps.push(pid), await_pubrel: awaiting, ..v }, Ok(()))
    }
}

/// The state of a pass over a queue of acknowledgements: the queue, the
/// PUBRECs waiting for their PUBREL, the packets sent, the send buffer's
/// positions, and whether the pass stopped on a full buffer.
pub struct AckPass {
    pub queue: Seq<Pid>,
    pub awaiting: Seq<Pid>,
    pub sent: Seq<SentPacket>,
    pub pos: (nat, nat),
    pub partial: bool,
}

/// A pass over the acknowledgements of `s.queue`, from index `i`. A sent
/// entry leaves the queue and the entry behind it takes its place, so the
/// pass goes on at the same index and passes no entry over. PUBRECs
/// are only sent while fewer than `P` wait for their PUBREL, and a sent
/// PUBREC waits for it. An acknowledgement that does not fit the send buffer
/// stops the pass.
pub open spec fn ack_pass<const P: usize, const W: usize>(kind: AckKind, s: AckPass, i: int) -> AckPass
    decreases s.queue.len() + 1 - i,
{
    if i < 0 || i >= s.queue.len() {
        s
    } else if kind == AckKind::Pubrec && s.awaiting.len() >= P {
        s
    } else {
        let pid = s.queue[i];
        let len = sent_bytes(ack_packet(kind, pid)).len();
        if len > PacketWriter::<W>::room_at(s.pos) {
            AckPass { pos: PacketWriter::<W>::flip_positions(s.pos), partial: true, ..s }
        } else {
            ack_pass::<P, W>(
                kind,
                AckPass {
                    queue: s.queue.remove(i),
                    awaiting: if kind == AckKind::Pubrec { s.awaiting.push(pid) } else { s.awaiting },
                    sent: s.sent.push(ack_packet(kind, pid)),
                    pos: PacketWriter::<W>::positions_after(s.pos, len),
                    partial: false,
                },
                i,
            )
        }
    }
}

/// Only PUBRECs wait for an answer: the other passes leave the waiting
/// PUBRECs as they are.
pub proof fn lemma_ack_pass_keeps_awaiting<const P: usize, const W: usize>(kind: AckKind, s: AckPass, i: int)
    requires
        kind != AckKind::Pubrec,
    ensures
        ack_pass::<P, W>(kind, s, i).awaiting == s.awaiting,
    decreases s.queue.len() + 1 - i,
{
    if 0 <= i < s.queue.len() {
        let pid = s.queue[i];
        let len = sent_bytes(ack_packet(kind, pid)).len();
        if len <= PacketWriter::<W>::room_at(s.pos) {
            lemma_ack_pass_keeps_awaiting::<P, W>(
                kind,
                AckPass {
                    queue: s.queue.remove(i),
                    awaiting: s.awaiting,
                    sent: s.sent.push(ack_packet(kind, pid)),
                    pos: PacketWriter::<W>::positions_after(s.pos, len),
                    partial: false,
                },
                i,
            );
        }
    }
}

/// An acknowledgement leaves its queue only by being sent, and a sent
/// PUBREC then waits for its PUBREL.
pub proof fn lemma_ack_pass_sends_what_leaves<const P: usize, const W: usize>(kind: AckKind, s: AckPass, i: int)
    requires
        0 <= i,
    ensures
        ({
            let r = ack_pass::<P, W>(kind, s, i);
            &&& r.sent.len() - s.sent.len() == s.queue.len() - r.queue.len()
            &&& kind == AckKind::Pubrec ==> r.awaiting.len() - s.awaiting.len() == s.queue.len() - r.queue.len()
        }),
    decreases s.queue.len() + 1 - i,
{
    if i < s.queue.len() && !(kind == AckKind::Pubrec && s.awaiting.len() >= P) {
        let pid = s.queue[i];
        let len = sent_bytes(ack_packet(kind, pid)).len();
        if len <= PacketWriter::<W>::room_at(s.pos) {
            lemma_ack_pass_sends_what_leaves::<P, W>(
                kind,
                AckPass {
                    queue: s.queue.remove(i),
                    awaiting: if kind == AckKind::Pubrec { s.awaiting.push(pid) } else { s.awaiting },
                    sent: s.sent.push(ack_packet(kind, pid)),
                    pos: PacketWriter::<W>::positions_after(s.pos, len),
                    partial: false,
                },
                i,
            );
        }
    }
}

/// The packet a pass over acknowledgements of `kind` sends for `pid`.
pub open spec fn ack_of_kind(kind: AckKind, pid: Pid) -> SentPacket {
    if kind == AckKind::Puback {
        SentPacket::Puback(pid@)
    } else if kind == AckKind::Pubrec {
        SentPacket::Pubrec(pid@)
    } else {
        SentPacket::Pubcomp(pid@)
    }
}

/// A pass sends the acknowledgements of its queue in order, from index `i`,
/// each as the packet of its kind for its own packet identifier: the `n`
/// packets sent are those of the `n` entries from `i`, which leave the
/// queue (the others stay in order); PUBRECs sent then wait for their
/// PUBREL, in the same order.
pub proof fn lemma_ack_pass_sends_in_order<const P: usize, const W: usize>(kind: AckKind, s: AckPass, i: int)
    requires
        0 <= i <= s.queue.len(),
    ensures
        ({
            let r = ack_pass::<P, W>(kind, s, i);
            let n = r.sent.len() - s.sent.len();
            &&& 0 <= n <= s.queue.len() - i
            &&& r.sent.subrange(0, s.sent.len() as int) == s.sent
            &&& forall|j: int| 0 <= j < n ==> r.sent[s.sent.len() + j] == ack_of_kind(kind, #[trigger] s.queue[i + j])
            &&& r.queue == s.queue.subrange(0, i) + s.queue.subrange(i + n, s.queue.len() as int)
            &&& kind == AckKind::Pubrec ==> r.awaiting == s.awaiting + s.queue.subrange(i, i + n)
        }),
    decreases s.queue.len() + 1 - i,
{
    let r = ack_pass::<P, W>(kind, s, i);
    if i < s.queue.len() && !(kind == AckKind::Pubrec && s.awaiting.len() >= P)
        && sent_bytes(ack_packet(kind, s.queue[i])).len() <= PacketWriter::<W>::room_at(s.pos) {
        let pid = s.queue[i];
        let len = sent_bytes(ack_packet(kind, pid)).len();
        let next = AckPass {
            queue: s.queue.remove(i),
            awaiting: if kind == AckKind::Pubrec { s.awaiting.push(pid) } else { s.awaiting },
            sent: s.sent.push(ack_packet(kind, pid)),
            pos: PacketWriter::<W>::positions_after(s.pos, len),
            partial: false,
        };
        lemma_ack_pass_sends_in_order::<P, W>(kind, next, i);
        let n1 = r.sent.len() - next.sent.len();
        assert(r.sent.subrange(0, s.sent.len() as int) =~= r.sent.subrange(0, next.sent.len() as int).subrange(0, s.sent.len() as int));
        assert(r.sent.subrange(0, s.sent.len() as int) =~= s.sent);
        assert(r.sent[s.sent.len() as int] == r.sent.subrange(0, next.sent.len() as int)[s.sent.len() as int]);
        assert forall|j: int| 0 <= j < n1 + 1 implies r.sent[s.sent.len() + j] == ack_of_kind(kind, #[trigger] s.queue[i + j]) by {
            if j == 0 {
                assert(r.sent[s.sent.len() + j] == next.sent[s.sent.len() as int]);
            } else {
                assert(next.queue[i + (j - 1)] == s.queue[i + j]);
                assert(r.sent[next.sent.len() + (j - 1)] == ack_of_kind(kind, next.queue[i + (j - 1)]));
            }
        }
        assert(r.queue =~= s.queue.subrange(0, i) + s.queue.subrange(i + n1 + 1, s.queue.len() as int));
        if kind == AckKind::Pubrec {
            assert(r.awaiting =~= s.awaiting + s.queue.subrange(i, i + n1 + 1));
        }
    } else {
        assert(r.sent.subrange(0, s.sent.len() as int) =~= s.sent);
        assert(r.queue =~= s.queue.subrange(0, i) + s.queue.subrange(i, s.queue.len() as int));
        assert(r.awaiting =~= s.awaiting + s.queue.subrange(i, i));
    }
}

/// A pass that did not stop on a full send buffer leaves nothing at or
/// after its starting index, unless PUBRECs stopped because `P` of them
/// wait for their PUBREL.
pub proof fn lemma_ack_pass_complete<const P: usize, const W: usize>(kind: AckKind, s: AckPass, i: int)
    requires
        0 <= i <= s.queue.len(),
    ensures
        ({
            let r = ack_pass::<P, W>(kind, s, i);
            !r.partial ==> r.queue.len() == i || (kind == AckKind::Pubrec && r.awaiting.len() >= P)
        }),
    decreases s.queue.len() + 1 - i,
{
    if i < s.queue.len() && !(kind == AckKind::Pubrec && s.awaiting.len() >= P) {
        let pid = s.queue[i];
        let len = sent_bytes(ack_packet(kind, pid)).len();
        if len <= PacketWriter::<W>::room_at(s.pos) {
            lemma_ack_pass_complete::<P, W>(
                kind,
                AckPass {
                    queue: s.queue.remove(i),
                    awaiting: if kind == AckKind::Pubrec { s.awaiting.push(pid) } else { s.awaiting },
                    sent: s.sent.push(ack_packet(kind, pid)),
                    pos: PacketWriter::<W>::positions_after(s.pos, len),
                    partial: false,
                },
                i,
            );
        }
    }
}

/// One round of sending acknowledgements: PUBACKs, then PUBRECs, then
/// PUBCOMPs, each step only where the one before did not stop on a full
/// send buffer. The result is the new queues, the packets written, the
/// positions and the outcome.
pub open spec fn receives_send_outcome<const P: usize, const W: usize>(v: ReceivesView, sent: Seq<SentPacket>, pos: (nat, nat))
    -> (ReceivesView, Seq<SentPacket>, (nat, nat), SendResult)
{
    let a = ack_pass::<P, W>(AckKind::Puback, AckPass { queue: v.pubacks, awaiting: v.await_pubrel, sent, pos, partial: false }, 0);
    let v1 = ReceivesView { pubacks: a.queue, ..v };
    if a.partial {
        (v1, a.sent, a.pos, SendResult::PartiallySent)
    } else {
        let b = ack_pass::<P, W>(AckKind::Pubrec, AckPass { queue: v.pubrecs, awaiting: v.await_pubrel, sent: a.sent, pos: a.pos, partial: false }, 0);
        let v2 = ReceivesView { pubrecs: b.queue, await_pubrel: b.awaiting, ..v1 };
        if b.partial {
            (v2, b.sent, b.pos, SendResult::PartiallySent)
        } else {
            let c = ack_pass::<P, W>(AckKind::Pubcomp, AckPass { queue: v.pubcomps, awaiting: b.awaiting, sent: b.sent, pos: b.pos, partial: false }, 0);
            let v3 = ReceivesView { pubcomps: c.queue, ..v2 };
            (v3, c.sent, c.pos, if c.partial { SendResult::PartiallySent } else { SendResult::SentAll })
        }
    }
}

/// `SentAll` means that every pending acknowledgement was sent: no PUBACK and
/// no PUBCOMP is left, and a PUBREC is left only where `P` PUBRECs already
/// wait for their PUBREL.
pub proof fn lemma_sent_all_sends_everything<const P: usize, const W: usize>(v: ReceivesView, sent: Seq<SentPacket>, pos: (nat, nat))
    ensures
        ({
            let (v2, _s, _p, res) = receives_send_outcome::<P, W>(v, sent, pos);
            res == SendResult::SentAll ==> {
                &&& v2.pubacks.len() == 0
                &&& v2.pubcomps.len() == 0
                &&& (v2.pubrecs.len() == 0 || v2.await_pubrel.len() >= P)
            }
        }),
{
    let sa = AckPass { queue: v.pubacks, awaiting: v.await_pubrel, sent, pos, partial: false };
    lemma_ack_pass_complete::<P, W>(AckKind::Puback, sa, 0);
    let a = ack_pass::<P, W>(AckKind::Puback, sa, 0);
    if !a.partial {
        let sb = AckPass { queue: v.pubrecs, awaiting: v.await_pubrel, sent: a.sent, pos: a.pos, partial: false };
        lemma_ack_pass_complete::<P, W>(AckKind::Pubrec, sb, 0);
        let b = ack_pass::<P, W>(AckKind::Pubrec, sb, 0);
        if !b.partial {
            let sc = AckPass { queue: v.pubcomps, awaiting: b.awaiting, sent: b.sent, pos: b.pos, partial: false };
            lemma_ack_pass_complete::<P, W>(AckKind::Pubcomp, sc, 0);
            lemma_ack_pass_keeps_awaiting::<P, W>(AckKind::Pubcomp, sc, 0);
        }
    }
}

/// Sends the acknowledgements of `queue`; see `ack_pass`.
fn send_acks<const P: usize, const W: usize>(kind: AckKind, queue: &mut Vec<Pid>, awaiting: &mut Vec<Pid>, w: &mut PacketWriter<W>)
    -> (r: Result<SendResult, MqttError>)
    requires
        old(w).wf(),
        old(awaiting)@.len() <= P,
    ensures
        final(w).wf(),
        final(awaiting)@.len() <= P,
        final(queue)@.len() <= old(queue)@.len(),
        kind != AckKind::Pubrec ==> final(awaiting)@ == old(awaiting)@,
        PacketWriter::<W>::appended(*old(w), *final(w)),
        ({
            let res = ack_pass::<P, W>(kind, AckPass { queue: old(queue)@, awaiting: old(awaiting)@, sent: old(w).log(), pos: old(w).positions(), partial: false }, 0);
            &&& final(queue)@ == res.queue
            &&& final(awaiting)@ == res.awaiting
            &&& final(w).log() == res.sent
            &&& final(w).positions() == res.pos
            &&& r == Ok::<SendResult, MqttError>(if res.partial { SendResult::PartiallySent } else { SendResult::SentAll })
        }),
{
    let ghost goal = ack_pass::<P, W>(kind, AckPass { queue: old(queue)@, awaiting: old(awaiting)@, sent: old(w).log(), pos: old(w).positions(), partial: false }, 0);
    let ghost w0 = *w;
    proof {
        if kind != AckKind::Pubrec {
            lemma_ack_pass_keeps_awaiting::<P, W>(kind, AckPass { queue: old(queue)@, awaiting: old(awaiting)@, sent: old(w).log(), pos: old(w).positions(), partial: false }, 0);
        }
    }
    let i: usize = 0;
    let mut partial = false;
    proof {
        assert(w.log().take(w0.log().len() as int) =~= w0.log());
        assert(w.log().skip(w0.log().len() as int) =~= Seq::<SentPacket>::empty());
        assert(w0.pending() + Seq::<u8>::empty() =~= w0.pending());
    }
    while !partial && i < queue.len() && !(kind == AckKind::Pubrec && awaiting.len() >= P)
        invariant
            w.wf(),
            awaiting@.len() <= P,
            i <= queue@.len() + 1,
            queue@.len() <= old(queue)@.len(),
            PacketWriter::<W>::appended(w0, *w),
            !partial ==> ack_pass::<P, W>(kind, AckPass { queue: queue@, awaiting: awaiting@, sent: w.log(), pos: w.positions(), partial: false }, i as int) == goal,
            partial ==> goal == (AckPass { queue: queue@, awaiting: awaiting@, sent: w.log(), pos: w.positions(), partial: true }),
        decreases queue@.len() + 1 - i, (if partial { 0int } else { 1int }),
    {
        let pid = queue[i];
        let packet = match kind {
            AckKind::Puback => OutPacket::Puback(pid),
            AckKind::Pubrec => OutPacket::Pubrec(pid),
            AckKind::Pubcomp => OutPacket::Pubcomp(pid),
        };
        assert(packet.model() == ack_packet(kind, pid));
        let ghost w1 = *w;
        let sent = w.try_write_packet(&packet)?;
        if sent {
            proof {
                lemma_bytes_of_push(Seq::empty(), ack_packet(kind, pid));
                assert(w.log().skip(w1.log().len() as int) =~= Seq::<SentPacket>::empty().push(ack_packet(kind, pid)));
                assert(w.log().take(w1.log().len() as int) =~= w1.log());
                assert(Seq::<u8>::empty() + sent_bytes(ack_packet(kind, pid)) =~= sent_bytes(ack_packet(kind, pid)));
                PacketWriter::<W>::lemma_appended_trans(w0, w1, *w);
            }
            let removed = queue.remove(i);
            if kind == AckKind::Pubrec {
                awaiting.push(removed);
            }
        } else {
            partial = true;
        }
    }
    if partial {
        Ok(SendResult::PartiallySent)
    } else {
        Ok(SendResult::SentAll)
    }
}

/// A QoS 2 publish whose exchange is under way is a duplicate: it is not
/// handed on again.
pub proof fn lemma_pending_not_delivered<const P: usize, const B: usize, const T: usize>(v: ReceivesView, p: Publish)
    requires
        p.qospid is ExactlyOnce,
        is_pending(v, p.qospid->ExactlyOnce_0),
    ensures
        !publish_outcome::<P, B, T>(v, p).1,
{
}

/// A QoS 2 publish whose PUBREC could be queued starts an exchange for its
/// packet identifier.
pub proof fn lemma_qos2_publish_pending<const P: usize, const B: usize, const T: usize>(v: ReceivesView, p: Publish)
    requires
        p.qospid is ExactlyOnce,
        v.pubrecs.len() < P,
    ensures
        is_pending(publish_outcome::<P, B, T>(v, p).0, p.qospid->ExactlyOnce_0),
        publish_outcome::<P, B, T>(v, p).0.pubrecs == v.pubrecs.push(p.qospid->ExactlyOnce_0),
{
    let pid = p.qospid->ExactlyOnce_0;
    assert(v.pubrecs.push(pid)[v.pubrecs.len() as int] == pid);
}

/// A received publish is acknowledged by its own QoS: QoS 0 is handed on
/// and nothing is queued; QoS 1 that fits is handed on and a PUBACK for its
/// packet identifier is queued (where that queue has room); QoS 2 queues a
/// PUBREC for its packet identifier (where that queue has room) and never a
/// PUBACK. No publish queues a PUBCOMP or changes the PUBRECs waiting.
pub proof fn lemma_publish_acknowledged_by_qos<const P: usize, const B: usize, const T: usize>(v: ReceivesView, p: Publish)
    ensures
        ({
            let (v1, delivered, res) = publish_outcome::<P, B, T>(v, p);
            &&& v1.pubcomps == v.pubcomps
            &&& v1.await_pubrel == v.await_pubrel
            &&& p.qospid is AtMostOnce ==> v1 == v && (delivered <==> publish_fits::<B, T>(p))
            &&& p.qospid matches QosPid::AtLeastOnce(pid) ==> v1.pubrecs == v.pubrecs
                && (publish_fits::<B, T>(p) && v.pubacks.len() < P ==> v1.pubacks == v.pubacks.push(pid) && delivered && res is Ok)
            &&& p.qospid matches QosPid::ExactlyOnce(pid) ==> v1.pubacks == v.pubacks
                && (v.pubrecs.len() < P ==> v1.pubrecs == v.pubrecs.push(pid))
                && (v.pubrecs.len() >= P ==> v1 == v && !delivered)
        }),
{
}

/// The PUBREC pass moves PUBRECs from the queue to the waiting ones: an
/// identifier in either stays in either.
pub proof fn lemma_pubrec_pass_keeps<const P: usize, const W: usize>(s: AckPass, i: int, x: Pid)
    requires
        s.queue.contains(x) || s.awaiting.contains(x),
    ensures
        ack_pass::<P, W>(AckKind::Pubrec, s, i).queue.contains(x) || ack_pass::<P, W>(AckKind::Pubrec, s, i).awaiting.contains(x),
    decreases s.queue.len() + 1 - i,
{
    if 0 <= i < s.queue.len() && s.awaiting.len() < P {
        let pid = s.queue[i];
        let len = sent_bytes(ack_packet(AckKind::Pubrec, pid)).len();
        if len <= PacketWriter::<W>::room_at(s.pos) {
            let next = AckPass {
                queue: s.queue.remove(i),
                awaiting: s.awaiting.push(pid),
                sent: s.sent.push(ack_packet(AckKind::Pubrec, pid)),
                pos: PacketWriter::<W>::positions_after(s.pos, len),
                partial: false,
            };
            if s.awaiting.contains(x) {
                let k = choose|k: int| 0 <= k < s.awaiting.len() && s.awaiting[k] == x;
                assert(next.awaiting[k] == x);
            } else {
                let k = choose|k: int| 0 <= k < s.queue.len() && s.queue[k] == x;
                if k == i {
                    assert(next.awaiting[s.awaiting.len() as int] == x);
                } else if k < i {
                    assert(next.queue[k] == x);
                } else {
                    assert(next.queue[k - 1] == x);
                }
            }
            lemma_pubrec_pass_keeps::<P, W>(next, i, x);
        }
    }
}

/// Sending acknowledgements keeps every QoS 2 exchange whose PUBREC is
/// queued or sent under way.
pub proof fn lemma_send_keeps_pending<const P: usize, const W: usize>(v: ReceivesView, sent: Seq<SentPacket>, pos: (nat, nat), pid: Pid)
    requires
        v.pubrecs.contains(pid) || v.await_pubrel.contains(pid),
    ensures
        ({
            let v2 = receives_send_outcome::<P, W>(v, sent, pos).0;
            v2.pubrecs.contains(pid) || v2.await_pubrel.contains(pid)
        }),
{
    let a = ack_pass::<P, W>(AckKind::Puback, AckPass { queue: v.pubacks, awaiting: v.await_pubrel, sent, pos, partial: false }, 0);
    lemma_ack_pass_keeps_awaiting::<P, W>(AckKind::Puback, AckPass { queue: v.pubacks, awaiting: v.await_pubrel, sent, pos, partial: false }, 0);
    if !a.partial {
        let s = AckPass { queue: v.pubrecs, awaiting: v.await_pubrel, sent: a.sent, pos: a.pos, partial: false };
        lemma_pubrec_pass_keeps::<P, W>(s, 0, pid);
        let b = ack_pass::<P, W>(AckKind::Pubrec, s, 0);
        if !b.partial {
            lemma_ack_pass_keeps_awaiting::<P, W>(AckKind::Pubcomp, AckPass { queue: v.pubcomps, awaiting: b.awaiting, sent: b.sent, pos: b.pos, partial: false }, 0);
        }
    }
}

/// Exactly-once delivery: once a QoS 2 publish has been taken in, a publish
/// with the same packet identifier is not handed on again, however the
/// acknowledgements were sent in between, until its PUBREL arrives.
pub proof fn lemma_exactly_once<const P: usize, const B: usize, const T: usize, const W: usize>(
    v: ReceivesView,
    first: Publish,
    again: Publish,
    sent: Seq<SentPacket>,
    pos: (nat, nat),
)
    requires
        first.qospid is ExactlyOnce,
        again.qospid == first.qospid,
        v.pubrecs.len() < P,
    ensures
        ({
            let v1 = publish_outcome::<P, B, T>(v, first).0;
            let v2 = receives_send_outcome::<P, W>(v1, sent, pos).0;
            &&& !publish_outcome::<P, B, T>(v1, again).1
            &&& !publish_outcome::<P, B, T>(v2, again).1
        }),
{
    let pid = first.qospid->ExactlyOnce_0;
    lemma_qos2_publish_pending::<P, B, T>(v, first);
    let v1 = publish_outcome::<P, B, T>(v, first).0;
    lemma_pending_not_delivered::<P, B, T>(v1, again);
    assert(v1.pubrecs.contains(pid)) by {
        assert(v1.pubrecs[v.pubrecs.len() as int] == pid);
    }
    lemma_send_keeps_pending::<P, W>(v1, sent, pos, pid);
    lemma_pending_not_delivered::<P, B, T>(receives_send_outcome::<P, W>(v1, sent, pos).0, again);
}

/// A PUBREL completes the exchange it is for: where a PUBREC for `pid` waits,
/// the first such is done (the others stay in order) and a PUBCOMP for `pid`
/// is queued; the PUBACKs and PUBRECs to send are untouched. Where the
/// PUBCOMP queue is full nothing changes and `QueueFull` is returned.
pub proof fn lemma_pubrel_completes_exchange<const P: usize>(v: ReceivesView, pid: Pid)
    ensures
        ({
            let (v1, r) = pubrel_outcome::<P>(v, pid);
            &&& v1.pubacks == v.pubacks && v1.pubrecs == v.pubrecs
            &&& v.pubcomps.len() >= P ==> v1 == v && r is Err
            &&& v.pubcomps.len() < P ==> v1.pubcomps == v.pubcomps.push(pid) && r is Ok
            &&& v.pubcomps.len() < P && v.await_pubrel.contains(pid) ==> exists|k: int| {
                &&& 0 <= k < v.await_pubrel.len() && v.await_pubrel[k] == pid
                &&& (forall|j: int| 0 <= j < k ==> #[trigger] v.await_pubrel[j] != pid)
                &&& v1.await_pubrel == v.await_pubrel.remove(k)
            }
            &&& v.pubcomps.len() < P && !v.await_pubrel.contains(pid) ==> v1.await_pubrel == v.await_pubrel
        }),
{
    let f = pid_is(pid);
    lemma_first_index_cases(v.await_pubrel, f);
    if v.await_pubrel.contains(pid) {
        let k = choose|k: int| 0 <= k < v.await_pubrel.len() && v.await_pubrel[k] == pid;
        assert(f(v.await_pubrel[k]));
        let i = first_index(v.await_pubrel, f);
        assert forall|j: int| 0 <= j < i implies #[trigger] v.await_pubrel[j] != pid by {
            assert(!f(v.await_pubrel[j]));
        }
    } else {
        assert forall|k: int| 0 <= k < v.await_pubrel.len() implies !#[trigger] f(v.await_pubrel[k]) by {
            assert(!(v.await_pubrel[k] == pid));
        }
    }
}

/// Every PUBREL is answered: where the PUBCOMP queue has room, a PUBCOMP for
/// the same packet identifier is queued and the exchange's waiting PUBREC is
/// done.
pub proof fn lemma_pubrel_answered<const P: usize>(v: ReceivesView, pid: Pid)
    requires
        v.pubcomps.len() < P,
    ensures
        pubrel_outcome::<P>(v, pid).1 is Ok,
        pubrel_outcome::<P>(v, pid).0.pubcomps == v.pubcomps.push(pid),
        pubrel_outcome::<P>(v, pid).0.await_pubrel.len() == v.await_pubrel.len() - (if v.await_pubrel.contains(pid) { 1int } else { 0int }),
{
    let i = first_index(v.await_pubrel, pid_is(pid));
    if v.await_pubrel.contains(pid) {
        let k = choose|k: int| 0 <= k < v.await_pubrel.len() && v.await_pubrel[k] == pid;
        assert(pid_is(pid)(v.await_pubrel[k]));
        lemma_first_exists(v.await_pubrel, pid_is(pid), k);
    } else {
        lemma_no_index(v.await_pubrel, pid_is(pid));
    }
}

/// Whether `v` holds `pid`.
fn contains_pid(v: &Vec<Pid>, pid: Pid) -> (r: bool)
    ensures
        r == v@.contains(pid),
{
    let mut i: usize = 0;
    while i < v.len()
        invariant
            i <= v@.len(),
            forall|j: int| 0 <= j < i ==> v@[j] != pid,
        decreases v@.len() - i,
    {
        if v[i] == pid {
            return true;
        }
        i = i + 1;
    }
    false
}

/// The index of the first entry of `v` that is `pid`.
fn position_of(v: &Vec<Pid>, pid: Pid) -> (r: Option<usize>)
    ensures
        r matches Some(i) ==> is_first(v@, pid_is(pid), i as int),
        r is None ==> first_index(v@, pid_is(pid)) == -1,
{
    let mut i: usize = 0;
    while i < v.len()
        invariant
            i <= v@.len(),
            forall|j: int| 0 <= j < i ==> !(#[trigger] pid_is(pid)(v@[j])),
        decreases v@.len() - i,
    {
        if v[i] == pid {
            return Some(i);
        }
        i = i + 1;
    }
    proof { lemma_no_index(v@, pid_is(pid)); }
    None
}

/// The queues of received publishes, each holding at most `PARALLEL_RECEIVES` entries.
pub struct ReceivesInner<const PARALLEL_RECEIVES: usize> {
    send_puback: Vec<Pid>,
    send_pubrec: Vec<Pid>,
    await_pubrel: Vec<Pid>,
    send_pubcomp: Vec<Pid>,
}

impl<const P: usize> View for ReceivesInner<P> {
    type V = ReceivesView;

    closed spec fn view(&self) -> ReceivesView {
        ReceivesView {
            pubacks: self.send_puback@,
            pubrecs: self.send_pubrec@,
            await_pubrel: self.await_pubrel@,
            pubcomps: self.send_pubcomp@,
        }
    }
}

/// Every queue holds at most `P` entries.
pub open spec fn receives_wf<const P: usize>(v: ReceivesView) -> bool {
    &&& v.pubacks.len() <= P
    &&& v.pubrecs.len() <= P
    &&& v.await_pubrel.len() <= P
    &&& v.pubcomps.len() <= P
}

impl<const P: usize> ReceivesInner<P> {
    pub open spec fn wf(&self) -> bool {
        receives_wf::<P>(self@)
    }

    pub fn new() -> (s: Self)
        ensures
            s.wf(),
            s@ == (ReceivesView { pubacks: Seq::empty(), pubrecs: Seq::empty(), await_pubrel: Seq::empty(), pubcomps: Seq::empty() }),
    {
        let s = ReceivesInner { send_puback: Vec::new(), send_pubrec: Vec::new(), await_pubrel: Vec::new(), send_pubcomp: Vec::new() };
        proof {
            assert(s@.pubacks =~= Seq::<Pid>::empty());
            assert(s@.pubrecs =~= Seq::<Pid>::empty());
            assert(s@.await_pubrel =~= Seq::<Pid>::empty());
            assert(s@.pubcomps =~= Seq::<Pid>::empty());
        }
        s
    }

    /// For QoS 2: whether an exchange for `pid` is under way.
    pub fn is_dup(&self, pid: Pid) -> (r: bool)
        ensures
            r == is_pending(self@, pid),
    {
        contains_pid(&self.await_pubrel, pid) || contains_pid(&self.send_pubrec, pid) || contains_pid(&self.send_pubcomp, pid)
    }

    /// A QoS 2 publish arrived; returns the publish to hand on, if any, and
    /// the outcome; see `qos2_outcome`. A QoS 1 publish given here takes
    /// the same way.
    pub fn on_qos_2_publish<const B: usize, const T: usize>(&mut self, publish: &Publish) -> (r: (Option<ReceivedPublish<B, T>>, Result<(), MqttError>))
        requires
            old(self).wf(),
            !(publish.qospid is AtMostOnce),
        ensures
            final(self).wf(),
            ({
                let (v, delivered, res) = qos2_outcome::<P>(
                    old(self)@, publish.qospid.spec_pid()->Some_0, publish_fits::<B, T>(*publish), conversion_error::<T>(*publish));
                &&& final(self)@ == v
                &&& r.1 == res
                &&& r.0 is Some <==> delivered
                &&& r.0 matches Some(rp) ==> rp.copies(*publish) && rp.wf()
            }),
    {
        let pid = match publish.qospid.pid() {
            Some(p) => p,
            None => {
                proof { assert(false); }
                return (None, Ok(()));
            },
        };
        let is_dup = self.is_dup(pid);
        if self.send_pubrec.len() >= P {
            return (None, Err(MqttError::QueueFull(QosPid::AtLeastOnce(pid))));
        }
        self.send_pubrec.push(pid);
        if is_dup {
            (None, Ok(()))
        } else {
            match ReceivedPublish::<B, T>::try_from(publish) {
                Ok(rp) => (Some(rp), Ok(())),
                Err(e) => (None, Err(e)),
            }
        }
    }

    /// A publish arrived; returns the publish to hand on, if any, and the
    /// outcome; see `publish_outcome`.
    pub fn on_publish<const B: usize, const T: usize>(&mut self, publish: &Publish) -> (r: (Option<ReceivedPublish<B, T>>, Result<(), MqttError>))
        requires
            old(self).wf(),
        ensures
            final(self).wf(),
            ({
                let (v, delivered, res) = publish_outcome::<P, B, T>(old(self)@, *publish);
                &&& final(self)@ == v
                &&& r.1 == res
                &&& r.0 is Some <==> delivered
                &&& r.0 matches Some(rp) ==> rp.copies(*publish) && rp.wf()
            }),
    {
        match publish.qospid {
            QosPid::AtMostOnce => {
                match ReceivedPublish::<B, T>::try_from(publish) {
                    Ok(rp) => (Some(rp), Ok(())),
                    Err(e) => (None, Err(e)),
                }
            },
            QosPid::AtLeastOnce(pid) => {
                match ReceivedPublish::<B, T>::try_from(publish) {
                    Ok(rp) => {
                        if self.send_puback.len() >= P {
                            (Some(rp), Err(MqttError::QueueFull(QosPid::AtLeastOnce(pid))))
                        } else {
                            self.send_puback.push(pid);
                            (Some(rp), Ok(()))
                        }
                    },
                    Err(e) => (None, Err(e)),
                }
            },
            QosPid::ExactlyOnce(_) => self.on_qos_2_publish(publish),
        }
    }

    /// A PUBREL arrived; see `pubrel_outcome`.
    pub fn on_pubrel(&mut self, pid: Pid) -> (r: Result<(), MqttError>)
        requires
            old(self).wf(),
        ensures
            final(self).wf(),
            (final(self)@, r) == pubrel_outcome::<P>(old(self)@, pid),
    {
        if self.send_pubcomp.len() >= P {
            return Err(MqttError::QueueFull(QosPid::AtLeastOnce(pid)));
        }
        self.send_pubcomp.push(pid);
        match position_of(&self.await_pubrel, pid) {
            Some(index) => {
                proof { lemma_first_index(self.await_pubrel@, pid_is(pid), index as int); }
                self.await_pubrel.remove(index);
            },
            None => {},
        }
        Ok(())
    }

    /// Sends the acknowledgements owed; see `receives_send_outcome`.
    pub fn send_packets<const W: usize>(&mut self, w: &mut PacketWriter<W>) -> (r: Result<SendResult, MqttError>)
        requires
            old(self).wf(),
            old(w).wf(),
        ensures
            final(self).wf(),
            final(w).wf(),
            PacketWriter::<W>::appended(*old(w), *final(w)),
            ({
                let (v, sent, pos, res) = receives_send_outcome::<P, W>(old(self)@, old(w).log(), old(w).positions());
                &&& final(self)@ == v
                &&& final(w).log() == sent
                &&& final(w).positions() == pos
                &&& r == Ok::<SendResult, MqttError>(res)
            }),
            r == Ok::<SendResult, MqttError>(SendResult::SentAll) ==> {
                &&& final(self)@.pubacks.len() == 0
                &&& final(self)@.pubcomps.len() == 0
                &&& (final(self)@.pubrecs.len() == 0 || final(self)@.await_pubrel.len() >= P)
            },
    {
        proof { lemma_sent_all_sends_everything::<P, W>(old(self)@, old(w).log(), old(w).positions()); }
        let ghost w0 = *w;
        let a = send_acks::<P, W>(AckKind::Puback, &mut self.send_puback, &mut self.await_pubrel, w)?;
        if a == SendResult::PartiallySent {
            return Ok(a);
        }
        let ghost w1 = *w;
        let b = send_acks::<P, W>(AckKind::Pubrec, &mut self.send_pubrec, &mut self.await_pubrel, w)?;
        proof { PacketWriter::<W>::lemma_appended_trans(w0, w1, *w); }
        if b == SendResult::PartiallySent {
            return Ok(b);
        }
        let ghost w2 = *w;
        let c = send_acks::<P, W>(AckKind::Pubcomp, &mut self.send_pubcomp, &mut self.await_pubrel, w)?;
        proof { PacketWriter::<W>::lemma_appended_trans(w0, w2, *w); }
        Ok(c)
    }

    /// Number of PUBACKs waiting to be sent
    pub fn pending_pubacks(&self) -> (n: usize)
        ensures
            n == self@.pubacks.len(),
    {
        self.send_puback.len()
    }

    /// Number of PUBRECs waiting to be sent
    pub fn pending_pubrecs(&self) -> (n: usize)
        ensures
            n == self@.pubrecs.len(),
    {
        self.send_pubrec.len()
    }

    /// Number of PUBRECs sent and waiting for their PUBREL
    pub fn awaiting_pubrel(&self) -> (n: usize)
        ensures
            n == self@.await_pubrel.len(),
    {
        self.await_pubrel.len()
    }

    /// Number of PUBCOMPs waiting to be sent
    pub fn pending_pubcomps(&self) -> (n: usize)
        ensures
            n == self@.pubcomps.len(),
    {
        self.send_pubcomp.len()
    }
}

} // verus!
