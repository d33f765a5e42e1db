//! The protocol state of one client: the flows of outgoing and incoming
//! publishes, the subscribe requests and the keep-alive, driven by the
//! packets received and the rounds of sending.
use vstd::prelude::*;
use crate::packet::InPacket;
use crate::pid::{PidPool, pool_free};
use crate::ping::{PingState, PingStateInner, ping_send_outcome};
use crate::publish::{Outbox, PublishesInner, incoming_ack_outcome, pubrel_stage, send_packets_outcome};
use crate::receives::{ReceivedPublish, ReceivesInner, ReceivesView, publish_outcome, pubrel_outcome, receives_send_outcome};
use crate::state::{Instant, MqttEvent, SendResult};
use crate::subs::{AwaitAck, SubRequest, SubsInner, subs_send_outcome, suback_outcome, unsuback_outcome};
use crate::writer::{PacketWriter, SentPacket};
use crate::MqttError;

verus! {

/// The state of a session as one value: the outgoing publishes with the
/// events raised and the packets written, the incoming publishes, the
/// subscribe requests and the keep-alive.
pub struct SessionView<const B: usize, const T: usize> {
    pub outbox: Outbox<B, T>,
    pub receives: ReceivesView,
    pub queued: Seq<SubRequest<T>>,
    pub awaiting: Seq<AwaitAck<T>>,
    pub ping: PingStateInner,
}

/// One round of sending: the publishes, then the acknowledgements of
/// received publishes, then the subscribe requests, then the keep-alive,
/// each step only where the one before did not stop on a full send buffer.
pub open spec fn session_send_outcome<const P: usize, const B: usize, const T: usize, const W: usize>(
    v: SessionView<B, T>,
    now: Instant,
) -> (SessionView<B, T>, SendResult) {
    let (o1, r1) = send_packets_outcome::<P, B, T, W>(v.outbox, now);
    let v1 = SessionView { outbox: o1, ..v };
    if r1 == SendResult::PartiallySent {
        (v1, r1)
    } else {
        let (rv, sent2, pos2, r2) = receives_send_outcome::<P, W>(v.receives, o1.sent, o1.pos);
        let v2 = SessionView { outbox: Outbox { sent: sent2, pos: pos2, ..o1 }, receives: rv, ..v1 };
        if r2 == SendResult::PartiallySent {
            (v2, r2)
        } else {
            let (q, a, sent3, pos3, r3) = subs_send_outcome::<P, T, W>(v.queued, v.awaiting, sent2, pos2, now);
            let v3 = SessionView { outbox: Outbox { sent: sent3, pos: pos3, ..o1 }, queued: q, awaiting: a, ..v2 };
            if r3 == SendResult::PartiallySent {
                (v3, r3)
            } else {
                let (ps, sent4, pos4, r4) = ping_send_outcome::<W>(v.ping, sent3, pos3, now);
                (SessionView { outbox: Outbox { sent: sent4, pos: pos4, ..o1 }, ping: ps, ..v3 }, r4)
            }
        }
    }
}

/// The protocol state of one client, each queue holding at most `P` entries,
/// payloads of at most `B` bytes and topics of at most `T` bytes.
pub struct Session<const P: usize, const B: usize, const T: usize> {
    pub publishes: PublishesInner<P, B, T>,
    pub receives: ReceivesInner<P>,
    pub subs: SubsInner<T, P>,
    pub ping: PingState,
}

impl<const P: usize, const B: usize, const T: usize> Session<P, B, T> {
    pub open spec fn wf(&self) -> bool {
        &&& self.publishes.wf()
        &&& self.receives.wf()
        &&& self.subs.wf()
    }

    /// The session as one value, with the given events, packets written and
    /// send buffer positions.
    pub open spec fn view_with(&self, events: Seq<MqttEvent>, sent: Seq<SentPacket>, pos: (nat, nat)) -> SessionView<B, T> {
        SessionView {
            outbox: self.publishes.outbox(events, sent, pos),
            receives: self.receives@,
            queued: self.subs.queued(),
            awaiting: self.subs.awaiting(),
            ping: self.ping@,
        }
    }

    /// An empty session whose keep-alive counts from `now`.
    pub fn new(now: Instant) -> (s: Self)
        ensures
            s.wf(),
            s.view_with(Seq::empty(), Seq::empty(), (0, 0)) == (SessionView::<B, T> {
                outbox: Outbox {
                    sends: Seq::empty(),
                    pubacks: Seq::empty(),
                    pubrecs: Seq::empty(),
                    pubrels: Seq::empty(),
                    pubcomps: Seq::empty(),
                    events: Seq::empty(),
                    sent: Seq::empty(),
                    pos: (0, 0),
                },
                receives: ReceivesView { pubacks: Seq::empty(), pubrecs: Seq::empty(), await_pubrel: Seq::empty(), pubcomps: Seq::empty() },
                queued: Seq::empty(),
                awaiting: Seq::empty(),
                ping: PingStateInner::PingSuccess(now),
            }),
    {
        Session { publishes: PublishesInner::new(), receives: ReceivesInner::new(), subs: SubsInner::new(), ping: PingState::new(now) }
    }

    /// Hands a packet from the broker to the flow it belongs to; returns the
    /// received publish to hand on to the application, if any, and the
    /// outcome. A CONNACK belongs to the connection, not here.
    pub fn process_packet(&mut self, packet: &InPacket, pids: &mut PidPool, now: Instant, events: &mut Vec<MqttEvent>)
        -> (r: (Option<ReceivedPublish<B, T>>, Result<(), MqttError>))
        requires
            old(self).wf(),
            old(pids).wf(),
            !(packet is Connack),
        ensures
            final(self).wf(),
            final(pids).wf(),
            ({
                let before = old(self).view_with(old(events)@, Seq::empty(), (0, 0));
                let after = final(self).view_with(final(events)@, Seq::empty(), (0, 0));
                match *packet {
                    InPacket::Publish(p) => {
                        let (rv, delivered, res) = publish_outcome::<P, B, T>(before.receives, p);
                        &&& after == (SessionView { receives: rv, ..before })
                        &&& final(pids).view() == old(pids).view()
                        &&& r.1 == res
                        &&& r.0 is Some <==> delivered
                        &&& r.0 matches Some(rp) ==> rp.copies(p) && rp.wf()
                    },
                    InPacket::Pubrel(pid) => {
                        let (rv, res) = pubrel_outcome::<P>(before.receives, pid);
                        &&& after == (SessionView { receives: rv, ..before })
                        &&& final(pids).view() == old(pids).view()
                        &&& r == (None::<ReceivedPublish<B, T>>, res)
                    },
                    InPacket::Suback(s) => {
                        let (a, event) = suback_outcome::<T>(before.awaiting, s);
                        &&& r == (None::<ReceivedPublish<B, T>>, Ok::<(), MqttError>(()))
                        &&& event matches Some(e) ==> after == (SessionView { awaiting: a, outbox: Outbox { events: before.outbox.events.push(e), ..before.outbox }, ..before })
                            && final(pids).view() == pool_free(old(pids).view(), s.pid@)
                        &&& event is None ==> after == before && final(pids).view() == old(pids).view()
                    },
                    InPacket::Unsuback(pid) => {
                        let (a, event) = unsuback_outcome::<T>(before.awaiting, pid);
                        &&& r == (None::<ReceivedPublish<B, T>>, Ok::<(), MqttError>(()))
                        &&& event matches Some(e) ==> after == (SessionView { awaiting: a, outbox: Outbox { events: before.outbox.events.push(e), ..before.outbox }, ..before })
                            && final(pids).view() == pool_free(old(pids).view(), pid@)
                        &&& event is None ==> after == before && final(pids).view() == old(pids).view()
                    },
                    InPacket::Pingresp => {
                        &&& after == (SessionView { ping: PingStateInner::PingSuccess(now), ..before })
                        &&& final(pids).view() == old(pids).view()
                        &&& r == (None::<ReceivedPublish<B, T>>, Ok::<(), MqttError>(()))
                    },
                    _ => {
                        let (o, pv, res) = incoming_ack_outcome::<P, B, T>(before.outbox, old(pids).view(), *packet);
                        &&& after == (SessionView { outbox: o, ..before })
                        &&& final(pids).view() == pv
                        &&& r == (None::<ReceivedPublish<B, T>>, res)
                    },
                }
            }),
    {
        match packet {
            InPacket::Connack { .. } => {
                proof { assert(false); }
                (None, Ok(()))
            },
            InPacket::Publish(p) => self.receives.on_publish(p),
            InPacket::Puback(_) | InPacket::Pubrec(_) | InPacket::Pubcomp(_) => {
                let res = self.publishes.process_incoming_packet(packet, pids, events);
                (None, res)
            },
            InPacket::Pubrel(pid) => {
                let res = self.receives.on_pubrel(*pid);
                (None, res)
            },
            InPacket::Suback(s) => {
                let res = self.subs.on_suback(s, pids, events);
                (None, res)
            },
            InPacket::Unsuback(pid) => {
                self.subs.on_unsuback(*pid, pids, events);
                (None, Ok(()))
            },
            InPacket::Pingresp => {
                self.ping.on_ping_response(now);
                (None, Ok(()))
            },
            InPacket::Unexpected => (None, Ok(())),
        }
    }

    /// One round of sending; see `session_send_outcome`.
    pub fn send_packets<const W: usize>(&mut self, w: &mut PacketWriter<W>, now: Instant, events: &mut Vec<MqttEvent>)
        -> (r: Result<SendResult, MqttError>)
        requires
            old(self).wf(),
            old(w).wf(),
            T <= 65535,
            B <= 200_000_000,
            !pubrel_stage::<P, B, T, W>(old(self).publishes.outbox(old(events)@, old(w).log(), old(w).positions()), now).panics,
        ensures
            final(self).wf(),
            final(w).wf(),
            PacketWriter::<W>::appended(*old(w), *final(w)),
            ({
                let (v, res) = session_send_outcome::<P, B, T, W>(old(self).view_with(old(events)@, old(w).log(), old(w).positions()), now);
                &&& final(self).view_with(final(events)@, final(w).log(), final(w).positions()) == v
                &&& r == Ok::<SendResult, MqttError>(res)
            }),
    {
        let ghost w0 = *w;
        let a = self.publishes.send_packets(w, now, events)?;
        if a == SendResult::PartiallySent {
            return Ok(a);
        }
        let ghost w1 = *w;
        let b = self.receives.send_packets(w)?;
        proof { PacketWriter::<W>::lemma_appended_trans(w0, w1, *w); }
        if b == SendResult::PartiallySent {
            return Ok(b);
        }
        let ghost w2 = *w;
        let c = self.subs.send(w, now)?;
        proof { PacketWriter::<W>::lemma_appended_trans(w0, w2, *w); }
        if c == SendResult::PartiallySent {
            return Ok(c);
        }
        let ghost w3 = *w;
        let d = self.ping.send(w, now)?;
        proof { PacketWriter::<W>::lemma_appended_trans(w0, w3, *w); }
        Ok(d)
    }

    /// Whether the next round of sending would move a PUBREL without unique
    /// id to the PUBCOMP queue, where the code panics; `send_packets` is
    /// for the rounds where it would not.
    pub fn pubrel_would_panic<const W: usize>(&self, w: &PacketWriter<W>, events: &Vec<MqttEvent>, now: Instant) -> (r: bool)
        requires
            self.wf(),
            w.wf(),
        ensures
            r == pubrel_stage::<P, B, T, W>(self.publishes.outbox(events@, w.log(), w.positions()), now).panics,
    {
        self.publishes.pubrel_would_panic(w, now)
    }
}

} // verus!
