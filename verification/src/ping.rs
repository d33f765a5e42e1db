//! Keep-alive: PINGREQs sent at half the keep alive interval, and again where
//! the broker does not answer.
use vstd::prelude::*;
use crate::state::{Instant, SendResult, elapsed, spec_elapsed};
use crate::writer::{OutPacket, PacketWriter, SentPacket, sent_bytes, lemma_bytes_of_push};
use crate::MqttError;

verus! {

/// Time after which an unanswered PINGREQ is sent again (5 s)
pub const PING_RETRY_DURATION: u64 = 5_000_000;

/// The keep alive interval announced to the broker, in microseconds
pub const KEEP_ALIVE_DURATION: u64 = 60_000_000;

/// Added to a pause so that the ping is due when the pause ends (10 ms)
pub const ERROR_CORRECTING_DURATION: u64 = 10_000;

/// Where the keep-alive exchange stands.
#[derive(Debug, Clone, Copy, PartialEq, Eq, Structural)]
pub enum PingStateInner {
    /// The last PINGRESP (or the start) was at this instant
    PingSuccess(Instant),
    /// A PINGREQ was sent and no answer came yet
    AwaitingResponse { last_success: Instant, ping_request_sent: Instant },
}

/// Whether a PINGREQ is due at `now`: half the keep alive interval after the
/// last success, or the retry time after an unanswered PINGREQ.
pub open spec fn ping_due(s: PingStateInner, now: Instant) -> bool {
    match s {
        PingStateInner::PingSuccess(t) => spec_elapsed(now, t) > KEEP_ALIVE_DURATION / 2,
        PingStateInner::AwaitingResponse { ping_request_sent, .. } => spec_elapsed(now, ping_request_sent) > PING_RETRY_DURATION,
    }
}

/// How long to wait from `now` until the next PINGREQ is due: zero where it
/// is due, else the time left plus `ERROR_CORRECTING_DURATION`.
pub open spec fn ping_pause_at(s: PingStateInner, now: Instant) -> u64 {
    match s {
        PingStateInner::PingSuccess(t) => {
            let d = spec_elapsed(now, t);
            if d > KEEP_ALIVE_DURATION / 2 { 0 } else { (KEEP_ALIVE_DURATION / 2 - d + ERROR_CORRECTING_DURATION) as u64 }
        },
        PingStateInner::AwaitingResponse { ping_request_sent, .. } => {
            let d = spec_elapsed(now, ping_request_sent);
            if d > PING_RETRY_DURATION { 0 } else { (PING_RETRY_DURATION - d + ERROR_CORRECTING_DURATION) as u64 }
        },
    }
}

/// The state after a PINGREQ went out at `now`.
pub open spec fn after_ping_sent(s: PingStateInner, now: Instant) -> PingStateInner {
    match s {
        PingStateInner::PingSuccess(t) => PingStateInner::AwaitingResponse { last_success: t, ping_request_sent: now },
        PingStateInner::AwaitingResponse { last_success, .. } => PingStateInner::AwaitingResponse { last_success, ping_request_sent: now },
    }
}

/// Sending a PINGREQ where one is due: the new state, the packets written,
/// the positions and the outcome (`PartiallySent`, the state kept, where the
/// two bytes do not fit the send buffer).
pub open spec fn ping_send_outcome<const W: usize>(s: PingStateInner, sent: Seq<SentPacket>, pos: (nat, nat), now: Instant)
    -> (PingStateInner, Seq<SentPacket>, (nat, nat), SendResult)
{
    if !ping_due(s, now) {
        (s, sent, pos, SendResult::SentAll)
    } else if 2 <= PacketWriter::<W>::room_at(pos) {
        (after_ping_sent(s, now), sent.push(SentPacket::Pingreq), PacketWriter::<W>::positions_after(pos, 2), SendResult::SentAll)
    } else {
        (s, sent, PacketWriter::<W>::flip_positions(pos), SendResult::PartiallySent)
    }
}

/// The keep-alive state of a connection.
pub struct PingState {
    inner: PingStateInner,
}

impl View for PingState {
    type V = PingStateInner;

    closed spec fn view(&self) -> PingStateInner {
        self.inner
    }
}

impl PingState {
    /// Starts counting from `now` as from a successful ping.
    pub fn new(now: Instant) -> (s: Self)
        ensures
            s@ == PingStateInner::PingSuccess(now),
    {
        PingState { inner: PingStateInner::PingSuccess(now) }
    }

    /// How long to wait until the next PINGREQ is due; see `ping_pause_at`.
    pub fn ping_pause(&self, now: Instant) -> (d: u64)
        ensures
            d == ping_pause_at(self@, now),
    {
        match self.inner {
            PingStateInner::PingSuccess(t) => {
                let d = elapsed(now, t);
                if d > KEEP_ALIVE_DURATION / 2 { 0 } else { KEEP_ALIVE_DURATION / 2 - d + ERROR_CORRECTING_DURATION }
            },
            PingStateInner::AwaitingResponse { ping_request_sent, .. } => {
                let d = elapsed(now, ping_request_sent);
                if d > PING_RETRY_DURATION { 0 } else { PING_RETRY_DURATION - d + ERROR_CORRECTING_DURATION }
            },
        }
    }

    /// Sends a PINGREQ where one is due. `PartiallySent`, with the state
    /// kept, where it does not fit the send buffer.
    pub fn send<const W: usize>(&mut self, w: &mut PacketWriter<W>, now: Instant) -> (r: Result<SendResult, MqttError>)
        requires
            old(w).wf(),
        ensures
            final(w).wf(),
            PacketWriter::<W>::appended(*old(w), *final(w)),
            ({
                let (st, sent, pos, res) = ping_send_outcome::<W>(old(self)@, old(w).log(), old(w).positions(), now);
                &&& final(self)@ == st
                &&& final(w).log() == sent
                &&& final(w).positions() == pos
                &&& r == Ok::<SendResult, MqttError>(res)
            }),
            !ping_due(old(self)@, now) ==> final(self)@ == old(self)@ && *final(w) == *old(w)
                && r == Ok::<SendResult, MqttError>(SendResult::SentAll),
            ping_due(old(self)@, now) && 2 <= old(w).room() ==>
                (final(self)@ matches PingStateInner::AwaitingResponse { ping_request_sent, .. } && ping_request_sent == now),
            ping_due(old(self)@, now) && 2 <= old(w).room() ==> final(self)@ == after_ping_sent(old(self)@, now)
                && final(w).log() == old(w).log().push(SentPacket::Pingreq)
                && final(w).pending() == old(w).pending() + seq![0xC0u8, 0u8]
                && final(w).positions() == PacketWriter::<W>::positions_after(old(w).positions(), 2)
                && r == Ok::<SendResult, MqttError>(SendResult::SentAll),
            ping_due(old(self)@, now) && 2 > old(w).room() ==> final(self)@ == old(self)@
                && final(w).log() == old(w).log()
                && final(w).pending() == old(w).pending()
                && final(w).positions() == PacketWriter::<W>::flip_positions(old(w).positions())
                && r == Ok::<SendResult, MqttError>(SendResult::PartiallySent),
    {
        let due = match self.inner {
            PingStateInner::PingSuccess(t) => elapsed(now, t) > KEEP_ALIVE_DURATION / 2,
            PingStateInner::AwaitingResponse { ping_request_sent, .. } => elapsed(now, ping_request_sent) > PING_RETRY_DURATION,
        };
        if !due {
            proof { PacketWriter::<W>::lemma_appended_refl(*w); }
            return Ok(SendResult::SentAll);
        }
        let ghost w0 = *w;
        let sent = w.try_write_packet(&OutPacket::Pingreq)?;
        proof {
            if sent {
                lemma_bytes_of_push(Seq::empty(), SentPacket::Pingreq);
                assert(w.log().skip(w0.log().len() as int) =~= Seq::<SentPacket>::empty().push(SentPacket::Pingreq));
                assert(w.log().take(w0.log().len() as int) =~= w0.log());
                assert(Seq::<u8>::empty() + sent_bytes(SentPacket::Pingreq) =~= sent_bytes(SentPacket::Pingreq));
            } else {
                PacketWriter::<W>::lemma_appended_refl(*w);
            }
        }
        if sent {
            self.inner = match self.inner {
                PingStateInner::PingSuccess(t) => PingStateInner::AwaitingResponse { last_success: t, ping_request_sent: now },
                PingStateInner::AwaitingResponse { last_success, .. } => PingStateInner::AwaitingResponse { last_success, ping_request_sent: now },
            };
            Ok(SendResult::SentAll)
        } else {
            Ok(SendResult::PartiallySent)
        }
    }

    /// A PINGRESP arrived at `now`.
    pub fn on_ping_response(&mut self, now: Instant)
        ensures
            final(self)@ == PingStateInner::PingSuccess(now),
    {
        self.inner = PingStateInner::PingSuccess(now);
    }
}

/// When a PINGREQ is due: more than half the keep alive interval after the
/// last success, or more than the retry time after an unanswered PINGREQ;
/// until then the pause is the time left plus 10 ms, and zero once due.
pub proof fn lemma_ping_due_times(s: PingStateInner, now: Instant)
    ensures
        s matches PingStateInner::PingSuccess(t) ==> (ping_due(s, now) <==> now > t + KEEP_ALIVE_DURATION / 2),
        s matches PingStateInner::AwaitingResponse { ping_request_sent, .. } ==> (ping_due(s, now) <==> now > ping_request_sent + PING_RETRY_DURATION),
        s matches PingStateInner::PingSuccess(t) ==> (t <= now <= t + KEEP_ALIVE_DURATION / 2
            ==> ping_pause_at(s, now) == t + KEEP_ALIVE_DURATION / 2 + ERROR_CORRECTING_DURATION - now),
        s matches PingStateInner::AwaitingResponse { ping_request_sent, .. } ==> (ping_request_sent <= now <= ping_request_sent + PING_RETRY_DURATION
            ==> ping_pause_at(s, now) == ping_request_sent + PING_RETRY_DURATION + ERROR_CORRECTING_DURATION - now),
        ping_due(s, now) ==> ping_pause_at(s, now) == 0,
{
}

/// A PINGREQ sent at `now` is recorded as sent at `now`, whatever was sent
/// before, and the last success is kept: the next one is due only once the
/// retry time has passed since `now`, and the pause until then counts from
/// `now`.
pub proof fn lemma_ping_sent_stamps_now(s: PingStateInner, now: Instant, later: Instant)
    ensures
        after_ping_sent(s, now) matches PingStateInner::AwaitingResponse { last_success, ping_request_sent }
            && ping_request_sent == now
            && last_success == (match s {
                PingStateInner::PingSuccess(t) => t,
                PingStateInner::AwaitingResponse { last_success, .. } => last_success,
            }),
        now <= later <= now + PING_RETRY_DURATION ==> !ping_due(after_ping_sent(s, now), later)
            && ping_pause_at(after_ping_sent(s, now), later) == now + PING_RETRY_DURATION + ERROR_CORRECTING_DURATION - later,
        later > now + PING_RETRY_DURATION ==> ping_due(after_ping_sent(s, now), later),
{
}

/// The pause and the due test agree: the pause is zero exactly where a
/// PINGREQ is due, and once a non-zero pause has passed the PINGREQ is due.
pub proof fn lemma_pause_then_due(s: PingStateInner, now: Instant)
    ensures
        ping_pause_at(s, now) == 0 <==> ping_due(s, now),
        ({
            let stamp = match s {
                PingStateInner::PingSuccess(t) => t,
                PingStateInner::AwaitingResponse { ping_request_sent, .. } => ping_request_sent,
            };
            stamp <= now && now + ping_pause_at(s, now) <= u64::MAX
                ==> ping_due(s, (now + ping_pause_at(s, now)) as u64)
        }),
{
}

} // verus!
