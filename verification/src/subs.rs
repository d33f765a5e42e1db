//! Subscribe and unsubscribe requests and the acknowledgements that answer them.
use vstd::prelude::*;
use vstd::utf8::encode_utf8;
use crate::packet::{Pid, QoS, Suback, SubscribeReturnCodes};
use crate::pid::{PidPool, pool_take, pool_free, pool_exhausted};
use crate::publish::ResendPass;
use crate::state::{Instant, MqttEvent, SendResult, RESEND_DURATION, elapsed, spec_elapsed, overdue};
use crate::unique_id::UniqueID;
use crate::writer::{OutPacket, PacketWriter, SentPacket, sent_bytes, lemma_bytes_of_push};
use crate::codec::topic_views;
use crate::seqs::{is_first, first_index, lemma_first_index, lemma_first_exists, lemma_no_index, lemma_remove_only};
use crate::MqttError;

verus! {

/// Most topics one request carries.
pub const MAX_REQUEST_TOPICS: usize = 5;

/// What a request asks for.
#[derive(Debug, Clone, Copy, PartialEq, Eq, Structural)]
pub enum RequestType {
    Subscribe(QoS),
    Unsubscribe,
}

impl RequestType {
    pub fn is_unsub(&self) -> (r: bool)
        ensures
            r == (*self is Unsubscribe),
    {
        match self {
            RequestType::Subscribe(_) => false,
            RequestType::Unsubscribe => true,
        }
    }
}

/// At most `MAX_REQUEST_TOPICS` topics, each of at most `T` bytes.
pub open spec fn topics_fit<const T: usize>(topics: Seq<&str>) -> bool {
    &&& topics.len() <= MAX_REQUEST_TOPICS
    &&& forall|i: int| 0 <= i < topics.len() ==> encode_utf8(#[trigger] topics[i]@).len() <= T
}

/// The characters of each topic.
pub open spec fn str_views(topics: Seq<&str>) -> Seq<Seq<char>> {
    topics.map_values(|t: &str| t@)
}

/// A subscribe or unsubscribe request with its packet identifier.
pub struct SubRequest<const TOPIC: usize> {
    pub topics: Vec<String>,
    pub request_type: RequestType,
    pub pid: Pid,
    pub unique_id: UniqueID,
}

impl<const TOPIC: usize> SubRequest<TOPIC> {
    /// At most `MAX_REQUEST_TOPICS` topics, each of at most `TOPIC` bytes.
    pub open spec fn wf(&self) -> bool {
        &&& self.topics@.len() <= MAX_REQUEST_TOPICS
        &&& forall|i: int| 0 <= i < self.topics@.len() ==> encode_utf8(#[trigger] self.topics@[i]@).len() <= TOPIC
    }

    /// The packet this request is sent as.
    pub open spec fn model(&self) -> SentPacket {
        match self.request_type {
            RequestType::Subscribe(qos) =>
                SentPacket::Subscribe { pid: self.pid@, topics: topic_views(self.topics@), qos: Seq::new(self.topics@.len(), |i: int| qos) },
            RequestType::Unsubscribe => SentPacket::Unsubscribe { pid: self.pid@, topics: topic_views(self.topics@) },
        }
    }

    /// The SUBSCRIBE (every topic at the requested QoS) or UNSUBSCRIBE packet
    /// of this request.
    pub fn create_packet(&self) -> (p: OutPacket<'_>)
        ensures
            p.model() == self.model(),
            self.wf() && TOPIC <= 65535 ==> p.encodable(),
            self.request_type matches RequestType::Subscribe(q) ==>
                p matches OutPacket::Subscribe { pid, topics, qos } && pid == self.pid && topics@ == self.topics@ && qos == q,
            self.request_type is Unsubscribe ==>
                (p matches OutPacket::Unsubscribe { pid, topics } && pid == self.pid && topics@ == self.topics@),
    {
        match self.request_type {
            RequestType::Subscribe(qos) => OutPacket::Subscribe { pid: self.pid, topics: &self.topics, qos },
            RequestType::Unsubscribe => OutPacket::Unsubscribe { pid: self.pid, topics: &self.topics },
        }
    }
}

/// A subscribe request asks for the QoS it was made with, for every one of
/// its topics, under its packet identifier; an unsubscribe request names its
/// topics under its packet identifier.
pub proof fn lemma_request_packet_keeps_qos<const T: usize>(r: SubRequest<T>)
    ensures
        r.request_type matches RequestType::Subscribe(q) ==> r.model() matches SentPacket::Subscribe { pid, topics, qos }
            && pid == r.pid@
            && topics == topic_views(r.topics@)
            && qos.len() == r.topics@.len()
            && (forall|i: int| 0 <= i < qos.len() ==> qos[i] == q),
        r.request_type is Unsubscribe ==> (r.model() matches SentPacket::Unsubscribe { pid, topics }
            && pid == r.pid@ && topics == topic_views(r.topics@)),
{
}

/// A request sent and waiting for its SUBACK or UNSUBACK.
pub struct AwaitAck<const TOPIC: usize> {
    pub request: SubRequest<TOPIC>,
    pub request_sent: Instant,
}

/// The state of a pass over the queued requests: the requests queued and
/// waiting, the packets sent, the send buffer's positions, and whether the
/// pass stopped early.
pub struct RequestPass<const T: usize> {
    pub queued: Seq<SubRequest<T>>,
    pub awaiting: Seq<AwaitAck<T>>,
    pub sent: Seq<SentPacket>,
    pub pos: (nat, nat),
    pub partial: bool,
}

/// A pass over the queued requests, front first: it stops where `P`
/// requests already wait for their acknowledgement, or where a request does
/// not fit the send buffer; a sent request waits for its acknowledgement.
pub open spec fn request_pass<const P: usize, const T: usize, const W: usize>(s: RequestPass<T>, now: Instant) -> RequestPass<T>
    decreases s.queued.len(),
{
    if s.queued.len() == 0 {
        s
    } else if s.awaiting.len() >= P {
        RequestPass { partial: true, ..s }
    } else {
        let req = s.queued[0];
        let len = sent_bytes(req.model()).len();
        if len > PacketWriter::<W>::room_at(s.pos) {
            RequestPass { pos: PacketWriter::<W>::flip_positions(s.pos), partial: true, ..s }
        } else {
            request_pass::<P, T, W>(
                RequestPass {
                    queued: s.queued.drop_first(),
                    awaiting: s.awaiting.push(AwaitAck { request: req, request_sent: now }),
                    sent: s.sent.push(req.model()),
                    pos: PacketWriter::<W>::positions_after(s.pos, len),
                    partial: false,
                },
                now,
            )
        }
    }
}

/// A pass sends the queued requests front first, each as its own packet,
/// and each sent request then waits for its acknowledgement stamped `now`:
/// the `n` requests sent are the first `n` queued, in order, and leave the
/// queue; what waited before still waits.
pub proof fn lemma_request_pass_sends_in_order<const P: usize, const T: usize, const W: usize>(s: RequestPass<T>, now: Instant)
    ensures
        ({
            let r = request_pass::<P, T, W>(s, now);
            let n = r.awaiting.len() - s.awaiting.len();
            &&& 0 <= n <= s.queued.len()
            &&& r.awaiting.subrange(0, s.awaiting.len() as int) == s.awaiting
            &&& r.sent.subrange(0, s.sent.len() as int) == s.sent
            &&& r.sent.len() == s.sent.len() + n
            &&& r.queued == s.queued.skip(n)
            &&& forall|j: int| 0 <= j < n ==> r.awaiting[s.awaiting.len() + j] == (AwaitAck { request: #[trigger] s.queued[j], request_sent: now })
                && r.sent[s.sent.len() + j] == s.queued[j].model()
        }),
    decreases s.queued.len(),
{
    let r = request_pass::<P, T, W>(s, now);
    if s.queued.len() > 0 && s.awaiting.len() < P && sent_bytes(s.queued[0].model()).len() <= PacketWriter::<W>::room_at(s.pos) {
        let req = s.queued[0];
        let len = sent_bytes(req.model()).len();
        let next = RequestPass {
            queued: s.queued.drop_first(),
            awaiting: s.awaiting.push(AwaitAck { request: req, request_sent: now }),
            sent: s.sent.push(req.model()),
            pos: PacketWriter::<W>::positions_after(s.pos, len),
            partial: false,
        };
        lemma_request_pass_sends_in_order::<P, T, W>(next, now);
        let n1 = r.awaiting.len() - next.awaiting.len();
        assert(r.awaiting.subrange(0, s.awaiting.len() as int) =~= r.awaiting.subrange(0, next.awaiting.len() as int).subrange(0, s.awaiting.len() as int));
        assert(r.sent.subrange(0, s.sent.len() as int) =~= r.sent.subrange(0, next.sent.len() as int).subrange(0, s.sent.len() as int));
        assert(r.queued =~= s.queued.skip(n1 + 1));
        assert forall|j: int| 0 <= j < n1 + 1 implies r.awaiting[s.awaiting.len() + j] == (AwaitAck { request: #[trigger] s.queued[j], request_sent: now })
            && r.sent[s.sent.len() + j] == s.queued[j].model() by {
            if j == 0 {
                assert(r.awaiting[s.awaiting.len() as int] == r.awaiting.subrange(0, next.awaiting.len() as int)[s.awaiting.len() as int]);
                assert(r.sent[s.sent.len() as int] == r.sent.subrange(0, next.sent.len() as int)[s.sent.len() as int]);
            } else {
                assert(next.queued[j - 1] == s.queued[j]);
                assert(r.awaiting[next.awaiting.len() + (j - 1)] == (AwaitAck { request: next.queued[j - 1], request_sent: now }));
            }
        }
    } else {
        assert(r.awaiting.subrange(0, s.awaiting.len() as int) =~= s.awaiting);
        assert(r.sent.subrange(0, s.sent.len() as int) =~= s.sent);
        assert(r.queued =~= s.queued.skip(0));
    }
}

/// A resend pass over the requests waiting for their acknowledgement: every
/// request sent more than `RESEND_DURATION` ago is sent again and stamped
/// `now`; a request that does not fit the send buffer stops the pass.
pub open spec fn resend_request_pass<const T: usize, const W: usize>(
    s: ResendPass<AwaitAck<T>>,
    rest: Seq<AwaitAck<T>>,
    now: Instant,
) -> ResendPass<AwaitAck<T>>
    decreases rest.len(),
{
    if rest.len() == 0 {
        s
    } else {
        let e = rest[0];
        if spec_elapsed(now, e.request_sent) <= RESEND_DURATION {
            resend_request_pass::<T, W>(ResendPass { done: s.done.push(e), ..s }, rest.drop_first(), now)
        } else {
            let len = sent_bytes(e.request.model()).len();
            if len > PacketWriter::<W>::room_at(s.pos) {
                ResendPass { done: s.done + rest, pos: PacketWriter::<W>::flip_positions(s.pos), partial: true, ..s }
            } else {
                resend_request_pass::<T, W>(
                    ResendPass {
                        done: s.done.push(AwaitAck { request_sent: now, ..e }),
                        sent: s.sent.push(e.request.model()),
                        pos: PacketWriter::<W>::positions_after(s.pos, len),
                        ..s
                    },
                    rest.drop_first(),
                    now,
                )
            }
        }
    }
}

/// The requests of the overdue entries of `rest`, in order.
pub open spec fn overdue_request_packets<const T: usize>(rest: Seq<AwaitAck<T>>, now: Instant) -> Seq<SentPacket>
    decreases rest.len(),
{
    if rest.len() == 0 {
        Seq::empty()
    } else {
        (if overdue(rest[0].request_sent, now) { seq![rest[0].request.model()] } else { Seq::empty() })
            + overdue_request_packets::<T>(rest.drop_first(), now)
    }
}

/// `rest` with every overdue entry stamped `now`.
pub open spec fn stamp_overdue_requests<const T: usize>(rest: Seq<AwaitAck<T>>, now: Instant) -> Seq<AwaitAck<T>> {
    Seq::new(rest.len(), |i: int| if overdue(rest[i].request_sent, now) { AwaitAck { request_sent: now, ..rest[i] } } else { rest[i] })
}

/// An overdue request is sent again: a pass that did not stop on a full send
/// buffer has sent the requests of every overdue entry, in order and nothing
/// else, and stamped those entries `now`, the others unchanged.
pub proof fn lemma_resend_request_pass_resends_overdue<const T: usize, const W: usize>(
    s: ResendPass<AwaitAck<T>>,
    rest: Seq<AwaitAck<T>>,
    now: Instant,
)
    ensures
        ({
            let r = resend_request_pass::<T, W>(s, rest, now);
            !r.partial ==> r.sent == s.sent + overdue_request_packets::<T>(rest, now)
                && r.done == s.done + stamp_overdue_requests::<T>(rest, now)
        }),
    decreases rest.len(),
{
    if rest.len() == 0 {
        assert(s.sent + Seq::<SentPacket>::empty() =~= s.sent);
        assert(s.done + stamp_overdue_requests::<T>(rest, now) =~= s.done);
    } else {
        let e = rest[0];
        let tail = rest.drop_first();
        let st = if overdue(e.request_sent, now) { AwaitAck { request_sent: now, ..e } } else { e };
        assert(stamp_overdue_requests::<T>(rest, now) =~= seq![st] + stamp_overdue_requests::<T>(tail, now));
        if spec_elapsed(now, e.request_sent) <= RESEND_DURATION {
            let s2 = ResendPass { done: s.done.push(e), ..s };
            lemma_resend_request_pass_resends_overdue::<T, W>(s2, tail, now);
            assert(overdue_request_packets::<T>(rest, now) =~= overdue_request_packets::<T>(tail, now));
            assert(s.done.push(e) + stamp_overdue_requests::<T>(tail, now) =~= s.done + (seq![st] + stamp_overdue_requests::<T>(tail, now)));
        } else {
            let len = sent_bytes(e.request.model()).len();
            if len <= PacketWriter::<W>::room_at(s.pos) {
                let s2 = ResendPass {
                    done: s.done.push(AwaitAck { request_sent: now, ..e }),
                    sent: s.sent.push(e.request.model()),
                    pos: PacketWriter::<W>::positions_after(s.pos, len),
                    ..s
                };
                lemma_resend_request_pass_resends_overdue::<T, W>(s2, tail, now);
                assert(s.sent.push(e.request.model()) + overdue_request_packets::<T>(tail, now)
                    =~= s.sent + overdue_request_packets::<T>(rest, now));
                assert(s2.done + stamp_overdue_requests::<T>(tail, now) =~= s.done + (seq![st] + stamp_overdue_requests::<T>(tail, now)));
            }
        }
    }
}

/// What a SUBACK answers a subscribe request of `n` topics with: failure
/// where the broker refused one of them, else the requested QoS.
pub open spec fn suback_result(codes: Seq<SubscribeReturnCodes>, n: nat, qos: QoS) -> Result<QoS, MqttError> {
    if exists|i: int| 0 <= i < codes.len() && i < n && codes[i] == SubscribeReturnCodes::Failure {
        Err(MqttError::SubscribeOrUnsubscribeFailed)
    } else {
        Ok(qos)
    }
}

/// Whether an entry waits for the SUBACK of `pid`.
pub open spec fn suback_for<const T: usize>(pid: Pid) -> spec_fn(AwaitAck<T>) -> bool {
    |a: AwaitAck<T>| a.request.pid == pid && a.request.request_type is Subscribe
}

/// Whether an entry waits for the UNSUBACK of `pid`.
pub open spec fn unsuback_for<const T: usize>(pid: Pid) -> spec_fn(AwaitAck<T>) -> bool {
    |a: AwaitAck<T>| a.request.pid == pid && a.request.request_type is Unsubscribe
}

/// A SUBACK arrives: the first subscribe request waiting for it is answered
/// (the waiting requests without it, and the event that answers it); a SUBACK
/// that no request waits for changes nothing.
pub open spec fn suback_outcome<const T: usize>(awaiting: Seq<AwaitAck<T>>, suback: Suback) -> (Seq<AwaitAck<T>>, Option<MqttEvent>) {
    let i = first_index(awaiting, suback_for::<T>(suback.pid));
    if i >= 0 {
        let req = awaiting[i].request;
        let qos = req.request_type->Subscribe_0;
        (awaiting.remove(i), Some(MqttEvent::SubscribeDone(req.unique_id, suback_result(suback.return_codes@, req.topics@.len(), qos))))
    } else {
        (awaiting, None)
    }
}

/// A SUBACK answers its request once: where at most one subscribe request
/// waits for a packet identifier, a second SUBACK for it changes nothing and
/// raises no event.
pub proof fn lemma_suback_answers_once<const T: usize>(awaiting: Seq<AwaitAck<T>>, first: Suback, again: Suback)
    requires
        again.pid == first.pid,
        forall|i: int, j: int| 0 <= i < awaiting.len() && 0 <= j < awaiting.len()
            && suback_for::<T>(first.pid)(#[trigger] awaiting[i]) && suback_for::<T>(first.pid)(#[trigger] awaiting[j]) ==> i == j,
    ensures
        ({
            let after = suback_outcome::<T>(awaiting, first).0;
            suback_outcome::<T>(after, again) == (after, None::<MqttEvent>)
        }),
{
    if first_index(awaiting, suback_for::<T>(first.pid)) >= 0 {
        lemma_remove_only(awaiting, suback_for::<T>(first.pid));
    }
}

/// An UNSUBACK for `pid` arrives: the first unsubscribe request waiting for
/// it is answered with `UnsubscribeDone`; an UNSUBACK that no request waits
/// for changes nothing.
pub open spec fn unsuback_outcome<const T: usize>(awaiting: Seq<AwaitAck<T>>, pid: Pid) -> (Seq<AwaitAck<T>>, Option<MqttEvent>) {
    let i = first_index(awaiting, unsuback_for::<T>(pid));
    if i >= 0 {
        (awaiting.remove(i), Some(MqttEvent::UnsubscribeDone(awaiting[i].request.unique_id)))
    } else {
        (awaiting, None)
    }
}

/// An UNSUBACK answers the request it is for: where some unsubscribe
/// request for `pid` waits, the first of them is removed, the others kept in
/// order, and `UnsubscribeDone` carries that request's unique id; where none
/// waits, nothing changes and no event is raised. Subscribe requests are
/// never answered by an UNSUBACK.
pub proof fn lemma_unsuback_answers_its_request<const T: usize>(awaiting: Seq<AwaitAck<T>>, pid: Pid)
    ensures
        ({
            let (rest, event) = unsuback_outcome::<T>(awaiting, pid);
            &&& (exists|k: int| 0 <= k < awaiting.len() && awaiting[k].request.pid == pid && awaiting[k].request.request_type == RequestType::Unsubscribe)
                ==> exists|k: int| {
                    &&& 0 <= k < awaiting.len()
                    &&& awaiting[k].request.pid == pid
                    &&& awaiting[k].request.request_type == RequestType::Unsubscribe
                    &&& (forall|j: int| 0 <= j < k ==> !(awaiting[j].request.pid == pid && awaiting[j].request.request_type == RequestType::Unsubscribe))
                    &&& rest == awaiting.remove(k)
                    &&& event == Some(MqttEvent::UnsubscribeDone(awaiting[k].request.unique_id))
                }
            &&& !(exists|k: int| 0 <= k < awaiting.len() && awaiting[k].request.pid == pid && awaiting[k].request.request_type == RequestType::Unsubscribe)
                ==> rest == awaiting && event is None
        }),
{
    let f = unsuback_for::<T>(pid);
    if exists|k: int| 0 <= k < awaiting.len() && awaiting[k].request.pid == pid && awaiting[k].request.request_type == RequestType::Unsubscribe {
        let k = choose|k: int| 0 <= k < awaiting.len() && awaiting[k].request.pid == pid && awaiting[k].request.request_type == RequestType::Unsubscribe;
        assert(f(awaiting[k]));
        lemma_first_exists(awaiting, f, k);
        let i = first_index(awaiting, f);
        lemma_first_index(awaiting, f, i);
        assert forall|j: int| 0 <= j < i implies !(awaiting[j].request.pid == pid && awaiting[j].request.request_type == RequestType::Unsubscribe) by {
            assert(!f(awaiting[j]));
        }
        assert(f(awaiting[i]));
    } else {
        assert forall|k: int| 0 <= k < awaiting.len() implies !f(awaiting[k]) by {}
        lemma_no_index(awaiting, f);
    }
}

/// A SUBACK answers the request it is for: where some subscribe request for
/// its pid waits, the first of them is removed, the others kept in order,
/// and `SubscribeDone` carries that request's unique id and, where the
/// broker refused none of its topics, the QoS it asked for; where none
/// waits, nothing changes and no event is raised.
pub proof fn lemma_suback_answers_its_request<const T: usize>(awaiting: Seq<AwaitAck<T>>, suback: Suback)
    ensures
        ({
            let (rest, event) = suback_outcome::<T>(awaiting, suback);
            &&& (exists|k: int| 0 <= k < awaiting.len() && awaiting[k].request.pid == suback.pid && awaiting[k].request.request_type is Subscribe)
                ==> exists|k: int| {
                    &&& 0 <= k < awaiting.len()
                    &&& awaiting[k].request.pid == suback.pid
                    &&& (forall|j: int| 0 <= j < k ==> !(awaiting[j].request.pid == suback.pid && awaiting[j].request.request_type is Subscribe))
                    &&& rest == awaiting.remove(k)
                    &&& awaiting[k].request.request_type matches RequestType::Subscribe(q)
                    &&& event matches Some(MqttEvent::SubscribeDone(uid, res)) && uid == awaiting[k].request.unique_id
                        && ((forall|c: int| 0 <= c < suback.return_codes@.len() && c < awaiting[k].request.topics@.len()
                            ==> suback.return_codes@[c] != SubscribeReturnCodes::Failure) ==> res == Ok::<QoS, MqttError>(q))
                        && ((exists|c: int| 0 <= c < suback.return_codes@.len() && c < awaiting[k].request.topics@.len()
                            && suback.return_codes@[c] == SubscribeReturnCodes::Failure) ==> res == Err::<QoS, MqttError>(MqttError::SubscribeOrUnsubscribeFailed))
                }
            &&& !(exists|k: int| 0 <= k < awaiting.len() && awaiting[k].request.pid == suback.pid && awaiting[k].request.request_type is Subscribe)
                ==> rest == awaiting && event is None
        }),
{
    let f = suback_for::<T>(suback.pid);
    if exists|k: int| 0 <= k < awaiting.len() && awaiting[k].request.pid == suback.pid && awaiting[k].request.request_type is Subscribe {
        let k = choose|k: int| 0 <= k < awaiting.len() && awaiting[k].request.pid == suback.pid && awaiting[k].request.request_type is Subscribe;
        assert(f(awaiting[k]));
        lemma_first_exists(awaiting, f, k);
        let i = first_index(awaiting, f);
        lemma_first_index(awaiting, f, i);
        assert forall|j: int| 0 <= j < i implies !(awaiting[j].request.pid == suback.pid && awaiting[j].request.request_type is Subscribe) by {
            assert(!f(awaiting[j]));
        }
        assert(f(awaiting[i]));
    } else {
        assert forall|k: int| 0 <= k < awaiting.len() implies !f(awaiting[k]) by {}
        lemma_no_index(awaiting, f);
    }
}

/// One round of sending requests: the queued requests, then, unless that
/// stopped early, the overdue ones again. The result is the queued and
/// waiting requests, the packets written, the positions and the outcome.
pub open spec fn subs_send_outcome<const P: usize, const T: usize, const W: usize>(
    queued: Seq<SubRequest<T>>,
    awaiting: Seq<AwaitAck<T>>,
    sent: Seq<SentPacket>,
    pos: (nat, nat),
    now: Instant,
) -> (Seq<SubRequest<T>>, Seq<AwaitAck<T>>, Seq<SentPacket>, (nat, nat), SendResult) {
    let a = request_pass::<P, T, W>(RequestPass { queued, awaiting, sent, pos, partial: false }, now);
    if a.partial {
        (a.queued, a.awaiting, a.sent, a.pos, SendResult::PartiallySent)
    } else {
        let b = resend_request_pass::<T, W>(ResendPass { done: Seq::empty(), sent: a.sent, pos: a.pos, partial: false }, a.awaiting, now);
        (a.queued, b.done, b.sent, b.pos, if b.partial { SendResult::PartiallySent } else { SendResult::SentAll })
    }
}

/// The queue of requests to send and the requests waiting for their
/// acknowledgement, each holding at most `PARALLEL_REQUESTS` entries.
pub struct SubsInner<const TOPIC: usize, const PARALLEL_REQUESTS: usize> {
    send_request: Vec<SubRequest<TOPIC>>,
    await_ack: Vec<AwaitAck<TOPIC>>,
}

impl<const T: usize, const P: usize> SubsInner<T, P> {
    /// The requests to send, front first
    pub closed spec fn queued(&self) -> Seq<SubRequest<T>> {
        self.send_request@
    }

    /// The requests waiting for their acknowledgement
    pub closed spec fn awaiting(&self) -> Seq<AwaitAck<T>> {
        self.await_ack@
    }

    pub open spec fn wf(&self) -> bool {
        &&& self.queued().len() <= P
        &&& self.awaiting().len() <= P
        &&& forall|i: int| 0 <= i < self.queued().len() ==> (#[trigger] self.queued()[i]).wf()
        &&& forall|i: int| 0 <= i < self.awaiting().len() ==> (#[trigger] self.awaiting()[i]).request.wf()
    }

    pub fn new() -> (s: Self)
        ensures
            s.wf(),
            s.queued() == Seq::<SubRequest<T>>::empty(),
            s.awaiting() == Seq::<AwaitAck<T>>::empty(),
    {
        let s = SubsInner { send_request: Vec::new(), await_ack: Vec::new() };
        proof {
            assert(s.queued() =~= Seq::<SubRequest<T>>::empty());
            assert(s.awaiting() =~= Seq::<AwaitAck<T>>::empty());
        }
        s
    }

    fn find_ack(&self, pid: Pid, unsub: bool) -> (r: Option<usize>)
        ensures
            !unsub ==> (r matches Some(i) ==> is_first(self.awaiting(), suback_for::<T>(pid), i as int)),
            !unsub ==> (r is None ==> first_index(self.awaiting(), suback_for::<T>(pid)) == -1),
            unsub ==> (r matches Some(i) ==> is_first(self.awaiting(), unsuback_for::<T>(pid), i as int)),
            unsub ==> (r is None ==> first_index(self.awaiting(), unsuback_for::<T>(pid)) == -1),
    {
        let mut i: usize = 0;
        while i < self.await_ack.len()
            invariant
                i <= self.await_ack@.len(),
                !unsub ==> forall|j: int| 0 <= j < i ==> !(#[trigger] suback_for::<T>(pid)(self.awaiting()[j])),
                unsub ==> forall|j: int| 0 <= j < i ==> !(#[trigger] unsuback_for::<T>(pid)(self.awaiting()[j])),
            decreases self.await_ack@.len() - i,
        {
            let e = &self.await_ack[i];
            if e.request.pid == pid && e.request.request_type.is_unsub() == unsub {
                return Some(i);
            }
            i = i + 1;
        }
        proof {
            if unsub {
                lemma_no_index(self.awaiting(), unsuback_for::<T>(pid));
            } else {
                lemma_no_index(self.awaiting(), suback_for::<T>(pid));
            }
        }
        None
    }

    /// The event that answers `request` given its SUBACK: failure where the
    /// broker refused one of its topics, else the requested QoS.
    pub fn check_suback(suback: &Suback, expected_qos: QoS, request: &AwaitAck<T>) -> (r: MqttEvent)
        ensures
            r == MqttEvent::SubscribeDone(request.request.unique_id, suback_result(suback.return_codes@, request.request.topics@.len(), expected_qos)),
    {
        let n = if suback.return_codes.len() < request.request.topics.len() { suback.return_codes.len() } else { request.request.topics.len() };
        let mut i: usize = 0;
        while i < n
            invariant
                n <= suback.return_codes@.len(),
                n <= request.request.topics@.len(),
                n == suback.return_codes@.len() || n == request.request.topics@.len(),
                i <= n,
                forall|j: int| 0 <= j < i ==> suback.return_codes@[j] != SubscribeReturnCodes::Failure,
            decreases n - i,
        {
            match suback.return_codes[i] {
                SubscribeReturnCodes::Success(_) => {},
                SubscribeReturnCodes::Failure => {
                    return MqttEvent::SubscribeDone(request.request.unique_id, Err(MqttError::SubscribeOrUnsubscribeFailed));
                },
            }
            i = i + 1;
        }
        MqttEvent::SubscribeDone(request.request.unique_id, Ok(expected_qos))
    }

    /// A SUBACK arrived: the first subscribe request waiting for it is done,
    /// its pid goes back to the pool and the event that answers it is raised;
    /// see `suback_outcome`. A SUBACK no request waits for is ignored.
    pub fn on_suback(&mut self, suback: &Suback, pids: &mut PidPool, events: &mut Vec<MqttEvent>) -> (r: Result<(), MqttError>)
        requires
            old(self).wf(),
            old(pids).wf(),
        ensures
            final(self).wf(),
            final(pids).wf(),
            r == Ok::<(), MqttError>(()),
            final(self).queued() == old(self).queued(),
            ({
                let (awaiting, event) = suback_outcome::<T>(old(self).awaiting(), *suback);
                &&& final(self).awaiting() == awaiting
                &&& event matches Some(e) ==> final(events)@ == old(events)@.push(e)
                    && final(pids).view() == pool_free(old(pids).view(), suback.pid@)
                &&& event is None ==> final(events)@ == old(events)@ && final(pids).view() == old(pids).view()
            }),
    {
        match self.find_ack(suback.pid, false) {
            Some(index) => {
                proof { lemma_first_index(self.awaiting(), suback_for::<T>(suback.pid), index as int); }
                let qos = match self.await_ack[index].request.request_type {
                    RequestType::Subscribe(q) => q,
                    RequestType::Unsubscribe => {
                        proof { assert(false); }
                        QoS::AtMostOnce
                    },
                };
                pids.free_pid(suback.pid);
                let request = self.await_ack.remove(index);
                let event = Self::check_suback(suback, qos, &request);
                events.push(event);
                Ok(())
            },
            None => Ok(()),
        }
    }

    /// An UNSUBACK arrived: the first unsubscribe request waiting for it is
    /// done, its pid goes back to the pool and `UnsubscribeDone` is raised.
    /// An UNSUBACK no request waits for is ignored.
    pub fn on_unsuback(&mut self, pid: Pid, pids: &mut PidPool, events: &mut Vec<MqttEvent>)
        requires
            old(self).wf(),
            old(pids).wf(),
        ensures
            final(self).wf(),
            final(pids).wf(),
            final(self).queued() == old(self).queued(),
            ({
                let (awaiting, event) = unsuback_outcome::<T>(old(self).awaiting(), pid);
                &&& final(self).awaiting() == awaiting
                &&& event matches Some(e) ==> final(events)@ == old(events)@.push(e)
                    && final(pids).view() == pool_free(old(pids).view(), pid@)
                &&& event is None ==> final(events)@ == old(events)@ && final(pids).view() == old(pids).view()
            }),
    {
        match self.find_ack(pid, true) {
            Some(index) => {
                proof { lemma_first_index(self.awaiting(), unsuback_for::<T>(pid), index as int); }
                let request = self.await_ack.remove(index);
                pids.free_pid(request.request.pid);
                events.push(MqttEvent::UnsubscribeDone(request.request.unique_id));
            },
            None => {},
        }
    }

    /// Sends the queued requests, front first; see `request_pass`.
    pub fn send_requests<const W: usize>(&mut self, w: &mut PacketWriter<W>, now: Instant) -> (r: Result<SendResult, MqttError>)
        requires
            old(self).wf(),
            old(w).wf(),
            T <= 65535,
        ensures
            final(self).wf(),
            final(w).wf(),
            PacketWriter::<W>::appended(*old(w), *final(w)),
            ({
                let res = request_pass::<P, T, W>(
                    RequestPass { queued: old(self).queued(), awaiting: old(self).awaiting(), sent: old(w).log(), pos: old(w).positions(), partial: false },
                    now,
                );
                &&& final(self).queued() == res.queued
                &&& final(self).awaiting() == res.awaiting
                &&& final(w).log() == res.sent
                &&& final(w).positions() == res.pos
                &&& r == Ok::<SendResult, MqttError>(if res.partial { SendResult::PartiallySent } else { SendResult::SentAll })
            }),
    {
        let ghost goal = request_pass::<P, T, W>(
            RequestPass { queued: old(self).queued(), awaiting: old(self).awaiting(), sent: old(w).log(), pos: old(w).positions(), partial: false },
            now,
        );
        let ghost w0 = *w;
        let mut partial = false;
        proof {
            assert(w.log().take(w0.log().len() as int) =~= w0.log());
            assert(w.log().skip(w0.log().len() as int) =~= Seq::<SentPacket>::empty());
            assert(w0.pending() + Seq::<u8>::empty() =~= w0.pending());
        }
        while !partial && self.send_request.len() > 0
            invariant
                self.wf(),
                w.wf(),
                T <= 65535,
                PacketWriter::<W>::appended(w0, *w),
                !partial ==> request_pass::<P, T, W>(
                    RequestPass { queued: self.queued(), awaiting: self.awaiting(), sent: w.log(), pos: w.positions(), partial: false },
                    now,
                ) == goal,
                partial ==> goal == (RequestPass { queued: self.queued(), awaiting: self.awaiting(), sent: w.log(), pos: w.positions(), partial: true }),
            decreases self.send_request@.len(), (if partial { 0int } else { 1int }),
        {
            if self.await_ack.len() >= P {
                partial = true;
            } else {
                let ghost w1 = *w;
                let ghost req = self.send_request@[0];
                let sent = {
                    let packet = self.send_request[0].create_packet();
                    w.try_write_packet(&packet)?
                };
                if sent {
                    proof {
                        lemma_bytes_of_push(Seq::empty(), req.model());
                        assert(w.log().skip(w1.log().len() as int) =~= Seq::<SentPacket>::empty().push(req.model()));
                        assert(w.log().take(w1.log().len() as int) =~= w1.log());
                        assert(Seq::<u8>::empty() + sent_bytes(req.model()) =~= sent_bytes(req.model()));
                        PacketWriter::<W>::lemma_appended_trans(w0, w1, *w);
                    }
                    let request = self.send_request.remove(0);
                    self.await_ack.push(AwaitAck { request, request_sent: now });
                } else {
                    partial = true;
                }
            }
        }
        if partial {
            Ok(SendResult::PartiallySent)
        } else {
            Ok(SendResult::SentAll)
        }
    }

    /// Sends again, front first, the requests whose acknowledgement is
    /// overdue; see `resend_request_pass`.
    pub fn resend_requests<const W: usize>(&mut self, w: &mut PacketWriter<W>, now: Instant) -> (r: Result<SendResult, MqttError>)
        requires
            old(self).wf(),
            old(w).wf(),
            T <= 65535,
        ensures
            final(self).wf(),
            final(w).wf(),
            final(self).queued() == old(self).queued(),
            PacketWriter::<W>::appended(*old(w), *final(w)),
            ({
                let res = resend_request_pass::<T, W>(
                    ResendPass { done: Seq::empty(), sent: old(w).log(), pos: old(w).positions(), partial: false },
                    old(self).awaiting(),
                    now,
                );
                &&& final(self).awaiting() == res.done
                &&& final(w).log() == res.sent
                &&& final(w).positions() == res.pos
                &&& r == Ok::<SendResult, MqttError>(if res.partial { SendResult::PartiallySent } else { SendResult::SentAll })
            }),
    {
        let ghost goal = resend_request_pass::<T, W>(
            ResendPass { done: Seq::empty(), sent: old(w).log(), pos: old(w).positions(), partial: false },
            old(self).awaiting(),
            now,
        );
        let ghost w0 = *w;
        let ghost q0 = old(self).await_ack@;
        let mut i: usize = 0;
        let mut partial = false;
        proof {
            assert(q0.take(0) =~= Seq::<AwaitAck<T>>::empty());
            assert(q0.skip(0) =~= q0);
            assert(w.log().take(w0.log().len() as int) =~= w0.log());
            assert(w.log().skip(w0.log().len() as int) =~= Seq::<SentPacket>::empty());
            assert(w0.pending() + Seq::<u8>::empty() =~= w0.pending());
        }
        while !partial && i < self.await_ack.len()
            invariant
                self.wf(),
                w.wf(),
                T <= 65535,
                i <= self.await_ack@.len(),
                self.await_ack@.len() == q0.len(),
                self.await_ack@.skip(i as int) == q0.skip(i as int),
                self.send_request@ == old(self).send_request@,
                PacketWriter::<W>::appended(w0, *w),
                !partial ==> resend_request_pass::<T, W>(
                    ResendPass { done: self.await_ack@.take(i as int), sent: w.log(), pos: w.positions(), partial: false },
                    q0.skip(i as int),
                    now,
                ) == goal,
                partial ==> goal == (ResendPass { done: self.await_ack@, sent: w.log(), pos: w.positions(), partial: true }),
            decreases self.await_ack@.len() - i, (if partial { 0int } else { 1int }),
        {
            let ghost cur = ResendPass { done: self.await_ack@.take(i as int), sent: w.log(), pos: w.positions(), partial: false };
            let ghost rest = q0.skip(i as int);
            assert(rest[0] == self.await_ack@[i as int]) by {
                assert(self.await_ack@.skip(i as int)[0] == self.await_ack@[i as int]);
            }
            if elapsed(now, self.await_ack[i].request_sent) > RESEND_DURATION {
                let ghost w1 = *w;
                let sent = {
                    let packet = self.await_ack[i].request.create_packet();
                    w.try_write_packet(&packet)?
                };
                if !sent {
                    partial = true;
                    proof {
                        assert(cur.done + rest =~= self.await_ack@);
                    }
                } else {
                    proof {
                        let m = rest[0].request.model();
                        lemma_bytes_of_push(Seq::empty(), m);
                        assert(w.log().skip(w1.log().len() as int) =~= Seq::<SentPacket>::empty().push(m));
                        assert(w.log().take(w1.log().len() as int) =~= w1.log());
                        assert(Seq::<u8>::empty() + sent_bytes(m) =~= sent_bytes(m));
                        PacketWriter::<W>::lemma_appended_trans(w0, w1, *w);
                    }
                    let mut entry = self.await_ack.remove(i);
                    entry.request_sent = now;
                    self.await_ack.insert(i, entry);
                    i = i + 1;
                    proof {
                        assert(self.await_ack@.take(i as int) =~= cur.done.push(AwaitAck { request_sent: now, ..rest[0] }));
                        assert(self.await_ack@.skip(i as int) =~= rest.drop_first());
                        assert(q0.skip(i as int) =~= rest.drop_first());
                    }
                }
            } else {
                i = i + 1;
                proof {
                    assert(self.await_ack@.take(i as int) =~= cur.done.push(rest[0]));
                    assert(self.await_ack@.skip(i as int) =~= rest.drop_first());
                    assert(q0.skip(i as int) =~= rest.drop_first());
                }
            }
        }
        if partial {
            return Ok(SendResult::PartiallySent);
        }
        proof {
            assert(self.await_ack@.take(i as int) =~= self.await_ack@);
            assert(q0.skip(i as int) =~= Seq::<AwaitAck<T>>::empty());
        }
        Ok(SendResult::SentAll)
    }

    /// Sends the queued requests and then, unless that stopped early, the
    /// overdue ones again; see `subs_send_outcome`.
    pub fn send<const W: usize>(&mut self, w: &mut PacketWriter<W>, now: Instant) -> (r: Result<SendResult, MqttError>)
        requires
            old(self).wf(),
            old(w).wf(),
            T <= 65535,
        ensures
            final(self).wf(),
            final(w).wf(),
            PacketWriter::<W>::appended(*old(w), *final(w)),
            ({
                let (q, a, sent, pos, res) = subs_send_outcome::<P, T, W>(old(self).queued(), old(self).awaiting(), old(w).log(), old(w).positions(), now);
                &&& final(self).queued() == q
                &&& final(self).awaiting() == a
                &&& final(w).log() == sent
                &&& final(w).positions() == pos
                &&& r == Ok::<SendResult, MqttError>(res)
            }),
    {
        let first = self.send_requests(w, now)?;
        if first == SendResult::PartiallySent {
            return Ok(first);
        }
        let ghost w1 = *w;
        let second = self.resend_requests(w, now)?;
        proof { PacketWriter::<W>::lemma_appended_trans(*old(w), w1, *w); }
        Ok(second)
    }

    /// Queues a request for `topics` under a fresh packet identifier; `false`
    /// where the queue is full (the caller waits and tries again).
    pub fn try_add_request(&mut self, topics: &[&str], request_type: RequestType, unique_id: UniqueID, pids: &mut PidPool) -> (r: bool)
        requires
            old(self).wf(),
            old(pids).wf(),
            old(self).queued().len() < P ==> topics_fit::<T>(topics@),
            old(self).queued().len() < P ==> !pool_exhausted(old(pids).view()),
        ensures
            final(self).wf(),
            final(pids).wf(),
            final(self).awaiting() == old(self).awaiting(),
            r == (old(self).queued().len() < P),
            !r ==> final(self).queued() == old(self).queued() && final(pids).view() == old(pids).view(),
            r ==> final(self).queued().len() == old(self).queued().len() + 1
                && final(self).queued().drop_last() == old(self).queued()
                && ({
                    let req = final(self).queued().last();
                    &&& topic_views(req.topics@) == str_views(topics@)
                    &&& req.request_type == request_type
                    &&& req.unique_id == unique_id
                    &&& (req.pid@, final(pids).view()) == pool_take(old(pids).view())
                }),
    {
        if self.send_request.len() >= P {
            return false;
        }
        let mut owned: Vec<String> = Vec::new();
        let mut i: usize = 0;
        while i < topics.len()
            invariant
                i <= topics@.len(),
                topics_fit::<T>(topics@),
                owned@.len() == i,
                forall|j: int| 0 <= j < i ==> (#[trigger] owned@[j])@ == topics@[j]@,
            decreases topics@.len() - i,
        {
            owned.push(topics[i].to_owned());
            i = i + 1;
        }
        proof {
            assert(topic_views(owned@) =~= str_views(topics@));
        }
        let pid = pids.next_pid();
        let request = SubRequest { topics: owned, request_type, pid, unique_id };
        self.send_request.push(request);
        proof {
            assert(self.queued().drop_last() =~= old(self).queued());
        }
        true
    }

    /// Queues a subscribe request for `topics` at `qos`; see `try_add_request`.
    pub fn add_subscribe_request(&mut self, topics: &[&str], qos: QoS, unique_id: UniqueID, pids: &mut PidPool) -> (r: bool)
        requires
            old(self).wf(),
            old(pids).wf(),
            old(self).queued().len() < P ==> topics_fit::<T>(topics@),
            old(self).queued().len() < P ==> !pool_exhausted(old(pids).view()),
        ensures
            final(self).wf(),
            final(pids).wf(),
            final(self).awaiting() == old(self).awaiting(),
            r == (old(self).queued().len() < P),
            !r ==> final(self).queued() == old(self).queued() && final(pids).view() == old(pids).view(),
            r ==> final(self).queued().len() == old(self).queued().len() + 1
                && final(self).queued().drop_last() == old(self).queued()
                && ({
                    let req = final(self).queued().last();
                    &&& topic_views(req.topics@) == str_views(topics@)
                    &&& req.request_type == RequestType::Subscribe(qos)
                    &&& req.unique_id == unique_id
                    &&& (req.pid@, final(pids).view()) == pool_take(old(pids).view())
                }),
    {
        self.try_add_request(topics, RequestType::Subscribe(qos), unique_id, pids)
    }

    /// Queues an unsubscribe request for `topics`; see `try_add_request`.
    pub fn add_unsubscribe_request(&mut self, topics: &[&str], unique_id: UniqueID, pids: &mut PidPool) -> (r: bool)
        requires
            old(self).wf(),
            old(pids).wf(),
            old(self).queued().len() < P ==> topics_fit::<T>(topics@),
            old(self).queued().len() < P ==> !pool_exhausted(old(pids).view()),
        ensures
            final(self).wf(),
            final(pids).wf(),
            final(self).awaiting() == old(self).awaiting(),
            r == (old(self).queued().len() < P),
            !r ==> final(self).queued() == old(self).queued() && final(pids).view() == old(pids).view(),
            r ==> final(self).queued().len() == old(self).queued().len() + 1
                && final(self).queued().drop_last() == old(self).queued()
                && ({
                    let req = final(self).queued().last();
                    &&& topic_views(req.topics@) == str_views(topics@)
                    &&& req.request_type == RequestType::Unsubscribe
                    &&& req.unique_id == unique_id
                    &&& (req.pid@, final(pids).view()) == pool_take(old(pids).view())
                }),
    {
        self.try_add_request(topics, RequestType::Unsubscribe, unique_id, pids)
    }

    /// Number of requests waiting to be sent
    pub fn pending_requests(&self) -> (n: usize)
        ensures
            n == self.queued().len(),
    {
        self.send_request.len()
    }

    /// Number of requests waiting for their acknowledgement
    pub fn awaiting_acks(&self) -> (n: usize)
        ensures
            n == self.awaiting().len(),
    {
        self.await_ack.len()
    }
}

} // verus!
