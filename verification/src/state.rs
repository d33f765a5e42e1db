//! Results shared by the state machines, the events they raise and the clock
//! they read.
use vstd::prelude::*;
use crate::packet::QoS;
use crate::unique_id::UniqueID;
use crate::MqttError;
use vstd::std_specs::ops::AddSpec;

verus! {

/// Keep alive interval announced to the broker, in seconds
pub const KEEP_ALIVE: usize = 60;

/// Points in time and durations are counted in microseconds.
pub type Instant = u64;

/// Time between a send and its resend where no acknowledgement arrived (5 s)
pub const RESEND_DURATION: u64 = 5_000_000;

/// The time passed from `then` to `now`; zero where `now` is not later.
pub open spec fn spec_elapsed(now: Instant, then: Instant) -> u64 {
    if now >= then { (now - then) as u64 } else { 0 }
}

/// Something sent at `sent_at` is overdue at `now` where more than
/// `RESEND_DURATION` has passed since.
pub open spec fn overdue(sent_at: Instant, now: Instant) -> bool {
    now > sent_at + RESEND_DURATION
}

pub fn elapsed(now: Instant, then: Instant) -> (r: u64)
    ensures
        r == spec_elapsed(now, then),
{
    if now >= then { now - then } else { 0 }
}

/// Result returned from methods that send packets to the network
#[derive(Debug, Clone, Copy, PartialEq, Eq, Structural)]
pub enum SendResult {
    PartiallySent,
    /// Sent all pending packets to the network or nothing to send
    SentAll,
}

impl core::ops::Add for SendResult {
    type Output = Self;

    fn add(self, rhs: Self) -> (r: Self) {
        match (self, rhs) {
            (SendResult::SentAll, SendResult::SentAll) => SendResult::SentAll,
            _ => SendResult::PartiallySent,
        }
    }
}

impl vstd::std_specs::ops::AddSpecImpl for SendResult {
    open spec fn obeys_add_spec() -> bool {
        true
    }

    open spec fn add_req(self, rhs: Self) -> bool {
        true
    }

    open spec fn add_spec(self, rhs: Self) -> Self {
        if self == SendResult::SentAll && rhs == SendResult::SentAll {
            SendResult::SentAll
        } else {
            SendResult::PartiallySent
        }
    }
}

impl SendResult {
    /// Runs `f` unless this result is `PartiallySent`, and combines the two.
    pub fn next_sync<F>(self, f: F) -> (r: Result<Self, MqttError>)
        where F: FnOnce() -> Result<Self, MqttError>
        requires
            self == SendResult::SentAll ==> f.requires(()),
        ensures
            self == SendResult::PartiallySent ==> r == Ok::<SendResult, MqttError>(self),
            self == SendResult::SentAll ==> exists|fr: Result<SendResult, MqttError>| f.ensures((), fr) && r == fr,
    {
        if self != SendResult::PartiallySent {
            let next = f()?;
            Ok(self + next)
        } else {
            Ok(self)
        }
    }
}

/// Events that answer a client's request
#[derive(Debug, PartialEq)]
pub enum MqttEvent {
    PublishDone(UniqueID),
    SubscribeDone(UniqueID, Result<QoS, MqttError>),
    UnsubscribeDone(UniqueID),
}

/// Combining send results: `SentAll` is neutral, `PartiallySent` absorbs,
/// and the order and grouping do not matter.
pub proof fn lemma_send_result_add(a: SendResult, b: SendResult, c: SendResult)
    ensures
        a.add_spec(SendResult::SentAll) == a,
        a.add_spec(SendResult::PartiallySent) == SendResult::PartiallySent,
        a.add_spec(b) == b.add_spec(a),
        a.add_spec(b).add_spec(c) == a.add_spec(b.add_spec(c)),
{
}

} // verus!
