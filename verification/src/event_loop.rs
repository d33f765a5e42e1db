//! The decisions of one round of the event loop: connect where needed, send
//! what is pending, and then either read what already arrived (where the
//! send buffer filled up) or wait for a request, the keep-alive or a packet.
use vstd::prelude::*;
use crate::connection::ConnectionStateValue;
use crate::request::RequestNotification;
use crate::state::SendResult;

verus! {

/// What happened in the round so far.
pub enum LoopEvent {
    /// A round starts with the connection in this state
    RoundStarts(Option<ConnectionStateValue>),
    /// The connection was opened
    Connected,
    /// A round of sending ended with this result
    Sent(SendResult),
    /// While waiting, a client request arrived
    RequestArrived(RequestNotification),
    /// While waiting, the keep-alive pause ran out
    PingDue,
    /// While waiting, a packet arrived
    PacketArrived,
}

/// What the event loop does next.
#[derive(Debug, Clone, Copy, PartialEq, Eq, Structural)]
pub enum LoopAction {
    /// Open the connection to the broker
    Connect,
    /// Send what the session has pending
    SendPackets,
    /// Read a packet only where one already arrived, then end the round
    /// going on
    ReadWithoutWaiting,
    /// Wait for a request, the keep-alive or a packet
    WaitForEvent,
    /// Hand the packet to the session, then end the round going on
    ProcessPacket,
    /// End the round: `true` goes on with the next round, `false` stops to
    /// disconnect
    EndRound(bool),
}

/// The action after `event`: a round connects first unless the connection
/// is up, then sends. Where the send buffer filled up (`PartiallySent`) it
/// reads without waiting so as to come back soon; else it waits. A
/// disconnect request ends the loop; a new request or the keep-alive end
/// the round; a packet is handed to the session.
pub open spec fn loop_step_spec(event: LoopEvent) -> LoopAction {
    match event {
        LoopEvent::RoundStarts(state) => if state == Some(ConnectionStateValue::Connected) {
            LoopAction::SendPackets
        } else {
            LoopAction::Connect
        },
        LoopEvent::Connected => LoopAction::SendPackets,
        LoopEvent::Sent(res) => if res == SendResult::PartiallySent {
            LoopAction::ReadWithoutWaiting
        } else {
            LoopAction::WaitForEvent
        },
        LoopEvent::RequestArrived(n) => LoopAction::EndRound(n != RequestNotification::Disconnect),
        LoopEvent::PingDue => LoopAction::EndRound(true),
        LoopEvent::PacketArrived => LoopAction::ProcessPacket,
    }
}

/// Decides the action after `event`; see `loop_step_spec`.
pub fn loop_step(event: LoopEvent) -> (r: LoopAction)
    ensures
        r == loop_step_spec(event),
{
    match event {
        LoopEvent::RoundStarts(state) => match state {
            Some(ConnectionStateValue::Connected) => LoopAction::SendPackets,
            _ => LoopAction::Connect,
        },
        LoopEvent::Connected => LoopAction::SendPackets,
        LoopEvent::Sent(SendResult::PartiallySent) => LoopAction::ReadWithoutWaiting,
        LoopEvent::Sent(SendResult::SentAll) => LoopAction::WaitForEvent,
        LoopEvent::RequestArrived(RequestNotification::Disconnect) => LoopAction::EndRound(false),
        LoopEvent::RequestArrived(RequestNotification::NewRequest) => LoopAction::EndRound(true),
        LoopEvent::PingDue => LoopAction::EndRound(true),
        LoopEvent::PacketArrived => LoopAction::ProcessPacket,
    }
}

/// The event loop goes on until the client disconnects: the only step that
/// stops it is a disconnect request, and that one always does.
pub proof fn lemma_runs_until_disconnect(event: LoopEvent)
    ensures
        loop_step_spec(event) == LoopAction::EndRound(false)
            <==> event == LoopEvent::RequestArrived(RequestNotification::Disconnect),
{
}

/// A round connects first exactly where the connection is not up, sends
/// once it is, reads without waiting exactly where the send buffer filled
/// up, and hands every packet that arrived while waiting to the session.
pub proof fn lemma_round_order(state: Option<ConnectionStateValue>, sent: SendResult)
    ensures
        loop_step_spec(LoopEvent::RoundStarts(state)) == LoopAction::Connect <==> state != Some(ConnectionStateValue::Connected),
        loop_step_spec(LoopEvent::RoundStarts(state)) == LoopAction::SendPackets <==> state == Some(ConnectionStateValue::Connected),
        loop_step_spec(LoopEvent::Connected) == LoopAction::SendPackets,
        loop_step_spec(LoopEvent::Sent(sent)) == LoopAction::ReadWithoutWaiting <==> sent == SendResult::PartiallySent,
        loop_step_spec(LoopEvent::Sent(sent)) == LoopAction::WaitForEvent <==> sent == SendResult::SentAll,
        loop_step_spec(LoopEvent::PacketArrived) == LoopAction::ProcessPacket,
        loop_step_spec(LoopEvent::PingDue) == LoopAction::EndRound(true),
{
}

} // verus!
