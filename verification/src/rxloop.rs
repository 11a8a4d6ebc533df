//! The per-connection receive loop as a state machine.
//!
//! The loop that blocks on the broker's event stream runs outside this
//! library; each item it reads is classified into a [`ProtocolEvent`] and
//! handed to [`receive_step`], which decides the next state and whether an
//! inbound event is forwarded to the intake queue. Only the acknowledgement
//! of an outgoing disconnect terminates the loop: transport errors and an
//! exhausted stream keep it running, so a connection that recovers on its own
//! is read again.

use vstd::prelude::*;
use crate::events::MqttServerManagerEvent;

verus! {

/// One item read from the broker connection, reduced to what the loop
/// decides on.
pub enum ProtocolEvent {
    /// The acknowledgement that our own disconnect request went out: the one
    /// event that stops the loop.
    OutgoingDisconnect,
    /// An inbound publish message with its topic and payload.
    IncomingPublish { topic: String, payload: Vec<u8> },
    /// A transport-level failure; the connection may recover, so the loop
    /// goes on reading.
    TransportError,
    /// Any other protocol packet (acknowledgements, ping/pong, connection
    /// confirmation); ignored at this layer.
    OtherPacket,
    /// The inner event stream ended without a disconnect event; the outer
    /// loop re-enters the iteration.
    StreamEnd,
}

/// The two effective states of the receive loop.
#[derive(Clone, Copy, Debug, PartialEq, Eq, Structural)]
pub enum LoopState {
    /// Reading events and forwarding publishes.
    Running,
    /// The loop function has returned; nothing is forwarded any more.
    Terminated,
}

/// The state the loop is in after seeing `ev` in state `state`.
pub open spec fn spec_next_state(state: LoopState, ev: ProtocolEvent) -> LoopState {
    match state {
        LoopState::Terminated => LoopState::Terminated,
        LoopState::Running => match ev {
            ProtocolEvent::OutgoingDisconnect => LoopState::Terminated,
            _ => LoopState::Running,
        },
    }
}

/// The event forwarded to the intake queue for `ev` seen in state `state`
/// by the session under `key`, if any.
pub open spec fn spec_forwarded(state: LoopState, key: u32, ev: ProtocolEvent) -> Option<
    MqttServerManagerEvent,
> {
    match state {
        LoopState::Terminated => None,
        LoopState::Running => match ev {
            ProtocolEvent::IncomingPublish { topic, payload } => Some(
                MqttServerManagerEvent { client: key, topic, payload },
            ),
            _ => None,
        },
    }
}

/// One step of the receive loop: from the current state and the next item
/// read from the connection, decide the next state and what (if anything) is
/// forwarded into the intake queue on behalf of the session under `key`.
pub fn receive_step(state: LoopState, key: u32, ev: ProtocolEvent) -> (r: (
    LoopState,
    Option<MqttServerManagerEvent>,
))
    ensures
        r.0 == spec_next_state(state, ev),
        r.1 == spec_forwarded(state, key, ev),
        r.0 == LoopState::Terminated <==> (state == LoopState::Terminated
            || ev is OutgoingDisconnect),
        r.1 is Some <==> (state == LoopState::Running && ev is IncomingPublish),
{
    match state {
        LoopState::Terminated => (LoopState::Terminated, None),
        LoopState::Running => match ev {
            ProtocolEvent::OutgoingDisconnect => (LoopState::Terminated, None),
            ProtocolEvent::IncomingPublish { topic, payload } => (
                LoopState::Running,
                Some(MqttServerManagerEvent { client: key, topic, payload }),
            ),
            ProtocolEvent::TransportError => (LoopState::Running, None),
            ProtocolEvent::OtherPacket => (LoopState::Running, None),
            ProtocolEvent::StreamEnd => (LoopState::Running, None),
        },
    }
}

/// Law: a terminated loop stays terminated and forwards nothing, and no
/// event other than the outgoing-disconnect acknowledgement ever leaves the
/// running state — transport errors and stream exhaustion never silently
/// stop the loop.
pub proof fn lemma_only_disconnect_terminates(state: LoopState, key: u32, ev: ProtocolEvent)
    ensures
        state == LoopState::Terminated ==> spec_next_state(state, ev) == LoopState::Terminated
            && spec_forwarded(state, key, ev) is None,
        spec_next_state(state, ev) == LoopState::Terminated <==> (state == LoopState::Terminated
            || ev is OutgoingDisconnect),
{
}

} // verus!
