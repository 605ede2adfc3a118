//! The keep-alive pulse: a timer that sends a liveness message at a fixed
//! interval for as long as the session lasts. Sending is best effort, and
//! the pulse ends with the session.

use vstd::prelude::*;

verus! {

/// Seconds between two liveness messages.
pub const PULSE_INTERVAL_SECS: u64 = 30;

/// A liveness message.
#[derive(Clone, Copy, Debug, PartialEq, Eq, Structural)]
pub struct Ping {
    /// The time of sending, in milliseconds since the epoch.
    pub timestamp: i64,
}

/// What happened to the pulse.
#[derive(Clone, Copy, Debug, PartialEq, Eq, Structural)]
pub enum PulseEvent {
    /// The interval has passed; the clock shows this many milliseconds.
    Tick { now_millis: i64 },
    /// The last liveness message could not be sent.
    SendFailed,
    /// The session that the pulse belongs to is over.
    SessionEnded,
}

/// What the pulse does next.
#[derive(Clone, Copy, Debug, PartialEq, Eq, Structural)]
pub enum PulseAction {
    /// Send this message, then wait for the next tick.
    Send(Ping),
    /// Wait for the next tick.
    Wait,
    /// End the pulse.
    Stop,
}

/// The answer of the pulse to an event: every tick sends the time, a failed
/// send is passed over, and the end of the session ends the pulse.
pub open spec fn pulse_action(event: PulseEvent) -> PulseAction {
    match event {
        PulseEvent::Tick { now_millis } => PulseAction::Send(Ping { timestamp: now_millis }),
        PulseEvent::SendFailed => PulseAction::Wait,
        PulseEvent::SessionEnded => PulseAction::Stop,
    }
}

/// Answers an event of the pulse. A failed send never ends the pulse, so
/// that it can disturb neither the process nor the stream of messages;
/// only the end of the session does, so that no timer is left behind.
pub fn on_pulse(event: PulseEvent) -> (action: PulseAction)
    ensures
        action == pulse_action(event),
        action is Stop <==> event is SessionEnded,
{
    match event {
        PulseEvent::Tick { now_millis } => PulseAction::Send(Ping { timestamp: now_millis }),
        PulseEvent::SendFailed => PulseAction::Wait,
        PulseEvent::SessionEnded => PulseAction::Stop,
    }
}

} // verus!
