//! What the two feeds share: the events a driver reports, the directives it
//! gets back, and the answer to a failed stream.

use crate::backoff::{Backoff, BackoffView, ErrorClass};
use vstd::prelude::*;

verus! {

/// The status code by which the server says that it lost its state and that
/// the client should connect and synchronise again.
pub const SERVER_REINITIALIZED: i32 = 15;

/// Why a session is over.
#[derive(Clone, Copy, Debug, PartialEq, Eq, Structural)]
pub enum StopReason {
    /// The server closed the stream in good order.
    StreamEnded,
    /// The requested number of messages was processed.
    MessageLimit,
    /// Transient failures used up every attempt.
    RetriesExhausted,
    /// The stream could not be opened.
    ConnectFailed,
    /// The stream failed in a way that no reconnect mends.
    Fatal,
}

impl StopReason {
    /// The reasons that a driver reports as a failure. The others, giving
    /// up after the last attempt among them, end the session normally.
    pub open spec fn is_error(self) -> bool {
        self == StopReason::ConnectFailed || self == StopReason::Fatal
    }

    /// Whether the session ended in a failure.
    pub fn is_failure(&self) -> (r: bool)
        ensures
            r == self.is_error(),
    {
        match self {
            StopReason::ConnectFailed => true,
            StopReason::Fatal => true,
            _ => false,
        }
    }
}

/// What the driver does next.
#[derive(Clone, Copy, Debug, PartialEq, Eq, Structural)]
pub enum Directive {
    /// Open the stream for the first time.
    Connect,
    /// Wait for the next event on the open stream.
    Receive,
    /// Sleep for `delay_secs` seconds, then open a new stream. `attempt`
    /// counts the transient failures in a row, this one included.
    Reconnect { attempt: u32, delay_secs: u64 },
    /// End the session.
    Stop(StopReason),
}

/// What happened on the stream.
#[derive(Debug, PartialEq, Eq)]
pub enum StreamEvent<M> {
    /// Opening the stream failed.
    ConnectFailed,
    /// A message arrived.
    Message(M),
    /// The server closed the stream in good order.
    Ended,
    /// The stream broke off with this status code.
    Failed { code: i32 },
}

/// A failure is transient exactly when its status code says that the server
/// was reinitialised.
pub open spec fn class_of(code: i32) -> ErrorClass {
    if code == SERVER_REINITIALIZED {
        ErrorClass::Transient
    } else {
        ErrorClass::Fatal
    }
}

/// Classifies the status code of a failed stream.
pub fn classify_status(code: i32) -> (r: ErrorClass)
    ensures
        r == class_of(code),
{
    if code == SERVER_REINITIALIZED {
        ErrorClass::Transient
    } else {
        ErrorClass::Fatal
    }
}

/// The policy after a failure of the given class: only a transient one is
/// counted.
pub open spec fn backoff_after_failure(b: BackoffView, class: ErrorClass) -> BackoffView {
    match class {
        ErrorClass::Transient => b.fail(),
        ErrorClass::Fatal => b,
    }
}

/// The answer to a failure of the given class, for a policy that still had
/// an attempt left: a fatal failure ends the session; a transient one is
/// counted, and then either a reconnect follows after the wait of that
/// attempt, or the count has reached the limit and the session ends.
pub open spec fn directive_after_failure(b: BackoffView, class: ErrorClass) -> Directive {
    match class {
        ErrorClass::Fatal => Directive::Stop(StopReason::Fatal),
        ErrorClass::Transient => if b.fail().exhausted() {
            Directive::Stop(StopReason::RetriesExhausted)
        } else {
            Directive::Reconnect {
                attempt: b.fail().attempt as u32,
                delay_secs: b.fail().delay() as u64,
            }
        },
    }
}

/// Answers a failed stream: classifies the status code, counts a transient
/// failure, and says whether and after what wait to reconnect.
pub fn on_stream_failure(backoff: &mut Backoff, code: i32) -> (d: Directive)
    requires
        !old(backoff)@.exhausted(),
    ensures
        final(backoff)@ == backoff_after_failure(old(backoff)@, class_of(code)),
        final(backoff)@.wf(),
        d == directive_after_failure(old(backoff)@, class_of(code)),
        d is Reconnect ==> !final(backoff)@.exhausted(),
        d is Reconnect || d is Stop,
{
    match classify_status(code) {
        ErrorClass::Fatal => {
            proof {
                use_type_invariant(&*backoff);
            }
            Directive::Stop(StopReason::Fatal)
        },
        ErrorClass::Transient => {
            backoff.record_failure();
            if backoff.should_retry(ErrorClass::Transient) {
                proof {
                    crate::backoff::lemma_delay_is_exponential(backoff@);
                }
                Directive::Reconnect { attempt: backoff.attempt(), delay_secs: backoff.next_delay() }
            } else {
                Directive::Stop(StopReason::RetriesExhausted)
            }
        },
    }
}

} // verus!
