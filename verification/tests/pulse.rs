use orderbook_stream::pulse::{on_pulse, Ping, PulseAction, PulseEvent, PULSE_INTERVAL_SECS};

#[test]
fn pulse_sends_the_time_at_every_tick() {
    assert_eq!(PULSE_INTERVAL_SECS, 30);
    assert_eq!(
        on_pulse(PulseEvent::Tick { now_millis: 1_700_000_000_000 }),
        PulseAction::Send(Ping { timestamp: 1_700_000_000_000 })
    );
    assert_eq!(on_pulse(PulseEvent::Tick { now_millis: -5 }), PulseAction::Send(Ping { timestamp: -5 }));
}

#[test]
fn pulse_passes_over_a_failed_send() {
    assert_eq!(on_pulse(PulseEvent::SendFailed), PulseAction::Wait);
}

#[test]
fn pulse_ends_with_the_session() {
    assert_eq!(on_pulse(PulseEvent::SessionEnded), PulseAction::Stop);
}
