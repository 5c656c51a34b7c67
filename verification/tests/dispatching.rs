use midi_timeline::dispatch::{
    clean_start_calls, translate, Dispatch, Dispatcher, SynthCall, MAX_PITCH_BEND,
    POLL_INTERVAL_MS, TAIL_SECS,
};
use midi_timeline::event::{EventPayload, TimedEvent};
use midi_timeline::timeline::Timeline;

fn at(absolute_time_us: u64, payload: EventPayload) -> TimedEvent {
    TimedEvent { absolute_time_us, payload }
}

/// Stands in for a synthesis engine: it records the calls made on it, and
/// refuses every call on a channel above 15.
struct Spy {
    calls: Vec<SynthCall>,
    refused: usize,
    dropped: usize,
}

fn channel_of(call: &SynthCall) -> u32 {
    match call {
        SynthCall::NoteOn { channel, .. }
        | SynthCall::NoteOff { channel, .. }
        | SynthCall::ProgramChange { channel, .. }
        | SynthCall::ControlChange { channel, .. }
        | SynthCall::PitchBend { channel, .. }
        | SynthCall::KeyPressure { channel, .. }
        | SynthCall::ChannelPressure { channel, .. } => *channel,
    }
}

fn drain(dispatcher: &mut Dispatcher, elapsed_us: u64, spy: &mut Spy) {
    while let Some(dispatch) = dispatcher.next_due(elapsed_us) {
        match dispatch {
            Dispatch::Call(call) => {
                if channel_of(&call) > 15 {
                    spy.refused += 1;
                }
                spy.calls.push(call);
            }
            Dispatch::BendOutOfRange { .. } => spy.dropped += 1,
            Dispatch::Inert => {}
        }
    }
}

#[test]
fn constants_of_the_polling_loop() {
    assert_eq!(MAX_PITCH_BEND, 16_383);
    assert_eq!(POLL_INTERVAL_MS, 1);
    assert_eq!(TAIL_SECS, 2);
}

#[test]
fn each_payload_has_its_call() {
    assert_eq!(
        translate(EventPayload::NoteOn { channel: 1, key: 60, velocity: 100 }),
        Dispatch::Call(SynthCall::NoteOn { channel: 1, key: 60, velocity: 100 })
    );
    assert_eq!(
        translate(EventPayload::NoteOff { channel: 1, key: 60, velocity: 64 }),
        Dispatch::Call(SynthCall::NoteOff { channel: 1, key: 60 })
    );
    assert_eq!(
        translate(EventPayload::ProgramChange { channel: 2, program: 5 }),
        Dispatch::Call(SynthCall::ProgramChange { channel: 2, program: 5 })
    );
    assert_eq!(
        translate(EventPayload::ControlChange { channel: 3, controller: 7, value: 127 }),
        Dispatch::Call(SynthCall::ControlChange { channel: 3, controller: 7, value: 127 })
    );
    assert_eq!(
        translate(EventPayload::PitchBend { channel: 4, bend: 8192 }),
        Dispatch::Call(SynthCall::PitchBend { channel: 4, bend: 8192 })
    );
    assert_eq!(
        translate(EventPayload::Aftertouch { channel: 5, key: 61, pressure: 9 }),
        Dispatch::Call(SynthCall::KeyPressure { channel: 5, key: 61, pressure: 9 })
    );
    assert_eq!(
        translate(EventPayload::ChannelAftertouch { channel: 6, pressure: 10 }),
        Dispatch::Call(SynthCall::ChannelPressure { channel: 6, pressure: 10 })
    );
    assert_eq!(
        translate(EventPayload::TempoChange { us_per_quarter_note: 500_000 }),
        Dispatch::Inert
    );
}

#[test]
fn pitch_bend_is_forwarded_up_to_14_bits() {
    assert_eq!(
        translate(EventPayload::PitchBend { channel: 0, bend: 0 }),
        Dispatch::Call(SynthCall::PitchBend { channel: 0, bend: 0 })
    );
    assert_eq!(
        translate(EventPayload::PitchBend { channel: 0, bend: 16_383 }),
        Dispatch::Call(SynthCall::PitchBend { channel: 0, bend: 16_383 })
    );
    assert_eq!(
        translate(EventPayload::PitchBend { channel: 0, bend: 16_384 }),
        Dispatch::BendOutOfRange { channel: 0, bend: 16_384 }
    );
    assert_eq!(
        translate(EventPayload::PitchBend { channel: 7, bend: u16::MAX }),
        Dispatch::BendOutOfRange { channel: 7, bend: u16::MAX }
    );
}

#[test]
fn out_of_range_pitch_bend_never_reaches_the_engine() {
    let timeline = Timeline::from_events(&vec![
        at(0, EventPayload::PitchBend { channel: 0, bend: 20_000 }),
        at(0, EventPayload::PitchBend { channel: 0, bend: 8_192 }),
        at(10, EventPayload::PitchBend { channel: 1, bend: 16_384 }),
        at(20, EventPayload::NoteOn { channel: 0, key: 60, velocity: 100 }),
    ]);
    let mut dispatcher = Dispatcher::new(&timeline);
    let mut spy = Spy { calls: Vec::new(), refused: 0, dropped: 0 };
    drain(&mut dispatcher, 1_000, &mut spy);
    assert!(dispatcher.is_finished());
    assert_eq!(spy.dropped, 2);
    assert_eq!(
        spy.calls,
        vec![
            SynthCall::PitchBend { channel: 0, bend: 8_192 },
            SynthCall::NoteOn { channel: 0, key: 60, velocity: 100 },
        ]
    );
    for call in &spy.calls {
        if let SynthCall::PitchBend { bend, .. } = call {
            assert!(*bend <= 16_383);
        }
    }
}

#[test]
fn events_are_handed_out_from_their_time_on() {
    let timeline = Timeline::from_events(&vec![
        at(2_000, EventPayload::NoteOff { channel: 0, key: 60, velocity: 0 }),
        at(1_000, EventPayload::NoteOn { channel: 0, key: 60, velocity: 100 }),
        at(1_000, EventPayload::NoteOn { channel: 0, key: 64, velocity: 90 }),
    ]);
    let mut dispatcher = Dispatcher::new(&timeline);
    assert_eq!(dispatcher.position(), 0);
    assert!(!dispatcher.is_finished());
    assert_eq!(dispatcher.next_due(0), None);
    assert_eq!(dispatcher.next_due(999), None);
    assert_eq!(dispatcher.position(), 0);
    assert_eq!(
        dispatcher.next_due(1_000),
        Some(Dispatch::Call(SynthCall::NoteOn { channel: 0, key: 60, velocity: 100 }))
    );
    assert_eq!(dispatcher.position(), 1);
    assert_eq!(
        dispatcher.next_due(1_000),
        Some(Dispatch::Call(SynthCall::NoteOn { channel: 0, key: 64, velocity: 90 }))
    );
    assert_eq!(dispatcher.next_due(1_000), None);
    assert_eq!(dispatcher.next_due(1_999), None);
    assert_eq!(dispatcher.position(), 2);
    assert!(!dispatcher.is_finished());
    assert_eq!(
        dispatcher.next_due(5_000),
        Some(Dispatch::Call(SynthCall::NoteOff { channel: 0, key: 60 }))
    );
    assert!(dispatcher.is_finished());
    assert_eq!(dispatcher.position(), 3);
    assert_eq!(dispatcher.next_due(u64::MAX), None);
    assert_eq!(dispatcher.position(), 3);
}

#[test]
fn tempo_marker_is_passed_without_a_call() {
    let timeline = Timeline::from_events(&vec![
        at(0, EventPayload::TempoChange { us_per_quarter_note: 500_000 }),
        at(125_000, EventPayload::NoteOn { channel: 1, key: 64, velocity: 90 }),
        at(250_000, EventPayload::NoteOn { channel: 0, key: 60, velocity: 100 }),
    ]);
    let mut dispatcher = Dispatcher::new(&timeline);
    assert_eq!(dispatcher.next_due(0), Some(Dispatch::Inert));
    let mut spy = Spy { calls: Vec::new(), refused: 0, dropped: 0 };
    drain(&mut dispatcher, 124_999, &mut spy);
    assert_eq!(spy.calls, vec![]);
    drain(&mut dispatcher, 200_000, &mut spy);
    assert_eq!(spy.calls, vec![SynthCall::NoteOn { channel: 1, key: 64, velocity: 90 }]);
    drain(&mut dispatcher, 250_000, &mut spy);
    assert_eq!(spy.calls.len(), 2);
    assert!(dispatcher.is_finished());
}

#[test]
fn refused_call_does_not_stop_the_replay() {
    let timeline = Timeline::from_events(&vec![
        at(0, EventPayload::NoteOn { channel: 200, key: 60, velocity: 100 }),
        at(1, EventPayload::NoteOn { channel: 0, key: 60, velocity: 100 }),
    ]);
    let mut dispatcher = Dispatcher::new(&timeline);
    let mut spy = Spy { calls: Vec::new(), refused: 0, dropped: 0 };
    drain(&mut dispatcher, 1, &mut spy);
    assert_eq!(spy.refused, 1);
    assert_eq!(spy.calls.len(), 2);
    assert!(dispatcher.is_finished());
}

#[test]
fn dispatcher_of_an_empty_timeline_is_finished() {
    let timeline = Timeline::from_events(&vec![]);
    let mut dispatcher = Dispatcher::new(&timeline);
    assert!(dispatcher.is_finished());
    assert_eq!(dispatcher.next_due(0), None);
}

#[test]
fn timeline_is_left_as_it_was() {
    let timeline = Timeline::from_events(&vec![
        at(5, EventPayload::NoteOn { channel: 0, key: 60, velocity: 100 }),
        at(6, EventPayload::NoteOff { channel: 0, key: 60, velocity: 0 }),
    ]);
    let before = timeline.events().clone();
    let mut first = Dispatcher::new(&timeline);
    let mut second = Dispatcher::new(&timeline);
    assert!(first.next_due(10).is_some());
    assert!(first.next_due(10).is_some());
    assert!(first.is_finished());
    assert_eq!(second.position(), 0);
    assert_eq!(
        second.next_due(5),
        Some(Dispatch::Call(SynthCall::NoteOn { channel: 0, key: 60, velocity: 100 }))
    );
    assert_eq!(timeline.events(), &before);
}

#[test]
fn clean_start_brings_sixteen_channels_to_rest() {
    let calls = clean_start_calls();
    assert_eq!(calls.len(), 48);
    for channel in 0..16u32 {
        let at = 3 * channel as usize;
        assert_eq!(calls[at], SynthCall::PitchBend { channel, bend: 8192 });
        assert_eq!(calls[at + 1], SynthCall::ControlChange { channel, controller: 121, value: 0 });
        assert_eq!(calls[at + 2], SynthCall::ControlChange { channel, controller: 120, value: 0 });
    }
}
