use midi_timeline::clock::{ticks_to_micros, DEFAULT_US_PER_QUARTER_NOTE, FALLBACK_PPQ};
use midi_timeline::event::{
    ChannelMessage, EventKind, EventPayload, MidiFile, TimedEvent, Timing, TrackEvent,
};
use midi_timeline::timeline::Timeline;
use midi_timeline::track::{append_track_events, classify, voice_to_payload};

fn voice(delta: u32, channel: u8, message: ChannelMessage) -> TrackEvent {
    TrackEvent { delta, kind: EventKind::Voice { channel, message } }
}

fn on(delta: u32, channel: u8, key: u8, velocity: u8) -> TrackEvent {
    voice(delta, channel, ChannelMessage::NoteOn { key, velocity })
}

fn tempo(delta: u32, us_per_quarter_note: u32) -> TrackEvent {
    TrackEvent { delta, kind: EventKind::Tempo(us_per_quarter_note) }
}

fn at(absolute_time_us: u64, payload: EventPayload) -> TimedEvent {
    TimedEvent { absolute_time_us, payload }
}

fn note_on(channel: u8, key: u8, velocity: u8) -> EventPayload {
    EventPayload::NoteOn { channel, key, velocity }
}

#[test]
fn constants_are_120_bpm_and_480_ppq() {
    assert_eq!(DEFAULT_US_PER_QUARTER_NOTE, 500_000);
    assert_eq!(FALLBACK_PPQ, 480);
}

#[test]
fn ticks_to_micros_rounds_down() {
    assert_eq!(ticks_to_micros(480, 1_000_000, 480), 1_000_000);
    assert_eq!(ticks_to_micros(120, 500_000, 480), 125_000);
    assert_eq!(ticks_to_micros(1, 500_000, 480), 1_041);
    assert_eq!(ticks_to_micros(7, 333_333, 96), 24_305);
    assert_eq!(ticks_to_micros(0, 500_000, 480), 0);
    assert_eq!(ticks_to_micros(480, 0, 480), 0);
}

#[test]
fn ticks_to_micros_holds_at_the_largest_time() {
    assert_eq!(ticks_to_micros(1, 500_000, 0), u64::MAX);
    assert_eq!(ticks_to_micros(0, 500_000, 0), 0);
    assert_eq!(ticks_to_micros(5, 0, 0), 0);
    assert_eq!(ticks_to_micros(u128::MAX, u32::MAX, 1), u64::MAX);
    assert_eq!(ticks_to_micros(1 << 96, 1, 65_535), u64::MAX);
    assert_eq!(ticks_to_micros(u64::MAX as u128, 2, 1), u64::MAX);
    assert_eq!(ticks_to_micros(u64::MAX as u128, 1, 1), u64::MAX);
    assert_eq!(ticks_to_micros(u64::MAX as u128 - 1, 1, 1), u64::MAX - 1);
    assert_eq!(ticks_to_micros(u64::MAX as u128, 3, 4), 13_835_058_055_282_163_711);
}

#[test]
fn without_tempo_event_every_time_is_at_120_bpm() {
    let file = MidiFile {
        timing: Timing::Metrical(96),
        tracks: vec![
            vec![on(0, 0, 60, 1), on(96, 0, 61, 2), on(48, 0, 62, 3), on(1, 0, 63, 4)],
            vec![on(1000, 1, 70, 5)],
        ],
        names: vec![],
    };
    assert_eq!(file.initial_tempo(), 500_000);
    assert_eq!(
        file.timed_events(),
        vec![
            at(0, note_on(0, 60, 1)),
            at(500_000, note_on(0, 61, 2)),
            at(750_000, note_on(0, 62, 3)),
            at(755_208, note_on(0, 63, 4)),
            at(5_208_333, note_on(1, 70, 5)),
        ]
    );
}

#[test]
fn tempo_event_changes_later_events_of_its_track_only() {
    let file = MidiFile {
        timing: Timing::Metrical(480),
        tracks: vec![
            vec![tempo(0, 500_000), on(480, 0, 60, 100), tempo(0, 250_000), on(480, 0, 61, 100)],
            vec![on(480, 1, 70, 90), on(480, 1, 71, 90)],
        ],
        names: vec![],
    };
    assert_eq!(
        file.timed_events(),
        vec![
            at(0, EventPayload::TempoChange { us_per_quarter_note: 500_000 }),
            at(500_000, note_on(0, 60, 100)),
            at(500_000, EventPayload::TempoChange { us_per_quarter_note: 250_000 }),
            at(500_000, note_on(0, 61, 100)),
            at(500_000, note_on(1, 70, 90)),
            at(1_000_000, note_on(1, 71, 90)),
        ]
    );
}

#[test]
fn other_track_keeps_its_times_when_a_tempo_changes() {
    let other = vec![on(100, 1, 70, 90), on(300, 1, 71, 90), on(77, 1, 72, 90)];
    let slow = MidiFile {
        timing: Timing::Metrical(480),
        tracks: vec![vec![tempo(0, 600_000), on(10, 0, 60, 1), tempo(5, 900_000)], other.clone()],
        names: vec![],
    };
    let fast = MidiFile {
        timing: Timing::Metrical(480),
        tracks: vec![vec![tempo(0, 600_000), on(10, 0, 60, 1), tempo(5, 100_000)], other.clone()],
        names: vec![],
    };
    let mut of_slow = Vec::new();
    append_track_events(&slow.tracks[1], slow.initial_tempo(), slow.ppq(), &mut of_slow);
    let mut of_fast = Vec::new();
    append_track_events(&fast.tracks[1], fast.initial_tempo(), fast.ppq(), &mut of_fast);
    assert_eq!(of_slow, of_fast);
    assert_eq!(
        of_slow,
        vec![
            at(125_000, note_on(1, 70, 90)),
            at(500_000, note_on(1, 71, 90)),
            at(596_250, note_on(1, 72, 90)),
        ]
    );
    assert_eq!(&slow.timed_events()[3..], &of_slow[..]);
    assert_eq!(&fast.timed_events()[3..], &of_fast[..]);
}

#[test]
fn first_tempo_of_the_file_starts_every_track() {
    let file = MidiFile {
        timing: Timing::Metrical(480),
        tracks: vec![
            vec![on(480, 0, 60, 100)],
            vec![on(960, 1, 61, 100), tempo(0, 1_000_000), tempo(0, 250_000)],
            vec![tempo(0, 750_000), on(480, 2, 62, 100)],
        ],
        names: vec![],
    };
    assert_eq!(file.initial_tempo(), 1_000_000);
    assert_eq!(
        file.timed_events(),
        vec![
            at(1_000_000, note_on(0, 60, 100)),
            at(2_000_000, note_on(1, 61, 100)),
            at(2_000_000, EventPayload::TempoChange { us_per_quarter_note: 1_000_000 }),
            at(2_000_000, EventPayload::TempoChange { us_per_quarter_note: 250_000 }),
            at(0, EventPayload::TempoChange { us_per_quarter_note: 750_000 }),
            at(750_000, note_on(2, 62, 100)),
        ]
    );
}

#[test]
fn header_without_metrical_division_falls_back_to_480() {
    let file = MidiFile {
        timing: Timing::Timecode,
        tracks: vec![vec![on(480, 0, 60, 100)]],
        names: vec![],
    };
    assert_eq!(file.ppq(), 480);
    assert_eq!(file.timed_events(), vec![at(500_000, note_on(0, 60, 100))]);
    let metrical = MidiFile { timing: Timing::Metrical(96), tracks: vec![], names: vec![] };
    assert_eq!(metrical.ppq(), 96);
    assert_eq!(metrical.initial_tempo(), 500_000);
    assert_eq!(metrical.timed_events(), vec![]);
}

#[test]
fn zero_ppq_puts_later_events_at_the_largest_time() {
    let file = MidiFile {
        timing: Timing::Metrical(0),
        tracks: vec![vec![on(0, 0, 60, 100), on(1, 0, 61, 100)]],
        names: vec![],
    };
    assert_eq!(
        file.timed_events(),
        vec![at(0, note_on(0, 60, 100)), at(u64::MAX, note_on(0, 61, 100))]
    );
}

#[test]
fn zero_tempo_puts_later_events_at_zero() {
    let file = MidiFile {
        timing: Timing::Metrical(480),
        tracks: vec![vec![on(480, 0, 60, 100), tempo(0, 0), on(480, 0, 61, 100)]],
        names: vec![],
    };
    assert_eq!(file.initial_tempo(), 0);
    assert_eq!(
        file.timed_events(),
        vec![
            at(0, note_on(0, 60, 100)),
            at(0, EventPayload::TempoChange { us_per_quarter_note: 0 }),
            at(0, note_on(0, 61, 100)),
        ]
    );
}

#[test]
fn note_on_with_velocity_zero_becomes_note_off() {
    assert_eq!(
        voice_to_payload(3, ChannelMessage::NoteOn { key: 60, velocity: 0 }),
        EventPayload::NoteOff { channel: 3, key: 60, velocity: 0 }
    );
    assert_eq!(
        voice_to_payload(3, ChannelMessage::NoteOn { key: 60, velocity: 1 }),
        EventPayload::NoteOn { channel: 3, key: 60, velocity: 1 }
    );
    let file = MidiFile {
        timing: Timing::Metrical(480),
        tracks: vec![vec![on(0, 0, 60, 100), on(480, 0, 60, 0), on(0, 0, 61, 0)]],
        names: vec![],
    };
    let timeline = Timeline::build(&file);
    assert_eq!(
        timeline.events(),
        &vec![
            at(0, note_on(0, 60, 100)),
            at(500_000, EventPayload::NoteOff { channel: 0, key: 60, velocity: 0 }),
            at(500_000, EventPayload::NoteOff { channel: 0, key: 61, velocity: 0 }),
        ]
    );
    for event in timeline.events() {
        assert!(!matches!(event.payload, EventPayload::NoteOn { velocity: 0, .. }));
    }
}

#[test]
fn every_channel_message_maps_to_its_payload() {
    assert_eq!(
        voice_to_payload(1, ChannelMessage::NoteOff { key: 2, velocity: 3 }),
        EventPayload::NoteOff { channel: 1, key: 2, velocity: 3 }
    );
    assert_eq!(
        voice_to_payload(1, ChannelMessage::Aftertouch { key: 2, pressure: 3 }),
        EventPayload::Aftertouch { channel: 1, key: 2, pressure: 3 }
    );
    assert_eq!(
        voice_to_payload(1, ChannelMessage::Controller { controller: 2, value: 3 }),
        EventPayload::ControlChange { channel: 1, controller: 2, value: 3 }
    );
    assert_eq!(
        voice_to_payload(1, ChannelMessage::ProgramChange { program: 2 }),
        EventPayload::ProgramChange { channel: 1, program: 2 }
    );
    assert_eq!(
        voice_to_payload(1, ChannelMessage::ChannelAftertouch { pressure: 2 }),
        EventPayload::ChannelAftertouch { channel: 1, pressure: 2 }
    );
    assert_eq!(
        voice_to_payload(1, ChannelMessage::PitchBend { bend: 8192 }),
        EventPayload::PitchBend { channel: 1, bend: 8192 }
    );
}

#[test]
fn only_tempo_and_voice_events_enter_the_timeline() {
    assert_eq!(
        classify(EventKind::Tempo(400_000)),
        Some(EventPayload::TempoChange { us_per_quarter_note: 400_000 })
    );
    assert_eq!(
        classify(EventKind::Voice {
            channel: 9,
            message: ChannelMessage::ProgramChange { program: 7 }
        }),
        Some(EventPayload::ProgramChange { channel: 9, program: 7 })
    );
    assert_eq!(classify(EventKind::TimeSignature { numerator: 6, denominator_exp: 3 }), None);
    assert_eq!(classify(EventKind::KeySignature { sharps: -2, minor: true }), None);
    assert_eq!(classify(EventKind::TrackName), None);
    assert_eq!(classify(EventKind::Other), None);
    let file = MidiFile {
        timing: Timing::Metrical(480),
        tracks: vec![vec![
            TrackEvent { delta: 100, kind: EventKind::TrackName },
            TrackEvent {
                delta: 100,
                kind: EventKind::TimeSignature { numerator: 3, denominator_exp: 2 },
            },
            TrackEvent { delta: 100, kind: EventKind::KeySignature { sharps: 1, minor: false } },
            TrackEvent { delta: 100, kind: EventKind::Other },
            on(80, 0, 60, 100),
        ]],
        names: vec![],
    };
    assert_eq!(file.timed_events(), vec![at(500_000, note_on(0, 60, 100))]);
}

#[test]
fn appending_keeps_what_was_there() {
    let mut out = vec![at(7, note_on(0, 1, 1))];
    append_track_events(&vec![on(480, 0, 60, 100)], 1_000_000, 480, &mut out);
    assert_eq!(out, vec![at(7, note_on(0, 1, 1)), at(1_000_000, note_on(0, 60, 100))]);
}

#[test]
fn ticks_add_up_beyond_32_bits() {
    let track = vec![on(u32::MAX, 0, 60, 1), on(u32::MAX, 0, 61, 1), on(2, 0, 62, 1)];
    let mut out = Vec::new();
    append_track_events(&track, 1_000, 1_000, &mut out);
    assert_eq!(
        out,
        vec![
            at(4_294_967_295, note_on(0, 60, 1)),
            at(8_589_934_590, note_on(0, 61, 1)),
            at(8_589_934_592, note_on(0, 62, 1)),
        ]
    );
}
