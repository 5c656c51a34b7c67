//! From the events of one track to timed events.
//!
//! A track is walked in order. Its ticks add up, its tempo changes where a
//! tempo event stands, and each event that the timeline keeps gets the time
//! of its tick count at the tempo that was in effect when it was reached.

use vstd::prelude::*;
use crate::clock::{
    lemma_ticks_to_us_bounded, lemma_ticks_to_us_monotone, ticks_to_micros, ticks_to_us,
};
use crate::event::{ChannelMessage, EventKind, EventPayload, TimedEvent, TrackEvent};

verus! {

/// The ticks from the start of `track` through its first `n` events.
pub open spec fn ticks_through(track: Seq<TrackEvent>, n: nat) -> nat
    decreases n,
{
    if n == 0 {
        0
    } else {
        ticks_through(track, (n - 1) as nat) + track[n - 1].delta as nat
    }
}

/// The tempo in effect after the first `n` events of `track`, which starts
/// at the tempo `initial`: that of the last tempo event among them.
pub open spec fn tempo_after(track: Seq<TrackEvent>, n: nat, initial: u32) -> u32
    decreases n,
{
    if n == 0 {
        initial
    } else {
        match track[n - 1].kind {
            EventKind::Tempo(us_per_quarter_note) => us_per_quarter_note,
            _ => tempo_after(track, (n - 1) as nat, initial),
        }
    }
}

/// The time of event `i` of `track`: its tick count at the tempo in effect
/// before it. A tempo event changes the tempo for the events after it.
pub open spec fn event_time(track: Seq<TrackEvent>, i: nat, initial: u32, ppq: u16) -> u64 {
    ticks_to_us(ticks_through(track, i + 1), tempo_after(track, i, initial) as nat, ppq as nat) as u64
}

/// What a channel-voice message on `channel` becomes in the timeline. A
/// note-on of velocity 0 is a release: it becomes a note-off of velocity 0.
pub open spec fn voice_payload(channel: u8, message: ChannelMessage) -> EventPayload {
    match message {
        ChannelMessage::NoteOff { key, velocity } => EventPayload::NoteOff { channel, key, velocity },
        ChannelMessage::NoteOn { key, velocity } => if velocity == 0 {
            EventPayload::NoteOff { channel, key, velocity: 0 }
        } else {
            EventPayload::NoteOn { channel, key, velocity }
        },
        ChannelMessage::Aftertouch { key, pressure } => EventPayload::Aftertouch {
            channel,
            key,
            pressure,
        },
        ChannelMessage::Controller { controller, value } => EventPayload::ControlChange {
            channel,
            controller,
            value,
        },
        ChannelMessage::ProgramChange { program } => EventPayload::ProgramChange { channel, program },
        ChannelMessage::ChannelAftertouch { pressure } => EventPayload::ChannelAftertouch {
            channel,
            pressure,
        },
        ChannelMessage::PitchBend { bend } => EventPayload::PitchBend { channel, bend },
    }
}

/// What the timeline keeps of a track event: a marker for a tempo event,
/// the message of a channel-voice event, nothing of any other.
pub open spec fn payload_of(kind: EventKind) -> Option<EventPayload> {
    match kind {
        EventKind::Tempo(us_per_quarter_note) => Some(
            EventPayload::TempoChange { us_per_quarter_note },
        ),
        EventKind::Voice { channel, message } => Some(voice_payload(channel, message)),
        _ => None,
    }
}

/// The timed events of the first `n` events of `track`, in their order.
pub open spec fn track_timeline(track: Seq<TrackEvent>, n: nat, initial: u32, ppq: u16) -> Seq<
    TimedEvent,
>
    decreases n,
{
    if n == 0 {
        Seq::empty()
    } else {
        let before = track_timeline(track, (n - 1) as nat, initial, ppq);
        match payload_of(track[n - 1].kind) {
            Some(payload) => before.push(
                TimedEvent {
                    absolute_time_us: event_time(track, (n - 1) as nat, initial, ppq),
                    payload,
                },
            ),
            None => before,
        }
    }
}

/// The timed events of `track`, which starts at the tempo `initial`, with
/// `ppq` ticks in a quarter note.
pub open spec fn track_events(track: Seq<TrackEvent>, initial: u32, ppq: u16) -> Seq<TimedEvent> {
    track_timeline(track, track.len(), initial, ppq)
}

/// Computes `voice_payload`.
pub fn voice_to_payload(channel: u8, message: ChannelMessage) -> (payload: EventPayload)
    ensures
        payload == voice_payload(channel, message),
{
    match message {
        ChannelMessage::NoteOff { key, velocity } => EventPayload::NoteOff { channel, key, velocity },
        ChannelMessage::NoteOn { key, velocity } => {
            if velocity == 0 {
                EventPayload::NoteOff { channel, key, velocity: 0 }
            } else {
                EventPayload::NoteOn { channel, key, velocity }
            }
        },
        ChannelMessage::Aftertouch { key, pressure } => EventPayload::Aftertouch {
            channel,
            key,
            pressure,
        },
        ChannelMessage::Controller { controller, value } => EventPayload::ControlChange {
            channel,
            controller,
            value,
        },
        ChannelMessage::ProgramChange { program } => EventPayload::ProgramChange { channel, program },
        ChannelMessage::ChannelAftertouch { pressure } => EventPayload::ChannelAftertouch {
            channel,
            pressure,
        },
        ChannelMessage::PitchBend { bend } => EventPayload::PitchBend { channel, bend },
    }
}

/// Computes `payload_of`.
pub fn classify(kind: EventKind) -> (payload: Option<EventPayload>)
    ensures
        payload == payload_of(kind),
{
    match kind {
        EventKind::Tempo(us_per_quarter_note) => Some(
            EventPayload::TempoChange { us_per_quarter_note },
        ),
        EventKind::Voice { channel, message } => Some(voice_to_payload(channel, message)),
        _ => None,
    }
}

/// The ticks of `n` events are at most `n` times the largest delta.
pub proof fn lemma_ticks_through_bounded(track: Seq<TrackEvent>, n: nat)
    ensures
        ticks_through(track, n) <= n * 0xFFFF_FFFF,
    decreases n,
{
    if n > 0 {
        lemma_ticks_through_bounded(track, (n - 1) as nat);
    }
}

/// Ticks never decrease along a track.
pub proof fn lemma_ticks_through_monotone(track: Seq<TrackEvent>, m: nat, n: nat)
    requires
        m <= n,
    ensures
        ticks_through(track, m) <= ticks_through(track, n),
    decreases n,
{
    if m < n {
        lemma_ticks_through_monotone(track, m, (n - 1) as nat);
    }
}

/// Whether `payload` is what the timeline may hold: any payload but a
/// note-on of velocity 0.
pub open spec fn is_normalized(payload: EventPayload) -> bool {
    payload matches EventPayload::NoteOn { channel, key, velocity } ==> velocity > 0
}

/// A note-on of velocity 0 enters the timeline as a note-off of velocity 0.
pub proof fn lemma_silent_note_on_is_release(channel: u8, key: u8)
    ensures
        payload_of(
            EventKind::Voice { channel, message: ChannelMessage::NoteOn { key, velocity: 0 } },
        ) == Some(EventPayload::NoteOff { channel, key, velocity: 0 }),
{
}

/// No track event gives a note-on of velocity 0.
pub proof fn lemma_payload_is_normalized(kind: EventKind)
    ensures
        payload_of(kind) matches Some(payload) ==> is_normalized(payload),
{
}

/// What the timeline keeps of an event that is in range is in range: the
/// velocity of a note-on lies between 1 and 127.
pub proof fn lemma_payload_in_range(kind: EventKind)
    requires
        kind.in_range(),
    ensures
        payload_of(kind) matches Some(payload) ==> payload.in_range(),
{
}

/// Each timed event of a track comes from one event of the track: it
/// carries what the timeline keeps of that event, at that event's time.
pub proof fn lemma_track_event_origin(
    track: Seq<TrackEvent>,
    n: nat,
    initial: u32,
    ppq: u16,
    j: int,
) -> (i: nat)
    requires
        0 <= j < track_timeline(track, n, initial, ppq).len(),
    ensures
        i < n,
        payload_of(track[i as int].kind) == Some(track_timeline(track, n, initial, ppq)[j].payload),
        track_timeline(track, n, initial, ppq)[j].absolute_time_us == event_time(
            track,
            i,
            initial,
            ppq,
        ),
    decreases n,
{
    let before = track_timeline(track, (n - 1) as nat, initial, ppq);
    if j < before.len() {
        lemma_track_event_origin(track, (n - 1) as nat, initial, ppq, j)
    } else {
        (n - 1) as nat
    }
}

/// No timed event of a track is a note-on of velocity 0.
pub proof fn lemma_track_events_normalized(track: Seq<TrackEvent>, initial: u32, ppq: u16)
    ensures
        forall|j: int|
            0 <= j < track_events(track, initial, ppq).len() ==> is_normalized(
                #[trigger] track_events(track, initial, ppq)[j].payload,
            ),
{
    assert forall|j: int| 0 <= j < track_events(track, initial, ppq).len() implies is_normalized(
        #[trigger] track_events(track, initial, ppq)[j].payload,
    ) by {
        let i = lemma_track_event_origin(track, track.len(), initial, ppq, j);
        lemma_payload_is_normalized(track[i as int].kind);
    }
}

/// The time of an event depends on the events of its track up to and
/// including itself, and on none after it: a tempo event changes the times
/// of later events only.
pub proof fn lemma_event_time_looks_back(
    a: Seq<TrackEvent>,
    b: Seq<TrackEvent>,
    i: nat,
    initial: u32,
    ppq: u16,
)
    requires
        i < a.len(),
        i < b.len(),
        a.take(i + 1 as int) == b.take(i + 1 as int),
    ensures
        event_time(a, i, initial, ppq) == event_time(b, i, initial, ppq),
{
    assert forall|k: int| 0 <= k < i + 1 implies a[k] == b[k] by {
        assert(a[k] == a.take(i + 1 as int)[k]);
        assert(b[k] == b.take(i + 1 as int)[k]);
    }
    lemma_prefix_decides(a, b, i + 1, initial);
    lemma_prefix_decides(a, b, i, initial);
}

/// Tracks that agree on their first `n` events agree on the ticks through
/// them and on the tempo after them.
proof fn lemma_prefix_decides(a: Seq<TrackEvent>, b: Seq<TrackEvent>, n: nat, initial: u32)
    requires
        n <= a.len(),
        n <= b.len(),
        forall|k: int| 0 <= k < n ==> a[k] == b[k],
    ensures
        ticks_through(a, n) == ticks_through(b, n),
        tempo_after(a, n, initial) == tempo_after(b, n, initial),
    decreases n,
{
    if n > 0 {
        lemma_prefix_decides(a, b, (n - 1) as nat, initial);
    }
}

/// Whether the tempo never falls along `track`: no tempo event sets fewer
/// microseconds per quarter note than were in effect before it.
pub open spec fn tempo_never_falls(track: Seq<TrackEvent>, initial: u32) -> bool {
    forall|n: nat|
        0 < n <= track.len() ==> tempo_after(track, (n - 1) as nat, initial) <= #[trigger] tempo_after(
            track,
            n,
            initial,
        )
}

/// Along a track whose tempo never falls, a later event has no lower tempo.
proof fn lemma_tempo_monotone(track: Seq<TrackEvent>, m: nat, n: nat, initial: u32)
    requires
        m <= n <= track.len(),
        tempo_never_falls(track, initial),
    ensures
        tempo_after(track, m, initial) <= tempo_after(track, n, initial),
    decreases n,
{
    if m < n {
        lemma_tempo_monotone(track, m, (n - 1) as nat, initial);
        assert(tempo_after(track, (n - 1) as nat, initial) <= tempo_after(track, n, initial));
    }
}

/// Along a track whose tempo never falls, the times follow the ticks: a
/// later event is never earlier in time. Where the tempo falls this can
/// fail, since an event's time is its whole tick count at the tempo in
/// effect.
pub proof fn lemma_event_times_follow_ticks(
    track: Seq<TrackEvent>,
    i: nat,
    j: nat,
    initial: u32,
    ppq: u16,
)
    requires
        i <= j < track.len(),
        tempo_never_falls(track, initial),
    ensures
        event_time(track, i, initial, ppq) <= event_time(track, j, initial, ppq),
{
    lemma_ticks_through_monotone(track, i + 1, j + 1);
    lemma_tempo_monotone(track, i, j, initial);
    lemma_ticks_to_us_monotone(
        ticks_through(track, i + 1),
        ticks_through(track, j + 1),
        tempo_after(track, i, initial) as nat,
        tempo_after(track, j, initial) as nat,
        ppq as nat,
    );
    lemma_ticks_to_us_bounded(
        ticks_through(track, i + 1),
        tempo_after(track, i, initial) as nat,
        ppq as nat,
    );
    lemma_ticks_to_us_bounded(
        ticks_through(track, j + 1),
        tempo_after(track, j, initial) as nat,
        ppq as nat,
    );
}

/// Walks `track` and appends its timed events to `out`.
pub fn append_track_events(
    track: &Vec<TrackEvent>,
    initial: u32,
    ppq: u16,
    out: &mut Vec<TimedEvent>,
)
    ensures
        final(out)@ == old(out)@ + track_events(track@, initial, ppq),
{
    let ghost start = out@;
    let mut abs_ticks: u128 = 0;
    let mut tempo: u32 = initial;
    let mut n: usize = 0;
    assert(out@ =~= start + track_timeline(track@, 0, initial, ppq));
    while n < track.len()
        invariant
            n <= track.len(),
            abs_ticks == ticks_through(track@, n as nat),
            tempo == tempo_after(track@, n as nat, initial),
            out@ == start + track_timeline(track@, n as nat, initial, ppq),
        decreases track.len() - n,
    {
        let event = track[n];
        proof {
            lemma_ticks_through_bounded(track@, n as nat);
            assert(n <= 0xFFFF_FFFF_FFFF_FFFF);
        }
        abs_ticks = abs_ticks + event.delta as u128;
        let absolute_time_us = ticks_to_micros(abs_ticks, tempo, ppq);
        match classify(event.kind) {
            Some(payload) => {
                out.push(TimedEvent { absolute_time_us, payload });
            },
            None => {},
        }
        match event.kind {
            EventKind::Tempo(us_per_quarter_note) => {
                tempo = us_per_quarter_note;
            },
            _ => {},
        }
        n = n + 1;
        assert(out@ =~= start + track_timeline(track@, n as nat, initial, ppq));
    }
}

} // verus!
