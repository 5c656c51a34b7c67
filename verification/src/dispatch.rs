//! Replay of a timeline against a clock.
//!
//! The dispatcher holds a timeline of its own and a cursor into it. Its
//! caller samples a clock, asks for the events that are due at that time one
//! by one, carries out what each of them asks of the synthesis engine, and
//! sleeps for `POLL_INTERVAL_MS` before it samples the clock again. When the
//! cursor has reached the end, the caller waits `TAIL_SECS` for the last
//! notes to decay.
//!
//! Nothing here depends on what the engine answers: an event that the
//! engine refuses is passed like any other.

use vstd::prelude::*;
use crate::event::{EventPayload, TimedEvent};
use crate::merge::is_time_ordered;
use crate::timeline::Timeline;

verus! {

/// The largest pitch bend that is forwarded: 14 bits.
pub const MAX_PITCH_BEND: u16 = 16383;

/// How long the caller sleeps between two samples of the clock, in milliseconds.
pub const POLL_INTERVAL_MS: u64 = 1;

/// How long the caller waits after the last event, in seconds.
pub const TAIL_SECS: u64 = 2;

/// One call on the synthesis engine.
#[derive(Clone, Copy, Debug, PartialEq, Eq, Structural)]
pub enum SynthCall {
    NoteOn { channel: u32, key: u32, velocity: u32 },
    NoteOff { channel: u32, key: u32 },
    ProgramChange { channel: u32, program: u32 },
    ControlChange { channel: u32, controller: u32, value: u32 },
    PitchBend { channel: u32, bend: u32 },
    KeyPressure { channel: u32, key: u32, pressure: u32 },
    ChannelPressure { channel: u32, pressure: u32 },
}

/// What is to be done with an event that is due.
#[derive(Clone, Copy, Debug, PartialEq, Eq, Structural)]
pub enum Dispatch {
    /// Make this call on the engine.
    Call(SynthCall),
    /// The event is a pitch bend beyond `MAX_PITCH_BEND`: it is dropped, to
    /// be reported and not forwarded.
    BendOutOfRange { channel: u8, bend: u16 },
    /// The event is a tempo marker: there is nothing to do.
    Inert,
}

/// What is to be done with an event that carries `payload`.
pub open spec fn dispatch_of(payload: EventPayload) -> Dispatch {
    match payload {
        EventPayload::NoteOn { channel, key, velocity } => Dispatch::Call(
            SynthCall::NoteOn { channel: channel as u32, key: key as u32, velocity: velocity as u32 },
        ),
        EventPayload::NoteOff { channel, key, velocity } => Dispatch::Call(
            SynthCall::NoteOff { channel: channel as u32, key: key as u32 },
        ),
        EventPayload::ProgramChange { channel, program } => Dispatch::Call(
            SynthCall::ProgramChange { channel: channel as u32, program: program as u32 },
        ),
        EventPayload::ControlChange { channel, controller, value } => Dispatch::Call(
            SynthCall::ControlChange {
                channel: channel as u32,
                controller: controller as u32,
                value: value as u32,
            },
        ),
        EventPayload::PitchBend { channel, bend } => if bend > MAX_PITCH_BEND {
            Dispatch::BendOutOfRange { channel, bend }
        } else {
            Dispatch::Call(SynthCall::PitchBend { channel: channel as u32, bend: bend as u32 })
        },
        EventPayload::Aftertouch { channel, key, pressure } => Dispatch::Call(
            SynthCall::KeyPressure { channel: channel as u32, key: key as u32, pressure: pressure as u32 },
        ),
        EventPayload::ChannelAftertouch { channel, pressure } => Dispatch::Call(
            SynthCall::ChannelPressure { channel: channel as u32, pressure: pressure as u32 },
        ),
        EventPayload::TempoChange { us_per_quarter_note } => Dispatch::Inert,
    }
}

/// Computes `dispatch_of`.
pub fn translate(payload: EventPayload) -> (dispatch: Dispatch)
    ensures
        dispatch == dispatch_of(payload),
{
    match payload {
        EventPayload::NoteOn { channel, key, velocity } => Dispatch::Call(
            SynthCall::NoteOn { channel: channel as u32, key: key as u32, velocity: velocity as u32 },
        ),
        EventPayload::NoteOff { channel, key, velocity: _ } => Dispatch::Call(
            SynthCall::NoteOff { channel: channel as u32, key: key as u32 },
        ),
        EventPayload::ProgramChange { channel, program } => Dispatch::Call(
            SynthCall::ProgramChange { channel: channel as u32, program: program as u32 },
        ),
        EventPayload::ControlChange { channel, controller, value } => Dispatch::Call(
            SynthCall::ControlChange {
                channel: channel as u32,
                controller: controller as u32,
                value: value as u32,
            },
        ),
        EventPayload::PitchBend { channel, bend } => {
            if bend > MAX_PITCH_BEND {
                Dispatch::BendOutOfRange { channel, bend }
            } else {
                Dispatch::Call(SynthCall::PitchBend { channel: channel as u32, bend: bend as u32 })
            }
        },
        EventPayload::Aftertouch { channel, key, pressure } => Dispatch::Call(
            SynthCall::KeyPressure { channel: channel as u32, key: key as u32, pressure: pressure as u32 },
        ),
        EventPayload::ChannelAftertouch { channel, pressure } => Dispatch::Call(
            SynthCall::ChannelPressure { channel: channel as u32, pressure: pressure as u32 },
        ),
        EventPayload::TempoChange { us_per_quarter_note: _ } => Dispatch::Inert,
    }
}

/// A pitch bend beyond `MAX_PITCH_BEND` is dropped: it is not forwarded to
/// the engine.
pub proof fn lemma_bend_out_of_range_is_dropped(channel: u8, bend: u16)
    requires
        bend > MAX_PITCH_BEND,
    ensures
        dispatch_of(EventPayload::PitchBend { channel, bend }) == (Dispatch::BendOutOfRange {
            channel,
            bend,
        }),
{
}

/// Every pitch-bend call that is made on the engine lies within 14 bits.
pub proof fn lemma_forwarded_bend_in_range(payload: EventPayload)
    ensures
        dispatch_of(payload) matches Dispatch::Call(SynthCall::PitchBend { channel, bend })
            ==> bend <= MAX_PITCH_BEND,
{
}

/// A payload in range is never dropped: it is a call, or a tempo marker.
pub proof fn lemma_in_range_is_not_dropped(payload: EventPayload)
    requires
        payload.in_range(),
    ensures
        !(dispatch_of(payload) is BendOutOfRange),
{
}

/// A tempo marker asks nothing of the engine.
pub proof fn lemma_tempo_marker_is_inert(us_per_quarter_note: u32)
    ensures
        dispatch_of(EventPayload::TempoChange { us_per_quarter_note }) == Dispatch::Inert,
{
}

/// The number of channels that are brought to rest before a replay.
pub const CHANNELS: u32 = 16;

/// The calls that bring one channel to rest: its pitch bend to the centre,
/// its controllers reset (controller 121), all its sound off (controller 120).
pub open spec fn channel_rest_calls(channel: u32) -> Seq<SynthCall> {
    seq![
        SynthCall::PitchBend { channel, bend: 8192 },
        SynthCall::ControlChange { channel, controller: 121, value: 0 },
        SynthCall::ControlChange { channel, controller: 120, value: 0 },
    ]
}

/// The calls that bring the channels below `channels` to rest, channel by channel.
pub open spec fn rest_calls(channels: nat) -> Seq<SynthCall>
    decreases channels,
{
    if channels == 0 {
        Seq::empty()
    } else {
        rest_calls((channels - 1) as nat) + channel_rest_calls((channels - 1) as u32)
    }
}

/// The calls to make on the engine before a replay starts: they bring each
/// of the `CHANNELS` channels to rest.
pub fn clean_start_calls() -> (calls: Vec<SynthCall>)
    ensures
        calls@ == rest_calls(CHANNELS as nat),
{
    let mut calls: Vec<SynthCall> = Vec::new();
    let mut channel: u32 = 0;
    while channel < CHANNELS
        invariant
            channel <= CHANNELS,
            calls@ == rest_calls(channel as nat),
        decreases CHANNELS - channel,
    {
        calls.push(SynthCall::PitchBend { channel, bend: 8192 });
        calls.push(SynthCall::ControlChange { channel, controller: 121, value: 0 });
        calls.push(SynthCall::ControlChange { channel, controller: 120, value: 0 });
        channel = channel + 1;
        assert(calls@ =~= rest_calls(channel as nat));
    }
    calls
}

/// A dispatcher, as contracts speak of it: its timeline, and how many of
/// its events have been handed out.
pub struct DispatcherModel {
    pub timeline: Seq<TimedEvent>,
    pub cursor: nat,
}

/// Replays one timeline, once, from its first event to its last.
#[derive(Debug)]
pub struct Dispatcher {
    events: Vec<TimedEvent>,
    cursor: usize,
}

impl View for Dispatcher {
    type V = DispatcherModel;

    closed spec fn view(&self) -> DispatcherModel {
        DispatcherModel { timeline: self.events@, cursor: self.cursor as nat }
    }
}

impl Dispatcher {
    #[verifier::type_invariant]
    spec fn well_formed(self) -> bool {
        &&& self.cursor <= self.events@.len()
        &&& is_time_ordered(self.events@)
    }

    /// A dispatcher at the start of a copy of `timeline`.
    pub fn new(timeline: &Timeline) -> (dispatcher: Dispatcher)
        ensures
            dispatcher@.timeline == timeline@,
            dispatcher@.cursor == 0,
    {
        let source = timeline.events();
        let mut events: Vec<TimedEvent> = Vec::new();
        let mut i: usize = 0;
        while i < source.len()
            invariant
                i <= source.len(),
                events@ == source@.take(i as int),
            decreases source.len() - i,
        {
            events.push(source[i]);
            assert(source@.take(i + 1) =~= source@.take(i as int).push(source@[i as int]));
            i = i + 1;
        }
        assert(source@.take(i as int) =~= source@);
        Dispatcher { events, cursor: 0 }
    }

    /// How many events have been handed out.
    pub fn position(&self) -> (cursor: usize)
        ensures
            cursor == self@.cursor,
            self@.cursor <= self@.timeline.len(),
    {
        proof {
            use_type_invariant(self);
        }
        self.cursor
    }

    /// Whether every event has been handed out.
    pub fn is_finished(&self) -> (finished: bool)
        ensures
            finished == (self@.cursor == self@.timeline.len()),
            self@.cursor <= self@.timeline.len(),
    {
        proof {
            use_type_invariant(self);
        }
        self.cursor >= self.events.len()
    }

    /// Hands out the next event if it is due at `elapsed_us` microseconds
    /// after the start: says what is to be done with it, and moves on by
    /// one event. An event is due from its time on, never before.
    ///
    /// Where the next event is not due, no later event is due either, and
    /// nothing changes.
    pub fn next_due(&mut self, elapsed_us: u64) -> (due: Option<Dispatch>)
        ensures
            final(self)@.timeline == old(self)@.timeline,
            old(self)@.cursor <= old(self)@.timeline.len(),
            match due {
                Some(dispatch) => {
                    &&& old(self)@.cursor < old(self)@.timeline.len()
                    &&& old(self)@.timeline[old(self)@.cursor as int].absolute_time_us <= elapsed_us
                    &&& dispatch == dispatch_of(old(self)@.timeline[old(self)@.cursor as int].payload)
                    &&& final(self)@.cursor == old(self)@.cursor + 1
                },
                None => {
                    &&& final(self)@.cursor == old(self)@.cursor
                    &&& forall|k: int|
                        old(self)@.cursor <= k < old(self)@.timeline.len()
                            ==> old(self)@.timeline[k].absolute_time_us > elapsed_us
                },
            },
    {
        proof {
            use_type_invariant(&*self);
        }
        if self.cursor < self.events.len() {
            let event = self.events[self.cursor];
            if event.absolute_time_us <= elapsed_us {
                self.cursor = self.cursor + 1;
                return Some(translate(event.payload));
            }
        }
        None
    }
}

} // verus!
