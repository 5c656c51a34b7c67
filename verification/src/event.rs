//! The events of a track as they are read, and the events of a timeline.

use vstd::prelude::*;

verus! {

/// A channel-voice message as it stands in a track, without its channel.
#[derive(Clone, Copy, Debug, PartialEq, Eq, Structural)]
pub enum ChannelMessage {
    /// Stop playing a key.
    NoteOff { key: u8, velocity: u8 },
    /// Start playing a key. A velocity of 0 stands for a release.
    NoteOn { key: u8, velocity: u8 },
    /// Pressure on one key that is held down.
    Aftertouch { key: u8, pressure: u8 },
    /// New value of a controller.
    Controller { controller: u8, value: u8 },
    /// New program (instrument) of the channel.
    ProgramChange { program: u8 },
    /// Pressure on the whole channel.
    ChannelAftertouch { pressure: u8 },
    /// Pitch bend of the channel, 14 bits, 8192 at rest.
    PitchBend { bend: u16 },
}

/// What a track event is, as far as the timeline is concerned.
#[derive(Clone, Copy, Debug, PartialEq, Eq, Structural)]
pub enum EventKind {
    /// Tempo meta event: microseconds per quarter note from here on.
    Tempo(u32),
    /// Time signature meta event; the denominator is a power of two, given by its exponent.
    TimeSignature { numerator: u8, denominator_exp: u8 },
    /// Key signature meta event: sharps (negative: flats) and whether the key is minor.
    KeySignature { sharps: i8, minor: bool },
    /// Track name meta event. The text of the name stands with the file.
    TrackName,
    /// A channel-voice message on a channel.
    Voice { channel: u8, message: ChannelMessage },
    /// Anything else: other meta events, system exclusive data, escapes.
    Other,
}

/// One event of a track: the ticks since the previous event of the track, and the event.
#[derive(Clone, Copy, Debug, PartialEq, Eq, Structural)]
pub struct TrackEvent {
    /// Ticks since the previous event of the track.
    pub delta: u32,
    /// What the event is.
    pub kind: EventKind,
}

/// How the header of a file measures time.
#[derive(Clone, Copy, Debug, PartialEq, Eq, Structural)]
pub enum Timing {
    /// Ticks per quarter note.
    Metrical(u16),
    /// Ticks per frame of a time code; not a metrical division.
    Timecode,
}

/// What an event of the timeline carries.
#[derive(Clone, Copy, Debug, PartialEq, Eq, Structural)]
pub enum EventPayload {
    /// Start playing a key. The timeline holds none of velocity 0.
    NoteOn { channel: u8, key: u8, velocity: u8 },
    /// Stop playing a key. The velocity is that of the release.
    NoteOff { channel: u8, key: u8, velocity: u8 },
    /// Select the program (instrument) of the channel.
    ProgramChange { channel: u8, program: u8 },
    /// Set a controller of the channel.
    ControlChange { channel: u8, controller: u8, value: u8 },
    /// Bend the pitch of the channel: 14 bits, 8192 at rest.
    PitchBend { channel: u8, bend: u16 },
    /// Pressure on one key that is held down.
    Aftertouch { channel: u8, key: u8, pressure: u8 },
    /// Pressure on the whole channel.
    ChannelAftertouch { channel: u8, pressure: u8 },
    /// Marks where a tempo event stood. The times of the timeline already
    /// account for it.
    TempoChange { us_per_quarter_note: u32 },
}

/// An event with its absolute time, in microseconds from the start.
#[derive(Clone, Copy, Debug, PartialEq, Eq, Structural)]
pub struct TimedEvent {
    /// Microseconds from the start of the replay.
    pub absolute_time_us: u64,
    /// What the event carries.
    pub payload: EventPayload,
}

impl ChannelMessage {
    /// Whether every field lies in the range that MIDI gives it: 7 bits,
    /// and 14 bits for a pitch bend.
    pub open spec fn in_range(self) -> bool {
        match self {
            ChannelMessage::NoteOff { key, velocity } => key < 128 && velocity < 128,
            ChannelMessage::NoteOn { key, velocity } => key < 128 && velocity < 128,
            ChannelMessage::Aftertouch { key, pressure } => key < 128 && pressure < 128,
            ChannelMessage::Controller { controller, value } => controller < 128 && value < 128,
            ChannelMessage::ProgramChange { program } => program < 128,
            ChannelMessage::ChannelAftertouch { pressure } => pressure < 128,
            ChannelMessage::PitchBend { bend } => bend < 16384,
        }
    }
}

impl EventKind {
    /// Whether every field lies in the range that MIDI gives it: 24 bits
    /// for a tempo, 4 bits for a channel. The fields of a time signature
    /// and of a key signature are bytes as they stand in the file.
    pub open spec fn in_range(self) -> bool {
        match self {
            EventKind::Tempo(us_per_quarter_note) => us_per_quarter_note < 0x100_0000,
            EventKind::Voice { channel, message } => channel < 16 && message.in_range(),
            _ => true,
        }
    }
}

impl TrackEvent {
    /// Whether the delta time fits 28 bits and the kind is in range.
    pub open spec fn in_range(self) -> bool {
        self.delta < 0x1000_0000 && self.kind.in_range()
    }
}

impl Timing {
    /// Whether a metrical division fits 15 bits.
    pub open spec fn in_range(self) -> bool {
        match self {
            Timing::Metrical(ticks_per_quarter_note) => ticks_per_quarter_note < 0x8000,
            Timing::Timecode => true,
        }
    }
}

impl EventPayload {
    /// Whether every field lies in its range: channels 0 to 15, keys,
    /// programs, controllers, values and pressures 0 to 127, the velocity of
    /// a note-on 1 to 127 and that of a note-off 0 to 127, a pitch bend 0 to
    /// 16383, a tempo below 2^24.
    pub open spec fn in_range(self) -> bool {
        match self {
            EventPayload::NoteOn { channel, key, velocity } => channel < 16 && key < 128 && 1
                <= velocity < 128,
            EventPayload::NoteOff { channel, key, velocity } => channel < 16 && key < 128
                && velocity < 128,
            EventPayload::ProgramChange { channel, program } => channel < 16 && program < 128,
            EventPayload::ControlChange { channel, controller, value } => channel < 16
                && controller < 128 && value < 128,
            EventPayload::PitchBend { channel, bend } => channel < 16 && bend < 16384,
            EventPayload::Aftertouch { channel, key, pressure } => channel < 16 && key < 128
                && pressure < 128,
            EventPayload::ChannelAftertouch { channel, pressure } => channel < 16 && pressure < 128,
            EventPayload::TempoChange { us_per_quarter_note } => us_per_quarter_note < 0x100_0000,
        }
    }
}

/// The number of track-name events among the first `n` events of `track`.
pub open spec fn names_in(track: Seq<TrackEvent>, n: nat) -> nat
    decreases n,
{
    if n == 0 {
        0
    } else if track[n - 1].kind is TrackName {
        names_in(track, (n - 1) as nat) + 1
    } else {
        names_in(track, (n - 1) as nat)
    }
}

/// The number of track-name events in the first `t` tracks.
pub open spec fn names_in_tracks(tracks: Seq<Seq<TrackEvent>>, t: nat) -> nat
    decreases t,
{
    if t == 0 {
        0
    } else {
        names_in_tracks(tracks, (t - 1) as nat) + names_in(tracks[t - 1], tracks[t - 1].len())
    }
}

/// The number of track-name events that stand before event `index` of
/// track `track`, in the order of the file.
pub open spec fn names_before(tracks: Seq<Seq<TrackEvent>>, track: int, index: int) -> nat {
    names_in_tracks(tracks, track as nat) + names_in(tracks[track], index as nat)
}

/// There are at most as many track-name events among fewer events.
pub proof fn lemma_names_in_monotone(track: Seq<TrackEvent>, m: nat, n: nat)
    requires
        m <= n,
    ensures
        names_in(track, m) <= names_in(track, n),
    decreases n,
{
    if m < n {
        lemma_names_in_monotone(track, m, (n - 1) as nat);
    }
}

/// There are at most as many track-name events in fewer tracks.
pub proof fn lemma_names_in_tracks_monotone(tracks: Seq<Seq<TrackEvent>>, s: nat, t: nat)
    requires
        s <= t,
    ensures
        names_in_tracks(tracks, s) <= names_in_tracks(tracks, t),
    decreases t,
{
    if s < t {
        lemma_names_in_tracks_monotone(tracks, s, (t - 1) as nat);
    }
}

/// A decoded file, as contracts speak of it: its timing, the events of each
/// track, and the texts of its track names in the order of the file.
pub struct MidiModel {
    pub timing: Timing,
    pub tracks: Seq<Seq<TrackEvent>>,
    pub names: Seq<Seq<u8>>,
}

impl MidiModel {
    /// Whether the file holds one text for each of its track-name events:
    /// the text of the track-name event at `index` in `track` is then
    /// `names[names_before(tracks, track, index)]`.
    pub open spec fn has_its_names(self) -> bool {
        self.names.len() == names_in_tracks(self.tracks, self.tracks.len())
    }

    /// In a file that holds its names, every track-name event has its text.
    pub proof fn lemma_name_is_held(self, track: int, index: int)
        requires
            self.has_its_names(),
            0 <= track < self.tracks.len(),
            0 <= index < self.tracks[track].len(),
            self.tracks[track][index].kind is TrackName,
        ensures
            names_before(self.tracks, track, index) < self.names.len(),
    {
        let events = self.tracks[track];
        assert(names_in(events, (index + 1) as nat) == names_in(events, index as nat) + 1);
        lemma_names_in_monotone(events, (index + 1) as nat, events.len());
        assert(names_in_tracks(self.tracks, (track + 1) as nat) == names_in_tracks(
            self.tracks,
            track as nat,
        ) + names_in(events, events.len()));
        lemma_names_in_tracks_monotone(self.tracks, (track + 1) as nat, self.tracks.len());
    }

    /// Whether the timing and every event of every track are in range.
    pub open spec fn in_range(self) -> bool {
        &&& self.timing.in_range()
        &&& forall|k: int, i: int|
            0 <= k < self.tracks.len() && 0 <= i < self.tracks[k].len()
                ==> (#[trigger] self.tracks[k][i]).in_range()
    }
}

/// A decoded file. `names` holds the texts of the track-name events, in
/// the order in which those events stand in the file.
#[derive(Clone, Debug)]
pub struct MidiFile {
    pub timing: Timing,
    pub tracks: Vec<Vec<TrackEvent>>,
    pub names: Vec<Vec<u8>>,
}

/// Byte strings as contracts speak of them.
pub open spec fn texts_of(names: Seq<Vec<u8>>) -> Seq<Seq<u8>> {
    Seq::new(names.len(), |j: int| names[j]@)
}

impl View for MidiFile {
    type V = MidiModel;

    open spec fn view(&self) -> MidiModel {
        MidiModel {
            timing: self.timing,
            tracks: Seq::new(self.tracks@.len(), |k: int| self.tracks@[k]@),
            names: texts_of(self.names@),
        }
    }
}

} // verus!
