//! Decoding of a Standard MIDI File.
//!
//! The bytes are parsed by the `midly` crate. What it found is then read out
//! event by event into a `MidiFile`. Nothing in this file is proved of
//! `midly` itself: each item that stands for a part of it says what is taken
//! on trust.

use midly::MidiMessage;
use vstd::prelude::*;
use crate::event::{
    names_before, names_in_tracks, texts_of, ChannelMessage, EventKind, MidiFile, MidiModel, Timing,
    TrackEvent,
};

verus! {

/// A file as `midly` has parsed it. Nothing of its inside is known here.
#[verifier::external_type_specification]
#[verifier::external_body]
pub struct ExSmf<'a>(midly::Smf<'a>);

/// The error of `midly`. Nothing of its inside is known here.
#[verifier::external_type_specification]
#[verifier::external_body]
pub struct ExError(midly::Error);

/// A channel-voice message of `midly`. Nothing of its inside is known here.
#[verifier::external_type_specification]
#[verifier::external_body]
pub struct ExMidiMessage(midly::MidiMessage);

/// What `midly::Smf::parse` makes of a byte string: the file it returns, or
/// `None` where it returns an error. The result depends on the bytes alone.
pub uninterp spec fn smf_parse(bytes: Seq<u8>) -> Option<MidiModel>;

/// What a file parsed by `midly` holds: the timing of its header, for each
/// track its events, each with its delta time and with so much of its kind
/// as `EventKind` keeps, and the texts of its `MetaMessage::TrackName`
/// events, in the order of the file.
pub uninterp spec fn smf_model(smf: midly::Smf<'_>) -> MidiModel;

/// What a channel-voice message of `midly` holds: the same message, with
/// its fields as plain integers.
pub uninterp spec fn message_model(message: midly::MidiMessage) -> ChannelMessage;

/// Event `index` of track `track` of a parsed file.
pub open spec fn smf_event(smf: midly::Smf<'_>, track: int, index: int) -> TrackEvent {
    smf_model(smf).tracks[track][index]
}

/// Whether a parsed file has an event `index` in a track `track`.
pub open spec fn smf_has_event(smf: midly::Smf<'_>, track: int, index: int) -> bool {
    &&& 0 <= track < smf_model(smf).tracks.len()
    &&& 0 <= index < smf_model(smf).tracks[track].len()
}

/// Whether a header chunk whose division `midly` cannot read starts at
/// `at`: the four letters `MThd`, a length of at least 6, a format of 0, 1
/// or 2, and a division whose first byte is 0x80.
///
/// Such a division stands for a time code of 128 frames per second. `midly`
/// negates the byte as a signed number, and -128 has no negative: built
/// with overflow checks it panics there.
pub open spec fn is_unreadable_header(bytes: Seq<u8>, at: int) -> bool {
    &&& 0 <= at
    &&& at + 14 <= bytes.len()
    &&& bytes[at] == 0x4D
    &&& bytes[at + 1] == 0x54
    &&& bytes[at + 2] == 0x68
    &&& bytes[at + 3] == 0x64
    &&& (bytes[at + 4] != 0 || bytes[at + 5] != 0 || bytes[at + 6] != 0 || bytes[at + 7] >= 6)
    &&& bytes[at + 8] == 0
    &&& bytes[at + 9] <= 2
    &&& bytes[at + 12] == 0x80
}

/// Whether a header chunk whose division `midly` cannot read starts
/// anywhere in `bytes`.
pub open spec fn has_unreadable_header(bytes: Seq<u8>) -> bool {
    exists|at: int| is_unreadable_header(bytes, at)
}

/// Computes `has_unreadable_header`.
pub fn find_unreadable_header(bytes: &[u8]) -> (found: bool)
    ensures
        found == has_unreadable_header(bytes@),
{
    if bytes.len() < 14 {
        return false;
    }
    let last = bytes.len() - 14;
    let mut at: usize = 0;
    while at <= last
        invariant
            last == bytes.len() - 14,
            at <= last + 1,
            forall|p: int| 0 <= p < at ==> !is_unreadable_header(bytes@, p),
        decreases last + 1 - at,
    {
        if bytes[at] == 0x4D && bytes[at + 1] == 0x54 && bytes[at + 2] == 0x68 && bytes[at + 3]
            == 0x64 && (bytes[at + 4] != 0 || bytes[at + 5] != 0 || bytes[at + 6] != 0 || bytes[at
            + 7] >= 6) && bytes[at + 8] == 0 && bytes[at + 9] <= 2 && bytes[at + 12] == 0x80 {
            assert(is_unreadable_header(bytes@, at as int));
            return true;
        }
        at = at + 1;
    }
    false
}

/// Calls `midly::Smf::parse`. Taken on trust: what it returns is a function
/// of the bytes, and it returns normally on every byte string but those the
/// `requires` leaves out. Every header chunk that `midly` reads lies in
/// `bytes` as it is described there, so without one its negation of the
/// division byte cannot overflow. What a parsed file holds includes one
/// text for each of its track-name events.
#[verifier::external_body]
fn parse_smf(bytes: &[u8]) -> (parsed: Result<midly::Smf<'_>, midly::Error>)
    requires
        !has_unreadable_header(bytes@),
    ensures
        match parsed {
            Ok(smf) => smf_parse(bytes@) == Some(smf_model(smf)) && smf_model(smf).has_its_names(),
            Err(_) => smf_parse(bytes@) is None,
        },
{
    midly::Smf::parse(bytes)
}

/// Reads the field `header.timing` of a `midly::Smf`: ticks per quarter
/// note for `Timing::Metrical`, no number for `Timing::Timecode`. Taken on
/// trust of `u15::as_int`: the number fits 15 bits.
#[verifier::external_body]
fn smf_timing(smf: &midly::Smf<'_>) -> (timing: Timing)
    ensures
        timing == smf_model(*smf).timing,
        timing.in_range(),
{
    match smf.header.timing {
        midly::Timing::Metrical(ticks_per_quarter_note) => Timing::Metrical(
            ticks_per_quarter_note.as_int(),
        ),
        midly::Timing::Timecode(_, _) => Timing::Timecode,
    }
}

/// The length of the field `tracks` of a `midly::Smf`.
#[verifier::external_body]
fn smf_track_count(smf: &midly::Smf<'_>) -> (count: usize)
    ensures
        count == smf_model(*smf).tracks.len(),
{
    smf.tracks.len()
}

/// The length of one track of a `midly::Smf`.
#[verifier::external_body]
fn smf_track_len(smf: &midly::Smf<'_>, track: usize) -> (len: usize)
    requires
        track < smf_model(*smf).tracks.len(),
    ensures
        len == smf_model(*smf).tracks[track as int].len(),
{
    smf.tracks[track].len()
}

/// Reads the field `delta` of one `midly::TrackEvent`. Taken on trust of
/// `u28::as_int`: the number fits 28 bits.
#[verifier::external_body]
fn smf_event_delta(smf: &midly::Smf<'_>, track: usize, index: usize) -> (delta: u32)
    requires
        smf_has_event(*smf, track as int, index as int),
    ensures
        delta == smf_event(*smf, track as int, index as int).delta,
        delta < 0x1000_0000,
{
    smf.tracks[track][index].delta.as_int()
}

/// Reads the field `kind` of one `midly::TrackEvent` where it is a
/// `TrackEventKind::Midi`: its channel and its message. Any other kind gives
/// `None`. Taken on trust of `u4::as_int`: the channel fits 4 bits.
#[verifier::external_body]
fn smf_event_voice(smf: &midly::Smf<'_>, track: usize, index: usize) -> (voice: Option<
    (u8, midly::MidiMessage),
>)
    requires
        smf_has_event(*smf, track as int, index as int),
    ensures
        match voice {
            Some((channel, message)) => channel < 16 && smf_event(
                *smf,
                track as int,
                index as int,
            ).kind == (EventKind::Voice { channel, message: message_model(message) }),
            None => !(smf_event(*smf, track as int, index as int).kind is Voice),
        },
{
    match smf.tracks[track][index].kind {
        midly::TrackEventKind::Midi { channel, message } => Some((channel.as_int(), message)),
        _ => None,
    }
}

/// Reads the field `kind` of one `midly::TrackEvent` where it is one of the
/// meta messages `Tempo`, `TimeSignature`, `KeySignature` and `TrackName`.
/// Any other kind gives `EventKind::Other`, a `TrackEventKind::Midi` too.
/// Taken on trust of `u24::as_int`: a tempo fits 24 bits.
#[verifier::external_body]
fn smf_event_meta(smf: &midly::Smf<'_>, track: usize, index: usize) -> (kind: EventKind)
    requires
        smf_has_event(*smf, track as int, index as int),
    ensures
        kind == if smf_event(*smf, track as int, index as int).kind is Voice {
            EventKind::Other
        } else {
            smf_event(*smf, track as int, index as int).kind
        },
        kind.in_range(),
{
    match smf.tracks[track][index].kind {
        midly::TrackEventKind::Meta(midly::MetaMessage::Tempo(us)) => EventKind::Tempo(us.as_int()),
        midly::TrackEventKind::Meta(midly::MetaMessage::TimeSignature(numerator, exp, _, _)) => {
            EventKind::TimeSignature { numerator, denominator_exp: exp }
        },
        midly::TrackEventKind::Meta(midly::MetaMessage::KeySignature(sharps, minor)) => {
            EventKind::KeySignature { sharps, minor }
        },
        midly::TrackEventKind::Meta(midly::MetaMessage::TrackName(_)) => EventKind::TrackName,
        _ => EventKind::Other,
    }
}

/// Copies the bytes of one `MetaMessage::TrackName`. They are the text that
/// the parsed file holds for that event: as many track-name events stand
/// before the event as texts before its text.
#[verifier::external_body]
fn smf_event_text(smf: &midly::Smf<'_>, track: usize, index: usize) -> (text: Vec<u8>)
    requires
        smf_has_event(*smf, track as int, index as int),
        smf_event(*smf, track as int, index as int).kind is TrackName,
    ensures
        text@ == smf_model(*smf).names[names_before(
            smf_model(*smf).tracks,
            track as int,
            index as int,
        ) as int],
{
    match smf.tracks[track][index].kind {
        midly::TrackEventKind::Meta(midly::MetaMessage::TrackName(text)) => text.to_vec(),
        _ => Vec::new(),
    }
}

/// Tells the variants of a `midly::MidiMessage` apart and reads their
/// fields, each with `as_int`. Taken on trust of `u7::as_int` and
/// `u14::as_int`: the numbers fit 7 bits, a pitch bend 14.
#[verifier::external_body]
fn voice_message(message: midly::MidiMessage) -> (m: ChannelMessage)
    ensures
        m == message_model(message),
        m.in_range(),
{
    match message {
        MidiMessage::NoteOff { key, vel } => ChannelMessage::NoteOff { key: key.as_int(), velocity: vel.as_int() },
        MidiMessage::NoteOn { key, vel } => ChannelMessage::NoteOn { key: key.as_int(), velocity: vel.as_int() },
        MidiMessage::Aftertouch { key, vel } => {
            ChannelMessage::Aftertouch { key: key.as_int(), pressure: vel.as_int() }
        },
        MidiMessage::Controller { controller: c, value: v } => {
            ChannelMessage::Controller { controller: c.as_int(), value: v.as_int() }
        },
        MidiMessage::ProgramChange { program: p } => ChannelMessage::ProgramChange { program: p.as_int() },
        MidiMessage::ChannelAftertouch { vel } => ChannelMessage::ChannelAftertouch { pressure: vel.as_int() },
        MidiMessage::PitchBend { bend } => ChannelMessage::PitchBend { bend: bend.0.as_int() },
    }
}

/// Why a byte string did not give a file.
#[derive(Clone, Copy, Debug, PartialEq, Eq, Structural)]
pub enum DecodeError {
    /// The bytes hold a header chunk with a division that cannot be read:
    /// a time code of 128 frames per second.
    UnreadableDivision,
    /// The bytes are not a Standard MIDI File that can be parsed.
    Malformed,
}

/// Reads event `index` of track `track` out of a parsed file.
fn read_event(smf: &midly::Smf<'_>, track: usize, index: usize) -> (event: TrackEvent)
    requires
        smf_has_event(*smf, track as int, index as int),
    ensures
        event == smf_event(*smf, track as int, index as int),
        event.in_range(),
{
    let delta = smf_event_delta(smf, track, index);
    let kind = match smf_event_voice(smf, track, index) {
        Some((channel, message)) => EventKind::Voice { channel, message: voice_message(message) },
        None => smf_event_meta(smf, track, index),
    };
    TrackEvent { delta, kind }
}

/// Reads track `track` out of a parsed file, and appends the texts of its
/// track names to `names`.
fn read_track(smf: &midly::Smf<'_>, track: usize, names: &mut Vec<Vec<u8>>) -> (events: Vec<
    TrackEvent,
>)
    requires
        track < smf_model(*smf).tracks.len(),
        smf_model(*smf).has_its_names(),
        texts_of(old(names)@) == smf_model(*smf).names.take(
            names_in_tracks(smf_model(*smf).tracks, track as nat) as int,
        ),
    ensures
        events@ == smf_model(*smf).tracks[track as int],
        forall|i: int| 0 <= i < events@.len() ==> (#[trigger] events@[i]).in_range(),
        texts_of(final(names)@) == smf_model(*smf).names.take(
            names_in_tracks(smf_model(*smf).tracks, (track + 1) as nat) as int,
        ),
{
    let ghost model = smf_model(*smf);
    let len = smf_track_len(smf, track);
    let mut events: Vec<TrackEvent> = Vec::new();
    let mut index: usize = 0;
    while index < len
        invariant
            index <= len,
            model == smf_model(*smf),
            model.has_its_names(),
            track < model.tracks.len(),
            len == model.tracks[track as int].len(),
            events@ == model.tracks[track as int].take(index as int),
            forall|i: int| 0 <= i < events@.len() ==> (#[trigger] events@[i]).in_range(),
            texts_of(names@) == model.names.take(
                names_before(model.tracks, track as int, index as int) as int,
            ),
        decreases len - index,
    {
        let event = read_event(smf, track, index);
        match event.kind {
            EventKind::TrackName => {
                let text = smf_event_text(smf, track, index);
                proof {
                    model.lemma_name_is_held(track as int, index as int);
                }
                let ghost before = texts_of(names@);
                names.push(text);
                assert(texts_of(names@) =~= before.push(text@));
                assert(texts_of(names@) =~= model.names.take(
                    names_before(model.tracks, track as int, index + 1) as int,
                ));
            },
            _ => {},
        }
        events.push(event);
        assert(events@ =~= model.tracks[track as int].take(index + 1));
        index = index + 1;
    }
    assert(events@ =~= model.tracks[track as int]);
    events
}

impl MidiFile {
    /// Decodes a Standard MIDI File. The result is what `midly` parses from
    /// `bytes`, with every number in its range. The bytes are refused where
    /// they hold a header chunk with a division that cannot be read, and
    /// where `midly` reports an error.
    pub fn from_bytes(bytes: &[u8]) -> (decoded: Result<MidiFile, DecodeError>)
        ensures
            match decoded {
                Ok(file) => {
                    &&& !has_unreadable_header(bytes@)
                    &&& smf_parse(bytes@) == Some(file@)
                    &&& file@.in_range()
                    &&& file@.has_its_names()
                },
                Err(DecodeError::UnreadableDivision) => has_unreadable_header(bytes@),
                Err(DecodeError::Malformed) => {
                    &&& !has_unreadable_header(bytes@)
                    &&& smf_parse(bytes@) is None
                },
            },
    {
        if find_unreadable_header(bytes) {
            return Err(DecodeError::UnreadableDivision);
        }
        match parse_smf(bytes) {
            Err(_) => Err(DecodeError::Malformed),
            Ok(smf) => {
                let ghost model = smf_model(smf);
                let timing = smf_timing(&smf);
                let count = smf_track_count(&smf);
                let mut tracks: Vec<Vec<TrackEvent>> = Vec::new();
                let mut names: Vec<Vec<u8>> = Vec::new();
                let mut track: usize = 0;
                assert(texts_of(names@) =~= model.names.take(0));
                while track < count
                    invariant
                        track <= count,
                        model == smf_model(smf),
                        model.has_its_names(),
                        count == model.tracks.len(),
                        tracks@.len() == track,
                        forall|k: int| 0 <= k < track ==> (#[trigger] tracks@[k])@ == model.tracks[k],
                        forall|k: int, i: int|
                            0 <= k < track && 0 <= i < tracks@[k]@.len()
                                ==> (#[trigger] tracks@[k]@[i]).in_range(),
                        texts_of(names@) == model.names.take(
                            names_in_tracks(model.tracks, track as nat) as int,
                        ),
                    decreases count - track,
                {
                    let events = read_track(&smf, track, &mut names);
                    tracks.push(events);
                    track = track + 1;
                }
                let file = MidiFile { timing, tracks, names };
                assert(file@.tracks =~= model.tracks);
                assert(file@.names =~= model.names);
                assert(file@ == model);
                assert forall|k: int, i: int|
                    0 <= k < file@.tracks.len() && 0 <= i < file@.tracks[k].len() implies (
                    #[trigger] file@.tracks[k][i]).in_range() by {
                    assert(file@.tracks[k][i] == tracks@[k]@[i]);
                }
                Ok(file)
            },
        }
    }
}

} // verus!
