//! From a decoded file to the flat collection of its timed events.
//!
//! The file is read twice. The first pass finds the tempo at which every
//! track starts: that of the first tempo event of the file, in the order of
//! its tracks. The second walks each track by itself.

use vstd::prelude::*;
use crate::clock::{
    lemma_ticks_to_us_bounded, ticks_to_us, DEFAULT_US_PER_QUARTER_NOTE, FALLBACK_PPQ,
};
use crate::event::{EventKind, MidiFile, MidiModel, TimedEvent, Timing, TrackEvent};
use crate::merge::{at_time, is_stable_merge, lemma_at_time_flatten, lemma_stable_merge_members};
use crate::track::{
    append_track_events, event_time, is_normalized, lemma_payload_in_range,
    lemma_payload_is_normalized, lemma_track_event_origin, payload_of, tempo_after, ticks_through,
    track_events,
};

verus! {

/// The ticks per quarter note of a file: those of its header, or
/// `FALLBACK_PPQ` where the header has no metrical division.
pub open spec fn ppq_of(timing: Timing) -> u16 {
    match timing {
        Timing::Metrical(ticks_per_quarter_note) => ticks_per_quarter_note,
        Timing::Timecode => FALLBACK_PPQ,
    }
}

/// The tempo of the first tempo event of `track` at or after event `from`.
pub open spec fn first_tempo_in(track: Seq<TrackEvent>, from: nat) -> Option<u32>
    decreases track.len() - from,
{
    if from >= track.len() {
        None
    } else {
        match track[from as int].kind {
            EventKind::Tempo(us_per_quarter_note) => Some(us_per_quarter_note),
            _ => first_tempo_in(track, from + 1),
        }
    }
}

/// The tempo of the first tempo event in the tracks from track `from` on.
pub open spec fn first_tempo(tracks: Seq<Seq<TrackEvent>>, from: nat) -> Option<u32>
    decreases tracks.len() - from,
{
    if from >= tracks.len() {
        None
    } else {
        match first_tempo_in(tracks[from as int], 0) {
            Some(us_per_quarter_note) => Some(us_per_quarter_note),
            None => first_tempo(tracks, from + 1),
        }
    }
}

/// The tempo at which every track of a file starts: that of the first tempo
/// event of the file, or `DEFAULT_US_PER_QUARTER_NOTE` where it has none.
pub open spec fn initial_tempo(tracks: Seq<Seq<TrackEvent>>) -> u32 {
    match first_tempo(tracks, 0) {
        Some(us_per_quarter_note) => us_per_quarter_note,
        None => DEFAULT_US_PER_QUARTER_NOTE,
    }
}

/// The timed events of each track of `file`.
pub open spec fn per_track_events(file: MidiModel) -> Seq<Seq<TimedEvent>> {
    Seq::new(
        file.tracks.len(),
        |k: int| track_events(file.tracks[k], initial_tempo(file.tracks), ppq_of(file.timing)),
    )
}

/// The timed events of `file`, one track after another.
pub open spec fn file_events(file: MidiModel) -> Seq<TimedEvent> {
    per_track_events(file).flatten()
}

/// Whether no track of the file holds a tempo event.
pub open spec fn has_no_tempo(tracks: Seq<Seq<TrackEvent>>) -> bool {
    forall|k: int, i: int|
        0 <= k < tracks.len() && 0 <= i < tracks[k].len() ==> !(#[trigger] tracks[k][i].kind is Tempo)
}

/// A track without a tempo event shows none from any event on.
proof fn lemma_no_tempo_in(track: Seq<TrackEvent>, from: nat)
    requires
        forall|i: int| 0 <= i < track.len() ==> !(#[trigger] track[i].kind is Tempo),
    ensures
        first_tempo_in(track, from) is None,
    decreases track.len() - from,
{
    if from < track.len() {
        assert(!(track[from as int].kind is Tempo));
        lemma_no_tempo_in(track, from + 1);
    }
}

/// A file without a tempo event shows none from any track on.
proof fn lemma_no_tempo(tracks: Seq<Seq<TrackEvent>>, from: nat)
    requires
        has_no_tempo(tracks),
    ensures
        first_tempo(tracks, from) is None,
    decreases tracks.len() - from,
{
    if from < tracks.len() {
        let track = tracks[from as int];
        assert forall|i: int| 0 <= i < track.len() implies !(#[trigger] track[i].kind is Tempo) by {
            assert(!(tracks[from as int][i].kind is Tempo));
        }
        lemma_no_tempo_in(track, 0);
        lemma_no_tempo(tracks, from + 1);
    }
}

/// A track without a tempo event keeps the tempo at which it starts.
proof fn lemma_tempo_stays(track: Seq<TrackEvent>, n: nat, initial: u32)
    requires
        n <= track.len(),
        forall|i: int| 0 <= i < track.len() ==> !(#[trigger] track[i].kind is Tempo),
    ensures
        tempo_after(track, n, initial) == initial,
    decreases n,
{
    if n > 0 {
        assert(!(track[n - 1].kind is Tempo));
        lemma_tempo_stays(track, (n - 1) as nat, initial);
    }
}

/// In a file without a tempo event every track runs at
/// `DEFAULT_US_PER_QUARTER_NOTE`, 120 beats per minute, throughout: the
/// time of every event is that of its tick count at half a second for each
/// quarter note.
pub proof fn lemma_default_tempo_throughout(file: MidiModel, k: int, i: int)
    requires
        has_no_tempo(file.tracks),
        0 <= k < file.tracks.len(),
        0 <= i < file.tracks[k].len(),
    ensures
        initial_tempo(file.tracks) == DEFAULT_US_PER_QUARTER_NOTE,
        event_time(file.tracks[k], i as nat, initial_tempo(file.tracks), ppq_of(file.timing))
            == ticks_to_us(
            ticks_through(file.tracks[k], (i + 1) as nat),
            500_000,
            ppq_of(file.timing) as nat,
        ),
{
    lemma_no_tempo(file.tracks, 0);
    let track = file.tracks[k];
    assert forall|j: int| 0 <= j < track.len() implies !(#[trigger] track[j].kind is Tempo) by {
        assert(!(file.tracks[k][j].kind is Tempo));
    }
    lemma_tempo_stays(track, i as nat, DEFAULT_US_PER_QUARTER_NOTE);
    lemma_ticks_to_us_bounded(
        ticks_through(file.tracks[k], (i + 1) as nat),
        500_000,
        ppq_of(file.timing) as nat,
    );
}

/// The timed events of a track are its own: they depend on the events of
/// that track, on the tempo at which the file starts and on its ticks per
/// quarter note. Whatever else differs between two files, a tempo event in
/// another track too, leaves them as they are.
pub proof fn lemma_track_times_are_its_own(a: MidiModel, b: MidiModel, k: int)
    requires
        0 <= k < a.tracks.len(),
        k < b.tracks.len(),
        a.tracks[k] == b.tracks[k],
        ppq_of(a.timing) == ppq_of(b.timing),
        initial_tempo(a.tracks) == initial_tempo(b.tracks),
    ensures
        per_track_events(a)[k] == per_track_events(b)[k],
{
}

/// An event that stands in collections laid end to end stands in one of them.
proof fn lemma_flatten_member(parts: Seq<Seq<TimedEvent>>, e: TimedEvent) -> (k: int)
    requires
        parts.flatten().contains(e),
    ensures
        0 <= k < parts.len(),
        parts[k].contains(e),
    decreases parts.len(),
{
    if parts.len() == 0 {
        0
    } else {
        let front = parts.drop_last();
        assert(parts =~= front.push(parts.last()));
        front.lemma_flatten_push(parts.last());
        let whole = front.flatten() + parts.last();
        let i = choose|i: int| 0 <= i < whole.len() && whole[i] == e;
        if i < front.flatten().len() {
            assert(front.flatten()[i] == e);
            lemma_flatten_member(front, e)
        } else {
            assert(parts.last()[i - front.flatten().len()] == e);
            parts.len() - 1
        }
    }
}

/// Every event of the timeline of a file comes from one event of one
/// track: it carries what the timeline keeps of that event, and its time is
/// that of the event, told by the ticks and the tempo of that track alone.
/// The result names the track and the event.
pub proof fn lemma_timeline_event_origin(file: MidiModel, timeline: Seq<TimedEvent>, i: int) -> (at: (
    int,
    int,
))
    requires
        is_stable_merge(timeline, file_events(file)),
        0 <= i < timeline.len(),
    ensures
        0 <= at.0 < file.tracks.len(),
        0 <= at.1 < file.tracks[at.0].len(),
        payload_of(file.tracks[at.0][at.1].kind) == Some(timeline[i].payload),
        timeline[i].absolute_time_us == event_time(
            file.tracks[at.0],
            at.1 as nat,
            initial_tempo(file.tracks),
            ppq_of(file.timing),
        ),
{
    lemma_stable_merge_members(timeline, file_events(file));
    let e = timeline[i];
    assert(timeline.contains(e));
    let k = lemma_flatten_member(per_track_events(file), e);
    let track = file.tracks[k];
    let events = track_events(track, initial_tempo(file.tracks), ppq_of(file.timing));
    let j = choose|j: int| 0 <= j < events.len() && events[j] == e;
    let n = lemma_track_event_origin(
        track,
        track.len(),
        initial_tempo(file.tracks),
        ppq_of(file.timing),
        j,
    );
    (k, n as int)
}

/// In the timeline of a file without a tempo event every time is that of
/// a tick count at 120 beats per minute: the ticks of some event of some
/// track, at half a second for each quarter note. The result names the
/// track and the event.
pub proof fn lemma_timeline_at_default_tempo(
    file: MidiModel,
    timeline: Seq<TimedEvent>,
    i: int,
) -> (at: (int, int))
    requires
        has_no_tempo(file.tracks),
        is_stable_merge(timeline, file_events(file)),
        0 <= i < timeline.len(),
    ensures
        0 <= at.0 < file.tracks.len(),
        0 <= at.1 < file.tracks[at.0].len(),
        timeline[i].absolute_time_us == ticks_to_us(
            ticks_through(file.tracks[at.0], (at.1 + 1) as nat),
            500_000,
            ppq_of(file.timing) as nat,
        ),
{
    let at = lemma_timeline_event_origin(file, timeline, i);
    lemma_default_tempo_throughout(file, at.0, at.1);
    at
}

/// The timeline of a file holds no note-on of velocity 0.
pub proof fn lemma_timeline_is_normalized(file: MidiModel, timeline: Seq<TimedEvent>)
    requires
        is_stable_merge(timeline, file_events(file)),
    ensures
        forall|i: int| 0 <= i < timeline.len() ==> is_normalized(#[trigger] timeline[i].payload),
{
    assert forall|i: int| 0 <= i < timeline.len() implies is_normalized(
        #[trigger] timeline[i].payload,
    ) by {
        let at = lemma_timeline_event_origin(file, timeline, i);
        lemma_payload_is_normalized(file.tracks[at.0][at.1].kind);
    }
}

/// The timeline of a file whose events are in range holds payloads in range.
pub proof fn lemma_timeline_in_range(file: MidiModel, timeline: Seq<TimedEvent>)
    requires
        file.in_range(),
        is_stable_merge(timeline, file_events(file)),
    ensures
        forall|i: int| 0 <= i < timeline.len() ==> (#[trigger] timeline[i]).payload.in_range(),
{
    assert forall|i: int| 0 <= i < timeline.len() implies (#[trigger] timeline[i]).payload.in_range() by {
        let at = lemma_timeline_event_origin(file, timeline, i);
        assert(file.tracks[at.0][at.1].in_range());
        lemma_payload_in_range(file.tracks[at.0][at.1].kind);
    }
}

/// In the timeline of a file the events of one time stand track by track
/// in the order of the tracks, and those of one track in the order they
/// have in that track.
pub proof fn lemma_timeline_keeps_track_order(file: MidiModel, timeline: Seq<TimedEvent>, t: u64)
    requires
        is_stable_merge(timeline, file_events(file)),
    ensures
        at_time(timeline, t) == Seq::new(
            file.tracks.len(),
            |k: int| at_time(per_track_events(file)[k], t),
        ).flatten(),
{
    lemma_at_time_flatten(per_track_events(file), t);
    assert(at_time(timeline, t) == at_time(file_events(file), t));
}

impl MidiFile {
    /// The ticks per quarter note of the file.
    pub fn ppq(&self) -> (ppq: u16)
        ensures
            ppq == ppq_of(self@.timing),
    {
        match self.timing {
            Timing::Metrical(ticks_per_quarter_note) => ticks_per_quarter_note,
            Timing::Timecode => FALLBACK_PPQ,
        }
    }

    /// The tempo at which every track of the file starts.
    pub fn initial_tempo(&self) -> (us_per_quarter_note: u32)
        ensures
            us_per_quarter_note == initial_tempo(self@.tracks),
    {
        let mut t: usize = 0;
        while t < self.tracks.len()
            invariant
                t <= self.tracks.len(),
                first_tempo(self@.tracks, 0) == first_tempo(self@.tracks, t as nat),
            decreases self.tracks.len() - t,
        {
            let track = &self.tracks[t];
            let mut i: usize = 0;
            while i < track.len()
                invariant
                    i <= track.len(),
                    t < self.tracks.len(),
                    track@ == self@.tracks[t as int],
                    first_tempo(self@.tracks, 0) == first_tempo(self@.tracks, t as nat),
                    first_tempo_in(track@, 0) == first_tempo_in(track@, i as nat),
                decreases track.len() - i,
            {
                match track[i].kind {
                    EventKind::Tempo(us_per_quarter_note) => {
                        return us_per_quarter_note;
                    },
                    _ => {},
                }
                i = i + 1;
            }
            t = t + 1;
        }
        DEFAULT_US_PER_QUARTER_NOTE
    }

    /// The timed events of the file, one track after another, each track
    /// in the order of its events.
    pub fn timed_events(&self) -> (events: Vec<TimedEvent>)
        ensures
            events@ == file_events(self@),
    {
        let ppq = self.ppq();
        let initial = self.initial_tempo();
        let mut events: Vec<TimedEvent> = Vec::new();
        let mut t: usize = 0;
        assert(per_track_events(self@).take(0).flatten() =~= Seq::<TimedEvent>::empty());
        while t < self.tracks.len()
            invariant
                t <= self.tracks.len(),
                ppq == ppq_of(self@.timing),
                initial == initial_tempo(self@.tracks),
                events@ == per_track_events(self@).take(t as int).flatten(),
            decreases self.tracks.len() - t,
        {
            append_track_events(&self.tracks[t], initial, ppq, &mut events);
            proof {
                let all = per_track_events(self@);
                assert(all.take(t + 1) =~= all.take(t as int).push(all[t as int]));
                all.take(t as int).lemma_flatten_push(all[t as int]);
            }
            t = t + 1;
        }
        assert(per_track_events(self@).take(t as int) =~= per_track_events(self@));
        events
    }
}

} // verus!
