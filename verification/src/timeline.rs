//! The timeline of a file: all its timed events in the order of their times.

use vstd::prelude::*;
use crate::builder::file_events;
use crate::event::{MidiFile, TimedEvent};
use crate::merge::{is_stable_merge, is_time_ordered, merge_by_time};

verus! {

/// Timed events in the order of their times. Once built it does not change.
#[derive(Debug)]
pub struct Timeline {
    events: Vec<TimedEvent>,
}

impl View for Timeline {
    type V = Seq<TimedEvent>;

    closed spec fn view(&self) -> Seq<TimedEvent> {
        self.events@
    }
}

impl Timeline {
    #[verifier::type_invariant]
    spec fn ordered(self) -> bool {
        is_time_ordered(self.events@)
    }

    /// The timeline of `file`: the timed events of all its tracks, merged
    /// into the order of their times. Events of one time stand track by
    /// track, and within a track in its order.
    pub fn build(file: &MidiFile) -> (timeline: Timeline)
        ensures
            is_stable_merge(timeline@, file_events(file@)),
    {
        let flat = file.timed_events();
        Timeline { events: merge_by_time(&flat) }
    }

    /// The timeline of `events`: the same events in the order of their
    /// times, those of one time in the order they have in `events`.
    pub fn from_events(events: &Vec<TimedEvent>) -> (timeline: Timeline)
        ensures
            is_stable_merge(timeline@, events@),
    {
        Timeline { events: merge_by_time(events) }
    }

    /// The events of the timeline. Their times never decrease.
    pub fn events(&self) -> (events: &Vec<TimedEvent>)
        ensures
            events@ == self@,
            is_time_ordered(self@),
    {
        proof {
            use_type_invariant(self);
        }
        &self.events
    }

    /// The number of events.
    pub fn len(&self) -> (n: usize)
        ensures
            n == self@.len(),
    {
        self.events.len()
    }

    /// The event at `index`, if there is one.
    pub fn get(&self, index: usize) -> (event: Option<TimedEvent>)
        ensures
            event == if index < self@.len() {
                Some(self@[index as int])
            } else {
                None
            },
    {
        if index < self.events.len() {
            Some(self.events[index])
        } else {
            None
        }
    }

    /// The time of the last event, which no event exceeds; 0 for an empty timeline.
    pub fn duration_us(&self) -> (us: u64)
        ensures
            us == if self@.len() == 0 {
                0
            } else {
                self@.last().absolute_time_us
            },
            forall|i: int| 0 <= i < self@.len() ==> self@[i].absolute_time_us <= us,
    {
        proof {
            use_type_invariant(self);
        }
        let n = self.events.len();
        if n == 0 {
            0
        } else {
            self.events[n - 1].absolute_time_us
        }
    }
}

} // verus!
