//! Timeline construction and dispatch for Standard MIDI Files.
//!
//! A decoded file is a list of tracks, each an ordered list of events that
//! carry a delta time in ticks. This crate turns such a file into one
//! timeline of events with absolute times in microseconds, ordered by time,
//! and replays that timeline against a clock: it decides which events are
//! due and what each of them asks of a synthesis engine.
//!
//! - `event`: the events of a track, the events of a timeline, a decoded file.
//! - `decode`: from bytes to a decoded file, by way of the `midly` crate.
//! - `clock`: from ticks to microseconds.
//! - `track`: the timed events of one track.
//! - `builder`: the timed events of a file, track after track.
//! - `merge`: the stable merge of timed events by time.
//! - `timeline`: the timeline of a file.
//! - `dispatch`: the replay of a timeline.
//! - `format`: durations as text.
//!
//! Everything is verified but the items of `decode` that call `midly`; each
//! of them says what it takes on trust. The engine is not called from here:
//! the dispatcher hands out each call as a value, for its caller to make.

pub mod event;
pub mod clock;
pub mod decode;
pub mod merge;
pub mod track;
pub mod builder;
pub mod timeline;
pub mod dispatch;
pub mod format;
