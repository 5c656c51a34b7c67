use midi_timeline::event::{EventPayload, TimedEvent};
use midi_timeline::merge::merge_by_time;
use midi_timeline::timeline::Timeline;

fn key(absolute_time_us: u64, key: u8) -> TimedEvent {
    TimedEvent { absolute_time_us, payload: EventPayload::NoteOn { channel: 0, key, velocity: 1 } }
}

fn scrambled(n: usize, times: u64) -> Vec<TimedEvent> {
    let mut state: u64 = 0x2545_F491_4F6C_DD1D;
    let mut events = Vec::new();
    for i in 0..n {
        state = state.wrapping_mul(6_364_136_223_846_793_005).wrapping_add(1_442_695_040_888_963_407);
        events.push(key((state >> 33) % times, (i % 128) as u8));
    }
    events
}

#[test]
fn merge_of_nothing_and_of_one() {
    assert_eq!(merge_by_time(&vec![]), vec![]);
    assert_eq!(merge_by_time(&vec![key(5, 1)]), vec![key(5, 1)]);
}

#[test]
fn merge_orders_by_time() {
    let merged = merge_by_time(&vec![key(30, 1), key(10, 2), key(20, 3), key(0, 4)]);
    assert_eq!(merged, vec![key(0, 4), key(10, 2), key(20, 3), key(30, 1)]);
}

#[test]
fn events_of_one_time_keep_their_order() {
    let track_a = vec![key(100, 1), key(100, 2), key(200, 3)];
    let track_b = vec![key(100, 11), key(100, 12), key(150, 13), key(200, 14)];
    let mut flat = track_a.clone();
    flat.extend(track_b.iter().copied());
    let merged = merge_by_time(&flat);
    assert_eq!(
        merged,
        vec![
            key(100, 1),
            key(100, 2),
            key(100, 11),
            key(100, 12),
            key(150, 13),
            key(200, 3),
            key(200, 14),
        ]
    );
}

#[test]
fn merge_agrees_with_a_stable_sort() {
    for (n, times) in [(2, 1), (3, 2), (17, 4), (64, 8), (1000, 10), (1000, 1_000_000)] {
        let events = scrambled(n, times);
        let mut expected = events.clone();
        expected.sort_by_key(|e| e.absolute_time_us);
        assert_eq!(merge_by_time(&events), expected);
    }
}

#[test]
fn timeline_times_never_decrease() {
    let timeline = Timeline::from_events(&scrambled(500, 50));
    assert_eq!(timeline.len(), 500);
    let events = timeline.events();
    for pair in events.windows(2) {
        assert!(pair[0].absolute_time_us <= pair[1].absolute_time_us);
    }
    assert_eq!(timeline.duration_us(), events[499].absolute_time_us);
    assert_eq!(timeline.get(499), Some(events[499]));
    assert_eq!(timeline.get(500), None);
}

#[test]
fn empty_timeline_lasts_no_time() {
    let timeline = Timeline::from_events(&vec![]);
    assert_eq!(timeline.len(), 0);
    assert_eq!(timeline.duration_us(), 0);
    assert_eq!(timeline.get(0), None);
}

#[test]
fn duration_is_the_latest_time() {
    let timeline = Timeline::from_events(&vec![key(9, 1), key(42, 2), key(3, 3)]);
    assert_eq!(timeline.duration_us(), 42);
}
