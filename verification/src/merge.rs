//! Merging of timed events into one order by time.
//!
//! The merge is stable: events of one time keep the order in which they
//! were handed in.

use vstd::prelude::*;
use crate::event::TimedEvent;

verus! {

/// Times never decrease along `events`.
pub open spec fn is_time_ordered(events: Seq<TimedEvent>) -> bool {
    forall|i: int, j: int|
        0 <= i <= j < events.len() ==> events[i].absolute_time_us <= events[j].absolute_time_us
}

/// The events of `events` that stand at time `t`, in their order.
pub open spec fn at_time(events: Seq<TimedEvent>, t: u64) -> Seq<TimedEvent> {
    events.filter(|e: TimedEvent| e.absolute_time_us == t)
}

/// `merged` holds the events of `events` in the order of their times, and
/// those of one time in the order they have in `events`: nothing is lost,
/// added or changed.
pub open spec fn is_stable_merge(merged: Seq<TimedEvent>, events: Seq<TimedEvent>) -> bool {
    &&& is_time_ordered(merged)
    &&& forall|t: u64| #[trigger] at_time(merged, t) == at_time(events, t)
}

/// The events at `t` of a sequence with one more event at its end.
pub proof fn lemma_at_time_push(events: Seq<TimedEvent>, e: TimedEvent, t: u64)
    ensures
        at_time(events.push(e), t) == if e.absolute_time_us == t {
            at_time(events, t).push(e)
        } else {
            at_time(events, t)
        },
{
    events.lemma_filter_push(e, |e: TimedEvent| e.absolute_time_us == t);
}

/// The events at `t` of two sequences, one after the other.
pub proof fn lemma_at_time_concat(first: Seq<TimedEvent>, second: Seq<TimedEvent>, t: u64)
    ensures
        at_time(first + second, t) == at_time(first, t) + at_time(second, t),
{
    Seq::filter_distributes_over_add(first, second, |e: TimedEvent| e.absolute_time_us == t);
}

/// A sequence with no event at `t` has none to show there.
pub proof fn lemma_at_time_absent(events: Seq<TimedEvent>, t: u64)
    requires
        forall|i: int| 0 <= i < events.len() ==> events[i].absolute_time_us != t,
    ensures
        at_time(events, t) == Seq::<TimedEvent>::empty(),
    decreases events.len(),
{
    reveal(Seq::filter);
    if events.len() > 0 {
        lemma_at_time_absent(events.drop_last(), t);
    }
}

/// Every event found at `t` has the time `t` and stands in the sequence.
pub proof fn lemma_at_time_members(events: Seq<TimedEvent>, t: u64, k: int)
    requires
        0 <= k < at_time(events, t).len(),
    ensures
        at_time(events, t)[k].absolute_time_us == t,
        events.contains(at_time(events, t)[k]),
{
    events.lemma_filter_pred(|e: TimedEvent| e.absolute_time_us == t, k);
    events.lemma_filter_contains_rev(
        |e: TimedEvent| e.absolute_time_us == t,
        at_time(events, t)[k],
    );
}

/// The events at `t` of a sequence that has one event.
pub proof fn lemma_at_time_single(e: TimedEvent, t: u64)
    ensures
        at_time(seq![e], t) == if e.absolute_time_us == t {
            seq![e]
        } else {
            Seq::<TimedEvent>::empty()
        },
{
    let none = Seq::<TimedEvent>::empty();
    lemma_at_time_absent(none, t);
    lemma_at_time_push(none, e, t);
    assert(none.push(e) =~= seq![e]);
}

/// An event of a sequence is found at its own time.
pub proof fn lemma_at_time_holds(events: Seq<TimedEvent>, i: int)
    requires
        0 <= i < events.len(),
    ensures
        at_time(events, events[i].absolute_time_us).contains(events[i]),
{
    let t = events[i].absolute_time_us;
    events.lemma_filter_contains(|e: TimedEvent| e.absolute_time_us == t, i);
}

/// A stable merge holds the events that were handed in, and no others.
pub proof fn lemma_stable_merge_members(merged: Seq<TimedEvent>, events: Seq<TimedEvent>)
    requires
        is_stable_merge(merged, events),
    ensures
        forall|e: TimedEvent| merged.contains(e) <==> events.contains(e),
{
    assert forall|e: TimedEvent| merged.contains(e) implies events.contains(e) by {
        let i = choose|i: int| 0 <= i < merged.len() && merged[i] == e;
        lemma_at_time_holds(merged, i);
        let found = at_time(events, e.absolute_time_us);
        assert(at_time(merged, e.absolute_time_us) == found);
        let k = choose|k: int| 0 <= k < found.len() && found[k] == e;
        lemma_at_time_members(events, e.absolute_time_us, k);
    }
    assert forall|e: TimedEvent| events.contains(e) implies merged.contains(e) by {
        let i = choose|i: int| 0 <= i < events.len() && events[i] == e;
        lemma_at_time_holds(events, i);
        let found = at_time(merged, e.absolute_time_us);
        assert(at_time(events, e.absolute_time_us) == found);
        let k = choose|k: int| 0 <= k < found.len() && found[k] == e;
        lemma_at_time_members(merged, e.absolute_time_us, k);
    }
}

/// An event stands as often in a sequence as among its events of the
/// event's own time.
proof fn lemma_count_at_own_time(events: Seq<TimedEvent>, e: TimedEvent)
    ensures
        events.to_multiset().count(e) == at_time(events, e.absolute_time_us).to_multiset().count(e),
    decreases events.len(),
{
    let t = e.absolute_time_us;
    if events.len() == 0 {
        lemma_at_time_absent(events, t);
        assert(events =~= Seq::<TimedEvent>::empty());
    } else {
        let front = events.drop_last();
        let last = events.last();
        assert(events =~= front.push(last));
        lemma_count_at_own_time(front, e);
        lemma_at_time_push(front, last, t);
        vstd::seq_lib::to_multiset_build(front, last);
        vstd::seq_lib::to_multiset_build(at_time(front, t), last);
        vstd::multiset::lemma_insert_increases_count_by_1(front.to_multiset(), last);
        vstd::multiset::lemma_insert_other_elements_unchanged(front.to_multiset(), last, e);
        vstd::multiset::lemma_insert_increases_count_by_1(at_time(front, t).to_multiset(), last);
        vstd::multiset::lemma_insert_other_elements_unchanged(
            at_time(front, t).to_multiset(),
            last,
            e,
        );
    }
}

/// A stable merge drops no event, adds none and changes none: it holds
/// each event as often as it was handed in.
pub proof fn lemma_stable_merge_is_permutation(merged: Seq<TimedEvent>, events: Seq<TimedEvent>)
    requires
        is_stable_merge(merged, events),
    ensures
        merged.to_multiset() == events.to_multiset(),
        merged.len() == events.len(),
{
    assert forall|e: TimedEvent| merged.to_multiset().count(e) == events.to_multiset().count(e) by {
        lemma_count_at_own_time(merged, e);
        lemma_count_at_own_time(events, e);
        assert(at_time(merged, e.absolute_time_us) == at_time(events, e.absolute_time_us));
    }
    assert(merged.to_multiset() =~= events.to_multiset());
    merged.to_multiset_ensures();
    events.to_multiset_ensures();
}

/// Where two collections are merged, the events of one time are those of
/// the first collection in their order, then those of the second in theirs.
pub proof fn lemma_merge_of_two(
    merged: Seq<TimedEvent>,
    first: Seq<TimedEvent>,
    second: Seq<TimedEvent>,
    t: u64,
)
    requires
        is_stable_merge(merged, first + second),
    ensures
        at_time(merged, t) == at_time(first, t) + at_time(second, t),
{
    lemma_at_time_concat(first, second, t);
    assert(at_time(merged, t) == at_time(first + second, t));
}

/// The events at `t` of collections laid end to end are the events at `t`
/// of each, laid end to end.
pub proof fn lemma_at_time_flatten(parts: Seq<Seq<TimedEvent>>, t: u64)
    ensures
        at_time(parts.flatten(), t) == Seq::new(parts.len(), |k: int| at_time(parts[k], t)).flatten(),
    decreases parts.len(),
{
    let each = Seq::new(parts.len(), |k: int| at_time(parts[k], t));
    if parts.len() == 0 {
        lemma_at_time_absent(parts.flatten(), t);
        assert(each.flatten() =~= Seq::<TimedEvent>::empty());
    } else {
        let front = parts.drop_last();
        let front_each = Seq::new(front.len(), |k: int| at_time(front[k], t));
        lemma_at_time_flatten(front, t);
        assert(parts =~= front.push(parts.last()));
        front.lemma_flatten_push(parts.last());
        lemma_at_time_concat(front.flatten(), parts.last(), t);
        assert(each =~= front_each.push(at_time(parts.last(), t)));
        front_each.lemma_flatten_push(at_time(parts.last(), t));
    }
}

/// The events of a sequence at `t`, told from its first event and the rest.
proof fn lemma_at_time_first(events: Seq<TimedEvent>, t: u64)
    requires
        events.len() > 0,
    ensures
        at_time(events, t) == at_time(seq![events[0]], t) + at_time(events.drop_first(), t),
{
    assert(events =~= seq![events[0]] + events.drop_first());
    lemma_at_time_concat(seq![events[0]], events.drop_first(), t);
}

/// Two sequences that are ordered by time and show the same events at
/// every time are one sequence.
pub proof fn lemma_ordered_and_same_at_each_time(a: Seq<TimedEvent>, b: Seq<TimedEvent>)
    requires
        is_time_ordered(a),
        is_time_ordered(b),
        forall|t: u64| #[trigger] at_time(a, t) == at_time(b, t),
    ensures
        a == b,
    decreases a.len(),
{
    if a.len() == 0 {
        if b.len() > 0 {
            lemma_at_time_holds(b, 0);
            lemma_at_time_absent(a, b[0].absolute_time_us);
            assert(at_time(a, b[0].absolute_time_us) == at_time(b, b[0].absolute_time_us));
        }
        assert(a =~= b);
    } else {
        let ta = a[0].absolute_time_us;
        lemma_at_time_holds(a, 0);
        assert(at_time(a, ta) == at_time(b, ta));
        if b.len() == 0 {
            lemma_at_time_absent(b, ta);
        }
        let tb = b[0].absolute_time_us;
        lemma_at_time_holds(b, 0);
        assert(at_time(a, tb) == at_time(b, tb));
        assert(tb <= ta) by {
            let found = at_time(b, ta);
            let k = choose|k: int| 0 <= k < found.len() && found[k] == a[0];
            lemma_at_time_members(b, ta, k);
            let j = choose|j: int| 0 <= j < b.len() && b[j] == found[k];
            assert(b[0].absolute_time_us <= b[j].absolute_time_us);
        }
        assert(ta <= tb) by {
            let found = at_time(a, tb);
            let k = choose|k: int| 0 <= k < found.len() && found[k] == b[0];
            lemma_at_time_members(a, tb, k);
            let j = choose|j: int| 0 <= j < a.len() && a[j] == found[k];
            assert(a[0].absolute_time_us <= a[j].absolute_time_us);
        }
        let rest_a = a.drop_first();
        let rest_b = b.drop_first();
        assert forall|t: u64| #[trigger] at_time(rest_a, t) == at_time(rest_b, t) by {
            lemma_at_time_first(a, t);
            lemma_at_time_first(b, t);
            lemma_at_time_single(a[0], t);
            lemma_at_time_single(b[0], t);
            assert(at_time(a, t) == at_time(b, t));
            let head_a = at_time(seq![a[0]], t);
            let head_b = at_time(seq![b[0]], t);
            assert(head_a.len() == head_b.len());
            assert(at_time(rest_a, t) =~= (head_a + at_time(rest_a, t)).skip(head_a.len() as int));
            assert(at_time(rest_b, t) =~= (head_b + at_time(rest_b, t)).skip(head_b.len() as int));
        }
        assert(a[0] == b[0]) by {
            lemma_at_time_first(a, ta);
            lemma_at_time_first(b, ta);
            lemma_at_time_single(a[0], ta);
            lemma_at_time_single(b[0], ta);
            assert((seq![a[0]] + at_time(rest_a, ta))[0] == a[0]);
            assert((seq![b[0]] + at_time(rest_b, ta))[0] == b[0]);
        }
        lemma_ordered_and_same_at_each_time(rest_a, rest_b);
        assert(a =~= seq![a[0]] + rest_a);
        assert(b =~= seq![b[0]] + rest_b);
    }
}

/// There is one stable merge of a collection: whatever orders the events by
/// time and keeps those of one time in their order gives the same sequence.
pub proof fn lemma_stable_merge_is_unique(
    a: Seq<TimedEvent>,
    b: Seq<TimedEvent>,
    events: Seq<TimedEvent>,
)
    requires
        is_stable_merge(a, events),
        is_stable_merge(b, events),
    ensures
        a == b,
{
    assert forall|t: u64| #[trigger] at_time(a, t) == at_time(b, t) by {
        assert(at_time(a, t) == at_time(events, t));
        assert(at_time(b, t) == at_time(events, t));
    }
    lemma_ordered_and_same_at_each_time(a, b);
}

/// Merges two runs that are each ordered by time. Where the times are
/// equal the events of `left` come first.
fn merge_runs(left: &Vec<TimedEvent>, right: &Vec<TimedEvent>) -> (out: Vec<TimedEvent>)
    requires
        is_time_ordered(left@),
        is_time_ordered(right@),
    ensures
        is_stable_merge(out@, left@ + right@),
{
    let mut out: Vec<TimedEvent> = Vec::new();
    let mut i: usize = 0;
    let mut j: usize = 0;
    proof {
        assert forall|t: u64| #[trigger]
            at_time(out@, t) == at_time(left@.take(0), t) + at_time(right@.take(0), t) by {
            lemma_at_time_absent(out@, t);
            lemma_at_time_absent(left@.take(0), t);
            lemma_at_time_absent(right@.take(0), t);
        }
    }
    while i < left.len() || j < right.len()
        invariant
            i <= left.len(),
            j <= right.len(),
            is_time_ordered(left@),
            is_time_ordered(right@),
            is_time_ordered(out@),
            forall|k: int|
                0 <= k < out@.len() && i < left.len() ==> out@[k].absolute_time_us
                    <= left@[i as int].absolute_time_us,
            forall|k: int|
                0 <= k < out@.len() && j < right.len() ==> out@[k].absolute_time_us
                    <= right@[j as int].absolute_time_us,
            forall|k: int|
                0 <= k < j && i < left.len() ==> right@[k].absolute_time_us
                    < left@[i as int].absolute_time_us,
            forall|t: u64| #[trigger]
                at_time(out@, t) == at_time(left@.take(i as int), t) + at_time(
                    right@.take(j as int),
                    t,
                ),
        decreases left.len() - i + right.len() - j,
    {
        let from_left = if i < left.len() {
            if j < right.len() {
                left[i].absolute_time_us <= right[j].absolute_time_us
            } else {
                true
            }
        } else {
            false
        };
        let ghost before = out@;
        if from_left {
            let e = left[i];
            out.push(e);
            proof {
                assert(left@.take(i + 1) =~= left@.take(i as int).push(e));
                assert forall|t: u64| #[trigger]
                    at_time(out@, t) == at_time(left@.take(i + 1), t) + at_time(
                        right@.take(j as int),
                        t,
                    ) by {
                    lemma_at_time_push(before, e, t);
                    lemma_at_time_push(left@.take(i as int), e, t);
                    if e.absolute_time_us == t {
                        lemma_at_time_absent(right@.take(j as int), t);
                    }
                    assert(at_time(before, t) == at_time(left@.take(i as int), t) + at_time(
                        right@.take(j as int),
                        t,
                    ));
                    assert(at_time(out@, t) =~= at_time(left@.take(i + 1), t) + at_time(
                        right@.take(j as int),
                        t,
                    ));
                }
            }
            i = i + 1;
        } else {
            let e = right[j];
            out.push(e);
            proof {
                assert(right@.take(j + 1) =~= right@.take(j as int).push(e));
                assert forall|t: u64| #[trigger]
                    at_time(out@, t) == at_time(left@.take(i as int), t) + at_time(
                        right@.take(j + 1),
                        t,
                    ) by {
                    lemma_at_time_push(before, e, t);
                    lemma_at_time_push(right@.take(j as int), e, t);
                    assert(at_time(before, t) == at_time(left@.take(i as int), t) + at_time(
                        right@.take(j as int),
                        t,
                    ));
                    assert(at_time(out@, t) =~= at_time(left@.take(i as int), t) + at_time(
                        right@.take(j + 1),
                        t,
                    ));
                }
            }
            j = j + 1;
        }
    }
    proof {
        assert(left@.take(i as int) =~= left@);
        assert(right@.take(j as int) =~= right@);
        assert forall|t: u64| #[trigger] at_time(out@, t) == at_time(left@ + right@, t) by {
            lemma_at_time_concat(left@, right@, t);
            assert(at_time(out@, t) == at_time(left@.take(i as int), t) + at_time(
                right@.take(j as int),
                t,
            ));
        }
    }
    out
}

/// Orders the events `events[lo..hi]` by time, keeping those of one time in their order.
fn sort_range(events: &Vec<TimedEvent>, lo: usize, hi: usize) -> (out: Vec<TimedEvent>)
    requires
        lo <= hi <= events.len(),
    ensures
        is_stable_merge(out@, events@.subrange(lo as int, hi as int)),
    decreases hi - lo,
{
    if hi - lo <= 1 {
        let mut out: Vec<TimedEvent> = Vec::new();
        if hi - lo == 1 {
            out.push(events[lo]);
        }
        assert(out@ =~= events@.subrange(lo as int, hi as int));
        out
    } else {
        let mid = lo + (hi - lo) / 2;
        let left = sort_range(events, lo, mid);
        let right = sort_range(events, mid, hi);
        let out = merge_runs(&left, &right);
        proof {
            let first = events@.subrange(lo as int, mid as int);
            let second = events@.subrange(mid as int, hi as int);
            assert(first + second =~= events@.subrange(lo as int, hi as int));
            assert forall|t: u64| #[trigger]
                at_time(out@, t) == at_time(events@.subrange(lo as int, hi as int), t) by {
                lemma_at_time_concat(left@, right@, t);
                lemma_at_time_concat(first, second, t);
                assert(at_time(left@, t) == at_time(first, t));
                assert(at_time(right@, t) == at_time(second, t));
                assert(at_time(out@, t) == at_time(left@ + right@, t));
            }
        }
        out
    }
}

/// Merges `events` into the order of their times. Events of one time keep
/// the order in which they stand in `events`.
pub fn merge_by_time(events: &Vec<TimedEvent>) -> (merged: Vec<TimedEvent>)
    ensures
        is_stable_merge(merged@, events@),
{
    let merged = sort_range(events, 0, events.len());
    assert(events@.subrange(0, events@.len() as int) =~= events@);
    merged
}

} // verus!
