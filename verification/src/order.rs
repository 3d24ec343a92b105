//! The order in which a file's events are played.
use crate::events::{
    event_sort_key, left_sounding, lemma_status_bytes, lemma_timed_push, note_change, sort_key,
    timed, SmafEvent, SmafEventView, TimedEvent,
};
use crate::sequence::{later, sounded_by, sounds_within};
use vstd::multiset::group_multiset_axioms;
use vstd::prelude::*;
use vstd::relations::{
    antisymmetric, reflexive, sorted_by, strongly_connected, total_ordering, transitive,
};
use vstd::seq_lib::{
    group_to_multiset_ensures, lemma_multiset_commutative, lemma_sorted_unique, to_multiset_build,
    to_multiset_remove,
};

verus! {

/// A sort key as one number: the class, then the three bytes.
pub open spec fn key_number(key: (u8, [u8; 3])) -> nat {
    (key.0 * 0x100_0000 + key.1[0] * 0x1_0000 + key.1[1] * 0x100 + key.1[2]) as nat
}

/// Whether the event at `first` is played no later than the one at `second`: by
/// time, within a millisecond by sort key, and within equal keys by place.
pub open spec fn not_after(events: Seq<TimedEvent>, first: int, second: int) -> bool {
    let (time_a, event_a) = events[first];
    let (time_b, event_b) = events[second];
    let key_a = key_number(sort_key(event_a));
    let key_b = key_number(sort_key(event_b));
    ||| time_a < time_b
    ||| time_a == time_b && key_a < key_b
    ||| time_a == time_b && key_a == key_b && first <= second
}

/// The playing order on the places of a list.
pub open spec fn playing_order(events: Seq<TimedEvent>) -> spec_fn(int, int) -> bool {
    |first: int, second: int| not_after(events, first, second)
}

/// The places `from` to `to`, in ascending order.
pub open spec fn places(from: int, to: int) -> Seq<int> {
    Seq::new((to - from) as nat, |i: int| from + i)
}

/// The events of a list in playing order.
pub open spec fn in_order(events: Seq<TimedEvent>) -> Seq<TimedEvent> {
    places(0, events.len() as int).sort_by(playing_order(events)).map_values(
        |place: int| events[place],
    )
}

/// The latest time in a list, zero in an empty one.
pub open spec fn latest(events: Seq<TimedEvent>) -> nat
    decreases events.len(),
{
    if events.len() == 0 {
        0
    } else {
        later(latest(events.drop_last()), events.last().0)
    }
}

/// The events that are no end markers.
pub open spec fn without_ends(events: Seq<TimedEvent>) -> Seq<TimedEvent>
    decreases events.len(),
{
    if events.len() == 0 {
        Seq::empty()
    } else if events.last().1 is End {
        without_ends(events.drop_last())
    } else {
        without_ends(events.drop_last()).push(events.last())
    }
}

/// A file's events: those of its tracks in playing order, with one end marker in
/// place of the tracks' own, at the latest time that any of them has.
pub open spec fn finished(events: Seq<TimedEvent>) -> Seq<TimedEvent> {
    in_order(without_ends(events).push((latest(events), SmafEventView::End)))
}

/// The playing order is a total order.
pub proof fn lemma_playing_order(events: Seq<TimedEvent>)
    ensures
        total_ordering(playing_order(events)),
{
    let order = playing_order(events);
    assert(reflexive(order));
    assert(antisymmetric(order));
    assert(transitive(order));
    assert(strongly_connected(order));
}

fn rank(event: &SmafEvent) -> (number: u32)
    ensures
        number == key_number(sort_key(event@)),
{
    let (class, bytes) = event_sort_key(event);
    class as u32 * 0x100_0000 + bytes[0] as u32 * 0x1_0000 + bytes[1] as u32 * 0x100
        + bytes[2] as u32
}

fn is_not_after(events: &Vec<(usize, SmafEvent)>, first: usize, second: usize) -> (before: bool)
    requires
        first < events.len(),
        second < events.len(),
    ensures
        before == not_after(timed(events@), first as int, second as int),
{
    let time_a = events[first].0;
    let time_b = events[second].0;
    if time_a != time_b {
        return time_a < time_b;
    }
    let key_a = rank(&events[first].1);
    let key_b = rank(&events[second].1);
    if key_a != key_b {
        return key_a < key_b;
    }
    first <= second
}

/// A list of places as integers.
spec fn ints(list: Seq<usize>) -> Seq<int> {
    list.map_values(|place: usize| place as int)
}

/// One more item in the first of two lists.
proof fn lemma_one_more(first: Seq<int>, second: Seq<int>, item: int)
    ensures
        (first.push(item) + second).to_multiset() == (first + second).to_multiset().insert(item),
{
    broadcast use {group_multiset_axioms, group_to_multiset_ensures};

    lemma_multiset_commutative(first, second);
    lemma_multiset_commutative(first.push(item), second);
    assert(first.push(item).to_multiset() == first.to_multiset().insert(item));
    assert(first.to_multiset().insert(item).add(second.to_multiset())
        =~= first.to_multiset().add(second.to_multiset()).insert(item));
}

/// Merges two lists of places, each in playing order, into one.
fn merge_places(
    events: &Vec<(usize, SmafEvent)>,
    left: &Vec<usize>,
    right: &Vec<usize>,
) -> (merged: Vec<usize>)
    requires
        forall|i: int| 0 <= i < left.len() ==> left[i] < events.len(),
        forall|i: int| 0 <= i < right.len() ==> right[i] < events.len(),
        sorted_by(ints(left@), playing_order(timed(events@))),
        sorted_by(ints(right@), playing_order(timed(events@))),
    ensures
        sorted_by(ints(merged@), playing_order(timed(events@))),
        ints(merged@).to_multiset() == (ints(left@) + ints(right@)).to_multiset(),
        forall|i: int| 0 <= i < merged.len() ==> merged[i] < events.len(),
{
    broadcast use group_to_multiset_ensures;

    let ghost order = playing_order(timed(events@));
    let ghost l = ints(left@);
    let ghost r = ints(right@);
    let mut merged: Vec<usize> = Vec::new();
    let mut i: usize = 0;
    let mut j: usize = 0;
    proof {
        lemma_playing_order(timed(events@));
        assert(ints(merged@) =~= Seq::empty());
        assert(l.take(0) =~= Seq::empty());
        assert(r.take(0) =~= Seq::empty());
        assert(l.take(0) + r.take(0) =~= Seq::<int>::empty());
    }
    while i < left.len() || j < right.len()
        invariant
            i <= left.len(),
            j <= right.len(),
            l == ints(left@),
            r == ints(right@),
            order == playing_order(timed(events@)),
            total_ordering(order),
            forall|k: int| 0 <= k < left.len() ==> left[k] < events.len(),
            forall|k: int| 0 <= k < right.len() ==> right[k] < events.len(),
            forall|k: int| 0 <= k < merged.len() ==> merged[k] < events.len(),
            sorted_by(l, order),
            sorted_by(r, order),
            sorted_by(ints(merged@), order),
            forall|k: int, m: int|
                0 <= k < merged.len() && i <= m < left.len() ==> #[trigger] order(
                    ints(merged@)[k],
                    l[m],
                ),
            forall|k: int, m: int|
                0 <= k < merged.len() && j <= m < right.len() ==> #[trigger] order(
                    ints(merged@)[k],
                    r[m],
                ),
            ints(merged@).to_multiset() == (l.take(i as int) + r.take(j as int)).to_multiset(),
        decreases (left.len() - i) + (right.len() - j),
    {
        let from_left = if i >= left.len() {
            false
        } else if j >= right.len() {
            true
        } else {
            is_not_after(events, left[i], right[j])
        };
        let ghost before = merged@;
        let ghost l_taken = l.take(i as int);
        let ghost r_taken = r.take(j as int);
        if from_left {
            merged.push(left[i]);
            proof {
                let next = l[i as int];
                assert(l.take(i + 1) =~= l_taken.push(next));
                assert(ints(merged@) =~= ints(before).push(next));
                lemma_one_more(l_taken, r_taken, next);
                to_multiset_build(ints(before), next);
                if j < right.len() {
                    assert(order(next, r[j as int]));
                    assert forall|m: int| j <= m < right.len() implies order(next, r[m]) by {
                        if m > j {
                            assert(order(r[j as int], r[m]));
                        }
                    }
                }
                assert forall|m: int| i < m < left.len() implies order(next, l[m]) by {}
            }
            i += 1;
        } else {
            merged.push(right[j]);
            proof {
                let next = r[j as int];
                assert(r.take(j + 1) =~= r_taken.push(next));
                assert(ints(merged@) =~= ints(before).push(next));
                assert(l_taken + r_taken.push(next) =~= (l_taken + r_taken).push(next));
                to_multiset_build(l_taken + r_taken, next);
                to_multiset_build(ints(before), next);
                if i < left.len() {
                    assert(order(next, l[i as int]));
                    assert forall|m: int| i <= m < left.len() implies order(next, l[m]) by {
                        if m > i {
                            assert(order(l[i as int], l[m]));
                        }
                    }
                }
                assert forall|m: int| j < m < right.len() implies order(next, r[m]) by {}
            }
            j += 1;
        }
    }
    assert(l.take(i as int) =~= l);
    assert(r.take(j as int) =~= r);
    merged
}

/// The places `from` to `to` of a list in playing order.
fn sort_places(events: &Vec<(usize, SmafEvent)>, from: usize, to: usize) -> (sorted: Vec<usize>)
    requires
        from <= to <= events.len(),
    ensures
        sorted_by(ints(sorted@), playing_order(timed(events@))),
        ints(sorted@).to_multiset() == places(from as int, to as int).to_multiset(),
        forall|i: int| 0 <= i < sorted.len() ==> sorted[i] < events.len(),
    decreases to - from,
{
    let mut sorted: Vec<usize> = Vec::new();
    if to - from <= 1 {
        if from < to {
            sorted.push(from);
        }
        proof {
            lemma_playing_order(timed(events@));
            assert(ints(sorted@) =~= places(from as int, to as int));
        }
        return sorted;
    }
    let middle = from + (to - from) / 2;
    let left = sort_places(events, from, middle);
    let right = sort_places(events, middle, to);
    let sorted = merge_places(events, &left, &right);
    proof {
        let (a, b, c) = (from as int, middle as int, to as int);
        assert(places(a, c) =~= places(a, b) + places(b, c));
        lemma_multiset_commutative(places(a, b), places(b, c));
        lemma_multiset_commutative(ints(left@), ints(right@));
    }
    sorted
}

/// Places in playing order are those of the sorted list.
proof fn lemma_places_in_order(events: Seq<TimedEvent>, sorted: Seq<int>)
    requires
        sorted_by(sorted, playing_order(events)),
        sorted.to_multiset() == places(0, events.len() as int).to_multiset(),
    ensures
        sorted == places(0, events.len() as int).sort_by(playing_order(events)),
        sorted.len() == events.len(),
        sorted.no_duplicates(),
        forall|i: int| 0 <= i < sorted.len() ==> 0 <= #[trigger] sorted[i] < events.len(),
{
    broadcast use group_to_multiset_ensures;

    let all = places(0, events.len() as int);
    let order = playing_order(events);
    lemma_playing_order(events);
    all.lemma_sort_by_ensures(order);
    lemma_sorted_unique(sorted, all.sort_by(order), order);
    assert(sorted.to_multiset().len() == all.to_multiset().len());
    assert(all.no_duplicates());
    all.lemma_multiset_has_no_duplicates();
    sorted.lemma_multiset_has_no_duplicates_conv();
    assert forall|i: int| 0 <= i < sorted.len() implies 0 <= #[trigger] sorted[i]
        < events.len() by {
        assert(sorted.contains(sorted[i]));
        assert(sorted.to_multiset().count(sorted[i]) > 0);
        assert(all.contains(sorted[i]));
    }
}

fn into_slots(events: Vec<(usize, SmafEvent)>) -> (slots: Vec<Option<(usize, SmafEvent)>>)
    ensures
        slots.len() == events.len(),
        forall|i: int| 0 <= i < slots.len() ==> #[trigger] slots[i] == Some(events[i]),
{
    let mut slots: Vec<Option<(usize, SmafEvent)>> = Vec::new();
    for event in iter: events
        invariant
            iter.seq() == events@,
            slots.len() == iter.index(),
            forall|i: int| 0 <= i < slots.len() ==> #[trigger] slots[i] == Some(events[i]),
    {
        slots.push(Some(event));
    }
    slots
}

/// Puts a list into playing order.
pub fn sort_events(events: Vec<(usize, SmafEvent)>) -> (sorted: Vec<(usize, SmafEvent)>)
    ensures
        timed(sorted@) == in_order(timed(events@)),
{
    let ghost views = timed(events@);
    let order = sort_places(&events, 0, events.len());
    proof {
        lemma_places_in_order(views, ints(order@));
    }
    let mut slots = into_slots(events);
    let mut sorted: Vec<(usize, SmafEvent)> = Vec::new();
    let mut i: usize = 0;
    while i < order.len()
        invariant
            i <= order.len(),
            order.len() == views.len(),
            slots.len() == views.len(),
            ints(order@).no_duplicates(),
            forall|k: int| 0 <= k < order.len() ==> order[k] < views.len(),
            forall|k: int|
                i <= k < order.len() ==> {
                    let slot = #[trigger] slots[order[k] as int];
                    slot is Some && views[order[k] as int] == (
                        slot.unwrap().0 as nat,
                        slot.unwrap().1@,
                    )
                },
            sorted.len() == i,
            forall|k: int|
                0 <= k < i ==> #[trigger] timed(sorted@)[k] == views[order[k] as int],
        decreases order.len() - i,
    {
        let place = order[i];
        assert(ints(order@)[i as int] == place);
        let ghost before = slots@;
        let taken = slots[place].take();
        if let Some((time, event)) = taken {
            proof {
                lemma_timed_push(sorted@, time, event);
            }
            sorted.push((time, event));
        }
        proof {
            assert forall|k: int| i < k < order.len() implies #[trigger] slots[order[k] as int]
                == before[order[k] as int] by {
                assert(ints(order@)[k] != ints(order@)[i as int]);
            }
        }
        i += 1;
    }
    assert(timed(sorted@) =~= in_order(views));
    sorted
}

/// The events that are no end markers, and the latest time of all.
fn drop_ends(events: Vec<(usize, SmafEvent)>) -> (kept: (Vec<(usize, SmafEvent)>, usize))
    ensures
        timed(kept.0@) == without_ends(timed(events@)),
        kept.1 == latest(timed(events@)),
{
    let mut kept: Vec<(usize, SmafEvent)> = Vec::new();
    let mut end_time: usize = 0;
    let ghost views = timed(events@);
    assert(timed(kept@) =~= without_ends(views.take(0)));
    for (time, event) in iter: events
        invariant
            iter.seq() == events@,
            views == timed(events@),
            timed(kept@) == without_ends(views.take(iter.index())),
            end_time == latest(views.take(iter.index())),
    {
        proof {
            let seen = views.take(iter.index() + 1);
            assert(seen.drop_last() =~= views.take(iter.index()));
            assert(seen.last() == (time as nat, event@));
            lemma_timed_push(kept@, time, event);
            assert(timed(kept@).push(seen.last()) =~= timed(kept@) + seq![seen.last()]);
        }
        if time > end_time {
            end_time = time;
        }
        match event {
            SmafEvent::End => {},
            _ => kept.push((time, event)),
        }
    }
    assert(views.take(views.len() as int) =~= views);
    (kept, end_time)
}

/// Closes a file: one end marker in place of those of its tracks, and all events
/// in playing order.
///
/// Each track reports an end marker.  One end marker at the latest scheduled
/// point keeps a loop from restarting while a wave or a note of another track is
/// still sounding.
pub fn finish_events(events: Vec<(usize, SmafEvent)>) -> (closed: Vec<(usize, SmafEvent)>)
    ensures
        timed(closed@) == finished(timed(events@)),
{
    let (mut kept, end_time) = drop_ends(events);
    proof {
        lemma_timed_push(kept@, end_time, SmafEvent::End);
        let end = (end_time as nat, SmafEventView::End);
        assert(timed(kept@).push(end) =~= timed(kept@) + seq![end]);
    }
    kept.push((end_time, SmafEvent::End));
    sort_events(kept)
}

/// Sorting only moves events: each place of the sorted list has the event of one
/// place of the list, each place once, and the places come in playing order.
pub proof fn law_order_is_a_stable_permutation(events: Seq<TimedEvent>) -> (order: Seq<int>)
    ensures
        in_order(events).len() == events.len(),
        order.len() == events.len(),
        order.no_duplicates(),
        order.to_multiset() == places(0, events.len() as int).to_multiset(),
        forall|i: int| 0 <= i < order.len() ==> 0 <= #[trigger] order[i] < events.len(),
        forall|i: int|
            0 <= i < order.len() ==> #[trigger] in_order(events)[i] == events[order[i]],
        forall|i: int, j: int|
            0 <= i < j < order.len() ==> #[trigger] not_after(events, order[i], order[j]),
{
    let all = places(0, events.len() as int);
    let leq = playing_order(events);
    let order = all.sort_by(leq);
    lemma_playing_order(events);
    all.lemma_sort_by_ensures(leq);
    lemma_places_in_order(events, order);
    assert forall|i: int, j: int| 0 <= i < j < order.len() implies #[trigger] not_after(
        events,
        order[i],
        order[j],
    ) by {
        assert(leq(order[i], order[j]));
    }
    order
}

/// In the sorted list no event comes before an earlier one, and within a
/// millisecond the classes of events follow each other: exclusive messages,
/// controls and pitch bends, programs, note-offs, note-ons, FM notes, waves, the
/// end marker.
pub proof fn law_order_follows_time_and_class(events: Seq<TimedEvent>, i: int, j: int)
    requires
        0 <= i <= j < events.len(),
    ensures
        in_order(events)[i].0 <= in_order(events)[j].0,
        in_order(events)[i].0 == in_order(events)[j].0 ==> sort_key(in_order(events)[i].1).0
            <= sort_key(in_order(events)[j].1).0,
{
    let order = law_order_is_a_stable_permutation(events);
    if i < j {
        assert(not_after(events, order[i], order[j]));
    }
}

/// Every place of a list turns up in its sorted list.
proof fn lemma_every_place(events: Seq<TimedEvent>, order: Seq<int>, place: int) -> (at: int)
    requires
        order.to_multiset() == places(0, events.len() as int).to_multiset(),
        0 <= place < events.len(),
    ensures
        0 <= at < order.len(),
        order[at] == place,
{
    broadcast use group_to_multiset_ensures;

    let all = places(0, events.len() as int);
    assert(all[place] == place);
    assert(all.contains(place));
    assert(order.to_multiset().count(place) > 0);
    assert(order.contains(place));
    choose|at: int| 0 <= at < order.len() && order[at] == place
}

/// No event is later than the latest.
pub proof fn lemma_latest(events: Seq<TimedEvent>, i: int)
    requires
        0 <= i < events.len(),
    ensures
        events[i].0 <= latest(events),
    decreases events.len(),
{
    if i < events.len() - 1 {
        lemma_latest(events.drop_last(), i);
    }
}

/// Whether every event of a list has sounded by its latest time.
pub open spec fn all_sounded(events: Seq<TimedEvent>) -> bool {
    forall|i: int| 0 <= i < events.len() ==> sounded_by(#[trigger] events[i]) <= latest(events)
}

/// The latest time of two lists is the later of theirs.
pub proof fn lemma_latest_joined(first: Seq<TimedEvent>, second: Seq<TimedEvent>)
    ensures
        latest(first + second) == later(latest(first), latest(second)),
    decreases second.len(),
{
    if second.len() == 0 {
        assert(first + second =~= first);
    } else {
        lemma_latest_joined(first, second.drop_last());
        assert((first + second).drop_last() =~= first + second.drop_last());
    }
}

/// A list has sounded by its latest time where it has by its end marker.
pub proof fn lemma_closed_list_has_sounded(events: Seq<TimedEvent>)
    requires
        events.len() > 0,
        events.last().1 is End,
        sounds_within(events.drop_last(), 0, events.last().0),
    ensures
        all_sounded(events),
{
    lemma_latest(events, events.len() - 1);
    assert forall|i: int| 0 <= i < events.len() implies sounded_by(#[trigger] events[i])
        <= latest(events) by {
        if i < events.len() - 1 {
            assert(events[i] == events.drop_last()[i]);
            assert(events.drop_last()[i].0 <= events.last().0);
        }
    }
}

/// What is left without the end markers comes from the list and is none.
pub proof fn lemma_without_ends(events: Seq<TimedEvent>, i: int)
    requires
        0 <= i < without_ends(events).len(),
    ensures
        exists|j: int| 0 <= j < events.len() && #[trigger] events[j] == without_ends(events)[i],
        !(without_ends(events)[i].1 is End),
        without_ends(events)[i].0 <= latest(events),
    decreases events.len(),
{
    if events.last().1 is End {
        lemma_without_ends(events.drop_last(), i);
        let j = choose|j: int|
            0 <= j < events.drop_last().len() && #[trigger] events.drop_last()[j] == without_ends(
                events.drop_last(),
            )[i];
        assert(events[j] == without_ends(events)[i]);
    } else if i < without_ends(events).len() - 1 {
        lemma_without_ends(events.drop_last(), i);
        let j = choose|j: int|
            0 <= j < events.drop_last().len() && #[trigger] events.drop_last()[j] == without_ends(
                events.drop_last(),
            )[i];
        assert(events[j] == without_ends(events)[i]);
    } else {
        assert(events[events.len() - 1] == without_ends(events)[i]);
    }
}

/// The end marker has the greatest key.
proof fn lemma_end_key(event: SmafEventView)
    requires
        !(event is End),
    ensures
        key_number(sort_key(event)) < key_number(sort_key(SmafEventView::End)),
{
    assert(sort_key(event).0 <= 40);
}

/// A finished list ends with the end marker, at the latest time of all events,
/// and holds no other.
pub proof fn law_finished_lists_end_once(events: Seq<TimedEvent>)
    ensures
        finished(events).len() > 0,
        finished(events).last() == (latest(events), SmafEventView::End),
        forall|i: int|
            0 <= i < finished(events).len() - 1 ==> !(#[trigger] finished(events)[i].1 is End)
                && finished(events)[i].0 <= latest(events),
{
    let kept = without_ends(events);
    let end = (latest(events), SmafEventView::End);
    let list = kept.push(end);
    let order = law_order_is_a_stable_permutation(list);
    let last = order.len() - 1;
    let at = lemma_every_place(list, order, kept.len() as int);
    if at < last {
        let other = order[last];
        assert(not_after(list, order[at], other));
        assert(order[at] != order[last]);
        lemma_without_ends(events, other);
        lemma_end_key(list[other].1);
        assert(false);
    }
    assert forall|i: int| 0 <= i < finished(events).len() - 1 implies !(
    #[trigger] finished(events)[i].1 is End) && finished(events)[i].0 <= latest(events) by {
        assert(order[i] != order[last]);
        lemma_without_ends(events, order[i]);
    }
}

/// What the events at some places add to the sounding notes.
spec fn left_at(events: Seq<TimedEvent>, order: Seq<int>, channel: u8, note: u8) -> int
    decreases order.len(),
{
    if order.len() == 0 {
        0
    } else {
        left_at(events, order.drop_last(), channel, note) + note_change(
            events[order.last()].1,
            channel,
            note,
        )
    }
}

proof fn lemma_left_at_remove(
    events: Seq<TimedEvent>,
    order: Seq<int>,
    at: int,
    channel: u8,
    note: u8,
)
    requires
        0 <= at < order.len(),
    ensures
        left_at(events, order, channel, note) == left_at(events, order.remove(at), channel, note)
            + note_change(events[order[at]].1, channel, note),
    decreases order.len(),
{
    if at == order.len() - 1 {
        assert(order.remove(at) =~= order.drop_last());
    } else {
        lemma_left_at_remove(events, order.drop_last(), at, channel, note);
        assert(order.remove(at).drop_last() =~= order.drop_last().remove(at));
        assert(order.remove(at).last() == order.last());
    }
}

/// The order of the places does not matter.
proof fn lemma_left_at_any_order(
    events: Seq<TimedEvent>,
    one: Seq<int>,
    other: Seq<int>,
    channel: u8,
    note: u8,
)
    requires
        one.to_multiset() == other.to_multiset(),
    ensures
        left_at(events, one, channel, note) == left_at(events, other, channel, note),
    decreases one.len(),
{
    broadcast use {group_multiset_axioms, group_to_multiset_ensures};

    if one.len() == 0 {
        assert(other.len() == other.to_multiset().len());
        assert(one.len() == one.to_multiset().len());
    } else {
        let item = one.last();
        assert(one.contains(item));
        assert(other.to_multiset().count(item) > 0);
        assert(other.contains(item));
        let at = choose|at: int| 0 <= at < other.len() && other[at] == item;
        lemma_left_at_remove(events, other, at, channel, note);
        assert(one =~= one.drop_last().push(item));
        to_multiset_build(one.drop_last(), item);
        to_multiset_remove(other, at);
        assert(one.drop_last().to_multiset() =~= other.remove(at).to_multiset());
        lemma_left_at_any_order(events, one.drop_last(), other.remove(at), channel, note);
    }
}

proof fn lemma_left_at_all(events: Seq<TimedEvent>, count: int, channel: u8, note: u8)
    requires
        0 <= count <= events.len(),
    ensures
        left_at(events, places(0, count), channel, note) == left_sounding(
            events.take(count),
            channel,
            note,
        ),
    decreases count,
{
    if count > 0 {
        lemma_left_at_all(events, count - 1, channel, note);
        assert(places(0, count).drop_last() =~= places(0, count - 1));
        assert(events.take(count).drop_last() =~= events.take(count - 1));
    }
}

proof fn lemma_left_at_sorted(
    events: Seq<TimedEvent>,
    sorted: Seq<TimedEvent>,
    order: Seq<int>,
    channel: u8,
    note: u8,
)
    requires
        sorted.len() == order.len(),
        forall|i: int| 0 <= i < order.len() ==> #[trigger] sorted[i] == events[order[i]],
    ensures
        left_sounding(sorted, channel, note) == left_at(events, order, channel, note),
    decreases order.len(),
{
    if order.len() > 0 {
        let (fewer, shorter) = (order.drop_last(), sorted.drop_last());
        assert forall|i: int| 0 <= i < fewer.len() implies #[trigger] shorter[i]
            == events[fewer[i]] by {
            assert(sorted[i] == events[order[i]]);
        }
        lemma_left_at_sorted(events, sorted.drop_last(), order.drop_last(), channel, note);
        assert(sorted[order.len() - 1] == events[order[order.len() - 1]]);
    }
}

proof fn lemma_left_without_ends(events: Seq<TimedEvent>, channel: u8, note: u8)
    ensures
        left_sounding(without_ends(events), channel, note) == left_sounding(events, channel, note),
    decreases events.len(),
{
    if events.len() > 0 {
        lemma_left_without_ends(events.drop_last(), channel, note);
        if !(events.last().1 is End) {
            assert(without_ends(events).drop_last() =~= without_ends(events.drop_last()));
        }
    }
}

/// A finished list switches on and off as many notes as the list that it comes
/// from.
pub proof fn law_finished_lists_keep_notes(events: Seq<TimedEvent>, channel: u8, note: u8)
    ensures
        left_sounding(finished(events), channel, note) == left_sounding(events, channel, note),
{
    let list = without_ends(events).push((latest(events), SmafEventView::End));
    let order = law_order_is_a_stable_permutation(list);
    lemma_left_at_sorted(list, in_order(list), order, channel, note);
    lemma_left_at_any_order(list, order, places(0, list.len() as int), channel, note);
    lemma_left_at_all(list, list.len() as int, channel, note);
    assert(list.take(list.len() as int) =~= list);
    assert(list.drop_last() =~= without_ends(events));
    lemma_left_without_ends(events, channel, note);
}

/// Every event of a finished list but the end marker comes from the list.
pub proof fn law_finished_lists_add_nothing(events: Seq<TimedEvent>, i: int)
    requires
        0 <= i < finished(events).len() - 1,
    ensures
        exists|j: int| 0 <= j < events.len() && #[trigger] events[j] == finished(events)[i],
{
    let kept = without_ends(events);
    let list = kept.push((latest(events), SmafEventView::End));
    let order = law_order_is_a_stable_permutation(list);
    law_finished_lists_end_once(events);
    assert(in_order(list)[i] == list[order[i]]);
    assert(!(finished(events)[i].1 is End));
    lemma_without_ends(events, order[i]);
}

/// Whether an event sets up a channel: a control change or a pitch bend.
pub open spec fn is_setting(event: SmafEventView) -> bool {
    event is MidiControlChange || event is MidiPitchBend
}

/// Within a millisecond exclusive messages come first, then controls and pitch bends,
/// programs, note-offs, note-ons, FM notes, waves, and last the end marker.
pub proof fn law_kinds_follow_each_other(events: Seq<TimedEvent>, i: int, j: int)
    requires
        0 <= i <= j < events.len(),
        in_order(events)[i].0 == in_order(events)[j].0,
    ensures
        ({
            let first = in_order(events)[i].1;
            let second = in_order(events)[j].1;
            &&& second is MidiSysEx ==> first is MidiSysEx
            &&& is_setting(second) ==> first is MidiSysEx || is_setting(first)
            &&& second is MidiProgramChange ==> first is MidiSysEx || is_setting(first)
                || first is MidiProgramChange
            &&& second is MidiNoteOff ==> !(first is MidiNoteOn) && !(first is MaFmNote) && !(
            first is Wave) && !(first is End)
            &&& second is MidiNoteOn ==> !(first is MaFmNote) && !(first is Wave) && !(first is End)
            &&& second is MaFmNote ==> !(first is Wave) && !(first is End)
            &&& second is Wave ==> !(first is End)
        }),
{
    law_order_follows_time_and_class(events, i, j);
}

/// Whether nothing that sorting looks at tells two events apart: they are the same, or
/// waves of as many channels, or exclusive messages with the same first byte, or FM notes
/// of the same channel, note and velocity.
pub open spec fn sort_alike(one: SmafEventView, other: SmafEventView) -> bool {
    ||| one == other
    ||| one is Wave && other is Wave && one->channels == other->channels
    ||| one is MidiSysEx && other is MidiSysEx && one->MidiSysEx_0.len() > 0
        && other->MidiSysEx_0.len() > 0 && one->MidiSysEx_0[0] == other->MidiSysEx_0[0]
    ||| one is MaFmNote && other is MaFmNote && one->MaFmNote_0.channel
        == other->MaFmNote_0.channel && one->MaFmNote_0.note == other->MaFmNote_0.note
        && one->MaFmNote_0.velocity == other->MaFmNote_0.velocity
}

/// Sorting by time, and within a millisecond by kind and numbers, leaves events that do
/// not differ in these in the order in which they stood.
pub proof fn law_equal_events_keep_their_order(events: Seq<TimedEvent>) -> (order: Seq<int>)
    ensures
        order.len() == events.len(),
        order.no_duplicates(),
        forall|i: int| 0 <= i < order.len() ==> 0 <= #[trigger] order[i] < events.len(),
        forall|i: int|
            0 <= i < order.len() ==> #[trigger] in_order(events)[i] == events[order[i]],
        forall|i: int, j: int|
            0 <= i < j < order.len() ==> events[#[trigger] order[i]].0
                <= events[#[trigger] order[j]].0,
        forall|i: int, j: int|
            0 <= i < j < order.len() && events[#[trigger] order[i]].0
                == events[#[trigger] order[j]].0 && sort_alike(
                events[order[i]].1,
                events[order[j]].1,
            ) ==> order[i] < order[j],
{
    let order = law_order_is_a_stable_permutation(events);
    assert forall|i: int, j: int| 0 <= i < j < order.len() implies events[#[trigger] order[i]].0
        <= events[#[trigger] order[j]].0 && (events[order[i]].0 == events[order[j]].0 && sort_alike(
        events[order[i]].1,
        events[order[j]].1,
    ) ==> order[i] < order[j]) by {
        assert(not_after(events, order[i], order[j]));
        assert(order[i] != order[j]);
        if sort_alike(events[order[i]].1, events[order[j]].1) {
            let (one, other) = (events[order[i]].1, events[order[j]].1);
            assert(sort_key(one).1 =~= sort_key(other).1);
        }
    }
    order
}

/// Among the note-ons of a millisecond, and among the note-offs, the controls and the
/// programs, the lower MIDI channel comes first, then the lower note, control or
/// program, then the lower velocity or value; controls come before pitch bends.
pub proof fn law_numbers_order_within_a_kind(
    events: Seq<TimedEvent>,
    i: int,
    j: int,
    channels: (u8, u8),
    numbers: (u8, u8),
    values: (u8, u8),
)
    requires
        0 <= i <= j < events.len(),
        in_order(events)[i].0 == in_order(events)[j].0,
        channels.0 < 16 && channels.1 < 16,
    ensures
        ({
            let first = in_order(events)[i].1;
            let second = in_order(events)[j].1;
            let (channel, other_channel) = channels;
            let (number, other_number) = numbers;
            let (value, other_value) = values;
            let ordered = channel < other_channel || channel == other_channel && (number
                < other_number || number == other_number && value <= other_value);
            &&& first == (SmafEventView::MidiNoteOn { channel, note: number, velocity: value })
                && second == (SmafEventView::MidiNoteOn {
                channel: other_channel,
                note: other_number,
                velocity: other_value,
            }) ==> ordered
            &&& first == (SmafEventView::MidiNoteOff { channel, note: number, velocity: value })
                && second == (SmafEventView::MidiNoteOff {
                channel: other_channel,
                note: other_number,
                velocity: other_value,
            }) ==> ordered
            &&& first == (SmafEventView::MidiControlChange { channel, control: number, value })
                && second == (SmafEventView::MidiControlChange {
                channel: other_channel,
                control: other_number,
                value: other_value,
            }) ==> ordered
            &&& first == (SmafEventView::MidiProgramChange { channel, program: number }) && second
                == (SmafEventView::MidiProgramChange {
                channel: other_channel,
                program: other_number,
            }) ==> channel < other_channel || channel == other_channel && number <= other_number
            &&& (first matches SmafEventView::MidiPitchBend { channel: c, .. } && c < 16 && second
                == (SmafEventView::MidiControlChange {
                channel: other_channel,
                control: other_number,
                value: other_value,
            })) ==> false
        }),
{
    let order = law_order_is_a_stable_permutation(events);
    lemma_status_bytes(channels.0, 0);
    lemma_status_bytes(channels.1, 0);
    if let SmafEventView::MidiPitchBend { channel, .. } = in_order(events)[i].1 {
        if channel < 16 {
            lemma_status_bytes(channel, 0);
        }
    }
    if i < j {
        assert(not_after(events, order[i], order[j]));
    }
}

/// The latest time of a list is that of one of its events, and none is later; an empty
/// list has time zero.
pub proof fn law_latest_is_the_greatest_time(events: Seq<TimedEvent>)
    ensures
        forall|i: int| 0 <= i < events.len() ==> #[trigger] events[i].0 <= latest(events),
        events.len() > 0 ==> exists|i: int|
            0 <= i < events.len() && #[trigger] events[i].0 == latest(events),
        events.len() == 0 ==> latest(events) == 0,
{
    assert forall|i: int| 0 <= i < events.len() implies #[trigger] events[i].0 <= latest(
        events,
    ) by {
        lemma_latest(events, i);
    }
    if events.len() > 0 {
        let _ = lemma_latest_at(events);
    }
}

proof fn lemma_latest_at(events: Seq<TimedEvent>) -> (at: int)
    requires
        events.len() > 0,
    ensures
        0 <= at < events.len(),
        events[at].0 == latest(events),
    decreases events.len(),
{
    let shorter = events.drop_last();
    if shorter.len() == 0 || events.last().0 >= latest(shorter) {
        events.len() - 1
    } else {
        lemma_latest_at(shorter)
    }
}

/// A finished list has every event of the list that is no end marker, as often as the
/// list has events that are none, and one end marker more.
pub proof fn law_finished_lists_drop_nothing(events: Seq<TimedEvent>, place: int)
    ensures
        without_ends(events) == events.filter(|event: TimedEvent| !(event.1 is End)),
        finished(events).len() == without_ends(events).len() + 1,
        0 <= place < events.len() && !(events[place].1 is End) ==> exists|i: int|
            0 <= i < finished(events).len() - 1 && #[trigger] finished(events)[i]
                == events[place],
{
    lemma_ends_filtered(events);
    let kept = without_ends(events);
    let list = kept.push((latest(events), SmafEventView::End));
    let order = law_order_is_a_stable_permutation(list);
    law_finished_lists_end_once(events);
    if 0 <= place < events.len() && !(events[place].1 is End) {
        let at = lemma_kept_place(events, place);
        assert(list[at] == events[place]);
        let i = lemma_every_place(list, order, at);
        assert(finished(events)[i] == events[place]);
        assert(finished(events).last().1 is End);
    }
}

proof fn lemma_ends_filtered(events: Seq<TimedEvent>)
    ensures
        without_ends(events) == events.filter(|event: TimedEvent| !(event.1 is End)),
    decreases events.len(),
{
    reveal(Seq::filter);
    if events.len() > 0 {
        lemma_ends_filtered(events.drop_last());
    } else {
        assert(events =~= Seq::empty());
    }
}

proof fn lemma_kept_place(events: Seq<TimedEvent>, place: int) -> (at: int)
    requires
        0 <= place < events.len(),
        !(events[place].1 is End),
    ensures
        0 <= at < without_ends(events).len(),
        without_ends(events)[at] == events[place],
    decreases events.len(),
{
    if place == events.len() - 1 {
        without_ends(events).len() - 1
    } else {
        lemma_kept_place(events.drop_last(), place)
    }
}

/// Among the FM notes of a millisecond the lower channel comes first, then the lower note,
/// then the lower velocity; among the waves those of fewer channels, and among the
/// exclusive messages those with the lower first byte; among the pitch bends the lower
/// channel, then the lower low and the lower high seven bits.
pub proof fn law_other_numbers_order_within_a_kind(events: Seq<TimedEvent>, i: int, j: int)
    requires
        0 <= i <= j < events.len(),
        in_order(events)[i].0 == in_order(events)[j].0,
    ensures
        ({
            let first = in_order(events)[i].1;
            let second = in_order(events)[j].1;
            &&& first is MaFmNote && second is MaFmNote ==> {
                let (a, b) = (first->MaFmNote_0, second->MaFmNote_0);
                a.channel < b.channel || a.channel == b.channel && (a.note < b.note || a.note
                    == b.note && a.velocity <= b.velocity)
            }
            &&& first is Wave && second is Wave ==> first->channels <= second->channels
            &&& first is MidiSysEx && second is MidiSysEx && first->MidiSysEx_0.len() > 0
                && second->MidiSysEx_0.len() > 0 ==> first->MidiSysEx_0[0]
                <= second->MidiSysEx_0[0]
            &&& (first matches SmafEventView::MidiPitchBend { channel: a, value: v }
                && second matches SmafEventView::MidiPitchBend { channel: b, value: w } && a < 16
                && b < 16 && v < 0x4000 && w < 0x4000) ==> {
                let (a, v) = (first->MidiPitchBend_channel, first->MidiPitchBend_value);
                let (b, w) = (second->MidiPitchBend_channel, second->MidiPitchBend_value);
                a < b || a == b && (v % 128 < w % 128 || v % 128 == w % 128 && v <= w)
            }
        }),
{
    let order = law_order_is_a_stable_permutation(events);
    if let SmafEventView::MidiPitchBend { channel, value } = in_order(events)[i].1 {
        if channel < 16 && value < 0x4000 {
            lemma_status_bytes(channel, value);
        }
    }
    if let SmafEventView::MidiPitchBend { channel, value } = in_order(events)[j].1 {
        if channel < 16 && value < 0x4000 {
            lemma_status_bytes(channel, value);
        }
    }
    if i < j {
        assert(not_after(events, order[i], order[j]));
    }
}

} // verus!
