//! One event for each request that was turned away, however often the logs tell of it.
//!
//! First, of the events of one session whose limits end at the same time, the earliest is kept.
//! Then events whose limits end at the same time and that lie close together are joined, unless two
//! different sessions are named: limits often end on the hour, so that such events are distinct.

use crate::limits::collect::{event_views, EventView, RawEvent};
use crate::limits::lines::DEDUP_WINDOW_MS;
use crate::text::same_opt;
use vstd::prelude::*;

verus! {

broadcast use vstd::string::group_string_axioms;

// ---------------------------------------------------------------------------
// One event for each session and end of limit
// ---------------------------------------------------------------------------

/// The same session, or none, and the same end of the limit.
pub open spec fn same_key(a: EventView, b: EventView) -> bool {
    a.session_id == b.session_id && a.reset_at == b.reset_at
}

/// The first event of `kept` with the key of `event`.
pub open spec fn key_index(kept: Seq<EventView>, event: EventView) -> Option<int>
    decreases kept.len(),
{
    if kept.len() == 0 {
        None
    } else {
        match key_index(kept.drop_last(), event) {
            Some(i) => Some(i),
            None => if same_key(kept.last(), event) {
                Some(kept.len() - 1)
            } else {
                None
            },
        }
    }
}

/// `a`, at the earlier of two times.
pub open spec fn at_earlier(a: EventView, b: EventView) -> EventView {
    if b.occurred_at < a.occurred_at {
        EventView { occurred_at: b.occurred_at, ..a }
    } else {
        a
    }
}

/// What is left of `raw` once an event of a session whose limit is known already only moves the
/// known event to the earlier time.
pub open spec fn by_session(raw: Seq<EventView>) -> Seq<EventView>
    decreases raw.len(),
{
    if raw.len() == 0 {
        Seq::empty()
    } else {
        let kept = by_session(raw.drop_last());
        let event = raw.last();
        match key_index(kept, event) {
            Some(i) => if event.session_id is Some {
                kept.update(i, at_earlier(kept[i], event))
            } else {
                kept.push(event)
            },
            None => kept.push(event),
        }
    }
}

fn find_key(kept: &Vec<RawEvent>, event: &RawEvent) -> (r: Option<usize>)
    ensures
        r is Some == key_index(event_views(kept@), event@) is Some,
        r matches Some(i) ==> key_index(event_views(kept@), event@) == Some(i as int) && i
            < kept@.len(),
{
    let ghost all = event_views(kept@);
    let mut i: usize = 0;
    while i < kept.len()
        invariant
            i <= kept@.len(),
            all == event_views(kept@),
            key_index(all.take(i as int), event@) is None,
        decreases kept@.len() - i,
    {
        assert(all.take(i + 1).drop_last() =~= all.take(i as int));
        if kept[i].reset_at == event.reset_at && same_opt(&kept[i].session_id, &event.session_id) {
            proof {
                lemma_key_index_take(all, event@, i + 1);
            }
            return Some(i);
        }
        i += 1;
    }
    assert(all.take(i as int) =~= all);
    None
}

proof fn lemma_key_index_take(all: Seq<EventView>, event: EventView, n: int)
    requires
        0 <= n <= all.len(),
        key_index(all.take(n), event) is Some,
    ensures
        key_index(all, event) == key_index(all.take(n), event),
    decreases all.len() - n,
{
    if n < all.len() {
        assert(all.take(n + 1).drop_last() =~= all.take(n));
        lemma_key_index_take(all, event, n + 1);
    } else {
        assert(all.take(n) =~= all);
    }
}

fn keep_by_session(raw: &Vec<RawEvent>) -> (r: Vec<RawEvent>)
    ensures
        event_views(r@) == by_session(event_views(raw@)),
{
    let ghost all = event_views(raw@);
    let mut kept: Vec<RawEvent> = Vec::new();
    let mut i: usize = 0;
    assert(event_views(kept@) =~= by_session(all.take(0)));
    while i < raw.len()
        invariant
            i <= raw@.len(),
            all == event_views(raw@),
            event_views(kept@) == by_session(all.take(i as int)),
        decreases raw@.len() - i,
    {
        let ghost before = event_views(kept@);
        let event = raw[i].clone();
        assert(all.take(i + 1).drop_last() =~= all.take(i as int));
        assert(all.take(i + 1).last() == event@);
        let known = if event.session_id.is_some() {
            find_key(&kept, &event)
        } else {
            None
        };
        match known {
            Some(k) => {
                if event.occurred_at < kept[k].occurred_at {
                    let mut moved = kept[k].clone();
                    moved.occurred_at = event.occurred_at;
                    let ghost shown = moved@;
                    kept.set(k, moved);
                    assert(event_views(kept@) =~= before.update(k as int, shown));
                } else {
                    assert(before.update(k as int, before[k as int]) =~= before);
                }
            },
            None => {
                let ghost shown = event@;
                kept.push(event);
                assert(event_views(kept@) =~= before.push(shown));
            },
        }
        i += 1;
    }
    assert(all.take(i as int) =~= all);
    kept
}

// ---------------------------------------------------------------------------
// In the order of time
// ---------------------------------------------------------------------------

/// `a` may stand before `b`: its limit ends earlier, or at the same time and it is no later.
pub open spec fn precedes(a: EventView, b: EventView) -> bool {
    a.reset_at < b.reset_at || (a.reset_at == b.reset_at && a.occurred_at <= b.occurred_at)
}

/// `event` put behind the last event of `sorted` that may stand before it.
pub open spec fn inserted(sorted: Seq<EventView>, event: EventView) -> Seq<EventView>
    decreases sorted.len(),
{
    if sorted.len() == 0 || precedes(sorted.last(), event) {
        sorted.push(event)
    } else {
        inserted(sorted.drop_last(), event).push(sorted.last())
    }
}

/// The events in the order of time; events of one time stay in the order that they had.
pub open spec fn in_order(list: Seq<EventView>) -> Seq<EventView>
    decreases list.len(),
{
    if list.len() == 0 {
        Seq::empty()
    } else {
        inserted(in_order(list.drop_last()), list.last())
    }
}

proof fn lemma_inserted_at(sorted: Seq<EventView>, event: EventView, p: int)
    requires
        0 <= p <= sorted.len(),
        p > 0 ==> precedes(sorted[p - 1], event),
        forall|k: int| p <= k < sorted.len() ==> !precedes(#[trigger] sorted[k], event),
    ensures
        inserted(sorted, event) == sorted.insert(p, event),
    decreases sorted.len(),
{
    if p < sorted.len() {
        assert(!precedes(sorted[sorted.len() - 1], event));
        assert forall|k: int| p <= k < sorted.drop_last().len() implies !precedes(
            #[trigger] sorted.drop_last()[k],
            event,
        ) by {
            assert(!precedes(sorted[k], event));
        }
        lemma_inserted_at(sorted.drop_last(), event, p);
        assert(sorted.drop_last().insert(p, event).push(sorted.last()) =~= sorted.insert(p, event));
    } else {
        assert(sorted.insert(p, event) =~= sorted.push(event));
    }
}

fn goes_before(a: &RawEvent, b: &RawEvent) -> (r: bool)
    ensures
        r == precedes(a@, b@),
{
    a.reset_at < b.reset_at || (a.reset_at == b.reset_at && a.occurred_at <= b.occurred_at)
}

fn sort_by_time(list: Vec<RawEvent>) -> (r: Vec<RawEvent>)
    ensures
        event_views(r@) == in_order(event_views(list@)),
{
    let ghost all = event_views(list@);
    let mut sorted: Vec<RawEvent> = Vec::new();
    let mut i: usize = 0;
    assert(event_views(sorted@) =~= in_order(all.take(0)));
    while i < list.len()
        invariant
            i <= list@.len(),
            all == event_views(list@),
            sorted@.len() == i,
            event_views(sorted@) == in_order(all.take(i as int)),
        decreases list@.len() - i,
    {
        let event = list[i].clone();
        let ghost before = event_views(sorted@);
        let mut p: usize = sorted.len();
        while p > 0 && !goes_before(&sorted[p - 1], &event)
            invariant
                p <= sorted@.len(),
                before == event_views(sorted@),
                forall|k: int|
                    p <= k < sorted@.len() ==> !precedes(#[trigger] before[k], event@),
            decreases p,
        {
            assert(!precedes(before[p - 1], event@));
            p -= 1;
        }
        proof {
            assert(all.take(i + 1).drop_last() =~= all.take(i as int));
            assert(all.take(i + 1).last() == event@);
            if p > 0 {
                assert(precedes(before[p - 1], event@));
            }
            lemma_inserted_at(before, event@, p as int);
        }
        let ghost shown = event@;
        sorted.insert(p, event);
        assert(event_views(sorted@) =~= before.insert(p as int, shown));
        i += 1;
    }
    assert(all.take(i as int) =~= all);
    sorted
}

// ---------------------------------------------------------------------------
// Joining neighbours
// ---------------------------------------------------------------------------

/// Two records, the second no earlier than the first, are taken for one event: their limits end at
/// the same time, they lie close together, and they do not name two different sessions.
pub open spec fn is_same_event(a: EventView, b: EventView) -> bool {
    &&& a.reset_at == b.reset_at
    &&& b.occurred_at - a.occurred_at <= DEDUP_WINDOW_MS
    &&& a.session_id is None || b.session_id is None || a.session_id == b.session_id
}

/// Two records as one event: at the earlier time, with the session that either names.
pub open spec fn united(a: EventView, b: EventView) -> EventView {
    EventView {
        session_id: if a.session_id is None {
            b.session_id
        } else {
            a.session_id
        },
        ..at_earlier(a, b)
    }
}

/// The list with each record united with the event before it where the two are taken for one.
pub open spec fn merged(list: Seq<EventView>) -> Seq<EventView>
    decreases list.len(),
{
    if list.len() == 0 {
        Seq::empty()
    } else {
        let before = merged(list.drop_last());
        let event = list.last();
        if before.len() > 0 && is_same_event(before.last(), event) {
            before.drop_last().push(united(before.last(), event))
        } else {
            before.push(event)
        }
    }
}

fn merge_neighbours(list: &Vec<RawEvent>) -> (r: Vec<RawEvent>)
    ensures
        event_views(r@) == merged(event_views(list@)),
{
    let ghost all = event_views(list@);
    let mut out: Vec<RawEvent> = Vec::new();
    let mut i: usize = 0;
    assert(event_views(out@) =~= merged(all.take(0)));
    while i < list.len()
        invariant
            i <= list@.len(),
            all == event_views(list@),
            event_views(out@) == merged(all.take(i as int)),
        decreases list@.len() - i,
    {
        let ghost before = event_views(out@);
        let mut event = list[i].clone();
        let ghost incoming = event@;
        proof {
            assert(all.take(i + 1).drop_last() =~= all.take(i as int));
            assert(all.take(i + 1).last() == event@);
        }
        let n: usize = out.len();
        let mut same = false;
        if n > 0 {
            let last = &out[n - 1];
            assert(last@ == before.last());
            same = last.reset_at == event.reset_at && (event.occurred_at as i128
                - last.occurred_at as i128) <= DEDUP_WINDOW_MS as i128 && (
            last.session_id.is_none() || event.session_id.is_none() || same_opt(
                &last.session_id,
                &event.session_id,
            ));
            if same {
                if last.occurred_at <= event.occurred_at {
                    event.occurred_at = last.occurred_at;
                }
                if last.session_id.is_some() {
                    event.session_id = crate::text::copy_opt(&last.session_id);
                }
                assert(event@ == united(before.last(), incoming));
            }
        }
        let ghost shown = event@;
        if same {
            out.set(n - 1, event);
            assert(event_views(out@) =~= before.drop_last().push(shown));
        } else {
            out.push(event);
            assert(event_views(out@) =~= before.push(shown));
        }
        i += 1;
    }
    assert(all.take(i as int) =~= all);
    out
}

// ---------------------------------------------------------------------------
// All together
// ---------------------------------------------------------------------------

/// One event for each request that was turned away.
pub open spec fn deduplicated(raw: Seq<EventView>) -> Seq<EventView> {
    merged(in_order(by_session(raw)))
}

/// One event for each request that was turned away.
pub fn dedup(raw: Vec<RawEvent>) -> (r: Vec<RawEvent>)
    ensures
        event_views(r@) == deduplicated(event_views(raw@)),
{
    let kept = keep_by_session(&raw);
    let sorted = sort_by_time(kept);
    merge_neighbours(&sorted)
}

// ---------------------------------------------------------------------------
// Laws
// ---------------------------------------------------------------------------

/// How many events name the session `id` and a limit that ends at `reset_at`.
pub open spec fn key_count(list: Seq<EventView>, id: Seq<char>, reset_at: int) -> nat
    decreases list.len(),
{
    if list.len() == 0 {
        0
    } else {
        key_count(list.drop_last(), id, reset_at) + if has_key(list.last(), id, reset_at) {
            1nat
        } else {
            0nat
        }
    }
}

pub open spec fn has_key(event: EventView, id: Seq<char>, reset_at: int) -> bool {
    event.session_id == Some(id) && event.reset_at == reset_at
}

/// Some event tells of a limit that ends at `reset_at`.
pub open spec fn tells_of(list: Seq<EventView>, reset_at: int) -> bool
    decreases list.len(),
{
    list.len() > 0 && (list.last().reset_at == reset_at || tells_of(list.drop_last(), reset_at))
}

/// The events stand in the order of time.
pub open spec fn is_ordered(list: Seq<EventView>) -> bool {
    forall|i: int, j: int| 0 <= i < j < list.len() ==> precedes(#[trigger] list[i], #[trigger] list[j])
}

/// No two neighbours are taken for one event.
pub open spec fn is_apart(list: Seq<EventView>) -> bool {
    forall|j: int| 0 < j < list.len() ==> !is_same_event(list[j - 1], #[trigger] list[j])
}

pub(crate) proof fn lemma_key_index(kept: Seq<EventView>, event: EventView)
    ensures
        key_index(kept, event) matches Some(i) ==> 0 <= i < kept.len() && same_key(kept[i], event)
            && (event.session_id matches Some(id) ==> key_count(kept, id, event.reset_at) >= 1),
        key_index(kept, event) is None ==> (event.session_id matches Some(id) ==> key_count(
            kept,
            id,
            event.reset_at,
        ) == 0),
    decreases kept.len(),
{
    if kept.len() > 0 {
        lemma_key_index(kept.drop_last(), event);
    }
}

proof fn lemma_update_keeps_keys(list: Seq<EventView>, i: int, event: EventView)
    requires
        0 <= i < list.len(),
        same_key(list[i], event),
    ensures
        forall|id: Seq<char>, reset_at: int| #[trigger]
            key_count(list.update(i, event), id, reset_at) == key_count(list, id, reset_at),
        forall|reset_at: int| #[trigger]
            tells_of(list.update(i, event), reset_at) == tells_of(list, reset_at),
    decreases list.len(),
{
    let updated = list.update(i, event);
    if i == list.len() - 1 {
        assert(updated.drop_last() =~= list.drop_last());
    } else {
        let shorter = list.drop_last();
        lemma_update_keeps_keys(shorter, i, event);
        assert(updated.drop_last() =~= shorter.update(i, event));
        assert forall|id: Seq<char>, reset_at: int| #[trigger]
            key_count(updated, id, reset_at) == key_count(list, id, reset_at) by {
            assert(key_count(shorter.update(i, event), id, reset_at) == key_count(
                shorter,
                id,
                reset_at,
            ));
        }
        assert forall|reset_at: int| #[trigger] tells_of(updated, reset_at) == tells_of(
            list,
            reset_at,
        ) by {
            assert(tells_of(shorter.update(i, event), reset_at) == tells_of(shorter, reset_at));
        }
    }
}

proof fn lemma_by_session(raw: Seq<EventView>)
    ensures
        forall|id: Seq<char>, reset_at: int|
            #[trigger] key_count(by_session(raw), id, reset_at) == if key_count(raw, id, reset_at)
                > 0 {
                1nat
            } else {
                0nat
            },
        forall|reset_at: int|
            #[trigger] tells_of(by_session(raw), reset_at) == tells_of(raw, reset_at),
        by_session(raw).len() <= raw.len(),
    decreases raw.len(),
{
    if raw.len() > 0 {
        let before = raw.drop_last();
        let kept = by_session(before);
        let event = raw.last();
        lemma_by_session(before);
        lemma_key_index(kept, event);
        assert(kept.push(event).drop_last() =~= kept);
        if let Some(i) = key_index(kept, event) {
            if event.session_id is Some {
                lemma_update_keeps_keys(kept, i, at_earlier(kept[i], event));
                lemma_tells_of(kept, i);
                assert(tells_of(kept, event.reset_at) == tells_of(before, event.reset_at));
            }
        }
        assert forall|id: Seq<char>, reset_at: int| #[trigger]
            key_count(by_session(raw), id, reset_at) == if key_count(raw, id, reset_at) > 0 {
                1nat
            } else {
                0nat
            } by {
            assert(key_count(kept, id, reset_at) == if key_count(before, id, reset_at) > 0 {
                1nat
            } else {
                0nat
            });
        }
        assert forall|reset_at: int| #[trigger] tells_of(by_session(raw), reset_at) == tells_of(
            raw,
            reset_at,
        ) by {
            assert(tells_of(kept, reset_at) == tells_of(before, reset_at));
        }
    }
}

proof fn lemma_tells_of(list: Seq<EventView>, i: int)
    requires
        0 <= i < list.len(),
    ensures
        tells_of(list, list[i].reset_at),
    decreases list.len(),
{
    if i < list.len() - 1 {
        lemma_tells_of(list.drop_last(), i);
    }
}

proof fn lemma_inserted_keeps(sorted: Seq<EventView>, event: EventView)
    ensures
        forall|id: Seq<char>, reset_at: int| #[trigger]
            key_count(inserted(sorted, event), id, reset_at) == key_count(sorted, id, reset_at)
                + if has_key(event, id, reset_at) {
                1nat
            } else {
                0nat
            },
        forall|reset_at: int| #[trigger]
            tells_of(inserted(sorted, event), reset_at) == (tells_of(sorted, reset_at)
                || event.reset_at == reset_at),
        inserted(sorted, event).len() == sorted.len() + 1,
    decreases sorted.len(),
{
    if sorted.len() == 0 || precedes(sorted.last(), event) {
        assert(sorted.push(event).drop_last() =~= sorted);
    } else {
        let rest = inserted(sorted.drop_last(), event);
        lemma_inserted_keeps(sorted.drop_last(), event);
        assert(rest.push(sorted.last()).drop_last() =~= rest);
        assert forall|id: Seq<char>, reset_at: int| #[trigger]
            key_count(inserted(sorted, event), id, reset_at) == key_count(sorted, id, reset_at)
                + if has_key(event, id, reset_at) {
                1nat
            } else {
                0nat
            } by {
            assert(key_count(rest, id, reset_at) == key_count(sorted.drop_last(), id, reset_at)
                + if has_key(event, id, reset_at) {
                1nat
            } else {
                0nat
            });
        }
        assert forall|reset_at: int| #[trigger]
            tells_of(inserted(sorted, event), reset_at) == (tells_of(sorted, reset_at)
                || event.reset_at == reset_at) by {
            assert(tells_of(rest, reset_at) == (tells_of(sorted.drop_last(), reset_at)
                || event.reset_at == reset_at));
        }
    }
}

/// Where `inserted` puts an event in a list that stands in order.
proof fn lemma_inserted_place(sorted: Seq<EventView>, event: EventView) -> (p: int)
    requires
        is_ordered(sorted),
    ensures
        0 <= p <= sorted.len(),
        inserted(sorted, event) == sorted.insert(p, event),
        forall|k: int| 0 <= k < p ==> precedes(#[trigger] sorted[k], event),
        forall|k: int| p <= k < sorted.len() ==> !precedes(#[trigger] sorted[k], event),
    decreases sorted.len(),
{
    if sorted.len() == 0 || precedes(sorted.last(), event) {
        let p = sorted.len() as int;
        assert(sorted.insert(p, event) =~= sorted.push(event));
        assert forall|k: int| 0 <= k < p implies precedes(#[trigger] sorted[k], event) by {
            if k < p - 1 {
                assert(precedes(sorted[k], sorted[p - 1]));
            }
        }
        p
    } else {
        let shorter = sorted.drop_last();
        assert forall|i: int, j: int| 0 <= i < j < shorter.len() implies precedes(
            #[trigger] shorter[i],
            #[trigger] shorter[j],
        ) by {
            assert(precedes(sorted[i], sorted[j]));
        }
        let p = lemma_inserted_place(shorter, event);
        assert(shorter.insert(p, event).push(sorted.last()) =~= sorted.insert(p, event));
        assert forall|k: int| 0 <= k < p implies precedes(#[trigger] sorted[k], event) by {
            assert(precedes(shorter[k], event));
        }
        assert forall|k: int| p <= k < sorted.len() implies !precedes(#[trigger] sorted[k], event) by {
            if k < shorter.len() {
                assert(!precedes(shorter[k], event));
            }
        }
        p
    }
}

pub(crate) proof fn lemma_in_order(list: Seq<EventView>)
    ensures
        forall|id: Seq<char>, reset_at: int|
            #[trigger] key_count(in_order(list), id, reset_at) == key_count(list, id, reset_at),
        forall|reset_at: int|
            #[trigger] tells_of(in_order(list), reset_at) == tells_of(list, reset_at),
        in_order(list).len() == list.len(),
        is_ordered(in_order(list)),
    decreases list.len(),
{
    if list.len() > 0 {
        let before = in_order(list.drop_last());
        let event = list.last();
        lemma_in_order(list.drop_last());
        lemma_inserted_keeps(before, event);
        let p = lemma_inserted_place(before, event);
        let after = before.insert(p, event);
        assert forall|i: int, j: int| 0 <= i < j < after.len() implies precedes(
            #[trigger] after[i],
            #[trigger] after[j],
        ) by {
            if i != p && j != p {
                let a = if i < p {
                    i
                } else {
                    i - 1
                };
                let b = if j < p {
                    j
                } else {
                    j - 1
                };
                assert(after[i] == before[a] && after[j] == before[b]);
                assert(precedes(before[a], before[b]));
            } else if i == p {
                assert(after[j] == before[j - 1]);
                assert(!precedes(before[j - 1], event));
            } else {
                assert(after[i] == before[i]);
                assert(precedes(before[i], event));
            }
        }
        assert forall|id: Seq<char>, reset_at: int| #[trigger]
            key_count(in_order(list), id, reset_at) == key_count(list, id, reset_at) by {
            assert(key_count(before, id, reset_at) == key_count(list.drop_last(), id, reset_at));
        }
        assert forall|reset_at: int| #[trigger] tells_of(in_order(list), reset_at) == tells_of(
            list,
            reset_at,
        ) by {
            assert(tells_of(before, reset_at) == tells_of(list.drop_last(), reset_at));
        }
    }
}

/// The keys of a list come once each.
pub open spec fn has_distinct_keys(list: Seq<EventView>) -> bool {
    forall|id: Seq<char>, reset_at: int| #[trigger] key_count(list, id, reset_at) <= 1
}

proof fn lemma_merged(list: Seq<EventView>)
    requires
        is_ordered(list),
        has_distinct_keys(list),
    ensures
        forall|id: Seq<char>, reset_at: int|
            #[trigger] key_count(merged(list), id, reset_at) == key_count(list, id, reset_at),
        forall|reset_at: int|
            #[trigger] tells_of(merged(list), reset_at) == tells_of(list, reset_at),
        merged(list).len() <= list.len(),
        list.len() > 0 ==> merged(list).len() > 0 && merged(list).last().reset_at
            == list.last().reset_at && merged(list).last().occurred_at <= list.last().occurred_at,
        is_ordered(merged(list)),
        is_apart(merged(list)),
    decreases list.len(),
{
    if list.len() > 0 {
        let shorter = list.drop_last();
        let before = merged(shorter);
        let event = list.last();
        assert forall|i: int, j: int| 0 <= i < j < shorter.len() implies precedes(
            #[trigger] shorter[i],
            #[trigger] shorter[j],
        ) by {
            assert(precedes(list[i], list[j]));
        }
        assert forall|id: Seq<char>, reset_at: int| #[trigger]
            key_count(shorter, id, reset_at) <= 1 by {
            assert(key_count(list, id, reset_at) <= 1);
        }
        lemma_merged(shorter);
        if shorter.len() > 0 {
            assert(precedes(list[shorter.len() - 1], list[list.len() - 1]));
            assert(precedes(before.last(), event));
        }
        let n = before.len() as int;
        let after = merged(list);
        if n > 0 && is_same_event(before.last(), event) {
            let last = before.last();
            let one = united(last, event);
            assert(one.occurred_at == last.occurred_at);
            assert(after == before.drop_last().push(one));
            assert(after.drop_last() =~= before.drop_last());
            if last.session_id is Some && event.session_id is Some {
                let id = last.session_id->0;
                assert(key_count(before, id, last.reset_at) >= 1);
                assert(key_count(shorter, id, last.reset_at) >= 1);
                assert(key_count(list, id, last.reset_at) <= 1);
                assert(false);
            }
            assert forall|i: int, j: int| 0 <= i < j < after.len() implies precedes(
                #[trigger] after[i],
                #[trigger] after[j],
            ) by {
                assert(precedes(before[i], before[j]));
            }
            assert forall|j: int| 0 < j < after.len() implies !is_same_event(
                after[j - 1],
                #[trigger] after[j],
            ) by {
                assert(!is_same_event(before[j - 1], before[j]));
            }
        } else {
            assert(after == before.push(event));
            assert(after.drop_last() =~= before);
            assert forall|i: int, j: int| 0 <= i < j < after.len() implies precedes(
                #[trigger] after[i],
                #[trigger] after[j],
            ) by {
                if j < n {
                    assert(precedes(before[i], before[j]));
                } else if i < n - 1 {
                    assert(precedes(before[i], before[n - 1]));
                }
            }
            assert forall|j: int| 0 < j < after.len() implies !is_same_event(
                after[j - 1],
                #[trigger] after[j],
            ) by {
                if j < n {
                    assert(!is_same_event(before[j - 1], before[j]));
                }
            }
        }
        assert forall|id: Seq<char>, reset_at: int| #[trigger]
            key_count(after, id, reset_at) == key_count(list, id, reset_at) by {
            assert(key_count(before, id, reset_at) == key_count(shorter, id, reset_at));
        }
        assert forall|reset_at: int| #[trigger] tells_of(after, reset_at) == tells_of(
            list,
            reset_at,
        ) by {
            assert(tells_of(before, reset_at) == tells_of(shorter, reset_at));
        }
    }
}

/// Each session and end of a limit that the records name comes exactly once in the result: nothing
/// comes twice, nothing is lost, and the events of different sessions are never joined. The result
/// tells of the same ends of limits as the records, and of no others; it stands in the order of time
/// and has no two neighbours that would be taken for one event.
pub proof fn law_dedup_keeps_each_event_once(raw: Seq<EventView>)
    ensures
        forall|id: Seq<char>, reset_at: int|
            #[trigger] key_count(deduplicated(raw), id, reset_at) == if key_count(raw, id, reset_at)
                > 0 {
                1nat
            } else {
                0nat
            },
        forall|reset_at: int|
            #[trigger] tells_of(deduplicated(raw), reset_at) == tells_of(raw, reset_at),
        deduplicated(raw).len() <= raw.len(),
        is_ordered(deduplicated(raw)),
        is_apart(deduplicated(raw)),
{
    let kept = by_session(raw);
    let sorted = in_order(kept);
    lemma_by_session(raw);
    lemma_in_order(kept);
    assert forall|id: Seq<char>, reset_at: int| #[trigger] key_count(sorted, id, reset_at) <= 1 by {
        assert(key_count(kept, id, reset_at) <= 1);
    }
    lemma_merged(sorted);
    assert forall|id: Seq<char>, reset_at: int| #[trigger]
        key_count(deduplicated(raw), id, reset_at) == if key_count(raw, id, reset_at) > 0 {
            1nat
        } else {
            0nat
        } by {
        assert(key_count(sorted, id, reset_at) == key_count(kept, id, reset_at));
        assert(key_count(kept, id, reset_at) == if key_count(raw, id, reset_at) > 0 {
            1nat
        } else {
            0nat
        });
    }
    assert forall|reset_at: int| #[trigger] tells_of(deduplicated(raw), reset_at) == tells_of(
        raw,
        reset_at,
    ) by {
        assert(tells_of(sorted, reset_at) == tells_of(kept, reset_at));
        assert(tells_of(kept, reset_at) == tells_of(raw, reset_at));
    }
}

/// The event `f` stands for the record `e`: its limit ends at the same time, it is no later, and it
/// names the session of the record. For a record without a session it lies close to it.
pub open spec fn stands_for(f: EventView, e: EventView) -> bool {
    &&& f.reset_at == e.reset_at
    &&& f.occurred_at <= e.occurred_at
    &&& match e.session_id {
        Some(_) => f.session_id == e.session_id,
        None => e.occurred_at - f.occurred_at <= DEDUP_WINDOW_MS,
    }
}

/// Some event of the list stands for the record `e`.
pub open spec fn is_accounted_for(list: Seq<EventView>, e: EventView) -> bool {
    exists|i: int| 0 <= i < list.len() && stands_for(#[trigger] list[i], e)
}

/// The time and the end of the limit of `f` are those of an event of the list.
pub open spec fn is_told_by(f: EventView, list: Seq<EventView>) -> bool {
    exists|i: int|
        0 <= i < list.len() && (#[trigger] list[i]).reset_at == f.reset_at && list[i].occurred_at
            == f.occurred_at
}

proof fn lemma_told_by_longer(f: EventView, list: Seq<EventView>)
    requires
        list.len() > 0,
        is_told_by(f, list.drop_last()),
    ensures
        is_told_by(f, list),
{
    let shorter = list.drop_last();
    let i = choose|i: int|
        0 <= i < shorter.len() && (#[trigger] shorter[i]).reset_at == f.reset_at
            && shorter[i].occurred_at == f.occurred_at;
    assert(list[i] == shorter[i]);
}

/// A record without a session is kept as it is; for one with a session there is an event of that
/// session that is no later.
proof fn lemma_by_session_accounts(raw: Seq<EventView>)
    ensures
        forall|k: int|
            0 <= k < raw.len() ==> is_accounted_for(by_session(raw), #[trigger] raw[k]) && (
            raw[k].session_id is None ==> by_session(raw).contains(raw[k])),
        forall|i: int|
            0 <= i < by_session(raw).len() ==> is_told_by(#[trigger] by_session(raw)[i], raw),
    decreases raw.len(),
{
    if raw.len() > 0 {
        let before = raw.drop_last();
        let kept = by_session(before);
        let event = raw.last();
        let after = by_session(raw);
        lemma_by_session_accounts(before);
        lemma_key_index(kept, event);
        let at = key_index(kept, event);
        let moves = at is Some && event.session_id is Some;
        let changed = if moves {
            at->0
        } else {
            kept.len() as int
        };
        assert(0 <= changed < after.len());
        assert forall|i: int| 0 <= i < kept.len() && i != changed implies #[trigger] after[i]
            == kept[i] by {}
        assert(stands_for(after[changed], event));
        if moves {
            assert(after[changed] == at_earlier(kept[changed], event));
        }
        assert forall|k: int| 0 <= k < raw.len() implies is_accounted_for(after, #[trigger] raw[k])
            && (raw[k].session_id is None ==> after.contains(raw[k])) by {
            if k < before.len() {
                assert(before[k] == raw[k]);
                let i = choose|i: int| 0 <= i < kept.len() && stands_for(#[trigger] kept[i], raw[k]);
                if raw[k].session_id is None {
                    let j = choose|j: int| 0 <= j < kept.len() && kept[j] == raw[k];
                    assert(after[j] == raw[k]);
                    assert(stands_for(after[j], raw[k]));
                } else {
                    assert(stands_for(after[i], raw[k]));
                }
            } else {
                assert(stands_for(after[changed], raw[k]));
                if raw[k].session_id is None {
                    assert(after[changed] == raw[k]);
                }
            }
        }
        assert forall|i: int| 0 <= i < after.len() implies is_told_by(#[trigger] after[i], raw) by {
            if i < kept.len() {
                assert(is_told_by(kept[i], before));
                lemma_told_by_longer(kept[i], raw);
            }
            assert(raw[raw.len() - 1] == event);
        }
    }
}

pub(crate) proof fn lemma_in_order_holds(list: Seq<EventView>)
    ensures
        forall|k: int| 0 <= k < list.len() ==> in_order(list).contains(#[trigger] list[k]),
        forall|i: int| 0 <= i < in_order(list).len() ==> list.contains(#[trigger] in_order(list)[i]),
    decreases list.len(),
{
    if list.len() > 0 {
        let shorter = list.drop_last();
        let before = in_order(shorter);
        let event = list.last();
        lemma_in_order_holds(shorter);
        lemma_in_order(shorter);
        let p = lemma_inserted_place(before, event);
        let after = before.insert(p, event);
        assert forall|k: int| 0 <= k < list.len() implies after.contains(#[trigger] list[k]) by {
            if k < shorter.len() {
                assert(shorter[k] == list[k]);
                let i = choose|i: int| 0 <= i < before.len() && before[i] == list[k];
                assert(after[if i < p { i } else { i + 1 }] == list[k]);
            } else {
                assert(after[p] == list[k]);
            }
        }
        assert forall|i: int| 0 <= i < after.len() implies list.contains(#[trigger] after[i]) by {
            if i == p {
                assert(list[list.len() - 1] == after[i]);
            } else {
                let k = if i < p {
                    i
                } else {
                    i - 1
                };
                assert(after[i] == before[k]);
                assert(shorter.contains(before[k]));
                let j = choose|j: int| 0 <= j < shorter.len() && shorter[j] == before[k];
                assert(list[j] == after[i]);
            }
        }
    }
}

/// What is joined lies close together, at the earlier time and with the session that is named.
proof fn lemma_merged_accounts(list: Seq<EventView>)
    requires
        is_ordered(list),
        has_distinct_keys(list),
    ensures
        forall|k: int|
            0 <= k < list.len() ==> is_accounted_for(merged(list), #[trigger] list[k]),
        forall|i: int|
            0 <= i < merged(list).len() ==> is_told_by(#[trigger] merged(list)[i], list),
    decreases list.len(),
{
    if list.len() > 0 {
        let shorter = list.drop_last();
        let before = merged(shorter);
        let event = list.last();
        let after = merged(list);
        assert forall|i: int, j: int| 0 <= i < j < shorter.len() implies precedes(
            #[trigger] shorter[i],
            #[trigger] shorter[j],
        ) by {
            assert(precedes(list[i], list[j]));
        }
        assert forall|id: Seq<char>, reset_at: int| #[trigger]
            key_count(shorter, id, reset_at) <= 1 by {
            assert(key_count(list, id, reset_at) <= 1);
        }
        lemma_merged(shorter);
        lemma_merged_accounts(shorter);
        let n = before.len() as int;
        let joins = n > 0 && is_same_event(before.last(), event);
        if shorter.len() > 0 {
            assert(precedes(list[shorter.len() - 1], list[list.len() - 1]));
        }
        assert(stands_for(after.last(), event));
        assert forall|i: int| 0 <= i < n - 1 implies #[trigger] after[i] == before[i] by {}
        assert forall|k: int| 0 <= k < list.len() implies is_accounted_for(
            after,
            #[trigger] list[k],
        ) by {
            if k < shorter.len() {
                assert(shorter[k] == list[k]);
                assert(is_accounted_for(before, shorter[k]));
                let i = choose|i: int|
                    0 <= i < before.len() && stands_for(#[trigger] before[i], shorter[k]);
                assert(stands_for(after[i], list[k]));
            } else {
                assert(stands_for(after[after.len() - 1], list[k]));
            }
        }
        assert forall|i: int| 0 <= i < after.len() implies is_told_by(#[trigger] after[i], list) by {
            assert(list[list.len() - 1] == event);
            if i < n {
                assert(is_told_by(before[i], shorter));
                lemma_told_by_longer(before[i], list);
            }
        }
    }
}

/// What accounts for the records left by the first step accounts for all of them.
proof fn lemma_accounts_through(raw: Seq<EventView>, result: Seq<EventView>, e: EventView)
    requires
        is_accounted_for(by_session(raw), e),
        e.session_id is None ==> by_session(raw).contains(e),
        forall|k: int|
            0 <= k < in_order(by_session(raw)).len() ==> is_accounted_for(
                result,
                #[trigger] in_order(by_session(raw))[k],
            ),
    ensures
        is_accounted_for(result, e),
{
    let kept = by_session(raw);
    let sorted = in_order(kept);
    lemma_in_order_holds(kept);
    let i = if e.session_id is None {
        choose|i: int| 0 <= i < kept.len() && kept[i] == e
    } else {
        choose|i: int| 0 <= i < kept.len() && stands_for(#[trigger] kept[i], e)
    };
    assert(sorted.contains(kept[i]));
    let j = choose|j: int| 0 <= j < sorted.len() && sorted[j] == kept[i];
    assert(is_accounted_for(result, sorted[j]));
    let m = choose|m: int| 0 <= m < result.len() && stands_for(#[trigger] result[m], sorted[j]);
    assert(stands_for(result[m], e));
}

/// What the records in order tell of, the records tell of.
proof fn lemma_told_through(raw: Seq<EventView>, f: EventView)
    requires
        is_told_by(f, in_order(by_session(raw))),
    ensures
        is_told_by(f, raw),
{
    let kept = by_session(raw);
    let sorted = in_order(kept);
    lemma_in_order_holds(kept);
    lemma_by_session_accounts(raw);
    let j = choose|j: int|
        0 <= j < sorted.len() && (#[trigger] sorted[j]).reset_at == f.reset_at
            && sorted[j].occurred_at == f.occurred_at;
    assert(kept.contains(sorted[j]));
    let k = choose|k: int| 0 <= k < kept.len() && kept[k] == sorted[j];
    assert(is_told_by(kept[k], raw));
}

/// No record is passed over: for each there is an event in the result whose limit ends at the same
/// time and that is no later; it names the session of the record or, where the record names none,
/// lies close to it. And nothing is made up: each event of the result has the time of a record whose
/// limit ends at the same time.
pub proof fn law_dedup_accounts_for_every_record(raw: Seq<EventView>)
    ensures
        forall|k: int|
            0 <= k < raw.len() ==> is_accounted_for(deduplicated(raw), #[trigger] raw[k]),
        forall|i: int|
            0 <= i < deduplicated(raw).len() ==> is_told_by(#[trigger] deduplicated(raw)[i], raw),
{
    let kept = by_session(raw);
    let sorted = in_order(kept);
    let result = deduplicated(raw);
    assert(is_ordered(sorted) && has_distinct_keys(sorted)) by {
        lemma_by_session(raw);
        lemma_in_order(kept);
        assert forall|id: Seq<char>, reset_at: int| #[trigger]
            key_count(sorted, id, reset_at) <= 1 by {
            assert(key_count(kept, id, reset_at) <= 1);
        }
    }
    lemma_merged_accounts(sorted);
    assert forall|k: int| 0 <= k < raw.len() implies is_accounted_for(
        result,
        #[trigger] raw[k],
    ) by {
        lemma_by_session_accounts(raw);
        lemma_accounts_through(raw, result, raw[k]);
    }
    assert forall|i: int| 0 <= i < result.len() implies is_told_by(#[trigger] result[i], raw) by {
        lemma_told_through(raw, result[i]);
    }
}

proof fn lemma_by_session_is_settled(list: Seq<EventView>)
    requires
        has_distinct_keys(list),
    ensures
        by_session(list) == list,
    decreases list.len(),
{
    if list.len() > 0 {
        let shorter = list.drop_last();
        assert forall|id: Seq<char>, reset_at: int| #[trigger]
            key_count(shorter, id, reset_at) <= 1 by {
            assert(key_count(list, id, reset_at) <= 1);
        }
        lemma_by_session_is_settled(shorter);
        lemma_key_index(shorter, list.last());
        if let Some(id) = list.last().session_id {
            assert(key_count(list, id, list.last().reset_at) <= 1);
        }
        assert(shorter.push(list.last()) =~= list);
    } else {
        assert(by_session(list) =~= list);
    }
}

proof fn lemma_in_order_is_settled(list: Seq<EventView>)
    requires
        is_ordered(list),
    ensures
        in_order(list) == list,
    decreases list.len(),
{
    if list.len() > 0 {
        let shorter = list.drop_last();
        assert forall|i: int, j: int| 0 <= i < j < shorter.len() implies precedes(
            #[trigger] shorter[i],
            #[trigger] shorter[j],
        ) by {
            assert(precedes(list[i], list[j]));
        }
        lemma_in_order_is_settled(shorter);
        if shorter.len() > 0 {
            assert(precedes(list[list.len() - 2], list[list.len() - 1]));
        }
        assert(shorter.push(list.last()) =~= list);
    } else {
        assert(in_order(list) =~= list);
    }
}

proof fn lemma_merged_is_settled(list: Seq<EventView>)
    requires
        is_apart(list),
    ensures
        merged(list) == list,
    decreases list.len(),
{
    if list.len() > 0 {
        let shorter = list.drop_last();
        assert forall|j: int| 0 < j < shorter.len() implies !is_same_event(
            shorter[j - 1],
            #[trigger] shorter[j],
        ) by {
            assert(!is_same_event(list[j - 1], list[j]));
        }
        lemma_merged_is_settled(shorter);
        if shorter.len() > 0 {
            assert(!is_same_event(list[list.len() - 2], list[list.len() - 1]));
        }
        assert(shorter.push(list.last()) =~= list);
    } else {
        assert(merged(list) =~= list);
    }
}

/// Taking the result for records again changes nothing.
pub proof fn law_dedup_is_settled(raw: Seq<EventView>)
    ensures
        deduplicated(deduplicated(raw)) == deduplicated(raw),
{
    law_dedup_keeps_each_event_once(raw);
    let result = deduplicated(raw);
    assert forall|id: Seq<char>, reset_at: int| #[trigger] key_count(result, id, reset_at) <= 1 by {
        assert(key_count(result, id, reset_at) == if key_count(raw, id, reset_at) > 0 {
            1nat
        } else {
            0nat
        });
    }
    lemma_by_session_is_settled(result);
    lemma_in_order_is_settled(result);
    lemma_merged_is_settled(result);
}

} // verus!
