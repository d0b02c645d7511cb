//! What the ledger of rate limits shows.

use crate::json::{count_tree, json_document, lemma_member, member, object_tree, JsonTree};
use crate::laws::conversations::is_visible;
use crate::laws::lists::{is_selection, lemma_selection_same, lemma_selection_step};
use crate::laws::text::law_only_blank_text_is_trimmed_away;
use crate::limits::collect::{event_views, line_views, EventView, RawEvent};
use crate::limits::dedup::{
    by_session, deduplicated, has_key, in_order, is_accounted_for, is_ordered, is_same_event,
    is_told_by, key_count, law_dedup_accounts_for_every_record, law_dedup_keeps_each_event_once,
    lemma_in_order, lemma_in_order_holds, lemma_key_index, merged, precedes, stands_for, united,
};
use crate::limits::report::{
    account_of, active_among, event_fields, is_earliest, is_latest, last_model, line_model,
    model_in, model_of, range_of, report_fields, row_views, shown_event, transcript_index,
    LimitEvent, LimitsReport, Transcript, DAY_MS,
};
use crate::text::{trimmed, view_opt};
use vstd::prelude::*;

verus! {

broadcast use vstd::string::group_string_axioms;

// ---------------------------------------------------------------------------
// One event for each request
// ---------------------------------------------------------------------------

/// What an event tells.
pub open spec fn told(e: RawEvent) -> EventView {
    EventView {
        occurred_at: e.occurred_at as int,
        reset_at: e.reset_at as int,
        session_id: match e.session_id {
            Some(id) => Some(id@),
            None => None,
        },
    }
}

/// What the events of a list tell.
pub open spec fn told_all(list: Seq<RawEvent>) -> Seq<EventView> {
    Seq::new(list.len(), |i: int| told(list[i]))
}

/// The events go by the end of their limits, and those of one end by the time at which they happened.
pub open spec fn goes_by_time(out: Seq<EventView>) -> bool {
    forall|i: int, j: int|
        0 <= i < j < out.len() ==> (#[trigger] out[i]).reset_at < (#[trigger] out[j]).reset_at || (
        out[i].reset_at == out[j].reset_at && out[i].occurred_at <= out[j].occurred_at)
}

/// No event is the same request as the one before it: where their limits end at one time, more than
/// fifteen seconds lie between them, or they name two sessions.
pub open spec fn tells_nothing_twice(out: Seq<EventView>) -> bool {
    &&& forall|j: int|
        0 < j < out.len() ==> out[j - 1].reset_at != (#[trigger] out[j]).reset_at
            || out[j].occurred_at - out[j - 1].occurred_at > 15_000 || (out[j - 1].session_id is Some
            && out[j].session_id is Some && out[j - 1].session_id != out[j].session_id)
    &&& forall|i: int, j: int|
        0 <= i < j < out.len() && (#[trigger] out[i]).session_id is Some && out[i].session_id == (
        #[trigger] out[j]).session_id ==> out[i].reset_at != out[j].reset_at
}

/// Some event stands for the record: its limit ends at the same time, it is no later than the record,
/// and names the same session; for a record without a session it lies within fifteen seconds.
pub open spec fn has_event(out: Seq<EventView>, e: EventView) -> bool {
    exists|i: int|
        0 <= i < out.len() && (#[trigger] out[i]).reset_at == e.reset_at && out[i].occurred_at
            <= e.occurred_at && (e.session_id is Some ==> out[i].session_id == e.session_id) && (
        e.session_id is None ==> e.occurred_at - out[i].occurred_at <= 15_000)
}

/// Each record has its event.
pub open spec fn leaves_nothing_out(raw: Seq<EventView>, out: Seq<EventView>) -> bool {
    forall|k: int| 0 <= k < raw.len() ==> #[trigger] has_event(out, raw[k])
}

/// Some record has the time of the event, and its limit ends at the same time.
pub open spec fn has_time(raw: Seq<EventView>, f: EventView) -> bool {
    exists|k: int|
        0 <= k < raw.len() && (#[trigger] raw[k]).reset_at == f.reset_at && raw[k].occurred_at
            == f.occurred_at
}

/// Each event has its records: one of its time, and, where it names a session, one of that session.
pub open spec fn makes_nothing_up(raw: Seq<EventView>, out: Seq<EventView>) -> bool {
    &&& forall|i: int| 0 <= i < out.len() ==> #[trigger] has_time(raw, out[i])
    &&& forall|i: int|
        0 <= i < out.len() && out[i].session_id is Some ==> #[trigger] has_record(raw, out[i])
}

/// Some record names the session of the event, ends when it does, and lies no more than fifteen
/// seconds behind it.
pub open spec fn has_record(raw: Seq<EventView>, f: EventView) -> bool {
    exists|k: int|
        0 <= k < raw.len() && (#[trigger] raw[k]).session_id == f.session_id && raw[k].reset_at
            == f.reset_at && 0 <= raw[k].occurred_at - f.occurred_at <= 15_000
}

proof fn lemma_kept_has_record(raw: Seq<EventView>, i: int)
    requires
        0 <= i < by_session(raw).len(),
        by_session(raw)[i].session_id is Some,
    ensures
        exists|k: int|
            0 <= k < raw.len() && (#[trigger] raw[k]).session_id == by_session(raw)[i].session_id
                && raw[k].reset_at == by_session(raw)[i].reset_at && raw[k].occurred_at
                == by_session(raw)[i].occurred_at,
    decreases raw.len(),
{
    if raw.len() > 0 {
        let before = raw.drop_last();
        let kept = by_session(before);
        let event = raw.last();
        let f = by_session(raw)[i];
        lemma_key_index(kept, event);
        if i < kept.len() && kept[i].session_id is Some {
            lemma_kept_has_record(before, i);
            let k = choose|k: int|
                0 <= k < before.len() && (#[trigger] before[k]).session_id == kept[i].session_id
                    && before[k].reset_at == kept[i].reset_at && before[k].occurred_at
                    == kept[i].occurred_at;
            assert(raw[k] == before[k]);
        }
        assert(raw[raw.len() - 1] == event);
        if i == kept.len() {
            assert(f == event);
        }
    }
}

/// The last event that was joined stands where the last of the list does.
proof fn lemma_merged_last(list: Seq<EventView>)
    requires
        is_ordered(list),
        list.len() > 0,
    ensures
        merged(list).len() > 0,
        merged(list).last().reset_at == list.last().reset_at,
        merged(list).last().occurred_at <= list.last().occurred_at,
    decreases list.len(),
{
    let shorter = list.drop_last();
    if shorter.len() > 0 {
        assert forall|i: int, j: int| 0 <= i < j < shorter.len() implies precedes(
            #[trigger] shorter[i],
            #[trigger] shorter[j],
        ) by {
            assert(precedes(list[i], list[j]));
        }
        lemma_merged_last(shorter);
        assert(precedes(list[list.len() - 2], list[list.len() - 1]));
    }
}

proof fn lemma_merged_has_record(list: Seq<EventView>, i: int)
    requires
        is_ordered(list),
        0 <= i < merged(list).len(),
        merged(list)[i].session_id is Some,
    ensures
        has_record(list, merged(list)[i]),
    decreases list.len(),
{
    if list.len() > 0 {
        let shorter = list.drop_last();
        let before = merged(shorter);
        let event = list.last();
        let f = merged(list)[i];
        assert forall|i: int, j: int| 0 <= i < j < shorter.len() implies precedes(
            #[trigger] shorter[i],
            #[trigger] shorter[j],
        ) by {
            assert(precedes(list[i], list[j]));
        }
        if i < before.len() && before[i].session_id is Some {
            lemma_merged_has_record(shorter, i);
            let k = choose|k: int|
                0 <= k < shorter.len() && (#[trigger] shorter[k]).session_id
                    == before[i].session_id && shorter[k].reset_at == before[i].reset_at && 0
                    <= shorter[k].occurred_at - before[i].occurred_at <= 15_000;
            assert(list[k] == shorter[k]);
        }
        let n = list.len() - 1;
        assert(list[n] == event);
        if shorter.len() > 0 {
            lemma_merged_last(shorter);
            assert(precedes(list[n - 1], list[n]));
            if is_same_event(before.last(), event) && i == before.len() - 1 {
                assert(f == united(before.last(), event));
                assert(f.occurred_at == before.last().occurred_at);
            }
        }
    }
}

proof fn lemma_two_keys(list: Seq<EventView>, i: int, j: int, id: Seq<char>, reset_at: int)
    requires
        0 <= i <= j < list.len(),
        has_key(list[i], id, reset_at),
        has_key(list[j], id, reset_at),
    ensures
        key_count(list, id, reset_at) >= if i < j {
            2nat
        } else {
            1
        },
    decreases list.len(),
{
    let shorter = list.drop_last();
    if j < shorter.len() {
        lemma_two_keys(shorter, i, j, id, reset_at);
    } else if i < j {
        lemma_two_keys(shorter, i, i, id, reset_at);
    }
}

/// `out` tells once of each request that `raw` tells of.
pub open spec fn is_told_once(raw: Seq<RawEvent>, out: Seq<RawEvent>) -> bool {
    &&& goes_by_time(told_all(out))
    &&& tells_nothing_twice(told_all(out))
    &&& leaves_nothing_out(told_all(raw), told_all(out))
    &&& makes_nothing_up(told_all(raw), told_all(out))
}

/// However often the logs tell of a request, one event is left of it: the events go by time, none
/// is told twice, no record is left without its event, and no event is made up.
pub proof fn law_one_event_for_each_request(raw: Seq<RawEvent>, out: Seq<RawEvent>)
    requires
        event_views(out) == deduplicated(event_views(raw)),
    ensures
        is_told_once(raw, out),
{
    assert(event_views(out) =~= told_all(out));
    assert(event_views(raw) =~= told_all(raw));
    lemma_one_event(told_all(raw));
}

proof fn lemma_one_event(raw: Seq<EventView>)
    ensures
        goes_by_time(deduplicated(raw)),
        tells_nothing_twice(deduplicated(raw)),
        leaves_nothing_out(raw, deduplicated(raw)),
        makes_nothing_up(raw, deduplicated(raw)),
{
    lemma_ordered_once(raw);
    lemma_events_for_records(raw);
    assert forall|i: int|
        0 <= i < deduplicated(raw).len() && deduplicated(raw)[i].session_id is Some implies #[trigger] has_record(
    raw, deduplicated(raw)[i]) by {
        lemma_record_for_event(raw, i);
    }
}

proof fn lemma_ordered_once(raw: Seq<EventView>)
    ensures
        goes_by_time(deduplicated(raw)),
        tells_nothing_twice(deduplicated(raw)),
{
    let out = deduplicated(raw);
    law_dedup_keeps_each_event_once(raw);
    assert forall|i: int, j: int| 0 <= i < j < out.len() implies (#[trigger] out[i]).reset_at < (
    #[trigger] out[j]).reset_at || (out[i].reset_at == out[j].reset_at && out[i].occurred_at
        <= out[j].occurred_at) by {
        assert(precedes(out[i], out[j]));
    }
    assert forall|j: int| 0 < j < out.len() implies out[j - 1].reset_at != (
    #[trigger] out[j]).reset_at || out[j].occurred_at - out[j - 1].occurred_at > 15_000 || (out[j
        - 1].session_id is Some && out[j].session_id is Some && out[j - 1].session_id
        != out[j].session_id) by {
        assert(!is_same_event(out[j - 1], out[j]));
    }
    assert forall|i: int, j: int| 0 <= i < j < out.len() && (#[trigger] out[i]).session_id is Some
        && out[i].session_id == (#[trigger] out[j]).session_id implies out[i].reset_at
        != out[j].reset_at by {
        if out[i].reset_at == out[j].reset_at {
            let id = out[i].session_id->0;
            lemma_two_keys(out, i, j, id, out[i].reset_at);
            assert(key_count(out, id, out[i].reset_at) <= 1);
        }
    }
}

proof fn lemma_events_for_records(raw: Seq<EventView>)
    ensures
        leaves_nothing_out(raw, deduplicated(raw)),
        forall|i: int|
            0 <= i < deduplicated(raw).len() ==> #[trigger] has_time(raw, deduplicated(raw)[i]),
{
    let out = deduplicated(raw);
    law_dedup_accounts_for_every_record(raw);
    assert forall|k: int| 0 <= k < raw.len() implies #[trigger] has_event(out, raw[k]) by {
        assert(is_accounted_for(out, raw[k]));
        let i = choose|i: int| 0 <= i < out.len() && stands_for(#[trigger] out[i], raw[k]);
        assert(out[i].reset_at == raw[k].reset_at);
    }
    assert forall|i: int| 0 <= i < out.len() implies #[trigger] has_time(raw, out[i]) by {
        assert(is_told_by(out[i], raw));
        let k = choose|k: int|
            0 <= k < raw.len() && (#[trigger] raw[k]).reset_at == out[i].reset_at
                && raw[k].occurred_at == out[i].occurred_at;
        assert(raw[k].reset_at == out[i].reset_at);
    }
}

proof fn lemma_record_for_event(raw: Seq<EventView>, i: int)
    requires
        0 <= i < deduplicated(raw).len(),
        deduplicated(raw)[i].session_id is Some,
    ensures
        has_record(raw, deduplicated(raw)[i]),
{
    let kept = by_session(raw);
    let sorted = in_order(kept);
    let f = deduplicated(raw)[i];
    lemma_in_order(kept);
    lemma_in_order_holds(kept);
    lemma_merged_has_record(sorted, i);
    let j = choose|j: int|
        0 <= j < sorted.len() && (#[trigger] sorted[j]).session_id == f.session_id
            && sorted[j].reset_at == f.reset_at && 0 <= sorted[j].occurred_at - f.occurred_at
            <= 15_000;
    assert(kept.contains(sorted[j]));
    let m = choose|m: int| 0 <= m < kept.len() && kept[m] == sorted[j];
    lemma_kept_has_record(raw, m);
    let k = choose|k: int|
        0 <= k < raw.len() && (#[trigger] raw[k]).session_id == kept[m].session_id
            && raw[k].reset_at == kept[m].reset_at && raw[k].occurred_at == kept[m].occurred_at;
    assert(raw[k].session_id == f.session_id);
}

// ---------------------------------------------------------------------------
// Accounts and models
// ---------------------------------------------------------------------------

/// The row names the session `id`, and an account for it; an empty name is none.
pub open spec fn row_names(row: (Option<String>, Option<String>), id: Seq<char>) -> bool {
    &&& row.0 matches Some(session) && session@ == id && session@.len() > 0
    &&& row.1 matches Some(uid) && uid@.len() > 0
}

/// A session belongs to the account of the last row that names both; without such a row to none.
pub proof fn law_whose_session_it_is(rows: Seq<(Option<String>, Option<String>)>, id: Seq<char>)
    ensures
        account_of(row_views(rows), id) matches Some(uid) ==> exists|k: int|
            0 <= k < rows.len() && row_names(#[trigger] rows[k], id) && rows[k].1->0@ == uid && forall|
                j: int,
            |
                k < j < rows.len() ==> !row_names(#[trigger] rows[j], id),
        account_of(row_views(rows), id) is None ==> forall|j: int|
            0 <= j < rows.len() ==> !row_names(#[trigger] rows[j], id),
    decreases rows.len(),
{
    if rows.len() > 0 {
        let short = rows.drop_last();
        let n = rows.len() - 1;
        assert(row_views(rows).drop_last() =~= row_views(short));
        assert(row_views(rows).last() == (view_opt(rows[n].0), view_opt(rows[n].1)));
        law_whose_session_it_is(short, id);
        if row_names(rows[n], id) {
            assert(account_of(row_views(rows), id) == Some(rows[n].1->0@));
        } else {
            assert(account_of(row_views(rows), id) == account_of(row_views(short), id));
            if let Some(uid) = account_of(row_views(rows), id) {
                let k = choose|k: int|
                    0 <= k < short.len() && row_names(#[trigger] short[k], id) && short[k].1->0@
                        == uid && forall|j: int|
                        k < j < short.len() ==> !row_names(#[trigger] short[j], id);
                assert(rows[k] == short[k]);
                assert forall|j: int| k < j < rows.len() implies !row_names(
                    #[trigger] rows[j],
                    id,
                ) by {
                    if j < n {
                        assert(rows[j] == short[j]);
                    }
                }
            } else {
                assert forall|j: int| 0 <= j < rows.len() implies !row_names(
                    #[trigger] rows[j],
                    id,
                ) by {
                    if j < n {
                        assert(rows[j] == short[j]);
                    }
                }
            }
        }
    }
}

/// A value names a model by the text under `model` in its `providerData`, where there is anything,
/// and elsewhere by its own `model`; white space around it does not belong to it, and a blank text
/// names none.
pub proof fn law_which_model_a_value_names(tree: JsonTree)
    ensures
        ({
            let data = member(tree, "providerData"@);
            let nested = if data is Some {
                member(data->0, "model"@)
            } else {
                None
            };
            let named = if nested is Some {
                nested
            } else {
                member(tree, "model"@)
            };
            &&& (named matches Some(JsonTree::Text(text)) && is_visible(text)) ==> model_in(tree)
                == Some(trimmed(named->0->Text_0))
            &&& !(named matches Some(JsonTree::Text(text)) && is_visible(text)) ==> model_in(tree)
                is None
        }),
{
    let data = member(tree, "providerData"@);
    let nested = if data is Some {
        member(data->0, "model"@)
    } else {
        None
    };
    let named = if nested is Some {
        nested
    } else {
        member(tree, "model"@)
    };
    if let Some(JsonTree::Text(text)) = named {
        law_only_blank_text_is_trimmed_away(text);
    }
}

/// The line could be read, is a document, and names the model.
pub open spec fn line_names(line: Option<String>, model: Seq<char>) -> bool {
    line matches Some(text) && (json_document(text@) matches Some(tree) && model_in(tree) == Some(
        model,
    ))
}

/// The model of a transcript is the one that the last line with a model names.
pub proof fn law_the_last_model_counts(lines: Seq<Option<String>>)
    ensures
        last_model(line_views(lines)) matches Some(model) ==> exists|k: int|
            0 <= k < lines.len() && line_names(#[trigger] lines[k], model) && forall|j: int, m: Seq<char>|
                k < j < lines.len() ==> !#[trigger] line_names(lines[j], m),
        last_model(line_views(lines)) is None ==> forall|j: int, m: Seq<char>|
            0 <= j < lines.len() ==> !#[trigger] line_names(lines[j], m),
    decreases lines.len(),
{
    if lines.len() > 0 {
        let short = lines.drop_last();
        let n = lines.len() - 1;
        assert(line_views(lines).drop_last() =~= line_views(short));
        assert(line_views(lines).last() == view_opt(lines[n]));
        law_the_last_model_counts(short);
        match line_model(view_opt(lines[n])) {
            Some(model) => {
                assert(line_names(lines[n], model));
            },
            None => {
                if let Some(model) = last_model(line_views(lines)) {
                    let k = choose|k: int|
                        0 <= k < short.len() && line_names(#[trigger] short[k], model) && forall|
                            j: int,
                            m: Seq<char>,
                        |
                            k < j < short.len() ==> !#[trigger] line_names(short[j], m);
                    assert(lines[k] == short[k]);
                    assert forall|j: int, m: Seq<char>|
                        k < j < lines.len() implies !#[trigger] line_names(lines[j], m) by {
                        if j < n {
                            assert(!line_names(short[j], m));
                        }
                    }
                } else {
                    assert forall|j: int, m: Seq<char>|
                        0 <= j < lines.len() implies !#[trigger] line_names(lines[j], m) by {
                        if j < n {
                            assert(!line_names(short[j], m));
                        }
                    }
                }
            },
        }
    }
}

/// The model of a session is that of the first transcript of the session, where it could be opened;
/// a session without a transcript has none.
pub proof fn law_the_first_transcript_counts(list: Seq<Transcript>, id: Seq<char>)
    ensures
        forall|k: int|
            0 <= k < list.len() && (#[trigger] list[k]).session@ == id && (forall|j: int|
                0 <= j < k ==> (#[trigger] list[j]).session@ != id) ==> model_of(list, id)
                == match list[k].lines {
                Some(lines) => last_model(line_views(lines@)),
                None => None,
            },
        (forall|j: int| 0 <= j < list.len() ==> (#[trigger] list[j]).session@ != id) ==> model_of(
            list,
            id,
        ) is None,
{
    lemma_transcript(list, id);
    assert forall|k: int|
        0 <= k < list.len() && (#[trigger] list[k]).session@ == id && (forall|j: int|
            0 <= j < k ==> (#[trigger] list[j]).session@ != id) implies model_of(list, id)
        == match list[k].lines {
        Some(lines) => last_model(line_views(lines@)),
        None => None,
    } by {
        let i = transcript_index(list, id)->0;
        assert(transcript_index(list, id) is Some) by {
            if transcript_index(list, id) is None {
                assert(list[k].session@ != id);
            }
        }
        if i < k {
            assert(list[i].session@ != id);
        } else if k < i {
            assert(list[k].session@ != id);
        }
    }
}

proof fn lemma_transcript(list: Seq<Transcript>, id: Seq<char>)
    ensures
        transcript_index(list, id) matches Some(i) ==> 0 <= i < list.len() && list[i].session@ == id
            && forall|j: int| 0 <= j < i ==> (#[trigger] list[j]).session@ != id,
        transcript_index(list, id) is None ==> forall|j: int|
            0 <= j < list.len() ==> (#[trigger] list[j]).session@ != id,
    decreases list.len(),
{
    if list.len() > 0 {
        let short = list.drop_last();
        lemma_transcript(short, id);
        assert forall|j: int| 0 <= j < short.len() implies #[trigger] list[j] == short[j] by {}
        if transcript_index(list, id) is None {
            assert forall|j: int| 0 <= j < list.len() implies (#[trigger] list[j]).session@ != id by {
                if j < short.len() {
                    assert(short[j].session@ != id);
                }
            }
        } else {
            let i = transcript_index(list, id)->0;
            assert forall|j: int| 0 <= j < i implies (#[trigger] list[j]).session@ != id by {
                assert(short[j].session@ != id);
            }
        }
    }
}

// ---------------------------------------------------------------------------
// The ledger
// ---------------------------------------------------------------------------

/// So many days are looked back on as are asked for, where that is more than none, and all
/// elsewhere. A day has twenty-four hours.
pub proof fn law_how_far_is_looked_back(days: Option<i64>)
    ensures
        days matches Some(n) ==> (n > 0 ==> range_of(days) == Some(n)),
        days matches Some(n) ==> (n <= 0 ==> range_of(days) is None),
        days is None ==> range_of(days) is None,
        DAY_MS == 24 * 60 * 60 * 1000,
{
}

/// What an event of the ledger tells of a request.
pub open spec fn shown(e: LimitEvent) -> EventView {
    EventView {
        occurred_at: e.occurred_at as int,
        reset_at: e.reset_at as int,
        session_id: match e.session_id {
            Some(id) => Some(id@),
            None => None,
        },
    }
}

/// What the events of the ledger tell.
pub open spec fn shown_all(list: Seq<LimitEvent>) -> Seq<EventView> {
    Seq::new(list.len(), |i: int| shown(list[i]))
}

/// `r` is the ledger of the requests that `raw` tells of, made at `now`.
pub open spec fn is_ledger(
    now: i64,
    raw: Seq<RawEvent>,
    rows: Seq<(Option<String>, Option<String>)>,
    transcripts: Seq<Transcript>,
    r: LimitsReport,
) -> bool {
    &&& goes_by_time(shown_all(r.events@))
    &&& tells_nothing_twice(shown_all(r.events@))
    &&& leaves_nothing_out(told_all(raw), shown_all(r.events@))
    &&& makes_nothing_up(told_all(raw), shown_all(r.events@))
    &&& forall|i: int|
        0 <= i < r.events@.len() ==> {
            let e = #[trigger] r.events@[i];
            &&& e.active <==> e.reset_at > now
            &&& e.session_id matches Some(id) ==> view_opt(e.account_uid) == account_of(
                row_views(rows),
                id@,
            ) && view_opt(e.model) == model_of(transcripts, id@)
            &&& e.session_id is None ==> e.account_uid is None && e.model is None
        }
    &&& exists|active: Seq<int>|
        #![trigger active.len()]
        is_selection(r.events@.len(), |i: int| r.events@[i].reset_at > now, active)
            && r.active_count == active.len()
    &&& r.events@.len() == 0 ==> r.coverage_start_at is None && r.coverage_end_at is None
    &&& r.events@.len() > 0 ==> {
        &&& r.coverage_start_at is Some && r.coverage_end_at is Some
        &&& exists|i: int|
            0 <= i < r.events@.len() && (#[trigger] r.events@[i]).occurred_at
                == r.coverage_start_at->0
        &&& exists|i: int|
            0 <= i < r.events@.len() && (#[trigger] r.events@[i]).occurred_at
                == r.coverage_end_at->0
        &&& forall|i: int|
            0 <= i < r.events@.len() ==> r.coverage_start_at->0 <= (
            #[trigger] r.events@[i]).occurred_at <= r.coverage_end_at->0
    }
}

/// The ledger holds one event for each request that the logs tell of. Each carries the account and
/// the model of its session, and is active exactly where its limit ends after the ledger was made;
/// so many as are active are counted, and the time that is covered reaches from the first event to
/// the last.
pub proof fn law_what_the_ledger_shows(
    now: i64,
    raw: Seq<RawEvent>,
    rows: Seq<(Option<String>, Option<String>)>,
    transcripts: Seq<Transcript>,
    r: LimitsReport,
)
    requires
        ({
            let events = deduplicated(event_views(raw));
            &&& r.events@.len() == events.len()
            &&& forall|i: int|
                0 <= i < events.len() ==> (#[trigger] r.events@[i])@ == shown_event(
                    events[i],
                    row_views(rows),
                    transcripts,
                    now,
                )
            &&& r.active_count == active_among(events, now)
            &&& r.coverage_start_at is Some == (events.len() > 0)
            &&& r.coverage_end_at is Some == (events.len() > 0)
            &&& r.coverage_start_at matches Some(at) ==> is_earliest(events, at as int)
            &&& r.coverage_end_at matches Some(at) ==> is_latest(events, at as int)
        }),
    ensures
        is_ledger(now, raw, rows, transcripts, r),
{
    let events = deduplicated(event_views(raw));
    assert(event_views(raw) =~= told_all(raw));
    lemma_one_event(told_all(raw));
    lemma_machine_times(raw);
    assert forall|i: int| 0 <= i < events.len() implies #[trigger] events[i] == shown(
        r.events@[i],
    ) by {
        assert(r.events@[i]@ == shown_event(events[i], row_views(rows), transcripts, now));
    }
    assert(shown_all(r.events@) =~= events);
    assert forall|i: int| 0 <= i < r.events@.len() implies {
        let e = #[trigger] r.events@[i];
        &&& e.active <==> e.reset_at > now
        &&& e.session_id matches Some(id) ==> view_opt(e.account_uid) == account_of(
            row_views(rows),
            id@,
        ) && view_opt(e.model) == model_of(transcripts, id@)
        &&& e.session_id is None ==> e.account_uid is None && e.model is None
    } by {
        assert(r.events@[i]@ == shown_event(events[i], row_views(rows), transcripts, now));
        assert(events[i] == shown(r.events@[i]));
    }
    lemma_counted(events, now, r);
    lemma_covered(events, r);
}

/// So many are counted as are active.
proof fn lemma_counted(events: Seq<EventView>, now: i64, r: LimitsReport)
    requires
        shown_all(r.events@) == events,
        r.active_count == active_among(events, now),
    ensures
        exists|active: Seq<int>|
            #![trigger active.len()]
            is_selection(r.events@.len(), |i: int| r.events@[i].reset_at > now, active)
                && r.active_count == active.len(),
{
    let active = lemma_active(events, now, events.len());
    assert(events.take(events.len() as int) =~= events);
    let wanted = |i: int| r.events@[i].reset_at > now;
    assert forall|i: int| 0 <= i < events.len() implies #[trigger] still_active(events, now)(i)
        == wanted(i) by {
        assert(events[i] == shown(r.events@[i]));
    }
    lemma_selection_same(events.len(), still_active(events, now), wanted, active);
    assert(r.active_count == active.len());
}

/// The first and the last event.
proof fn lemma_covered(events: Seq<EventView>, r: LimitsReport)
    requires
        shown_all(r.events@) == events,
        r.coverage_start_at is Some == (events.len() > 0),
        r.coverage_end_at is Some == (events.len() > 0),
        r.coverage_start_at matches Some(at) ==> is_earliest(events, at as int),
        r.coverage_end_at matches Some(at) ==> is_latest(events, at as int),
    ensures
        r.events@.len() > 0 ==> {
            &&& exists|i: int|
                0 <= i < r.events@.len() && (#[trigger] r.events@[i]).occurred_at
                    == r.coverage_start_at->0
            &&& exists|i: int|
                0 <= i < r.events@.len() && (#[trigger] r.events@[i]).occurred_at
                    == r.coverage_end_at->0
            &&& forall|i: int|
                0 <= i < r.events@.len() ==> r.coverage_start_at->0 <= (
                #[trigger] r.events@[i]).occurred_at <= r.coverage_end_at->0
        },
{
    if events.len() > 0 {
        let start = r.coverage_start_at->0;
        let end = r.coverage_end_at->0;
        let a = choose|i: int| 0 <= i < events.len() && (#[trigger] events[i]).occurred_at == start;
        let b = choose|i: int| 0 <= i < events.len() && (#[trigger] events[i]).occurred_at == end;
        assert(events[a] == shown(r.events@[a]) && events[b] == shown(r.events@[b]));
        assert(r.events@[a].occurred_at == start);
        assert(r.events@[b].occurred_at == end);
        assert forall|i: int| 0 <= i < r.events@.len() implies start <= (
        #[trigger] r.events@[i]).occurred_at <= end by {
            assert(events[i] == shown(r.events@[i]));
        }
    }
}

spec fn still_active(events: Seq<EventView>, now: i64) -> spec_fn(int) -> bool {
    |i: int| events[i].reset_at > now
}

proof fn lemma_active(events: Seq<EventView>, now: i64, n: nat) -> (active: Seq<int>)
    requires
        n <= events.len(),
    ensures
        is_selection(n, still_active(events, now), active),
        active.len() == active_among(events.take(n as int), now),
    decreases n,
{
    if n == 0 {
        Seq::empty()
    } else {
        let m = (n - 1) as nat;
        let before = lemma_active(events, now, m);
        assert(events.take(n as int).drop_last() =~= events.take(m as int));
        lemma_selection_step(m, still_active(events, now), before);
        if events[m as int].reset_at > now {
            before.push(m as int)
        } else {
            before
        }
    }
}

/// The times of the events are those of records, so that they fit where those do.
proof fn lemma_machine_times(raw: Seq<RawEvent>)
    ensures
        forall|i: int|
            0 <= i < deduplicated(told_all(raw)).len() ==> {
                let e = #[trigger] deduplicated(told_all(raw))[i];
                i64::MIN <= e.occurred_at <= i64::MAX && i64::MIN <= e.reset_at <= i64::MAX
            },
{
    let all = told_all(raw);
    let out = deduplicated(all);
    lemma_one_event(all);
    assert forall|i: int| 0 <= i < out.len() implies {
        let e = #[trigger] out[i];
        i64::MIN <= e.occurred_at <= i64::MAX && i64::MIN <= e.reset_at <= i64::MAX
    } by {
        assert(has_time(all, out[i]));
        let k = choose|k: int|
            0 <= k < all.len() && (#[trigger] all[k]).reset_at == out[i].reset_at
                && all[k].occurred_at == out[i].occurred_at;
        assert(all[k] == told(raw[k]));
    }
}

// ---------------------------------------------------------------------------
// The ledger as it is sent out
// ---------------------------------------------------------------------------

/// What is sent out of an event holds each of its fields under its name; what it lacks is null.
pub proof fn law_an_event_is_sent_whole(e: LimitEvent)
    ensures
        ({
            let sent = object_tree(event_fields(e@));
            &&& member(sent, "occurredAt"@) == Some(JsonTree::Number(Some(e.occurred_at)))
            &&& member(sent, "resetAt"@) == Some(JsonTree::Number(Some(e.reset_at)))
            &&& member(sent, "sessionId"@) == Some(text_or_nothing(e.session_id))
            &&& member(sent, "accountUid"@) == Some(text_or_nothing(e.account_uid))
            &&& member(sent, "model"@) == Some(text_or_nothing(e.model))
            &&& member(sent, "active"@) == Some(JsonTree::Bool(e.active))
        }),
{
    let fields = event_fields(e@);
    reveal_strlit("occurredAt");
    reveal_strlit("resetAt");
    reveal_strlit("sessionId");
    reveal_strlit("accountUid");
    reveal_strlit("model");
    reveal_strlit("active");
    assert("occurredAt"@.len() == 10 && "resetAt"@.len() == 7 && "sessionId"@.len() == 9);
    assert("accountUid"@.len() == 10 && "model"@.len() == 5 && "active"@.len() == 6);
    assert("occurredAt"@[0] != "accountUid"@[0]);
    lemma_member(fields, 0);
    lemma_member(fields, 1);
    lemma_member(fields, 2);
    lemma_member(fields, 3);
    lemma_member(fields, 4);
    lemma_member(fields, 5);
}

/// A text as it is sent out, or null.
pub open spec fn text_or_nothing(text: Option<String>) -> JsonTree {
    if text is Some {
        JsonTree::Text(text->0@)
    } else {
        JsonTree::Null
    }
}

/// An integer as it is sent out, or null.
pub open spec fn integer_or_nothing(n: Option<i64>) -> JsonTree {
    if n is Some {
        JsonTree::Number(n)
    } else {
        JsonTree::Null
    }
}

/// What is sent out of a ledger holds each of its fields under its name, the events in order.
pub proof fn law_a_ledger_is_sent_whole(r: LimitsReport)
    ensures
        ({
            let sent = object_tree(report_fields(r));
            &&& member(sent, "generatedAt"@) == Some(JsonTree::Number(Some(r.generated_at)))
            &&& member(sent, "rangeDays"@) == Some(integer_or_nothing(r.range_days))
            &&& member(sent, "events"@) matches Some(JsonTree::Array(list)) && list.len()
                == r.events@.len() && forall|i: int|
                0 <= i < list.len() ==> #[trigger] list[i] == object_tree(
                    event_fields(r.events@[i]@),
                )
            &&& member(sent, "activeCount"@) == Some(count_tree(r.active_count))
            &&& member(sent, "filesScanned"@) == Some(count_tree(r.files_scanned))
            &&& member(sent, "parseErrors"@) == Some(count_tree(r.parse_errors))
            &&& member(sent, "coverageStartAt"@) == Some(integer_or_nothing(r.coverage_start_at))
            &&& member(sent, "coverageEndAt"@) == Some(integer_or_nothing(r.coverage_end_at))
        }),
{
    let fields = report_fields(r);
    reveal_strlit("generatedAt");
    reveal_strlit("rangeDays");
    reveal_strlit("events");
    reveal_strlit("activeCount");
    reveal_strlit("filesScanned");
    reveal_strlit("parseErrors");
    reveal_strlit("coverageStartAt");
    reveal_strlit("coverageEndAt");
    assert("generatedAt"@.len() == 11 && "rangeDays"@.len() == 9 && "events"@.len() == 6);
    assert("activeCount"@.len() == 11 && "filesScanned"@.len() == 12 && "parseErrors"@.len() == 11);
    assert("coverageStartAt"@.len() == 15 && "coverageEndAt"@.len() == 13);
    assert("generatedAt"@[0] == 'g' && "activeCount"@[0] == 'a' && "parseErrors"@[0] == 'p');
    lemma_member(fields, 0);
    lemma_member(fields, 1);
    lemma_member(fields, 2);
    lemma_member(fields, 3);
    lemma_member(fields, 4);
    lemma_member(fields, 5);
    lemma_member(fields, 6);
    lemma_member(fields, 7);
}

} // verus!
