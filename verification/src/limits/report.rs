//! The ledger that is shown.

use crate::json::{
    count_tree, field, field_views, has_distinct_names, integer_or_null, json_array, json_bool,
    json_count, json_document, json_get, json_integer, json_object, json_opt_integer,
    json_opt_string, json_parse, json_tree, member, object_tree, text_of, text_or_null, trees,
    JsonTree,
};
use crate::limits::collect::{event_views, line_views, EventView, Findings, RawEvent};
use crate::limits::dedup::{dedup, deduplicated};
use crate::text::{copy_opt, same_text, trim, trimmed, view_opt};
use serde_json::Value;
use vstd::prelude::*;

verus! {

broadcast use vstd::string::group_string_axioms;

/// The milliseconds of a day.
pub const DAY_MS: i64 = 86_400_000;

// ---------------------------------------------------------------------------
// What is scanned
// ---------------------------------------------------------------------------

/// The days that are looked back on: all where no number, or none above zero, is given.
pub open spec fn range_of(days: Option<i64>) -> Option<i64> {
    match days {
        Some(n) => if n > 0 {
            Some(n)
        } else {
            None
        },
        None => None,
    }
}

/// The days that are looked back on.
pub fn range_days(days: Option<i64>) -> (r: Option<i64>)
    ensures
        r == range_of(days),
{
    match days {
        Some(n) => if n > 0 {
            Some(n)
        } else {
            None
        },
        None => None,
    }
}

/// The time before which nothing is looked into, `now` and the result in milliseconds.
pub fn range_cutoff(days: Option<i64>, now: i64) -> (r: Option<i64>)
    requires
        range_of(days) matches Some(n) ==> n * DAY_MS <= i64::MAX && now - n * DAY_MS >= i64::MIN,
    ensures
        r is Some == range_of(days) is Some,
        r matches Some(cutoff) ==> cutoff == now - range_of(days)->0 * DAY_MS,
{
    match range_days(days) {
        Some(n) => Some(now - n * DAY_MS),
        None => None,
    }
}

/// What was found in the logs, file by file.
#[derive(Debug)]
pub struct Scan {
    pub events: Vec<RawEvent>,
    pub files: usize,
    pub errors: u64,
}

impl Scan {
    /// Nothing has been looked into yet.
    pub fn new() -> (r: Self)
        ensures
            r.events@.len() == 0,
            r.files == 0,
            r.errors == 0,
    {
        Scan { events: Vec::new(), files: 0, errors: 0 }
    }

    /// Adds what was found in one more file.
    pub fn add_file(&mut self, found: Findings)
        requires
            old(self).files < usize::MAX,
            old(self).errors + found.errors <= u64::MAX,
        ensures
            final(self).events@ == old(self).events@ + found.events@,
            final(self).files == old(self).files + 1,
            final(self).errors == old(self).errors + found.errors,
    {
        let mut events = found.events;
        self.events.append(&mut events);
        self.files += 1;
        self.errors += found.errors;
    }
}

// ---------------------------------------------------------------------------
// Accounts and models
// ---------------------------------------------------------------------------

/// The contents of rows of sessions and accounts.
pub open spec fn row_views(rows: Seq<(Option<String>, Option<String>)>) -> Seq<
    (Option<Seq<char>>, Option<Seq<char>>),
> {
    Seq::new(rows.len(), |i: int| (view_opt(rows[i].0), view_opt(rows[i].1)))
}

/// The account to which the session `id` belongs: that of the last row that names both.
pub open spec fn account_of(
    rows: Seq<(Option<Seq<char>>, Option<Seq<char>>)>,
    id: Seq<char>,
) -> Option<Seq<char>>
    decreases rows.len(),
{
    if rows.len() == 0 {
        None
    } else {
        match rows.last() {
            (Some(session), Some(uid)) => if session == id && session.len() > 0 && uid.len() > 0 {
                Some(uid)
            } else {
                account_of(rows.drop_last(), id)
            },
            _ => account_of(rows.drop_last(), id),
        }
    }
}

/// The account to which the session `id` belongs.
pub fn session_account(rows: &Vec<(Option<String>, Option<String>)>, id: &str) -> (r: Option<String>)
    ensures
        view_opt(r) == account_of(row_views(rows@), id@),
{
    let ghost all = row_views(rows@);
    let mut i: usize = rows.len();
    assert(all.take(i as int) =~= all);
    while i > 0
        invariant
            i <= rows@.len(),
            all == row_views(rows@),
            account_of(all, id@) == account_of(all.take(i as int), id@),
        decreases i,
    {
        proof {
            assert(all.take(i as int).drop_last() =~= all.take(i - 1));
            assert(all.take(i as int).last() == all[i - 1]);
        }
        let row = &rows[i - 1];
        if let (Some(session), Some(uid)) = (&row.0, &row.1) {
            if same_text(session.as_str(), id) && !session.as_str().is_empty()
                && !uid.as_str().is_empty() {
                return Some(uid.clone());
            }
        }
        i -= 1;
    }
    None
}

/// The model that a line of a transcript names: under `providerData`, or else by itself.
pub open spec fn model_in(tree: JsonTree) -> Option<Seq<char>> {
    let nested = match member(tree, "providerData"@) {
        Some(data) => member(data, "model"@),
        None => None,
    };
    let named = match nested {
        Some(m) => Some(m),
        None => member(tree, "model"@),
    };
    match named {
        Some(m) => match text_of(m) {
            Some(text) => if trimmed(text).len() > 0 {
                Some(trimmed(text))
            } else {
                None
            },
            None => None,
        },
        None => None,
    }
}

/// The model that a line names, where the line can be read and is a JSON document.
pub open spec fn line_model(line: Option<Seq<char>>) -> Option<Seq<char>> {
    match line {
        Some(text) => match json_document(text) {
            Some(tree) => model_in(tree),
            None => None,
        },
        None => None,
    }
}

/// The model that the last line with one names.
pub open spec fn last_model(lines: Seq<Option<Seq<char>>>) -> Option<Seq<char>>
    decreases lines.len(),
{
    if lines.len() == 0 {
        None
    } else {
        match line_model(lines.last()) {
            Some(m) => Some(m),
            None => last_model(lines.drop_last()),
        }
    }
}

/// The model that a JSON value names.
pub fn value_model(value: &Value) -> (r: Option<String>)
    ensures
        view_opt(r) == model_in(json_tree(*value)),
{
    let nested = match json_get(value, "providerData") {
        Some(data) => json_get(data, "model"),
        None => None,
    };
    let named = match nested {
        Some(m) => Some(m),
        None => json_get(value, "model"),
    };
    match named {
        Some(m) => match m.as_str() {
            Some(text) => {
                let text = trim(text);
                if text.as_str().is_empty() {
                    None
                } else {
                    Some(text)
                }
            },
            None => None,
        },
        None => None,
    }
}

/// The model that the last line with one names. `lines` are those of the transcript, where it could
/// be opened.
pub fn session_model(lines: Option<&Vec<Option<String>>>) -> (r: Option<String>)
    ensures
        view_opt(r) == match lines {
            Some(lines) => last_model(line_views(lines@)),
            None => None,
        },
{
    let read = match lines {
        Some(lines) => lines,
        None => {
            return None;
        },
    };
    let ghost all = line_views(read@);
    let mut i: usize = read.len();
    assert(all.take(i as int) =~= all);
    while i > 0
        invariant
            i <= read@.len(),
            all == line_views(read@),
            lines == Some(read),
            last_model(all) == last_model(all.take(i as int)),
        decreases i,
    {
        proof {
            assert(all.take(i as int).drop_last() =~= all.take(i - 1));
            assert(all.take(i as int).last() == all[i - 1]);
        }
        if let Some(line) = &read[i - 1] {
            if let Some(value) = json_parse(line.as_str()) {
                let model = value_model(&value);
                if model.is_some() {
                    return model;
                }
            }
        }
        i -= 1;
    }
    None
}

/// The transcript of a session.
pub struct Transcript {
    pub session: String,
    /// Its lines, where it could be opened; `None` among them could not be read.
    pub lines: Option<Vec<Option<String>>>,
}

/// The first transcript of the session `id`.
pub open spec fn transcript_index(list: Seq<Transcript>, id: Seq<char>) -> Option<int>
    decreases list.len(),
{
    if list.len() == 0 {
        None
    } else {
        match transcript_index(list.drop_last(), id) {
            Some(i) => Some(i),
            None => if list.last().session@ == id {
                Some(list.len() - 1)
            } else {
                None
            },
        }
    }
}

/// The model that the first transcript of the session `id` names.
pub open spec fn model_of(list: Seq<Transcript>, id: Seq<char>) -> Option<Seq<char>> {
    match transcript_index(list, id) {
        Some(i) => match list[i].lines {
            Some(lines) => last_model(line_views(lines@)),
            None => None,
        },
        None => None,
    }
}

proof fn lemma_transcript_index_take(list: Seq<Transcript>, id: Seq<char>, n: int)
    requires
        0 <= n <= list.len(),
        transcript_index(list.take(n), id) is Some,
    ensures
        transcript_index(list, id) == transcript_index(list.take(n), id),
    decreases list.len() - n,
{
    if n < list.len() {
        assert(list.take(n + 1).drop_last() =~= list.take(n));
        lemma_transcript_index_take(list, id, n + 1);
    } else {
        assert(list.take(n) =~= list);
    }
}

fn find_model(list: &Vec<Transcript>, id: &str) -> (r: Option<String>)
    ensures
        view_opt(r) == model_of(list@, id@),
{
    let mut i: usize = 0;
    while i < list.len()
        invariant
            i <= list@.len(),
            transcript_index(list@.take(i as int), id@) is None,
        decreases list@.len() - i,
    {
        proof {
            assert(list@.take(i + 1).drop_last() =~= list@.take(i as int));
        }
        if same_text(list[i].session.as_str(), id) {
            proof {
                lemma_transcript_index_take(list@, id@, i + 1);
            }
            return session_model(list[i].lines.as_ref());
        }
        i += 1;
    }
    assert(list@.take(i as int) =~= list@);
    None
}

// ---------------------------------------------------------------------------
// The ledger
// ---------------------------------------------------------------------------

/// An event of the ledger.
#[derive(Debug)]
pub struct LimitEvent {
    pub occurred_at: i64,
    pub reset_at: i64,
    pub session_id: Option<String>,
    pub account_uid: Option<String>,
    pub model: Option<String>,
    /// The limit has not ended yet.
    pub active: bool,
}

/// The contents of a `LimitEvent`.
pub struct LimitEventView {
    pub occurred_at: i64,
    pub reset_at: i64,
    pub session_id: Option<Seq<char>>,
    pub account_uid: Option<Seq<char>>,
    pub model: Option<Seq<char>>,
    pub active: bool,
}

impl View for LimitEvent {
    type V = LimitEventView;

    open spec fn view(&self) -> LimitEventView {
        LimitEventView {
            occurred_at: self.occurred_at,
            reset_at: self.reset_at,
            session_id: view_opt(self.session_id),
            account_uid: view_opt(self.account_uid),
            model: view_opt(self.model),
            active: self.active,
        }
    }
}

/// The ledger of rate limits.
#[derive(Debug)]
pub struct LimitsReport {
    /// When it was made, in milliseconds.
    pub generated_at: i64,
    pub range_days: Option<i64>,
    pub events: Vec<LimitEvent>,
    /// How many limits have not ended yet.
    pub active_count: u64,
    pub files_scanned: u64,
    pub parse_errors: u64,
    /// The times of the earliest and the latest event.
    pub coverage_start_at: Option<i64>,
    pub coverage_end_at: Option<i64>,
}

/// An event with the account and the model of its session, seen at `now`.
pub open spec fn shown_event(
    event: EventView,
    rows: Seq<(Option<Seq<char>>, Option<Seq<char>>)>,
    transcripts: Seq<Transcript>,
    now: i64,
) -> LimitEventView {
    LimitEventView {
        occurred_at: event.occurred_at as i64,
        reset_at: event.reset_at as i64,
        session_id: event.session_id,
        account_uid: match event.session_id {
            Some(id) => account_of(rows, id),
            None => None,
        },
        model: match event.session_id {
            Some(id) => model_of(transcripts, id),
            None => None,
        },
        active: event.reset_at > now,
    }
}

/// How many limits end after `now`.
pub open spec fn active_among(events: Seq<EventView>, now: i64) -> nat
    decreases events.len(),
{
    if events.len() == 0 {
        0
    } else {
        active_among(events.drop_last(), now) + if events.last().reset_at > now {
            1nat
        } else {
            0nat
        }
    }
}

/// `at` is the time of an event, and no event is earlier.
pub open spec fn is_earliest(events: Seq<EventView>, at: int) -> bool {
    &&& exists|i: int| 0 <= i < events.len() && (#[trigger] events[i]).occurred_at == at
    &&& forall|i: int| 0 <= i < events.len() ==> at <= (#[trigger] events[i]).occurred_at
}

/// `at` is the time of an event, and no event is later.
pub open spec fn is_latest(events: Seq<EventView>, at: int) -> bool {
    &&& exists|i: int| 0 <= i < events.len() && (#[trigger] events[i]).occurred_at == at
    &&& forall|i: int| 0 <= i < events.len() ==> (#[trigger] events[i]).occurred_at <= at
}

/// The ledger made at `now` of what was found in the logs. `accounts` are the sessions and the
/// accounts of the database, `transcripts` those of the sessions that were found.
pub fn get_limits(
    days: Option<i64>,
    now: i64,
    scan: Scan,
    accounts: &Vec<(Option<String>, Option<String>)>,
    transcripts: &Vec<Transcript>,
) -> (r: LimitsReport)
    ensures
        r.generated_at == now,
        r.range_days == range_of(days),
        r.files_scanned == scan.files,
        r.parse_errors == scan.errors,
        ({
            let events = deduplicated(event_views(scan.events@));
            &&& r.events@.len() == events.len()
            &&& forall|i: int|
                0 <= i < events.len() ==> (#[trigger] r.events@[i])@ == shown_event(
                    events[i],
                    row_views(accounts@),
                    transcripts@,
                    now,
                )
            &&& r.active_count == active_among(events, now)
            &&& r.coverage_start_at is Some == (events.len() > 0)
            &&& r.coverage_end_at is Some == (events.len() > 0)
            &&& r.coverage_start_at matches Some(at) ==> is_earliest(events, at as int)
            &&& r.coverage_end_at matches Some(at) ==> is_latest(events, at as int)
        }),
{
    let files: u64 = scan.files as u64;
    let errors: u64 = scan.errors;
    let events = dedup(scan.events);
    let ghost all = event_views(events@);
    let mut out: Vec<LimitEvent> = Vec::new();
    let mut active_count: u64 = 0;
    let mut start: Option<i64> = None;
    let mut end: Option<i64> = None;
    let mut i: usize = 0;
    while i < events.len()
        invariant
            i <= events@.len(),
            all == event_views(events@),
            out@.len() == i,
            forall|k: int|
                0 <= k < i ==> (#[trigger] out@[k])@ == shown_event(
                    all[k],
                    row_views(accounts@),
                    transcripts@,
                    now,
                ),
            active_count == active_among(all.take(i as int), now),
            active_count <= i,
            start is Some == (i > 0),
            end is Some == (i > 0),
            start matches Some(at) ==> is_earliest(all.take(i as int), at as int),
            end matches Some(at) ==> is_latest(all.take(i as int), at as int),
        decreases events@.len() - i,
    {
        let event = &events[i];
        let ghost before = all.take(i as int);
        let ghost longer = all.take(i + 1);
        proof {
            assert(longer.drop_last() =~= before);
            assert(longer.last() == event@);
            assert forall|k: int| 0 <= k < i implies #[trigger] longer[k] == before[k] by {}
        }
        let ghost start_before = start;
        let ghost end_before = end;
        start = match start {
            Some(at) => Some(
                if event.occurred_at < at {
                    event.occurred_at
                } else {
                    at
                },
            ),
            None => Some(event.occurred_at),
        };
        end = match end {
            Some(at) => Some(
                if event.occurred_at > at {
                    event.occurred_at
                } else {
                    at
                },
            ),
            None => Some(event.occurred_at),
        };
        proof {
            lemma_bounds_step(before, event@, start_before, end_before, start, end);
            assert(longer =~= before.push(event@));
        }
        let (account_uid, model) = match &event.session_id {
            Some(id) => (
                session_account(accounts, id.as_str()),
                find_model(transcripts, id.as_str()),
            ),
            None => (None, None),
        };
        let active = event.reset_at > now;
        if active {
            active_count += 1;
        }
        out.push(
            LimitEvent {
                occurred_at: event.occurred_at,
                reset_at: event.reset_at,
                session_id: copy_opt(&event.session_id),
                account_uid,
                model,
                active,
            },
        );
        i += 1;
    }
    assert(all.take(i as int) =~= all);
    LimitsReport {
        generated_at: now,
        range_days: range_days(days),
        events: out,
        active_count,
        files_scanned: files,
        parse_errors: errors,
        coverage_start_at: start,
        coverage_end_at: end,
    }
}

proof fn lemma_bounds_step(
    before: Seq<EventView>,
    event: EventView,
    start: Option<i64>,
    end: Option<i64>,
    new_start: Option<i64>,
    new_end: Option<i64>,
)
    requires
        i64::MIN <= event.occurred_at <= i64::MAX,
        start is Some == (before.len() > 0),
        end is Some == (before.len() > 0),
        start matches Some(at) ==> is_earliest(before, at as int),
        end matches Some(at) ==> is_latest(before, at as int),
        new_start == Some(
            if start is Some && start->0 <= event.occurred_at {
                start->0
            } else {
                event.occurred_at as i64
            },
        ),
        new_end == Some(
            if end is Some && end->0 >= event.occurred_at {
                end->0
            } else {
                event.occurred_at as i64
            },
        ),
    ensures
        is_earliest(before.push(event), new_start->0 as int),
        is_latest(before.push(event), new_end->0 as int),
{
    let after = before.push(event);
    let n = before.len() as int;
    assert(after[n] == event);
    assert forall|i: int| 0 <= i < n implies #[trigger] after[i] == before[i] by {}
    if let Some(at) = start {
        let k = choose|k: int| 0 <= k < n && (#[trigger] before[k]).occurred_at == at;
        assert(after[k].occurred_at == at);
        assert forall|i: int| 0 <= i < after.len() implies new_start->0 <= (
        #[trigger] after[i]).occurred_at by {
            if i < n {
                assert(at <= before[i].occurred_at);
            }
        }
    }
    if let Some(at) = end {
        let k = choose|k: int| 0 <= k < n && (#[trigger] before[k]).occurred_at == at;
        assert(after[k].occurred_at == at);
        assert forall|i: int| 0 <= i < after.len() implies (#[trigger] after[i]).occurred_at
            <= new_end->0 by {
            if i < n {
                assert(before[i].occurred_at <= at);
            }
        }
    }
}

// ---------------------------------------------------------------------------
// The ledger as JSON
// ---------------------------------------------------------------------------

/// The members of an event.
pub open spec fn event_fields(e: LimitEventView) -> Seq<(Seq<char>, JsonTree)> {
    seq![
        ("occurredAt"@, JsonTree::Number(Some(e.occurred_at))),
        ("resetAt"@, JsonTree::Number(Some(e.reset_at))),
        ("sessionId"@, text_or_null(e.session_id)),
        ("accountUid"@, text_or_null(e.account_uid)),
        ("model"@, text_or_null(e.model)),
        ("active"@, JsonTree::Bool(e.active)),
    ]
}

/// The members of an event have different names.
proof fn lemma_event_names(e: LimitEventView)
    ensures
        has_distinct_names(event_fields(e)),
{
    reveal_strlit("occurredAt");
    reveal_strlit("resetAt");
    reveal_strlit("sessionId");
    reveal_strlit("accountUid");
    reveal_strlit("model");
    reveal_strlit("active");
    assert("occurredAt"@.len() == 10);
    assert("resetAt"@.len() == 7);
    assert("sessionId"@.len() == 9);
    assert("accountUid"@.len() == 10);
    assert("model"@.len() == 5);
    assert("active"@.len() == 6);
    assert("occurredAt"@[0] != "accountUid"@[0]);
}

/// The members of a ledger.
pub open spec fn report_fields(r: LimitsReport) -> Seq<(Seq<char>, JsonTree)> {
    seq![
        ("generatedAt"@, JsonTree::Number(Some(r.generated_at))),
        ("rangeDays"@, integer_or_null(r.range_days)),
        (
            "events"@,
            JsonTree::Array(
                Seq::new(r.events@.len(), |i: int| object_tree(event_fields(r.events@[i]@))),
            ),
        ),
        ("activeCount"@, count_tree(r.active_count)),
        ("filesScanned"@, count_tree(r.files_scanned)),
        ("parseErrors"@, count_tree(r.parse_errors)),
        ("coverageStartAt"@, integer_or_null(r.coverage_start_at)),
        ("coverageEndAt"@, integer_or_null(r.coverage_end_at)),
    ]
}

/// The members of a ledger have different names.
proof fn lemma_report_names(r: LimitsReport)
    ensures
        has_distinct_names(report_fields(r)),
{
    reveal_strlit("generatedAt");
    reveal_strlit("rangeDays");
    reveal_strlit("events");
    reveal_strlit("activeCount");
    reveal_strlit("filesScanned");
    reveal_strlit("parseErrors");
    reveal_strlit("coverageStartAt");
    reveal_strlit("coverageEndAt");
    assert("generatedAt"@.len() == 11);
    assert("rangeDays"@.len() == 9);
    assert("events"@.len() == 6);
    assert("activeCount"@.len() == 11);
    assert("filesScanned"@.len() == 12);
    assert("parseErrors"@.len() == 11);
    assert("coverageStartAt"@.len() == 15);
    assert("coverageEndAt"@.len() == 13);
    assert("generatedAt"@[0] != "activeCount"@[0]);
    assert("generatedAt"@[0] != "parseErrors"@[0]);
    assert("activeCount"@[0] != "parseErrors"@[0]);
}

fn event_value(e: &LimitEvent) -> (r: Value)
    ensures
        json_tree(r) == object_tree(event_fields(e@)),
{
    let mut fields: Vec<(String, Value)> = Vec::new();
    fields.push(field("occurredAt", json_integer(e.occurred_at)));
    fields.push(field("resetAt", json_integer(e.reset_at)));
    fields.push(field("sessionId", json_opt_string(&e.session_id)));
    fields.push(field("accountUid", json_opt_string(&e.account_uid)));
    fields.push(field("model", json_opt_string(&e.model)));
    fields.push(field("active", json_bool(e.active)));
    proof {
        assert(field_views(fields@) =~= event_fields(e@));
        lemma_event_names(e@);
    }
    json_object(fields)
}

/// The ledger as it is sent out.
pub fn limits_value(report: &LimitsReport) -> (r: Value)
    ensures
        json_tree(r) == object_tree(report_fields(*report)),
{
    let mut events: Vec<Value> = Vec::new();
    let mut i: usize = 0;
    while i < report.events.len()
        invariant
            i <= report.events@.len(),
            events@.len() == i,
            forall|k: int|
                0 <= k < i ==> json_tree(#[trigger] events@[k]) == object_tree(
                    event_fields(report.events@[k]@),
                ),
        decreases report.events@.len() - i,
    {
        events.push(event_value(&report.events[i]));
        i += 1;
    }
    let ghost listed = trees(events@);
    let mut fields: Vec<(String, Value)> = Vec::new();
    fields.push(field("generatedAt", json_integer(report.generated_at)));
    fields.push(field("rangeDays", json_opt_integer(report.range_days)));
    fields.push(field("events", json_array(events)));
    fields.push(field("activeCount", json_count(report.active_count)));
    fields.push(field("filesScanned", json_count(report.files_scanned)));
    fields.push(field("parseErrors", json_count(report.parse_errors)));
    fields.push(field("coverageStartAt", json_opt_integer(report.coverage_start_at)));
    fields.push(field("coverageEndAt", json_opt_integer(report.coverage_end_at)));
    proof {
        assert(listed =~= Seq::new(
            report.events@.len(),
            |i: int| object_tree(event_fields(report.events@[i]@)),
        ));
        assert(field_views(fields@) =~= report_fields(*report));
        lemma_report_names(*report);
    }
    json_object(fields)
}

} // verus!
