//! What the functions on rate limits give back.

use crate::clock::{civil_millis, CivilTime};
use crate::json::{json_tree, member, JsonTree};
use crate::laws::collecting::{
    are_business_findings, are_kit_findings, law_every_line_of_a_business_log_counts,
    law_every_line_of_a_kit_log_counts, law_which_files_are_logs, tells,
};
use crate::laws::conversations::is_visible;
use crate::laws::ledger::{
    is_ledger, is_told_once, law_one_event_for_each_request, law_the_last_model_counts,
    law_what_the_ledger_shows, law_which_model_a_value_names, law_whose_session_it_is, line_names,
    row_names,
};
use crate::laws::lists::is_selection;
use crate::laws::log_lines::{law_what_can_be_a_session, law_when_a_limit_ends, tells_end};
use crate::limits::collect::{
    collect_business_log, collect_sdk_log, folder_date_ms, folder_day, folder_is_scanned, log_kind,
    Findings, LogKind, RawEvent,
};
use crate::limits::dedup::dedup;
use crate::limits::lines::{looks_like_session_id, parse_reset_at, reset_millis, QUOTA_MARKER};
use crate::limits::report::{
    get_limits, range_cutoff, range_days, session_account, session_model, value_model, LimitsReport,
    Scan, Transcript,
};
use crate::numerals::opt_int;
use crate::text::{byte_index_of, is_hex, trimmed, view_ref};
use serde_json::Value;
use vstd::prelude::*;

verus! {

broadcast use vstd::string::group_string_axioms;

// ---------------------------------------------------------------------------
// Collecting
// ---------------------------------------------------------------------------

/// The log of a session gives one event for every line that tells when a limit ends, each with its
/// own end: as many as there are such lines. A file without a name holds nothing, and one that could
/// not be opened counts as one error.
pub proof fn law_a_kit_log_gives_one_event_for_each_limit(
    stem: Option<&str>,
    changed_at: Option<i64>,
    lines: Option<&Vec<Option<String>>>,
    r: Findings,
)
    requires
        call_ensures(collect_sdk_log, (stem, changed_at, lines), r),
    ensures
        stem is None ==> r.events@.len() == 0 && r.errors == 0,
        stem is Some && lines is None ==> r.events@.len() == 0 && r.errors == 1,
        stem is Some && lines is Some ==> {
            let given = lines->0@;
            &&& are_kit_findings(stem->0@, changed_at, given, r)
            &&& exists|good: Seq<int>|
                #![trigger good.len()]
                is_selection(given.len(), |i: int| tells(given[i]), good) && r.events@.len()
                    == good.len()
            &&& forall|i: int|
                0 <= i < given.len() && tells(#[trigger] given[i]) ==> exists|p: int|
                    0 <= p < r.events@.len() && tells_end(
                        given[i]->0@,
                        (#[trigger] r.events@[p]).reset_at as int,
                    )
        },
{
    if stem is Some && lines is Some {
        let given = lines->0@;
        law_every_line_of_a_kit_log_counts(stem->0@, changed_at, given, r);
        let good = choose|good: Seq<int>|
            #![trigger good.len()]
            is_selection(given.len(), |i: int| tells(given[i]), good) && r.events@.len()
                == good.len() && forall|p: int|
                0 <= p < good.len() ==> {
                    let e = #[trigger] r.events@[p];
                    &&& tells_end(given[good[p]]->0@, e.reset_at as int)
                    &&& changed_at matches Some(at) ==> e.occurred_at == at
                    &&& changed_at is None ==> e.occurred_at == e.reset_at
                    &&& crate::limits::lines::is_session_id(stem->0@) ==> (e.session_id matches Some(
                        id,
                    ) && id@ == stem->0@)
                    &&& !crate::limits::lines::is_session_id(stem->0@) ==> e.session_id is None
                };
        assert(good.len() == r.events@.len());
        let wanted = |i: int| tells(given[i]);
        assert forall|i: int| 0 <= i < given.len() && tells(#[trigger] given[i]) implies exists|p: int|
            0 <= p < r.events@.len() && tells_end(
                given[i]->0@,
                (#[trigger] r.events@[p]).reset_at as int,
            ) by {
            assert(wanted(i));
            assert(good.contains(i));
            let p = choose|p: int| 0 <= p < good.len() && good[p] == i;
            let e = r.events@[p];
            assert(tells_end(given[good[p]]->0@, e.reset_at as int));
        }
    }
}

/// The business log gives one event for every line that tells when a limit ends.
pub proof fn law_a_business_log_gives_one_event_for_each_limit(
    lines: Option<&Vec<Option<String>>>,
    r: Findings,
)
    requires
        call_ensures(collect_business_log, (lines,), r),
    ensures
        lines is None ==> r.events@.len() == 0 && r.errors == 1,
        lines matches Some(given) ==> are_business_findings(given@, r),
{
    if let Some(given) = lines {
        law_every_line_of_a_business_log_counts(given@, r);
    }
}

/// The end of a limit is read behind the sentence that tells of it.
pub proof fn law_the_end_of_a_limit_is_read(line: &str, marker: usize, r: Option<i64>)
    requires
        call_ensures(parse_reset_at, (line, marker), r),
        byte_index_of(line@, QUOTA_MARKER@) == Some(marker as nat),
    ensures
        r matches Some(at) ==> tells_end(line@, at as int),
        r is None ==> !exists|at: int| tells_end(line@, at),
{
    if let Some(at) = r {
        law_when_a_limit_ends(line@, at as int);
    }
    if exists|at: int| tells_end(line@, at) {
        let at = choose|at: int| tells_end(line@, at);
        law_when_a_limit_ends(line@, at);
        assert(opt_int(r) == Some(at));
    }
}

/// A time on the clock of the logs is a moment eight hours before the same time in Greenwich.
pub proof fn law_the_clock_of_the_logs(t: CivilTime, r: Option<i64>)
    requires
        call_ensures(reset_millis, (t,), r),
    ensures
        r matches Some(at) ==> civil_millis(t, 28_800) == Some(at as int),
        r is None ==> civil_millis(t, 28_800) is None,
{
}

/// A text can be a session where it is long enough and made of hex digits and hyphens.
pub proof fn law_what_looks_like_a_session(value: &str, r: bool)
    requires
        call_ensures(looks_like_session_id, (value,), r),
    ensures
        r <==> value@.len() >= 8 && forall|i: int|
            0 <= i < value@.len() ==> is_hex(#[trigger] value@[i]) || value@[i] == '-',
{
    law_what_can_be_a_session(value@);
}

/// Which log a file is.
pub proof fn law_the_kind_of_a_log(extension: Option<&str>, parts: &Vec<Option<String>>, r: LogKind)
    requires
        call_ensures(log_kind, (extension, parts), r),
    ensures
        ({
            let kit = exists|i: int|
                0 <= i < parts@.len() && ((#[trigger] parts@[i]) matches Some(part) && part@
                    == "sdk"@);
            let log = extension is Some && extension->0@ == "log"@;
            &&& r is Other <==> !log
            &&& r is Kit <==> log && kit
            &&& r is Business <==> log && !kit
        }),
{
    law_which_files_are_logs(view_ref(extension), parts@);
}

/// A folder is looked into where it is named after a day that does not lie before the cutoff.
pub proof fn law_which_folders_are_looked_into(
    name: &str,
    cutoff: Option<i64>,
    day: Option<i64>,
    r: bool,
)
    requires
        call_ensures(folder_is_scanned, (name, cutoff), r),
        call_ensures(folder_date_ms, (name,), day),
    ensures
        r <==> day is Some && (cutoff is Some ==> day->0 >= cutoff->0),
        opt_int(day) == folder_day(name@),
{
}

// ---------------------------------------------------------------------------
// The ledger
// ---------------------------------------------------------------------------

/// One event is left of each request.
pub proof fn law_each_request_is_told_once(raw: Vec<RawEvent>, r: Vec<RawEvent>)
    requires
        call_ensures(dedup, (raw,), r),
    ensures
        is_told_once(raw@, r@),
{
    law_one_event_for_each_request(raw@, r@);
}

/// The ledger shows what the logs tell, and says when it was made, how far it looks back, how many
/// files were read and how much could not be.
pub proof fn law_the_ledger_of_a_scan(
    days: Option<i64>,
    now: i64,
    scan: Scan,
    accounts: &Vec<(Option<String>, Option<String>)>,
    transcripts: &Vec<Transcript>,
    r: LimitsReport,
)
    requires
        call_ensures(get_limits, (days, now, scan, accounts, transcripts), r),
    ensures
        is_ledger(now, scan.events@, accounts@, transcripts@, r),
        r.generated_at == now,
        r.range_days == if days is Some && days->0 > 0 {
            days
        } else {
            None
        },
        r.files_scanned == scan.files,
        r.parse_errors == scan.errors,
{
    law_what_the_ledger_shows(now, scan.events@, accounts@, transcripts@, r);
}

/// A file adds its events behind those of the files before it, and its errors to theirs.
pub proof fn law_a_scan_adds_up(scan: &mut Scan, found: Findings)
    requires
        call_ensures(Scan::add_file, (scan, found), ()),
    ensures
        final(scan).events@ == old(scan).events@ + found.events@,
        final(scan).files == old(scan).files + 1,
        final(scan).errors == old(scan).errors + found.errors,
{
}

/// Nothing before so many days of twenty-four hours ago is looked into; without a number, or with
/// none above zero, everything is.
pub proof fn law_where_looking_back_ends(
    days: Option<i64>,
    now: i64,
    range: Option<i64>,
    r: Option<i64>,
)
    requires
        call_ensures(range_days, (days,), range),
        call_ensures(range_cutoff, (days, now), r),
    ensures
        range is Some <==> days is Some && days->0 > 0,
        range is Some ==> range == days,
        r is Some <==> days is Some && days->0 > 0,
        r is Some ==> r->0 == now - days->0 * 86_400_000,
{
}

/// The account of a session is that of the last row that names both.
pub proof fn law_the_account_of_a_session(
    rows: &Vec<(Option<String>, Option<String>)>,
    id: &str,
    r: Option<String>,
)
    requires
        call_ensures(session_account, (rows, id), r),
    ensures
        r matches Some(uid) ==> exists|k: int|
            0 <= k < rows@.len() && row_names(#[trigger] rows@[k], id@) && rows@[k].1->0@ == uid@
                && forall|j: int| k < j < rows@.len() ==> !row_names(#[trigger] rows@[j], id@),
        r is None ==> forall|j: int| 0 <= j < rows@.len() ==> !row_names(#[trigger] rows@[j], id@),
{
    law_whose_session_it_is(rows@, id@);
}

/// The model of a transcript is the one that its last line with a model names.
pub proof fn law_the_model_of_a_transcript(lines: Option<&Vec<Option<String>>>, r: Option<String>)
    requires
        call_ensures(session_model, (lines,), r),
    ensures
        lines is None ==> r is None,
        lines matches Some(given) ==> {
            &&& r matches Some(model) ==> exists|k: int|
                0 <= k < given@.len() && line_names(#[trigger] given@[k], model@) && forall|
                    j: int,
                    m: Seq<char>,
                |
                    k < j < given@.len() ==> !#[trigger] line_names(given@[j], m)
            &&& r is None ==> forall|j: int, m: Seq<char>|
                0 <= j < given@.len() ==> !#[trigger] line_names(given@[j], m)
        },
{
    if let Some(given) = lines {
        law_the_last_model_counts(given@);
    }
}

/// The model that a value names stands in its `providerData`, or else in the value itself.
pub proof fn law_the_model_of_a_value(value: &Value, r: Option<String>)
    requires
        call_ensures(value_model, (value,), r),
    ensures
        ({
            let tree = json_tree(*value);
            let data = member(tree, "providerData"@);
            let nested = member(data->0, "model"@);
            let named = if data is Some && nested is Some {
                nested
            } else {
                member(tree, "model"@)
            };
            let told = named is Some && named->0 is Text && is_visible(named->0->Text_0);
            &&& r is Some <==> told
            &&& told ==> r->0@ == trimmed(named->0->Text_0)
        }),
{
    let tree = json_tree(*value);
    law_which_model_a_value_names(tree);
    let data = member(tree, "providerData"@);
    let nested = if data is Some {
        member(data->0, "model"@)
    } else {
        None
    };
    let named = if nested is Some {
        nested
    } else {
        member(tree, "model"@)
    };
    if named is Some && named->0 is Text {
        assert(named == Some(JsonTree::Text(named->0->Text_0)));
    }
}

} // verus!
