//! Which events are collected from the logs.

use crate::clock::{civil_millis, CivilTime};
use crate::laws::lists::{is_selection, lemma_selection_same, lemma_selection_step};
use crate::laws::log_lines::{law_when_a_limit_ends, tells_end, tells_of_limit};
use crate::limits::collect::{
    business_events, event_views, filled, folder_day, gathered, kind_of, kit_errors, kit_events,
    line_views, nearest, session_in, warning_in, EventView, Findings,
};
use crate::limits::lines::{business_time, id_after, id_in_brackets, is_session_id, QUOTA_MARKER};
use crate::numerals::{i32_numeral, u32_numeral};
use crate::text::{byte_index_of, drop_trailing, pieces, view_opt, CharSet};
use vstd::prelude::*;

verus! {

broadcast use vstd::string::group_string_axioms;

// ---------------------------------------------------------------------------
// Lines that tell of a limit
// ---------------------------------------------------------------------------

/// The line could be read and tells when a limit ends.
pub open spec fn tells(line: Option<String>) -> bool {
    line matches Some(text) && exists|at: int| tells_end(text@, at)
}

/// The line could not be read, or tells of a limit but not when it ends.
pub open spec fn is_faulty(line: Option<String>) -> bool {
    line matches Some(text) ==> tells_of_limit(text@) && !exists|at: int| tells_end(text@, at)
}

/// The line could be read and tells of no limit.
pub open spec fn is_silent(line: Option<String>) -> bool {
    line matches Some(text) && !tells_of_limit(text@)
}

/// What a line tells, in terms of what is found in it.
proof fn lemma_told(line: Option<String>)
    ensures
        ({
            let found = match view_opt(line) {
                Some(text) => match byte_index_of(text, QUOTA_MARKER@) {
                    Some(marker) => Some(crate::limits::lines::reset_time(text, marker)),
                    None => None,
                },
                None => Some(None),
            };
            &&& tells(line) <==> (found is Some && found->0 is Some)
            &&& found matches Some(Some(at)) ==> tells_end(line->0@, at)
            &&& is_faulty(line) <==> found == Some(None::<int>)
            &&& is_silent(line) <==> found is None
            &&& crate::limits::collect::limit_in(view_opt(line)) == found
        }),
{
    if let Some(text) = line {
        law_when_a_limit_ends(text@, 0);
        if let Some(marker) = byte_index_of(text@, QUOTA_MARKER@) {
            let found = crate::limits::lines::reset_time(text@, marker);
            if let Some(at) = found {
                law_when_a_limit_ends(text@, at);
                assert(tells_end(text@, at));
            }
            if exists|at: int| tells_end(text@, at) {
                let at = choose|at: int| tells_end(text@, at);
                law_when_a_limit_ends(text@, at);
            }
        } else {
            if exists|at: int| tells_end(text@, at) {
                let at = choose|at: int| tells_end(text@, at);
                law_when_a_limit_ends(text@, at);
            }
        }
    }
}

/// A limit ends at one time only.
pub proof fn law_a_limit_ends_once(line: Seq<char>, at: int, other: int)
    requires
        tells_end(line, at),
        tells_end(line, other),
    ensures
        at == other,
{
    law_when_a_limit_ends(line, at);
    law_when_a_limit_ends(line, other);
}

// ---------------------------------------------------------------------------
// The logs of the software kit
// ---------------------------------------------------------------------------

spec fn telling(lines: Seq<Option<String>>) -> spec_fn(int) -> bool {
    |i: int| tells(lines[i])
}

spec fn faulty(lines: Seq<Option<String>>) -> spec_fn(int) -> bool {
    |i: int| is_faulty(lines[i])
}

/// The lines that give the events of a kit log, and those that give its errors.
proof fn lemma_kit(
    stem: Seq<char>,
    changed_at: Option<i64>,
    lines: Seq<Option<String>>,
    n: nat,
) -> (r: (Seq<int>, Seq<int>))
    requires
        n <= lines.len(),
    ensures
        ({
            let part = line_views(lines).take(n as int);
            let events = kit_events(stem, changed_at, part);
            &&& is_selection(n, telling(lines), r.0)
            &&& is_selection(n, faulty(lines), r.1)
            &&& events.len() == r.0.len()
            &&& kit_errors(part) == r.1.len()
            &&& forall|p: int|
                0 <= p < r.0.len() ==> {
                    let e = #[trigger] events[p];
                    &&& tells_end(lines[r.0[p]]->0@, e.reset_at)
                    &&& e.occurred_at == match changed_at {
                        Some(at) => at as int,
                        None => e.reset_at,
                    }
                    &&& e.session_id == if is_session_id(stem) {
                        Some(stem)
                    } else {
                        None
                    }
                }
        }),
    decreases n,
{
    let all = line_views(lines);
    if n == 0 {
        (Seq::empty(), Seq::empty())
    } else {
        let m = (n - 1) as nat;
        let (good, bad) = lemma_kit(stem, changed_at, lines, m);
        let part = all.take(n as int);
        assert(part.drop_last() =~= all.take(m as int));
        assert(part.last() == view_opt(lines[m as int]));
        lemma_told(lines[m as int]);
        lemma_selection_step(m, telling(lines), good);
        lemma_selection_step(m, faulty(lines), bad);
        let more = if tells(lines[m as int]) {
            good.push(m as int)
        } else {
            good
        };
        let worse = if is_faulty(lines[m as int]) {
            bad.push(m as int)
        } else {
            bad
        };
        let events = kit_events(stem, changed_at, part);
        let before = kit_events(stem, changed_at, all.take(m as int));
        assert forall|p: int| 0 <= p < more.len() implies {
            let e = #[trigger] events[p];
            &&& tells_end(lines[more[p]]->0@, e.reset_at)
            &&& e.occurred_at == match changed_at {
                Some(at) => at as int,
                None => e.reset_at,
            }
            &&& e.session_id == if is_session_id(stem) {
                Some(stem)
            } else {
                None
            }
        } by {
            if p < good.len() {
                assert(events[p] == before[p]);
                assert(more[p] == good[p]);
            }
        }
        (more, worse)
    }
}

/// `r` is what the lines of a kit log tell.
pub open spec fn are_kit_findings(
    stem: Seq<char>,
    changed_at: Option<i64>,
    lines: Seq<Option<String>>,
    r: Findings,
) -> bool {
    &&& exists|good: Seq<int>|
        #![trigger good.len()]
        is_selection(lines.len(), |i: int| tells(lines[i]), good) && r.events@.len()
            == good.len() && forall|p: int|
            0 <= p < good.len() ==> {
                let e = #[trigger] r.events@[p];
                &&& tells_end(lines[good[p]]->0@, e.reset_at as int)
                &&& changed_at matches Some(at) ==> e.occurred_at == at
                &&& changed_at is None ==> e.occurred_at == e.reset_at
                &&& is_session_id(stem) ==> (e.session_id matches Some(id) && id@ == stem)
                &&& !is_session_id(stem) ==> e.session_id is None
            }
    &&& exists|bad: Seq<int>|
        #![trigger bad.len()]
        is_selection(lines.len(), |i: int| is_faulty(lines[i]), bad) && r.errors == bad.len()
}

/// Every line of a kit log that tells when a limit ends gives one event, in the order of the lines,
/// with that end, whatever the other lines tell. It happened when the file was last changed, or else
/// when the limit ends, and its session is the one that the file is named after. Every line that
/// cannot be read, or tells of a limit but not when it ends, counts as one error.
pub proof fn law_every_line_of_a_kit_log_counts(
    stem: Seq<char>,
    changed_at: Option<i64>,
    lines: Seq<Option<String>>,
    r: Findings,
)
    requires
        event_views(r.events@) == kit_events(stem, changed_at, line_views(lines)),
        r.errors == kit_errors(line_views(lines)),
    ensures
        are_kit_findings(stem, changed_at, lines, r),
{
    let all = line_views(lines);
    let (good, bad) = lemma_kit(stem, changed_at, lines, lines.len());
    assert(all.take(lines.len() as int) =~= all);
    lemma_selection_same(lines.len(), telling(lines), |i: int| tells(lines[i]), good);
    lemma_selection_same(lines.len(), faulty(lines), |i: int| is_faulty(lines[i]), bad);
    let events = kit_events(stem, changed_at, all);
    assert(event_views(r.events@).len() == r.events@.len());
    assert(r.events@.len() == good.len());
    assert(r.errors == bad.len());
    assert forall|p: int| 0 <= p < good.len() implies {
        let e = #[trigger] r.events@[p];
        &&& tells_end(lines[good[p]]->0@, e.reset_at as int)
        &&& changed_at matches Some(at) ==> e.occurred_at == at
        &&& changed_at is None ==> e.occurred_at == e.reset_at
        &&& is_session_id(stem) ==> (e.session_id matches Some(id) && id@ == stem)
        &&& !is_session_id(stem) ==> e.session_id is None
    } by {
        assert(events[p] == r.events@[p]@);
    }
}

// ---------------------------------------------------------------------------
// The business log
// ---------------------------------------------------------------------------

/// The line names a session behind `sessionId=`, tells when it was written, and tells of no limit.
pub open spec fn is_warning(line: Option<String>) -> bool {
    &&& is_silent(line)
    &&& id_after(line->0@, "sessionId="@) matches Some(id) && is_session_id(id)
    &&& business_time(line->0@) is Some
}

spec fn warning(lines: Seq<Option<String>>) -> spec_fn(int) -> bool {
    |i: int| is_warning(lines[i])
}

/// The session that a line itself names: the one behind `sessionId=`, or else the one in its last
/// brackets, where it can be a session at all.
pub open spec fn names(line: Seq<char>, id: Seq<char>) -> bool {
    &&& is_session_id(id)
    &&& match id_after(line, "sessionId="@) {
        Some(named) => id == named,
        None => id_in_brackets(line) == Some(id),
    }
}

proof fn lemma_names(line: Seq<char>)
    ensures
        session_in(line) matches Some(id) ==> names(line, id),
        session_in(line) is None ==> !exists|id: Seq<char>| names(line, id),
{
}

/// The lines that give the events of a business log, its warnings and its errors.
proof fn lemma_business(lines: Seq<Option<String>>, n: nat) -> (r: (Seq<int>, Seq<int>, Seq<int>))
    requires
        n <= lines.len(),
    ensures
        ({
            let g = gathered(line_views(lines).take(n as int));
            &&& is_selection(n, telling(lines), r.0)
            &&& is_selection(n, warning(lines), r.1)
            &&& is_selection(n, faulty(lines), r.2)
            &&& g.events.len() == r.0.len()
            &&& g.warnings.len() == r.1.len()
            &&& g.errors == r.2.len()
            &&& forall|p: int|
                0 <= p < r.0.len() ==> {
                    let e = #[trigger] g.events[p];
                    let line = lines[r.0[p]]->0@;
                    &&& tells_end(line, e.reset_at)
                    &&& e.occurred_at == match business_time(line) {
                        Some(at) => at,
                        None => e.reset_at,
                    }
                    &&& e.session_id == session_in(line)
                }
            &&& forall|p: int|
                0 <= p < r.1.len() ==> {
                    let line = lines[r.1[p]]->0@;
                    (#[trigger] g.warnings[p]).0 == business_time(line)->0 && g.warnings[p].1
                        == id_after(line, "sessionId="@)->0
                }
        }),
    decreases n,
{
    let all = line_views(lines);
    if n == 0 {
        (Seq::empty(), Seq::empty(), Seq::empty())
    } else {
        let m = (n - 1) as nat;
        let (good, warned, bad) = lemma_business(lines, m);
        let part = all.take(n as int);
        let line = lines[m as int];
        assert(part.drop_last() =~= all.take(m as int));
        assert(part.last() == view_opt(line));
        lemma_told(line);
        lemma_selection_step(m, telling(lines), good);
        lemma_selection_step(m, warning(lines), warned);
        lemma_selection_step(m, faulty(lines), bad);
        let before = gathered(all.take(m as int));
        let g = gathered(part);
        assert(g == crate::limits::collect::gather_line(before, view_opt(line)));
        let more = if tells(line) {
            good.push(m as int)
        } else {
            good
        };
        let warned_more = if is_warning(line) {
            warned.push(m as int)
        } else {
            warned
        };
        let worse = if is_faulty(line) {
            bad.push(m as int)
        } else {
            bad
        };
        if is_silent(line) {
            assert(warning_in(line->0@) is Some <==> is_warning(line));
        }
        assert(tells(line) ==> !is_silent(line) && !is_faulty(line));
        assert(is_faulty(line) ==> !is_silent(line));
        assert forall|p: int| 0 <= p < more.len() implies {
            let e = #[trigger] g.events[p];
            let text = lines[more[p]]->0@;
            &&& tells_end(text, e.reset_at)
            &&& e.occurred_at == match business_time(text) {
                Some(at) => at,
                None => e.reset_at,
            }
            &&& e.session_id == session_in(text)
        } by {
            if p < good.len() {
                assert(g.events[p] == before.events[p]);
                assert(more[p] == good[p]);
            }
        }
        assert forall|p: int| 0 <= p < warned_more.len() implies {
            let text = lines[warned_more[p]]->0@;
            (#[trigger] g.warnings[p]).0 == business_time(text)->0 && g.warnings[p].1 == id_after(
                text,
                "sessionId="@,
            )->0
        } by {
            if p < warned.len() {
                assert(g.warnings[p] == before.warnings[p]);
                assert(warned_more[p] == warned[p]);
            }
        }
        (more, warned_more, worse)
    }
}

/// How far from `at` the line was written, in milliseconds.
pub open spec fn away(line: Option<String>, at: int) -> int {
    let written = business_time(line->0@)->0;
    if written <= at {
        at - written
    } else {
        written - at
    }
}

/// The line at `w` is the warning nearest to `at`, the first of several, and lies within fifteen
/// seconds of it.
pub open spec fn is_nearest_warning(lines: Seq<Option<String>>, at: int, w: int) -> bool {
    &&& 0 <= w < lines.len()
    &&& is_warning(lines[w])
    &&& away(lines[w], at) <= 15_000
    &&& forall|v: int|
        0 <= v < lines.len() && is_warning(#[trigger] lines[v]) ==> away(lines[w], at) <= away(
            lines[v],
            at,
        )
    &&& forall|v: int|
        0 <= v < w && is_warning(#[trigger] lines[v]) ==> away(lines[w], at) < away(lines[v], at)
}

/// What is said of the session of an event: the one that its own line names, or else the one that
/// the nearest warning names, or else none.
pub open spec fn is_session_of(
    lines: Seq<Option<String>>,
    line: Seq<char>,
    at: int,
    session: Option<Seq<char>>,
) -> bool {
    &&& forall|id: Seq<char>| #[trigger] names(line, id) ==> session == Some(id)
    &&& (forall|id: Seq<char>| !#[trigger] names(line, id)) ==> match session {
        Some(id) => exists|w: int| #[trigger]
            is_nearest_warning(lines, at, w) && id_after(lines[w]->0@, "sessionId="@) == Some(id),
        None => forall|w: int|
            0 <= w < lines.len() && is_warning(#[trigger] lines[w]) ==> away(lines[w], at) > 15_000,
    }
}

/// `warnings` are what the lines at `warned` warn of.
spec fn are_warnings(
    lines: Seq<Option<String>>,
    warned: Seq<int>,
    warnings: Seq<(int, Seq<char>)>,
) -> bool {
    &&& is_selection(lines.len(), warning(lines), warned)
    &&& warnings.len() == warned.len()
    &&& forall|p: int|
        0 <= p < warned.len() ==> {
            let text = lines[warned[p]]->0@;
            (#[trigger] warnings[p]).0 == business_time(text)->0 && warnings[p].1 == id_after(
                text,
                "sessionId="@,
            )->0
        }
}

/// Every warning has its place.
proof fn lemma_warned(
    lines: Seq<Option<String>>,
    warned: Seq<int>,
    warnings: Seq<(int, Seq<char>)>,
    at: int,
    v: int,
) -> (j: int)
    requires
        are_warnings(lines, warned, warnings),
        0 <= v < lines.len(),
        is_warning(lines[v]),
    ensures
        0 <= j < warned.len(),
        warned[j] == v,
        crate::limits::collect::distance(warnings[j].0, at) == away(lines[v], at),
{
    assert(warning(lines)(v));
    assert(warned.contains(v));
    let j = choose|j: int| 0 <= j < warned.len() && warned[j] == v;
    assert(warnings[j].0 == business_time(lines[v]->0@)->0);
    j
}

/// The nearest warning is that of a line.
proof fn lemma_nearest(
    lines: Seq<Option<String>>,
    warned: Seq<int>,
    warnings: Seq<(int, Seq<char>)>,
    at: int,
)
    requires
        are_warnings(lines, warned, warnings),
    ensures
        nearest(warnings, at) matches Some(i) ==> {
            &&& 0 <= i < warned.len()
            &&& is_nearest_warning(lines, at, warned[i])
            &&& id_after(lines[warned[i]]->0@, "sessionId="@) == Some(warnings[i].1)
        },
        nearest(warnings, at) is None ==> forall|w: int|
            0 <= w < lines.len() && is_warning(#[trigger] lines[w]) ==> away(lines[w], at) > 15_000,
{
    crate::limits::collect::law_the_nearest_warning_is_picked(warnings, at);
    match nearest(warnings, at) {
        Some(i) => {
            let w = warned[i];
            assert(warning(lines)(w));
            assert(is_warning(lines[w]));
            let k = lemma_warned(lines, warned, warnings, at, w);
            assert(k == i) by {
                if k < i {
                    assert(warned[k] < warned[i]);
                } else if i < k {
                    assert(warned[i] < warned[k]);
                }
            }
            assert forall|v: int|
                0 <= v < lines.len() && is_warning(#[trigger] lines[v]) implies away(lines[w], at)
                <= away(lines[v], at) by {
                let j = lemma_warned(lines, warned, warnings, at, v);
            }
            assert forall|v: int|
                0 <= v < w && is_warning(#[trigger] lines[v]) implies away(lines[w], at) < away(
                lines[v],
                at,
            ) by {
                let j = lemma_warned(lines, warned, warnings, at, v);
                if j > i {
                    assert(warned[i] < warned[j]);
                }
            }
            assert(warnings[i].1 == id_after(lines[w]->0@, "sessionId="@)->0);
        },
        None => {
            assert forall|w: int| 0 <= w < lines.len() && is_warning(
                #[trigger] lines[w],
            ) implies away(lines[w], at) > 15_000 by {
                let j = lemma_warned(lines, warned, warnings, at, w);
            }
        },
    }
}

proof fn lemma_filled(
    lines: Seq<Option<String>>,
    warned: Seq<int>,
    warnings: Seq<(int, Seq<char>)>,
    event: EventView,
    line: Seq<char>,
)
    requires
        are_warnings(lines, warned, warnings),
        event.session_id == session_in(line),
    ensures
        is_session_of(lines, line, event.occurred_at, filled(event, warnings).session_id),
        filled(event, warnings).reset_at == event.reset_at,
        filled(event, warnings).occurred_at == event.occurred_at,
{
    let at = event.occurred_at;
    lemma_names(line);
    if event.session_id is None {
        lemma_nearest(lines, warned, warnings, at);
        if let Some(i) = nearest(warnings, at) {
            let w = warned[i];
            assert(is_nearest_warning(lines, at, w));
        }
    } else {
        assert(names(line, event.session_id->0));
    }
}

/// `r` is what the lines of a business log tell.
pub open spec fn are_business_findings(lines: Seq<Option<String>>, r: Findings) -> bool {
    &&& exists|good: Seq<int>|
        #![trigger good.len()]
        is_selection(lines.len(), |i: int| tells(lines[i]), good) && r.events@.len()
            == good.len() && forall|p: int|
            0 <= p < good.len() ==> {
                let e = #[trigger] r.events@[p];
                let line = lines[good[p]]->0@;
                &&& tells_end(line, e.reset_at as int)
                &&& business_time(line) matches Some(at) ==> e.occurred_at == at
                &&& business_time(line) is None ==> e.occurred_at == e.reset_at
                &&& is_session_of(lines, line, e.occurred_at as int, view_opt(e.session_id))
            }
    &&& exists|bad: Seq<int>|
        #![trigger bad.len()]
        is_selection(lines.len(), |i: int| is_faulty(lines[i]), bad) && r.errors == bad.len()
}

/// Every line of a business log that tells when a limit ends gives one event, in the order of the
/// lines, with that end. It happened when the line was written, or else when the limit ends. Its
/// session is the one that the line names, or else the one of the nearest warning within fifteen
/// seconds. Every line that cannot be read, or tells of a limit but not when it ends, counts as one
/// error.
pub proof fn law_every_line_of_a_business_log_counts(lines: Seq<Option<String>>, r: Findings)
    requires
        event_views(r.events@) == business_events(line_views(lines)),
        r.errors == gathered(line_views(lines)).errors,
    ensures
        are_business_findings(lines, r),
{
    let all = line_views(lines);
    let (good, warned, bad) = lemma_business(lines, lines.len());
    assert(all.take(lines.len() as int) =~= all);
    let g = gathered(all);
    lemma_selection_same(lines.len(), telling(lines), |i: int| tells(lines[i]), good);
    lemma_selection_same(lines.len(), faulty(lines), |i: int| is_faulty(lines[i]), bad);
    assert(event_views(r.events@).len() == r.events@.len());
    assert(r.events@.len() == good.len());
    assert(r.errors == bad.len());
    assert forall|p: int| 0 <= p < good.len() implies {
        let e = #[trigger] r.events@[p];
        let line = lines[good[p]]->0@;
        &&& tells_end(line, e.reset_at as int)
        &&& business_time(line) matches Some(at) ==> e.occurred_at == at
        &&& business_time(line) is None ==> e.occurred_at == e.reset_at
        &&& is_session_of(lines, line, e.occurred_at as int, view_opt(e.session_id))
    } by {
        assert(event_views(r.events@)[p] == r.events@[p]@);
        assert(business_events(all)[p] == filled(g.events[p], g.warnings));
        lemma_filled(lines, warned, g.warnings, g.events[p], lines[good[p]]->0@);
    }
}

// ---------------------------------------------------------------------------
// Files and folders
// ---------------------------------------------------------------------------

/// A file is a log where its extension is `log`: one of the kit where some part of its path is
/// `sdk`, a business log elsewhere.
pub proof fn law_which_files_are_logs(extension: Option<Seq<char>>, parts: Seq<Option<String>>)
    ensures
        ({
            let kind = kind_of(extension, line_views(parts));
            let kit = exists|i: int|
                0 <= i < parts.len() && ((#[trigger] parts[i]) matches Some(part) && part@
                    == "sdk"@);
            &&& extension is None ==> kind is Other
            &&& extension matches Some(e) ==> (kind is Other <==> e != "log"@)
            &&& !(kind is Other) ==> (kind is Kit <==> kit)
            &&& !(kind is Other) ==> (kind is Business <==> !kit)
        }),
{
    let all = line_views(parts);
    if all.contains(Some("sdk"@)) {
        let i = choose|i: int| 0 <= i < all.len() && all[i] == Some("sdk"@);
        assert(view_opt(parts[i]) == Some("sdk"@));
        assert(parts[i] is Some);
    }
    if exists|i: int|
        0 <= i < parts.len() && ((#[trigger] parts[i]) matches Some(part) && part@ == "sdk"@) {
        let i = choose|i: int|
            0 <= i < parts.len() && ((#[trigger] parts[i]) matches Some(part) && part@ == "sdk"@);
        assert(all[i] == Some("sdk"@));
    }
}

/// A folder is named after a day where, slashes at its end apart, its name is a year, a month and a
/// day with a slash, an underscore or a hyphen between them; the day begins at midnight on the clock
/// of the logs.
pub proof fn law_which_day_a_folder_is_named_after(
    year: Seq<char>,
    month: Seq<char>,
    day: Seq<char>,
    first: char,
    second: char,
    slashes: Seq<char>,
)
    requires
        crate::laws::log_lines::is_number(year),
        crate::laws::log_lines::is_number(month),
        crate::laws::log_lines::is_number(day),
        first == '/' || first == '_' || first == '-',
        second == '/' || second == '_' || second == '-',
        forall|i: int| 0 <= i < slashes.len() ==> #[trigger] slashes[i] == '/',
    ensures
        folder_day(year + seq![first] + month + seq![second] + day + slashes) == match (
            i32_numeral(year),
            u32_numeral(month),
            u32_numeral(day),
        ) {
            (Some(y), Some(m), Some(d)) => civil_millis(
                CivilTime {
                    year: y as i32,
                    month: m as u32,
                    day: d as u32,
                    hour: 0,
                    minute: 0,
                    second: 0,
                    nano: 0,
                },
                28_800,
            ),
            _ => None,
        },
{
    let set = CharSet::DateMarks;
    let bare = year + seq![first] + month + seq![second] + day;
    let name = bare + slashes;
    assert('0' <= day[day.len() - 1] <= '9');
    lemma_bare(bare, slashes);
    assert(crate::laws::text::is_free_of(year, set)) by {
        assert forall|i: int| 0 <= i < year.len() implies !set.has(#[trigger] year[i]) by {
            assert('0' <= year[i] <= '9');
        }
    }
    assert(crate::laws::text::is_free_of(month, set)) by {
        assert forall|i: int| 0 <= i < month.len() implies !set.has(#[trigger] month[i]) by {
            assert('0' <= month[i] <= '9');
        }
    }
    assert(crate::laws::text::is_free_of(day, set)) by {
        assert forall|i: int| 0 <= i < day.len() implies !set.has(#[trigger] day[i]) by {
            assert('0' <= day[i] <= '9');
        }
    }
    let tail = month + seq![second] + day;
    crate::laws::text::law_separators_part_the_pieces(year, first, tail, set);
    crate::laws::text::law_separators_part_the_pieces(month, second, day, set);
    crate::laws::text::law_separators_part_the_pieces(day, second, day, set);
    assert(bare =~= year + seq![first] + tail);
    let p = pieces(bare, set);
    assert(p == seq![year] + (seq![month] + seq![day]));
    assert(p.len() == 3 && p[0] == year && p[1] == month && p[2] == day);
}

/// Slashes at the end of a name are dropped.
proof fn lemma_bare(bare: Seq<char>, slashes: Seq<char>)
    requires
        bare.len() > 0,
        bare.last() != '/',
        forall|i: int| 0 <= i < slashes.len() ==> #[trigger] slashes[i] == '/',
    ensures
        drop_trailing(bare + slashes, CharSet::One('/')) == bare,
    decreases slashes.len(),
{
    let s = bare + slashes;
    if slashes.len() > 0 {
        let fewer = slashes.drop_last();
        assert(s.last() == slashes[slashes.len() - 1]);
        assert(s.drop_last() =~= bare + fewer);
        lemma_bare(bare, fewer);
    } else {
        assert(s =~= bare);
    }
}

/// A name of fewer or more than three parts is no day, nor is one with a part that is no numeral.
pub proof fn law_which_folders_are_no_day(name: Seq<char>)
    requires
        folder_day(name) is Some,
    ensures
        ({
            let p = pieces(drop_trailing(name, CharSet::One('/')), CharSet::DateMarks);
            p.len() == 3 && i32_numeral(p[0]) is Some && u32_numeral(p[1]) is Some && u32_numeral(
                p[2],
            ) is Some
        }),
{
}

} // verus!
