//! Collecting the events of a log file.

use crate::clock::{civil_millis, local_millis, CivilTime};
use crate::limits::lines::{
    business_time, extract_session_id_after_marker, extract_session_id_from_parens, id_after,
    id_in_brackets, is_session_id, looks_like_session_id, parse_business_line_time, parse_reset_at,
    reset_time, DEDUP_WINDOW_MS, QUOTA_MARKER, UTC_PLUS8,
};
use crate::numerals::{i32_numeral, opt_int, parse_bounded, u32_numeral};
use crate::text::{
    byte_index_of, copy_opt, drop_trailing, find_byte, pieces, same_text, split_at_set, trim_end_of,
    view_opt, view_ref, views, CharSet,
};
use vstd::prelude::*;

verus! {

broadcast use vstd::string::group_string_axioms;

/// A request that was turned away.
#[derive(Debug)]
pub struct RawEvent {
    /// When it was turned away, in milliseconds.
    pub occurred_at: i64,
    /// When the limit ends, in milliseconds.
    pub reset_at: i64,
    pub session_id: Option<String>,
}

/// The contents of a `RawEvent`.
pub struct EventView {
    pub occurred_at: int,
    pub reset_at: int,
    pub session_id: Option<Seq<char>>,
}

impl View for RawEvent {
    type V = EventView;

    open spec fn view(&self) -> EventView {
        EventView {
            occurred_at: self.occurred_at as int,
            reset_at: self.reset_at as int,
            session_id: view_opt(self.session_id),
        }
    }
}

impl Clone for RawEvent {
    fn clone(&self) -> (r: Self)
        ensures
            r@ == self@,
    {
        RawEvent {
            occurred_at: self.occurred_at,
            reset_at: self.reset_at,
            session_id: copy_opt(&self.session_id),
        }
    }
}

/// The contents of a list of events.
pub open spec fn event_views(events: Seq<RawEvent>) -> Seq<EventView> {
    Seq::new(events.len(), |i: int| events[i]@)
}

/// What was found in a log file.
#[derive(Debug)]
pub struct Findings {
    pub events: Vec<RawEvent>,
    /// How many lines, or files, could not be read.
    pub errors: u64,
}

/// The contents of the lines of a file; `None` is a line that could not be read.
pub open spec fn line_views(lines: Seq<Option<String>>) -> Seq<Option<Seq<char>>> {
    Seq::new(lines.len(), |i: int| view_opt(lines[i]))
}

// ---------------------------------------------------------------------------
// The business log
// ---------------------------------------------------------------------------

/// What the lines of a business log have given so far.
pub struct Gathered {
    pub events: Seq<EventView>,
    /// The times and the sessions of lines that name a session and tell of no limit.
    pub warnings: Seq<(int, Seq<char>)>,
    pub errors: nat,
}

/// The session that a line names, where that can be an id: behind `sessionId=`, or else in the
/// brackets at its end.
pub open spec fn session_in(line: Seq<char>) -> Option<Seq<char>> {
    let named = match id_after(line, "sessionId="@) {
        Some(id) => Some(id),
        None => id_in_brackets(line),
    };
    match named {
        Some(id) => if is_session_id(id) {
            Some(id)
        } else {
            None
        },
        None => None,
    }
}

/// The time and the session of a line that names one behind `sessionId=`.
pub open spec fn warning_in(line: Seq<char>) -> Option<(int, Seq<char>)> {
    match (id_after(line, "sessionId="@), business_time(line)) {
        (Some(id), Some(at)) => if is_session_id(id) {
            Some((at, id))
        } else {
            None
        },
        _ => None,
    }
}

/// What one more line of a business log adds.
pub open spec fn gather_line(g: Gathered, line: Option<Seq<char>>) -> Gathered {
    match line {
        None => Gathered { errors: g.errors + 1, ..g },
        Some(line) => match byte_index_of(line, QUOTA_MARKER@) {
            None => match warning_in(line) {
                Some(w) => Gathered { warnings: g.warnings.push(w), ..g },
                None => g,
            },
            Some(marker) => match reset_time(line, marker) {
                None => Gathered { errors: g.errors + 1, ..g },
                Some(reset_at) => {
                    let event = EventView {
                        occurred_at: match business_time(line) {
                            Some(at) => at,
                            None => reset_at,
                        },
                        reset_at,
                        session_id: session_in(line),
                    };
                    Gathered { events: g.events.push(event), ..g }
                },
            },
        },
    }
}

/// What the lines of a business log give.
pub open spec fn gathered(lines: Seq<Option<Seq<char>>>) -> Gathered
    decreases lines.len(),
{
    if lines.len() == 0 {
        Gathered { events: Seq::empty(), warnings: Seq::empty(), errors: 0 }
    } else {
        gather_line(gathered(lines.drop_last()), lines.last())
    }
}

pub open spec fn distance(a: int, b: int) -> int {
    if a >= b {
        a - b
    } else {
        b - a
    }
}

/// The warning nearest to the time `at`, the first of several, where one lies within the window.
pub open spec fn nearest(warnings: Seq<(int, Seq<char>)>, at: int) -> Option<int>
    decreases warnings.len(),
{
    if warnings.len() == 0 {
        None
    } else {
        let d = distance(warnings.last().0, at);
        match nearest(warnings.drop_last(), at) {
            Some(i) => if d < distance(warnings[i].0, at) {
                Some(warnings.len() - 1)
            } else {
                Some(i)
            },
            None => if d <= DEDUP_WINDOW_MS {
                Some(warnings.len() - 1)
            } else {
                None
            },
        }
    }
}

/// The warning that `nearest` picks lies within the window, none lies nearer, and none before it as
/// near; where it picks none, none lies within the window.
pub proof fn law_the_nearest_warning_is_picked(warnings: Seq<(int, Seq<char>)>, at: int)
    ensures
        nearest(warnings, at) matches Some(i) ==> {
            &&& 0 <= i < warnings.len()
            &&& distance(warnings[i].0, at) <= DEDUP_WINDOW_MS
            &&& forall|j: int|
                0 <= j < warnings.len() ==> distance(warnings[i].0, at) <= distance(
                    (#[trigger] warnings[j]).0,
                    at,
                )
            &&& forall|j: int|
                0 <= j < i ==> distance(warnings[i].0, at) < distance(
                    (#[trigger] warnings[j]).0,
                    at,
                )
        },
        nearest(warnings, at) is None ==> forall|j: int|
            0 <= j < warnings.len() ==> distance((#[trigger] warnings[j]).0, at) > DEDUP_WINDOW_MS,
    decreases warnings.len(),
{
    if warnings.len() > 0 {
        let shorter = warnings.drop_last();
        law_the_nearest_warning_is_picked(shorter, at);
        assert forall|j: int| 0 <= j < shorter.len() implies #[trigger] warnings[j]
            == shorter[j] by {}
    }
}

/// An event without a session gets that of the nearest warning.
pub open spec fn filled(event: EventView, warnings: Seq<(int, Seq<char>)>) -> EventView {
    if event.session_id is Some {
        event
    } else {
        match nearest(warnings, event.occurred_at) {
            Some(i) => EventView { session_id: Some(warnings[i].1), ..event },
            None => event,
        }
    }
}

/// The events of a business log.
pub open spec fn business_events(lines: Seq<Option<Seq<char>>>) -> Seq<EventView> {
    let g = gathered(lines);
    Seq::new(g.events.len(), |i: int| filled(g.events[i], g.warnings))
}

/// The contents of a list of times and sessions.
pub open spec fn warning_views(warnings: Seq<(i64, String)>) -> Seq<(int, Seq<char>)> {
    Seq::new(warnings.len(), |i: int| (warnings[i].0 as int, warnings[i].1@))
}

fn read_session(line: &str) -> (r: Option<String>)
    ensures
        view_opt(r) == session_in(line@),
{
    let named = match extract_session_id_after_marker(line, "sessionId=") {
        Some(id) => Some(id),
        None => extract_session_id_from_parens(line),
    };
    match named {
        Some(id) => if looks_like_session_id(id.as_str()) {
            Some(id)
        } else {
            None
        },
        None => None,
    }
}

fn read_warning(line: &str) -> (r: Option<(i64, String)>)
    ensures
        r is Some == warning_in(line@) is Some,
        r matches Some(w) ==> warning_in(line@) == Some((w.0 as int, w.1@)),
{
    match extract_session_id_after_marker(line, "sessionId=") {
        Some(id) => if looks_like_session_id(id.as_str()) {
            match parse_business_line_time(line) {
                Some(at) => Some((at, id)),
                None => None,
            }
        } else {
            None
        },
        None => None,
    }
}

/// How far apart two times lie.
fn apart(a: i64, b: i64) -> (r: u64)
    ensures
        r == distance(a as int, b as int),
{
    let d: i128 = a as i128 - b as i128;
    if d >= 0 {
        d as u64
    } else {
        (-d) as u64
    }
}

fn find_nearest(warnings: &Vec<(i64, String)>, at: i64) -> (r: Option<usize>)
    ensures
        r is Some == nearest(warning_views(warnings@), at as int) is Some,
        r matches Some(i) ==> nearest(warning_views(warnings@), at as int) == Some(i as int) && i
            < warnings@.len(),
{
    let ghost all = warning_views(warnings@);
    let mut best: Option<usize> = None;
    let mut i: usize = 0;
    while i < warnings.len()
        invariant
            i <= warnings@.len(),
            all == warning_views(warnings@),
            best is Some == nearest(all.take(i as int), at as int) is Some,
            best matches Some(b) ==> nearest(all.take(i as int), at as int) == Some(b as int) && b
                < i,
        decreases warnings@.len() - i,
    {
        let d = apart(warnings[i].0, at);
        let better = match best {
            Some(b) => d < apart(warnings[b].0, at),
            None => d <= DEDUP_WINDOW_MS as u64,
        };
        proof {
            assert(all.take(i + 1).drop_last() =~= all.take(i as int));
        }
        if better {
            best = Some(i);
        }
        i += 1;
    }
    assert(all.take(i as int) =~= all);
    best
}

/// The events of a business log. `lines` are its lines, where it could be opened; a file that could
/// not be opened counts as one error.
pub fn collect_business_log(lines: Option<&Vec<Option<String>>>) -> (r: Findings)
    ensures
        match lines {
            None => r.events@.len() == 0 && r.errors == 1,
            Some(lines) => {
                &&& event_views(r.events@) == business_events(line_views(lines@))
                &&& r.errors == gathered(line_views(lines@)).errors
            },
        },
{
    let lines = match lines {
        Some(lines) => lines,
        None => {
            return Findings { events: Vec::new(), errors: 1 };
        },
    };
    let ghost all = line_views(lines@);
    let mut pending: Vec<RawEvent> = Vec::new();
    let mut warnings: Vec<(i64, String)> = Vec::new();
    let mut errors: u64 = 0;
    let mut i: usize = 0;
    proof {
        assert(event_views(pending@) =~= gathered(all.take(0)).events);
        assert(warning_views(warnings@) =~= gathered(all.take(0)).warnings);
    }
    while i < lines.len()
        invariant
            i <= lines@.len(),
            all == line_views(lines@),
            event_views(pending@) == gathered(all.take(i as int)).events,
            warning_views(warnings@) == gathered(all.take(i as int)).warnings,
            errors == gathered(all.take(i as int)).errors,
            errors <= i,
        decreases lines@.len() - i,
    {
        let ghost events_before = event_views(pending@);
        let ghost warnings_before = warning_views(warnings@);
        proof {
            assert(all.take(i + 1).drop_last() =~= all.take(i as int));
            assert(all.take(i + 1).last() == view_opt(lines@[i as int]));
        }
        match &lines[i] {
            None => {
                errors += 1;
            },
            Some(line) => match find_byte(line.as_str(), QUOTA_MARKER) {
                None => {
                    if let Some(w) = read_warning(line.as_str()) {
                        let ghost added = (w.0 as int, w.1@);
                        warnings.push(w);
                        assert(warning_views(warnings@) =~= warnings_before.push(added));
                    }
                },
                Some(marker) => match parse_reset_at(line.as_str(), marker) {
                    None => {
                        errors += 1;
                    },
                    Some(reset_at) => {
                        let occurred_at: i64 = match parse_business_line_time(line.as_str()) {
                            Some(at) => at,
                            None => reset_at,
                        };
                        let session_id = read_session(line.as_str());
                        let event = RawEvent { occurred_at, reset_at, session_id };
                        let ghost added = event@;
                        pending.push(event);
                        assert(event_views(pending@) =~= events_before.push(added));
                    },
                },
            },
        }
        i += 1;
    }
    assert(all.take(i as int) =~= all);
    let mut events: Vec<RawEvent> = Vec::new();
    let mut k: usize = 0;
    while k < pending.len()
        invariant
            k <= pending@.len(),
            events@.len() == k,
            event_views(pending@) == gathered(all).events,
            warning_views(warnings@) == gathered(all).warnings,
            forall|j: int|
                0 <= j < k ==> (#[trigger] events@[j])@ == filled(
                    gathered(all).events[j],
                    gathered(all).warnings,
                ),
        decreases pending@.len() - k,
    {
        let mut event = pending[k].clone();
        assert(event@ == gathered(all).events[k as int]);
        if event.session_id.is_none() {
            if let Some(w) = find_nearest(&warnings, event.occurred_at) {
                event.session_id = Some(warnings[w].1.clone());
                assert(warning_views(warnings@)[w as int].1 == warnings@[w as int].1@);
            }
        }
        events.push(event);
        k += 1;
    }
    assert(event_views(events@) =~= business_events(all));
    Findings { events, errors }
}

// ---------------------------------------------------------------------------
// The logs of the software kit
// ---------------------------------------------------------------------------

/// The events of a kit log whose file is named `stem` and was last changed at `changed_at`.
pub open spec fn kit_events(
    stem: Seq<char>,
    changed_at: Option<i64>,
    lines: Seq<Option<Seq<char>>>,
) -> Seq<EventView>
    decreases lines.len(),
{
    if lines.len() == 0 {
        Seq::empty()
    } else {
        let before = kit_events(stem, changed_at, lines.drop_last());
        match limit_in(lines.last()) {
            Some(Some(reset_at)) => before.push(
                EventView {
                    occurred_at: match changed_at {
                        Some(at) => at as int,
                        None => reset_at,
                    },
                    reset_at,
                    session_id: if is_session_id(stem) {
                        Some(stem)
                    } else {
                        None
                    },
                },
            ),
            _ => before,
        }
    }
}

/// The end of the limit that a line tells of: `None` where it tells of none, `Some(None)` where the
/// line or the time in it cannot be read.
pub open spec fn limit_in(line: Option<Seq<char>>) -> Option<Option<int>> {
    match line {
        None => Some(None),
        Some(line) => match byte_index_of(line, QUOTA_MARKER@) {
            Some(marker) => Some(reset_time(line, marker)),
            None => None,
        },
    }
}

/// How many lines of a kit log could not be read.
pub open spec fn kit_errors(lines: Seq<Option<Seq<char>>>) -> nat
    decreases lines.len(),
{
    if lines.len() == 0 {
        0
    } else if limit_in(lines.last()) == Some(None::<int>) {
        kit_errors(lines.drop_last()) + 1
    } else {
        kit_errors(lines.drop_last())
    }
}

/// The events of a kit log. `stem` is the name of its file without the extension; a file without
/// one holds nothing. `lines` are its lines, where it could be opened; a file that could not be
/// opened counts as one error.
pub fn collect_sdk_log(
    stem: Option<&str>,
    changed_at: Option<i64>,
    lines: Option<&Vec<Option<String>>>,
) -> (r: Findings)
    ensures
        match (stem, lines) {
            (None, _) => r.events@.len() == 0 && r.errors == 0,
            (Some(_), None) => r.events@.len() == 0 && r.errors == 1,
            (Some(stem), Some(lines)) => {
                &&& event_views(r.events@) == kit_events(stem@, changed_at, line_views(lines@))
                &&& r.errors == kit_errors(line_views(lines@))
            },
        },
{
    let stem = match stem {
        Some(stem) => stem,
        None => {
            return Findings { events: Vec::new(), errors: 0 };
        },
    };
    let lines = match lines {
        Some(lines) => lines,
        None => {
            return Findings { events: Vec::new(), errors: 1 };
        },
    };
    let named = looks_like_session_id(stem);
    let ghost all = line_views(lines@);
    let mut events: Vec<RawEvent> = Vec::new();
    let mut errors: u64 = 0;
    let mut i: usize = 0;
    assert(event_views(events@) =~= kit_events(stem@, changed_at, all.take(0)));
    while i < lines.len()
        invariant
            i <= lines@.len(),
            all == line_views(lines@),
            named == is_session_id(stem@),
            event_views(events@) == kit_events(stem@, changed_at, all.take(i as int)),
            errors == kit_errors(all.take(i as int)),
            errors <= i,
        decreases lines@.len() - i,
    {
        let ghost before = event_views(events@);
        proof {
            assert(all.take(i + 1).drop_last() =~= all.take(i as int));
            assert(all.take(i + 1).last() == view_opt(lines@[i as int]));
        }
        match &lines[i] {
            None => {
                errors += 1;
            },
            Some(line) => if let Some(marker) = find_byte(line.as_str(), QUOTA_MARKER) {
                match parse_reset_at(line.as_str(), marker) {
                    None => {
                        errors += 1;
                    },
                    Some(reset_at) => {
                        let event = RawEvent {
                            occurred_at: match changed_at {
                                Some(at) => at,
                                None => reset_at,
                            },
                            reset_at,
                            session_id: if named {
                                Some(stem.to_string())
                            } else {
                                None
                            },
                        };
                        let ghost added = event@;
                        events.push(event);
                        assert(event_views(events@) =~= before.push(added));
                    },
                }
            },
        }
        i += 1;
    }
    assert(all.take(i as int) =~= all);
    Findings { events, errors }
}

// ---------------------------------------------------------------------------
// Files and folders
// ---------------------------------------------------------------------------

/// Which log a file is.
#[derive(Debug, Clone, Copy, PartialEq, Eq, Structural)]
pub enum LogKind {
    Business,
    Kit,
    /// No log.
    Other,
}

/// Which log a file is, by its extension and the parts of its path: `None` stands for a part that is
/// no text.
pub open spec fn kind_of(extension: Option<Seq<char>>, parts: Seq<Option<Seq<char>>>) -> LogKind {
    if extension != Some("log"@) {
        LogKind::Other
    } else if parts.contains(Some("sdk"@)) {
        LogKind::Kit
    } else {
        LogKind::Business
    }
}

/// Which log a file is, by its extension and the parts of its path.
pub fn log_kind(extension: Option<&str>, parts: &Vec<Option<String>>) -> (r: LogKind)
    ensures
        r == kind_of(view_ref(extension), line_views(parts@)),
{
    match extension {
        Some(extension) => if !same_text(extension, "log") {
            return LogKind::Other;
        },
        None => {
            return LogKind::Other;
        },
    }
    let ghost all = line_views(parts@);
    let mut i: usize = 0;
    while i < parts.len()
        invariant
            i <= parts@.len(),
            all == line_views(parts@),
            view_ref(extension) == Some("log"@),
            forall|k: int| 0 <= k < i ==> #[trigger] all[k] != Some("sdk"@),
        decreases parts@.len() - i,
    {
        if let Some(part) = &parts[i] {
            if same_text(part.as_str(), "sdk") {
                assert(all[i as int] == Some("sdk"@));
                return LogKind::Kit;
            }
        }
        assert(all[i as int] == view_opt(parts@[i as int]));
        i += 1;
    }
    LogKind::Business
}

/// The first moment of the day that a folder is named after.
pub open spec fn folder_day(name: Seq<char>) -> Option<int> {
    let p = pieces(drop_trailing(name, CharSet::One('/')), CharSet::DateMarks);
    if p.len() != 3 {
        None
    } else {
        match (i32_numeral(p[0]), u32_numeral(p[1]), u32_numeral(p[2])) {
            (Some(y), Some(m), Some(d)) => civil_millis(
                CivilTime {
                    year: y as i32,
                    month: m as u32,
                    day: d as u32,
                    hour: 0,
                    minute: 0,
                    second: 0,
                    nano: 0,
                },
                UTC_PLUS8 as int,
            ),
            _ => None,
        }
    }
}

/// The first moment of the day that a folder is named after, in milliseconds.
pub fn folder_date_ms(name: &str) -> (r: Option<i64>)
    ensures
        opt_int(r) == folder_day(name@),
{
    let bare = trim_end_of(name, CharSet::One('/'));
    let parts = split_at_set(bare.as_str(), CharSet::DateMarks);
    let ghost p = pieces(bare@, CharSet::DateMarks);
    assert(views(parts@) == p);
    if parts.len() != 3 {
        return None;
    }
    assert(p[0] == parts@[0]@ && p[1] == parts@[1]@ && p[2] == parts@[2]@);
    match (
        parse_bounded(parts[0].as_str(), true, -2_147_483_648, 2_147_483_647),
        parse_bounded(parts[1].as_str(), false, 0, 4_294_967_295),
        parse_bounded(parts[2].as_str(), false, 0, 4_294_967_295),
    ) {
        (Some(y), Some(m), Some(d)) => local_millis(
            CivilTime {
                year: y as i32,
                month: m as u32,
                day: d as u32,
                hour: 0,
                minute: 0,
                second: 0,
                nano: 0,
            },
            UTC_PLUS8,
        ),
        _ => None,
    }
}

/// Whether a folder of logs is looked into: it is named after a day, and that day does not lie
/// before the cutoff.
pub fn folder_is_scanned(name: &str, cutoff: Option<i64>) -> (r: bool)
    ensures
        r == match folder_day(name@) {
            Some(day) => cutoff is None || day >= cutoff->0,
            None => false,
        },
{
    match folder_date_ms(name) {
        Some(day) => match cutoff {
            Some(cutoff) => day >= cutoff,
            None => true,
        },
        None => false,
    }
}

} // verus!
