//! Reading the lines of the logs.
//!
//! A line of the business log starts with a local time in brackets; one that tells of a limit holds
//! a fixed sentence with the time at which the limit ends. The logs of the software kit hold the
//! same sentence, and their file name is the id of the session.

use crate::clock::{
    civil_millis, datetime_in, local_millis, read_datetime, CivilTime, DATETIME_FORMAT,
};
use crate::numerals::{
    i32_numeral, lemma_short_numeral, opt_int, parse_bounded, u32_numeral,
};
use crate::text::{
    byte_len, byte_length, byte_range, chars_of, eq_ignoring_case, find_in, first_in, first_place,
    index_of, last_index, last_piece, last_piece_start, last_place, lemma_char_at_byte_bounds,
    lemma_index_from, pieces, same_ignoring_case, slice_bytes, split_at_set, split_words,
    string_of, trim, trimmed, view_opt, views, words, CharSet,
};
use vstd::prelude::*;

verus! {

broadcast use vstd::string::group_string_axioms;

/// What every line that tells of a limit holds, up to the time at which the limit ends.
pub const QUOTA_MARKER: &'static str = "您的使用量已超出频率限制，将在 ";

/// The bytes of the time behind the marker.
pub const RESET_TIME_LEN: usize = 19;

/// How far apart, in milliseconds, two records of one event may lie.
pub const DEDUP_WINDOW_MS: i64 = 15_000;

/// The zone of the times in the logs, in seconds east of Greenwich.
pub const UTC_PLUS8: i32 = 28_800;

// ---------------------------------------------------------------------------
// Times
// ---------------------------------------------------------------------------

/// The time behind the marker that stands at byte `marker_start`, in milliseconds.
pub open spec fn reset_time(line: Seq<char>, marker_start: nat) -> Option<int> {
    let start = marker_start + byte_len(QUOTA_MARKER@);
    match byte_range(line, start, start + RESET_TIME_LEN as nat) {
        Some(text) => match datetime_in(text) {
            Some(t) => civil_millis(t, UTC_PLUS8 as int),
            None => None,
        },
        None => None,
    }
}

/// A time of the zone of the logs, in milliseconds; nothing where there is no such time.
pub fn reset_millis(t: CivilTime) -> (r: Option<i64>)
    ensures
        opt_int(r) == civil_millis(t, UTC_PLUS8 as int),
{
    local_millis(t, UTC_PLUS8)
}

/// The time behind the marker that stands at byte `marker_start` of `line`, in milliseconds.
pub fn parse_reset_at(line: &str, marker_start: usize) -> (r: Option<i64>)
    ensures
        opt_int(r) == reset_time(line@, marker_start as nat),
{
    let marker_len: usize = byte_length(QUOTA_MARKER);
    let ghost start = marker_start + byte_len(QUOTA_MARKER@);
    proof {
        lemma_char_at_byte_bounds(line@, (start + RESET_TIME_LEN) as nat);
    }
    let total: usize = byte_length(line);
    if marker_start > total || marker_len > total - marker_start || RESET_TIME_LEN > total
        - marker_start - marker_len {
        return None;
    }
    let from: usize = marker_start + marker_len;
    let text = match slice_bytes(line, from, from + RESET_TIME_LEN) {
        Some(text) => text,
        None => {
            return None;
        },
    };
    match read_datetime(text.as_str(), DATETIME_FORMAT) {
        Some(t) => reset_millis(t),
        None => None,
    }
}

/// What stands between the brackets at the start of a line.
pub open spec fn stamp_text(line: Seq<char>) -> Option<Seq<char>> {
    let close = first_in(line, CharSet::One(']')) as int;
    if 2 <= close < line.len() && line[0] == '[' {
        Some(line.subrange(1, close))
    } else {
        None
    }
}

/// The year, the month and the day of a date with slashes.
pub open spec fn date_fields(date: Seq<char>) -> Option<(int, int, int)> {
    let p = pieces(date, CharSet::One('/'));
    if p.len() < 3 {
        None
    } else {
        match (i32_numeral(p[0]), u32_numeral(p[1]), u32_numeral(p[2])) {
            (Some(y), Some(m), Some(d)) => Some((y, m, d)),
            _ => None,
        }
    }
}

/// The number that the first three bytes of a fraction write, or zero.
pub open spec fn thousandths(fraction: Seq<char>) -> int {
    match byte_range(fraction, 0, 3) {
        Some(digits) => match u32_numeral(digits) {
            Some(n) => n,
            None => 0,
        },
        None => 0,
    }
}

/// Seconds and thousandths of a second.
pub open spec fn second_fields(text: Seq<char>) -> Option<(int, int)> {
    let n = first_in(text, CharSet::One('.')) as int;
    if n >= text.len() {
        match u32_numeral(text) {
            Some(s) => Some((s, 0)),
            None => None,
        }
    } else {
        match u32_numeral(text.take(n)) {
            Some(s) => Some((s, thousandths(text.skip(n + 1)))),
            None => None,
        }
    }
}

/// The hour, the minute, the second and the thousandths of a time with colons.
pub open spec fn clock_fields(time: Seq<char>) -> Option<(int, int, int, int)> {
    let p = pieces(time, CharSet::One(':'));
    if p.len() < 3 {
        None
    } else {
        match (u32_numeral(p[0]), u32_numeral(p[1]), second_fields(p[2])) {
            (Some(h), Some(m), Some((s, ms))) => Some((h, m, s, ms)),
            _ => None,
        }
    }
}

/// The time that the first two words of a stamp write.
pub open spec fn stamp_time(stamp: Seq<char>) -> Option<CivilTime> {
    let w = words(stamp);
    if w.len() < 2 {
        None
    } else {
        match (date_fields(w[0]), clock_fields(w[1])) {
            (Some((y, mo, d)), Some((h, mi, s, ms))) => Some(
                CivilTime {
                    year: y as i32,
                    month: mo as u32,
                    day: d as u32,
                    hour: h as u32,
                    minute: mi as u32,
                    second: s as u32,
                    nano: (ms * 1_000_000) as u32,
                },
            ),
            _ => None,
        }
    }
}

/// The time at the start of a line of the business log, in milliseconds.
pub open spec fn business_time(line: Seq<char>) -> Option<int> {
    match stamp_text(line) {
        Some(stamp) => match stamp_time(stamp) {
            Some(t) => civil_millis(t, UTC_PLUS8 as int),
            None => None,
        },
        None => None,
    }
}

fn read_u32(s: &str) -> (r: Option<u32>)
    ensures
        r is Some == u32_numeral(s@) is Some,
        r matches Some(n) ==> u32_numeral(s@) == Some(n as int),
{
    match parse_bounded(s, false, 0, 4_294_967_295) {
        Some(n) => Some(n as u32),
        None => None,
    }
}

fn read_i32(s: &str) -> (r: Option<i32>)
    ensures
        r is Some == i32_numeral(s@) is Some,
        r matches Some(n) ==> i32_numeral(s@) == Some(n as int),
{
    match parse_bounded(s, true, -2_147_483_648, 2_147_483_647) {
        Some(n) => Some(n as i32),
        None => None,
    }
}

fn read_thousandths(fraction: &str) -> (r: u32)
    ensures
        r == thousandths(fraction@),
        r < 1000,
{
    proof {
        lemma_char_at_byte_bounds(fraction@, 3);
    }
    match slice_bytes(fraction, 0, 3) {
        Some(digits) => {
            proof {
                lemma_short_numeral(digits@);
            }
            match read_u32(digits.as_str()) {
                Some(n) => n,
                None => 0,
            }
        },
        None => 0,
    }
}

fn read_seconds(text: &str) -> (r: Option<(u32, u32)>)
    ensures
        r is Some == second_fields(text@) is Some,
        r matches Some((s, ms)) ==> second_fields(text@) == Some((s as int, ms as int)) && ms
            < 1000,
{
    let chars = chars_of(text);
    let dot = first_place(&chars, 0, CharSet::One('.'));
    proof {
        assert(chars@.skip(0) =~= chars@);
    }
    if dot == chars.len() {
        match read_u32(text) {
            Some(s) => Some((s, 0)),
            None => None,
        }
    } else {
        let whole = string_of(&chars, 0, dot);
        let fraction = string_of(&chars, dot + 1, chars.len());
        proof {
            assert(whole@ =~= text@.take(dot as int));
            assert(fraction@ =~= text@.skip(dot + 1));
        }
        match read_u32(whole.as_str()) {
            Some(s) => Some((s, read_thousandths(fraction.as_str()))),
            None => None,
        }
    }
}

fn read_stamp(stamp: &str) -> (r: Option<CivilTime>)
    ensures
        r == stamp_time(stamp@),
{
    let w = split_words(stamp);
    assert(views(w@) == words(stamp@));
    if w.len() < 2 {
        return None;
    }
    assert(words(stamp@)[0] == w@[0]@ && words(stamp@)[1] == w@[1]@);
    let d = split_at_set(w[0].as_str(), CharSet::One('/'));
    let t = split_at_set(w[1].as_str(), CharSet::One(':'));
    let ghost dp = pieces(w@[0]@, CharSet::One('/'));
    let ghost tp = pieces(w@[1]@, CharSet::One(':'));
    assert(views(d@) == dp && views(t@) == tp);
    if d.len() < 3 || t.len() < 3 {
        return None;
    }
    assert(dp[0] == d@[0]@ && dp[1] == d@[1]@ && dp[2] == d@[2]@);
    assert(tp[0] == t@[0]@ && tp[1] == t@[1]@ && tp[2] == t@[2]@);
    match (
        read_i32(d[0].as_str()),
        read_u32(d[1].as_str()),
        read_u32(d[2].as_str()),
        read_u32(t[0].as_str()),
        read_u32(t[1].as_str()),
        read_seconds(t[2].as_str()),
    ) {
        (
            Some(year),
            Some(month),
            Some(day),
            Some(hour),
            Some(minute),
            Some((second, milli)),
        ) => Some(CivilTime { year, month, day, hour, minute, second, nano: milli * 1_000_000 }),
        _ => None,
    }
}

/// The time at the start of a line of the business log, in milliseconds.
pub fn parse_business_line_time(line: &str) -> (r: Option<i64>)
    ensures
        opt_int(r) == business_time(line@),
{
    let chars = chars_of(line);
    let close = first_place(&chars, 0, CharSet::One(']'));
    proof {
        assert(chars@.skip(0) =~= chars@);
    }
    if close < 2 || close >= chars.len() || chars[0] != '[' {
        return None;
    }
    let stamp = string_of(&chars, 1, close);
    match read_stamp(stamp.as_str()) {
        Some(t) => reset_millis(t),
        None => None,
    }
}

// ---------------------------------------------------------------------------
// Session ids
// ---------------------------------------------------------------------------

/// A word that stands in for an id where there is none.
pub open spec fn is_placeholder(s: Seq<char>) -> bool {
    s.len() == 0 || same_ignoring_case(s, "reqId"@) || same_ignoring_case(s, "sessionId"@)
}

fn placeholder(s: &str) -> (r: bool)
    ensures
        r == is_placeholder(s@),
{
    s.is_empty() || eq_ignoring_case(s, "reqId") || eq_ignoring_case(s, "sessionId")
}

/// The characters of an id at the start of `s`.
pub open spec fn id_prefix(s: Seq<char>) -> Seq<char>
    decreases s.len(),
{
    if s.len() > 0 && CharSet::IdChars.has(s[0]) {
        seq![s[0]] + id_prefix(s.drop_first())
    } else {
        Seq::empty()
    }
}

/// The id behind `marker`, at the first place where the marker stands.
pub open spec fn id_after(line: Seq<char>, marker: Seq<char>) -> Option<Seq<char>> {
    match index_of(line, marker) {
        Some(i) => {
            let id = id_prefix(line.skip(i + marker.len()));
            if is_placeholder(id) {
                None
            } else {
                Some(id)
            }
        },
        None => None,
    }
}

/// The id behind `marker` in `line`.
pub fn extract_session_id_after_marker(line: &str, marker: &str) -> (r: Option<String>)
    ensures
        view_opt(r) == id_after(line@, marker@),
{
    let chars = chars_of(line);
    let sought = chars_of(marker);
    let total: usize = chars.len();
    let start: usize = match find_in(&chars, &sought, 0) {
        Some(i) => {
            proof {
                lemma_index_from(line@, marker@, 0);
                assert(i + sought@.len() <= total);
            }
            i + sought.len()
        },
        None => {
            return None;
        },
    };
    let mut end: usize = start;
    let mut id = String::new();
    assert(id@ + id_prefix(chars@.skip(start as int)) =~= id_prefix(chars@.skip(start as int)));
    while end < chars.len() && CharSet::IdChars.holds(chars[end])
        invariant
            start <= end <= chars@.len(),
            id@ + id_prefix(chars@.skip(end as int)) == id_prefix(chars@.skip(start as int)),
        decreases chars@.len() - end,
    {
        let ghost rest = chars@.skip(end as int);
        let ghost before = id@;
        id.push(chars[end]);
        proof {
            assert(rest.drop_first() =~= chars@.skip(end + 1));
            assert(id@ + id_prefix(chars@.skip(end + 1)) =~= before + (seq![rest[0]] + id_prefix(
                rest.drop_first(),
            )));
        }
        end += 1;
    }
    assert(id@ + id_prefix(chars@.skip(end as int)) =~= id@);
    if placeholder(id.as_str()) {
        None
    } else {
        Some(id)
    }
}

/// What stands between the last opening and the last closing bracket, behind its last slash.
pub open spec fn id_in_brackets(line: Seq<char>) -> Option<Seq<char>> {
    match (last_index(line, '('), last_index(line, ')')) {
        (Some(open), Some(close)) => if close <= open {
            None
        } else {
            let id = trimmed(
                last_piece(trimmed(line.subrange(open + 1, close)), CharSet::One('/')),
            );
            if is_placeholder(id) {
                None
            } else {
                Some(id)
            }
        },
        _ => None,
    }
}

/// The id in the brackets at the end of `line`, of the form `(request/session)`.
pub fn extract_session_id_from_parens(line: &str) -> (r: Option<String>)
    ensures
        view_opt(r) == id_in_brackets(line@),
{
    let chars = chars_of(line);
    let (open, close): (usize, usize) = match (last_place(&chars, '('), last_place(&chars, ')')) {
        (Some(open), Some(close)) => (open, close),
        _ => {
            return None;
        },
    };
    if close <= open {
        return None;
    }
    let inner = trim(string_of(&chars, open + 1, close).as_str());
    let inner_chars = chars_of(inner.as_str());
    let start = last_piece_start(&inner_chars, 0, inner_chars.len(), CharSet::One('/'));
    proof {
        assert(inner_chars@.subrange(0, inner_chars@.len() as int) =~= inner_chars@);
    }
    let id = trim(string_of(&inner_chars, start, inner_chars.len()).as_str());
    if placeholder(id.as_str()) {
        None
    } else {
        Some(id)
    }
}

/// A text that can be the id of a session: eight hex digits and hyphens at least.
pub open spec fn is_session_id(s: Seq<char>) -> bool {
    s.len() >= 8 && forall|i: int| 0 <= i < s.len() ==> CharSet::IdChars.has(#[trigger] s[i])
}

/// Whether `value` can be the id of a session.
pub fn looks_like_session_id(value: &str) -> (r: bool)
    ensures
        r == is_session_id(value@),
{
    let chars = chars_of(value);
    if chars.len() < 8 {
        return false;
    }
    let mut i: usize = 0;
    while i < chars.len()
        invariant
            i <= chars@.len(),
            chars@ == value@,
            forall|k: int| 0 <= k < i ==> CharSet::IdChars.has(#[trigger] chars@[k]),
        decreases chars@.len() - i,
    {
        if !CharSet::IdChars.holds(chars[i]) {
            return false;
        }
        i += 1;
    }
    true
}

} // verus!
