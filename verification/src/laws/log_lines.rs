//! What the lines of a log tell.

use crate::clock::{civil_millis, datetime_in, CivilTime};
use crate::laws::text::{
    is_free_of, law_a_range_of_bytes, law_bytes_of_texts_in_a_row,
    law_only_the_case_of_ascii_letters_is_ignored, law_separators_part_the_pieces,
    law_the_byte_of_the_first_place, law_the_last_place_is_found, law_where_a_byte_falls,
    law_white_space_parts_the_words,
};
use crate::limits::lines::{
    business_time, clock_fields, date_fields, id_after, id_in_brackets, id_prefix, is_placeholder,
    is_session_id, reset_time, second_fields, stamp_text, stamp_time, thousandths, QUOTA_MARKER,
};
use crate::numerals::{i32_numeral, u32_numeral};
use crate::text::{
    byte_index_of, byte_len, byte_range, char_at_byte, contains_text, first_in, index_of, is_hex,
    is_space, last_index, last_piece, lemma_first_in, lemma_first_in_bounds, lemma_index_from,
    occurs_at, pieces, trimmed, words, CharSet,
};
use vstd::prelude::*;

verus! {

broadcast use vstd::string::group_string_axioms;

// ---------------------------------------------------------------------------
// The end of a limit
// ---------------------------------------------------------------------------

/// The line holds the sentence that tells of a limit.
pub open spec fn tells_of_limit(line: Seq<char>) -> bool {
    exists|a: Seq<char>, b: Seq<char>|
        line == #[trigger] (a + "您的使用量已超出频率限制，将在 "@ + b)
}

/// The line holds that sentence, first behind `a`, and behind it the time `time` in nineteen bytes.
pub open spec fn tells_time(line: Seq<char>, a: Seq<char>, time: Seq<char>, b: Seq<char>) -> bool {
    let sentence = "您的使用量已超出频率限制，将在 "@;
    &&& line == a + sentence + time + b
    &&& forall|j: int| 0 <= j < a.len() ==> !#[trigger] occurs_at(line, sentence, j)
    &&& byte_len(time) == 19
}

/// The line tells of a limit that ends at `at`: a time in nineteen bytes stands behind the sentence,
/// and on the clock of the logs, eight hours ahead of Greenwich, that is `at`.
pub open spec fn tells_end(line: Seq<char>, at: int) -> bool {
    exists|a: Seq<char>, time: Seq<char>, b: Seq<char>| #[trigger]
        tells_time(line, a, time, b) && (datetime_in(time) matches Some(t) && civil_millis(t, 28_800)
            == Some(at))
}

/// A line tells of a limit exactly where the sentence is found in it, and of its end exactly where a
/// time of nineteen bytes stands right behind the first such sentence.
pub proof fn law_when_a_limit_ends(line: Seq<char>, at: int)
    ensures
        byte_index_of(line, QUOTA_MARKER@) is Some <==> tells_of_limit(line),
        byte_index_of(line, QUOTA_MARKER@) matches Some(marker) ==> (reset_time(line, marker)
            == Some(at) <==> tells_end(line, at)),
        tells_end(line, at) ==> tells_of_limit(line),
{
    let m = QUOTA_MARKER@;
    law_the_byte_of_the_first_place(line, m);
    crate::laws::text::law_the_first_place_is_found(line, m);
    if tells_end(line, at) {
        let (a, time, b) = choose|a: Seq<char>, time: Seq<char>, b: Seq<char>| #[trigger]
            tells_time(line, a, time, b) && (datetime_in(time) matches Some(t) && civil_millis(
                t,
                28_800,
            ) == Some(at));
        assert(line =~= a + m + (time + b));
        assert(tells_of_limit(line));
    }
    if let Some(marker) = byte_index_of(line, m) {
        lemma_reset(line, marker, at);
    }
}

proof fn lemma_reset(line: Seq<char>, marker: nat, at: int)
    requires
        byte_index_of(line, QUOTA_MARKER@) == Some(marker),
    ensures
        reset_time(line, marker) == Some(at) <==> tells_end(line, at),
{
    let m = QUOTA_MARKER@;
    let start = marker + byte_len(m);
    lemma_index_from(line, m, 0);
    let k = index_of(line, m)->0;
    let a = line.take(k);
    assert(byte_len(a) == marker);
    if reset_time(line, marker) == Some(at) {
        let x = byte_range(line, start, start + 19)->0;
        law_a_range_of_bytes(line, start, start + 19, x);
        let (p, q) = choose|p: Seq<char>, q: Seq<char>|
            line == #[trigger] (p + x + q) && byte_len(p) == start && byte_len(p + x) == start + 19;
        law_bytes_of_texts_in_a_row(p, x);
        let am = line.take(k + m.len());
        assert(am =~= a + line.subrange(k, k + m.len()));
        law_bytes_of_texts_in_a_row(a, m);
        assert(byte_len(am) == start);
        assert(p =~= line.take(p.len() as int));
        law_where_a_byte_falls(line, start, p.len());
        law_where_a_byte_falls(line, start, am.len());
        assert(p.len() == am.len());
        assert(line =~= a + m + x + q) by {
            assert(p =~= am);
        }
        assert forall|j: int| 0 <= j < a.len() implies !#[trigger] occurs_at(line, m, j) by {}
        assert(tells_time(line, a, x, q));
    }
    if tells_end(line, at) {
        let (c, time, b) = choose|c: Seq<char>, time: Seq<char>, b: Seq<char>| #[trigger]
            tells_time(line, c, time, b) && (datetime_in(time) matches Some(t) && civil_millis(
                t,
                28_800,
            ) == Some(at));
        let n = c.len() as int;
        assert(line.subrange(n, n + m.len()) =~= m);
        assert(occurs_at(line, m, c.len() as int));
        assert(c.len() == k) by {
            if k < c.len() {
                assert(!occurs_at(line, m, k));
            }
        }
        assert(c =~= a);
        law_bytes_of_texts_in_a_row(c, m);
        law_bytes_of_texts_in_a_row(c + m, time);
        assert(line == (c + m) + time + b);
        law_a_range_of_bytes(line, start, start + 19, time);
    }
}

// ---------------------------------------------------------------------------
// The time of a line
// ---------------------------------------------------------------------------

/// The stamp of a line is what stands in brackets at its start, up to the first closing one; an
/// empty one is none.
pub proof fn law_where_the_stamp_stands(line: Seq<char>, stamp: Seq<char>)
    ensures
        stamp_text(line) == Some(stamp) <==> stamp.len() > 0 && !stamp.contains(']') && exists|
            b: Seq<char>,
        |
            line == #[trigger] (seq!['['] + stamp + seq![']'] + b),
{
    let set = CharSet::One(']');
    lemma_first_in_bounds(line, set);
    let close = first_in(line, set) as int;
    if stamp_text(line) == Some(stamp) {
        let b = line.skip(close + 1);
        assert(line =~= seq!['['] + stamp + seq![']'] + b);
        assert forall|i: int| 0 <= i < stamp.len() implies #[trigger] stamp[i] != ']' by {
            assert(stamp[i] == line[i + 1]);
            assert(!set.has(line[i + 1]));
        }
    }
    if stamp.len() > 0 && !stamp.contains(']') && exists|b: Seq<char>|
        line == #[trigger] (seq!['['] + stamp + seq![']'] + b) {
        let b = choose|b: Seq<char>| line == #[trigger] (seq!['['] + stamp + seq![']'] + b);
        let n = stamp.len() as int + 1;
        assert forall|k: int| 0 <= k < n implies !set.has(#[trigger] line[k]) by {
            if k > 0 {
                assert(line[k] == stamp[k - 1]);
                assert(stamp.contains(stamp[k - 1]));
            }
        }
        assert(line[n] == ']');
        lemma_first_in(line, set, n);
        assert(line.subrange(1, n) =~= stamp);
    }
}

/// `rest` is empty or begins with the separator.
pub open spec fn is_cut_off(rest: Seq<char>, separator: char) -> bool {
    rest.len() > 0 ==> rest[0] == separator
}

/// The first three pieces of a text.
proof fn lemma_three_pieces(
    a: Seq<char>,
    b: Seq<char>,
    c: Seq<char>,
    rest: Seq<char>,
    separator: char,
)
    requires
        !a.contains(separator),
        !b.contains(separator),
        !c.contains(separator),
        is_cut_off(rest, separator),
    ensures
        ({
            let p = pieces(a + seq![separator] + b + seq![separator] + c + rest, CharSet::One(separator));
            p.len() >= 3 && p[0] == a && p[1] == b && p[2] == c
        }),
{
    let set = CharSet::One(separator);
    assert(is_free_of(a, set)) by {
        assert forall|i: int| 0 <= i < a.len() implies !set.has(#[trigger] a[i]) by {
            assert(a.contains(a[i]));
        }
    }
    assert(is_free_of(b, set)) by {
        assert forall|i: int| 0 <= i < b.len() implies !set.has(#[trigger] b[i]) by {
            assert(b.contains(b[i]));
        }
    }
    assert(is_free_of(c, set)) by {
        assert forall|i: int| 0 <= i < c.len() implies !set.has(#[trigger] c[i]) by {
            assert(c.contains(c[i]));
        }
    }
    let tail = c + rest;
    let middle = b + seq![separator] + tail;
    law_separators_part_the_pieces(a, separator, middle, set);
    law_separators_part_the_pieces(b, separator, tail, set);
    if rest.len() > 0 {
        let more = rest.drop_first();
        law_separators_part_the_pieces(c, separator, more, set);
        assert(tail =~= c + seq![separator] + more);
    } else {
        law_separators_part_the_pieces(c, separator, c, set);
        assert(tail =~= c);
    }
    assert(a + seq![separator] + b + seq![separator] + c + rest =~= a + seq![separator] + middle);
}

/// A date is read from the first three parts between its slashes; whatever stands behind a third
/// slash is passed over.
pub proof fn law_how_dates_are_read(a: Seq<char>, b: Seq<char>, c: Seq<char>, rest: Seq<char>)
    requires
        !a.contains('/'),
        !b.contains('/'),
        !c.contains('/'),
        is_cut_off(rest, '/'),
    ensures
        date_fields(a + seq!['/'] + b + seq!['/'] + c + rest) == match (
            i32_numeral(a),
            u32_numeral(b),
            u32_numeral(c),
        ) {
            (Some(y), Some(m), Some(d)) => Some((y, m, d)),
            _ => None,
        },
        date_fields(a) is None,
        date_fields(a + seq!['/'] + b) is None,
{
    lemma_three_pieces(a, b, c, rest, '/');
    lemma_two_pieces(a, b, '/');
}

/// One separator makes two pieces, none makes one.
proof fn lemma_two_pieces(a: Seq<char>, b: Seq<char>, separator: char)
    requires
        !a.contains(separator),
        !b.contains(separator),
    ensures
        pieces(a, CharSet::One(separator)).len() == 1,
        pieces(a + seq![separator] + b, CharSet::One(separator)).len() == 2,
{
    let set = CharSet::One(separator);
    assert(is_free_of(a, set)) by {
        assert forall|i: int| 0 <= i < a.len() implies !set.has(#[trigger] a[i]) by {
            assert(a.contains(a[i]));
        }
    }
    assert(is_free_of(b, set)) by {
        assert forall|i: int| 0 <= i < b.len() implies !set.has(#[trigger] b[i]) by {
            assert(b.contains(b[i]));
        }
    }
    law_separators_part_the_pieces(a, separator, b, set);
    law_separators_part_the_pieces(b, separator, a, set);
}

/// A time of day is read from the first three parts between its colons.
pub proof fn law_how_times_of_day_are_read(a: Seq<char>, b: Seq<char>, c: Seq<char>, rest: Seq<char>)
    requires
        !a.contains(':'),
        !b.contains(':'),
        !c.contains(':'),
        is_cut_off(rest, ':'),
    ensures
        clock_fields(a + seq![':'] + b + seq![':'] + c + rest) == match (
            u32_numeral(a),
            u32_numeral(b),
            second_fields(c),
        ) {
            (Some(h), Some(m), Some((s, ms))) => Some((h, m, s, ms)),
            _ => None,
        },
        clock_fields(a) is None,
        clock_fields(a + seq![':'] + b) is None,
{
    lemma_three_pieces(a, b, c, rest, ':');
    lemma_two_pieces(a, b, ':');
}

/// Seconds are read up to the first point, and the first three bytes behind it are the thousandths:
/// zero where there are fewer, or where they are no numeral.
pub proof fn law_how_seconds_are_read(whole: Seq<char>, fraction: Seq<char>, rest: Seq<char>)
    requires
        !whole.contains('.'),
        byte_len(fraction) == 3,
    ensures
        second_fields(whole) == match u32_numeral(whole) {
            Some(s) => Some((s, 0int)),
            None => None,
        },
        second_fields(whole + seq!['.'] + fraction + rest) == match u32_numeral(whole) {
            Some(s) => Some(
                (
                    s,
                    match u32_numeral(fraction) {
                        Some(n) => n,
                        None => 0,
                    },
                ),
            ),
            None => None,
        },
        forall|other: Seq<char>|
            (forall|n: int| 0 <= n <= other.len() ==> byte_len(#[trigger] other.take(n)) != 3)
                ==> #[trigger] second_fields(whole + seq!['.'] + other) == match u32_numeral(whole) {
                Some(s) => Some((s, 0int)),
                None => None,
            },
{
    let set = CharSet::One('.');
    assert forall|i: int| 0 <= i < whole.len() implies !set.has(#[trigger] whole[i]) by {
        assert(whole.contains(whole[i]));
    }
    lemma_first_in(whole, set, whole.len() as int);
    let n = whole.len() as int;
    let text = whole + seq!['.'] + fraction + rest;
    assert forall|k: int| 0 <= k < n implies !set.has(#[trigger] text[k]) by {
        assert(text[k] == whole[k]);
    }
    assert(text[n] == '.');
    lemma_first_in(text, set, n);
    assert(text.take(n) =~= whole);
    assert(text.skip(n + 1) =~= fraction + rest);
    let none = Seq::<char>::empty();
    assert(fraction + rest =~= none + fraction + rest);
    assert(none + fraction =~= fraction);
    assert(byte_len(none) == 0);
    law_a_range_of_bytes(fraction + rest, 0, 3, fraction);
    assert forall|short: Seq<char>|
        (forall|n: int| 0 <= n <= short.len() ==> byte_len(#[trigger] short.take(n)) != 3) implies #[trigger] second_fields(
        whole + seq!['.'] + short,
    ) == match u32_numeral(whole) {
        Some(s) => Some((s, 0int)),
        None => None,
    } by {
        let t = whole + seq!['.'] + short;
        assert forall|k: int| 0 <= k < n implies !set.has(#[trigger] t[k]) by {
            assert(t[k] == whole[k]);
        }
        assert(t[n] == '.');
        lemma_first_in(t, set, n);
        assert(t.take(n) =~= whole);
        assert(t.skip(n + 1) =~= short);
        if let Some(i) = char_at_byte(short, 3) {
            law_where_a_byte_falls(short, 3, i);
            assert(byte_len(short.take(i as int)) == 3);
        }
        assert(thousandths(short) == 0);
    }
}

/// A stamp tells a time by its first two words, a date and a time of day.
pub proof fn law_how_stamps_are_read(date: Seq<char>, space: char, time: Seq<char>, rest: Seq<char>)
    requires
        date.len() > 0,
        time.len() > 0,
        forall|i: int| 0 <= i < date.len() ==> !is_space(#[trigger] date[i]),
        forall|i: int| 0 <= i < time.len() ==> !is_space(#[trigger] time[i]),
        is_space(space),
        rest.len() > 0 ==> is_space(rest[0]),
    ensures
        stamp_time(date + seq![space] + time + rest) == match (date_fields(date), clock_fields(time)) {
            (Some((y, mo, d)), Some((h, mi, s, ms))) => Some(
                CivilTime {
                    year: y as i32,
                    month: mo as u32,
                    day: d as u32,
                    hour: h as u32,
                    minute: mi as u32,
                    second: s as u32,
                    nano: (ms * 1_000_000) as u32,
                },
            ),
            _ => None,
        },
        stamp_time(date) is None,
{
    let tail = time + rest;
    assert(date + seq![space] + time + rest =~= date + seq![space] + tail);
    law_white_space_parts_the_words(date, space, tail);
    if rest.len() > 0 {
        let more = rest.drop_first();
        law_white_space_parts_the_words(time, rest[0], more);
        assert(tail =~= time + seq![rest[0]] + more);
    } else {
        law_white_space_parts_the_words(time, space, time);
        assert(tail =~= time);
    }
    let w = words(date + seq![space] + tail);
    assert(w.len() >= 2 && w[0] == date && w[1] == time);
    assert(words(date).len() == 1);
}

/// The texts of a time that a line is stamped with.
pub struct StampTexts {
    pub year: Seq<char>,
    pub month: Seq<char>,
    pub day: Seq<char>,
    pub hour: Seq<char>,
    pub minute: Seq<char>,
    pub second: Seq<char>,
    pub thousandths: Seq<char>,
}

/// The stamp that these texts make: `year/month/day hour:minute:second.thousandths`.
pub open spec fn stamp_of(t: StampTexts) -> Seq<char> {
    t.year + seq!['/'] + t.month + seq!['/'] + t.day + seq![' '] + t.hour + seq![':'] + t.minute
        + seq![':'] + t.second + seq!['.'] + t.thousandths
}

/// The text is made of digits.
pub open spec fn is_number(s: Seq<char>) -> bool {
    s.len() > 0 && forall|i: int| 0 <= i < s.len() ==> '0' <= #[trigger] s[i] <= '9'
}

proof fn lemma_number(s: Seq<char>, c: char)
    requires
        is_number(s),
        !('0' <= c <= '9'),
    ensures
        !s.contains(c),
        forall|i: int| 0 <= i < s.len() ==> !is_space(#[trigger] s[i]),
        byte_len(s) == s.len(),
{
    assert forall|i: int| 0 <= i < s.len() implies #[trigger] s[i] != c && !is_space(s[i]) by {
        assert('0' <= s[i] <= '9');
    }
    assert forall|i: int| 0 <= i < s.len() implies (#[trigger] s[i]) as int <= 127 by {
        assert('0' <= s[i] <= '9');
    }
    law_bytes_of_texts_in_a_row(s, s);
}

/// A line that is stamped with a time was written at that time on the clock of the logs, eight hours
/// ahead of Greenwich, to the thousandth of a second, whatever stands behind the stamp.
pub proof fn law_when_a_line_was_written(t: StampTexts, rest: Seq<char>)
    requires
        is_number(t.year),
        is_number(t.month),
        is_number(t.day),
        is_number(t.hour),
        is_number(t.minute),
        is_number(t.second),
        is_number(t.thousandths),
        t.thousandths.len() == 3,
    ensures
        business_time(seq!['['] + stamp_of(t) + seq![']'] + rest) == match (
            i32_numeral(t.year),
            u32_numeral(t.month),
            u32_numeral(t.day),
            u32_numeral(t.hour),
            u32_numeral(t.minute),
            u32_numeral(t.second),
            u32_numeral(t.thousandths),
        ) {
            (Some(y), Some(mo), Some(d), Some(h), Some(mi), Some(s), Some(ms)) => civil_millis(
                CivilTime {
                    year: y as i32,
                    month: mo as u32,
                    day: d as u32,
                    hour: h as u32,
                    minute: mi as u32,
                    second: s as u32,
                    nano: (ms * 1_000_000) as u32,
                },
                28_800,
            ),
            _ => None,
        },
{
    let none = Seq::<char>::empty();
    lemma_number(t.year, '/');
    lemma_number(t.month, '/');
    lemma_number(t.day, '/');
    lemma_number(t.hour, ':');
    lemma_number(t.minute, ':');
    lemma_number(t.second, '.');
    lemma_number(t.second, ':');
    lemma_number(t.thousandths, ':');
    let date = t.year + seq!['/'] + t.month + seq!['/'] + t.day;
    let second = t.second + seq!['.'] + t.thousandths;
    let time = t.hour + seq![':'] + t.minute + seq![':'] + second;
    assert(date + none =~= date);
    law_how_dates_are_read(t.year, t.month, t.day, none);
    assert(!second.contains(':')) by {
        assert forall|i: int| 0 <= i < second.len() implies #[trigger] second[i] != ':' by {
            if i < t.second.len() {
                assert(second[i] == t.second[i]);
                assert(t.second.contains(t.second[i]));
            } else if i > t.second.len() {
                assert(second[i] == t.thousandths[i - t.second.len() - 1]);
                assert(t.thousandths.contains(t.thousandths[i - t.second.len() - 1]));
            }
        }
    }
    assert(second + none =~= second);
    law_how_seconds_are_read(t.second, t.thousandths, none);
    assert(time + none =~= time);
    law_how_times_of_day_are_read(t.hour, t.minute, second, none);
    let stamp = date + seq![' '] + time;
    assert(stamp + none =~= stamp);
    assert(stamp_of(t) =~= stamp);
    lemma_stamp_parts(t, date, time);
    law_how_stamps_are_read(date, ' ', time, none);
    let line = seq!['['] + stamp_of(t) + seq![']'] + rest;
    law_where_the_stamp_stands(line, stamp);
    crate::numerals::lemma_short_numeral(t.thousandths);
    lemma_is_u32(t.thousandths);
}

/// Three digits are a numeral.
proof fn lemma_is_u32(s: Seq<char>)
    requires
        is_number(s),
        s.len() == 3,
    ensures
        u32_numeral(s) is Some,
{
    assert(crate::numerals::all_digits(s)) by {
        assert forall|i: int| 0 <= i < s.len() implies crate::numerals::is_digit(
            #[trigger] s[i],
        ) by {
            assert('0' <= s[i] <= '9');
        }
    }
    assert('0' <= s[0] <= '9' && '0' <= s[1] <= '9' && '0' <= s[2] <= '9');
    reveal_with_fuel(crate::numerals::digits_value, 4);
    assert(s.drop_last().drop_last().drop_last().len() == 0);
    assert(s.drop_last().drop_last().last() == s[0]);
    assert(s.drop_last().last() == s[1]);
}

proof fn lemma_stamp_parts(t: StampTexts, date: Seq<char>, time: Seq<char>)
    requires
        is_number(t.year),
        is_number(t.month),
        is_number(t.day),
        is_number(t.hour),
        is_number(t.minute),
        is_number(t.second),
        is_number(t.thousandths),
        date == t.year + seq!['/'] + t.month + seq!['/'] + t.day,
        time == t.hour + seq![':'] + t.minute + seq![':'] + (t.second + seq!['.'] + t.thousandths),
    ensures
        forall|i: int| 0 <= i < date.len() ==> !is_space(#[trigger] date[i]),
        forall|i: int| 0 <= i < time.len() ==> !is_space(#[trigger] time[i]),
        !(date + seq![' '] + time).contains(']'),
{
    assert forall|i: int| 0 <= i < date.len() implies !is_space(#[trigger] date[i]) && date[i] != ']' by {
        let a = t.year.len();
        let b = t.month.len();
        if i < a {
            assert(date[i] == t.year[i]);
            assert('0' <= t.year[i] <= '9');
        } else if i == a {
            assert(date[i] == '/');
        } else if i < a + 1 + b {
            assert(date[i] == t.month[i - a - 1]);
            assert('0' <= t.month[i - a - 1] <= '9');
        } else if i == a + 1 + b {
            assert(date[i] == '/');
        } else {
            assert(date[i] == t.day[i - a - b - 2]);
            assert('0' <= t.day[i - a - b - 2] <= '9');
        }
    }
    assert forall|i: int| 0 <= i < time.len() implies !is_space(#[trigger] time[i]) && time[i] != ']' by {
        let a = t.hour.len();
        let b = t.minute.len();
        let c = t.second.len();
        if i < a {
            assert(time[i] == t.hour[i]);
            assert('0' <= t.hour[i] <= '9');
        } else if i == a {
            assert(time[i] == ':');
        } else if i < a + 1 + b {
            assert(time[i] == t.minute[i - a - 1]);
            assert('0' <= t.minute[i - a - 1] <= '9');
        } else if i == a + 1 + b {
            assert(time[i] == ':');
        } else if i < a + b + 2 + c {
            assert(time[i] == t.second[i - a - b - 2]);
            assert('0' <= t.second[i - a - b - 2] <= '9');
        } else if i == a + b + 2 + c {
            assert(time[i] == '.');
        } else {
            assert(time[i] == t.thousandths[i - a - b - c - 3]);
            assert('0' <= t.thousandths[i - a - b - c - 3] <= '9');
        }
    }
    let all = date + seq![' '] + time;
    assert forall|i: int| 0 <= i < all.len() implies #[trigger] all[i] != ']' by {
        if i < date.len() {
            assert(all[i] == date[i]);
        } else if i > date.len() {
            assert(all[i] == time[i - date.len() - 1]);
        }
    }
}

/// A line was written at the time that its stamp tells, on the clock of the logs; a line without a
/// stamp, or whose stamp tells no time, at no known time.
pub proof fn law_lines_go_by_their_stamps(line: Seq<char>)
    ensures
        stamp_text(line) is Some && stamp_time(stamp_text(line)->0) is Some ==> business_time(line)
            == civil_millis(stamp_time(stamp_text(line)->0)->0, 28_800),
        stamp_text(line) is None ==> business_time(line) is None,
        stamp_text(line) is Some && stamp_time(stamp_text(line)->0) is None ==> business_time(line)
            is None,
        business_time(line) is Some ==> line.len() > 2 && line[0] == '[' && line.contains(']'),
{
    if business_time(line) is Some {
        lemma_first_in_bounds(line, CharSet::One(']'));
        let n = first_in(line, CharSet::One(']')) as int;
        assert(line[n] == ']');
    }
}

// ---------------------------------------------------------------------------
// Sessions
// ---------------------------------------------------------------------------

/// A text can be the id of a session where it has eight characters or more, all of them hex digits
/// or hyphens.
pub proof fn law_what_can_be_a_session(s: Seq<char>)
    ensures
        is_session_id(s) <==> s.len() >= 8 && forall|i: int|
            0 <= i < s.len() ==> is_hex(#[trigger] s[i]) || s[i] == '-',
{
    if s.len() >= 8 && forall|i: int| 0 <= i < s.len() ==> is_hex(#[trigger] s[i]) || s[i] == '-' {
        assert forall|i: int| 0 <= i < s.len() implies CharSet::IdChars.has(#[trigger] s[i]) by {}
    }
    if is_session_id(s) {
        assert forall|i: int| 0 <= i < s.len() implies is_hex(#[trigger] s[i]) || s[i] == '-' by {
            assert(CharSet::IdChars.has(s[i]));
        }
    }
}

/// The hex digits and hyphens at the start of a text.
proof fn lemma_id_prefix(id: Seq<char>, b: Seq<char>)
    requires
        forall|i: int| 0 <= i < id.len() ==> CharSet::IdChars.has(#[trigger] id[i]),
        b.len() > 0 ==> !CharSet::IdChars.has(b[0]),
    ensures
        id_prefix(id + b) == id,
    decreases id.len(),
{
    let s = id + b;
    if id.len() == 0 {
        assert(s =~= b);
        assert(id =~= Seq::empty());
    } else {
        let rest = id.drop_first();
        assert forall|i: int| 0 <= i < rest.len() implies CharSet::IdChars.has(
            #[trigger] rest[i],
        ) by {
            assert(CharSet::IdChars.has(id[i + 1]));
        }
        lemma_id_prefix(rest, b);
        assert(s.drop_first() =~= rest + b);
        assert(CharSet::IdChars.has(id[0]));
        assert(s[0] == id[0]);
        assert(seq![id[0]] + rest =~= id);
    }
}

/// What stands behind the first marker of a line, up to the first character that is no hex digit and
/// no hyphen, is the id there, unless it is empty or stands in for an id; without a marker there is
/// none.
pub proof fn law_which_id_stands_behind_a_marker(
    a: Seq<char>,
    marker: Seq<char>,
    id: Seq<char>,
    b: Seq<char>,
)
    requires
        forall|j: int|
            0 <= j < a.len() ==> !#[trigger] occurs_at(a + marker + (id + b), marker, j),
        forall|i: int| 0 <= i < id.len() ==> is_hex(#[trigger] id[i]) || id[i] == '-',
        b.len() > 0 ==> !is_hex(b[0]) && b[0] != '-',
    ensures
        id_after(a + marker + (id + b), marker) == if is_placeholder(id) {
            None
        } else {
            Some(id)
        },
        !contains_text(a, marker) ==> id_after(a, marker) is None,
{
    let line = a + marker + (id + b);
    lemma_index_from(line, marker, 0);
    let n = a.len() as int;
    assert(line.subrange(n, n + marker.len()) =~= marker);
    assert(occurs_at(line, marker, n));
    let k = index_of(line, marker)->0;
    assert(k == n) by {
        if k < n {
            assert(!occurs_at(line, marker, k));
        }
    }
    assert(line.skip(n + marker.len()) =~= id + b);
    assert forall|i: int| 0 <= i < id.len() implies CharSet::IdChars.has(#[trigger] id[i]) by {}
    lemma_id_prefix(id, b);
}

/// An empty text stands in for an id, and so do the words `reqId` and `sessionId` in any case.
pub proof fn law_what_stands_in_for_an_id(s: Seq<char>)
    ensures
        s.len() == 0 ==> is_placeholder(s),
        is_placeholder(s) && s.len() > 0 ==> s.len() == 5 || s.len() == 9,
        s.len() == 5 ==> (is_placeholder(s) <==> (s[0] == 'r' || s[0] == 'R') && (s[1] == 'e' || s[1]
            == 'E') && (s[2] == 'q' || s[2] == 'Q') && (s[3] == 'i' || s[3] == 'I') && (s[4] == 'd'
            || s[4] == 'D')),
        s.len() == 9 ==> (is_placeholder(s) <==> (s[0] == 's' || s[0] == 'S') && (s[1] == 'e' || s[1]
            == 'E') && (s[2] == 's' || s[2] == 'S') && (s[3] == 's' || s[3] == 'S') && (s[4] == 'i'
            || s[4] == 'I') && (s[5] == 'o' || s[5] == 'O') && (s[6] == 'n' || s[6] == 'N') && (s[7]
            == 'i' || s[7] == 'I') && (s[8] == 'd' || s[8] == 'D')),
{
    reveal_strlit("reqId");
    reveal_strlit("sessionId");
    let r = "reqId"@;
    let t = "sessionId"@;
    assert(r.len() == 5 && t.len() == 9);
    law_only_the_case_of_ascii_letters_is_ignored(s, r);
    law_only_the_case_of_ascii_letters_is_ignored(s, t);
    if s.len() == 5 {
        assert(r[0] == 'r' && r[1] == 'e' && r[2] == 'q' && r[3] == 'I' && r[4] == 'd');
        lemma_same_case_all(s, r);
    }
    if s.len() == 9 {
        assert(t[0] == 's' && t[1] == 'e' && t[2] == 's' && t[3] == 's' && t[4] == 'i' && t[5] == 'o'
            && t[6] == 'n' && t[7] == 'I' && t[8] == 'd');
        lemma_same_case_all(s, t);
    }
}

/// The characters are the same but for the case of ASCII letters.
spec fn same_letter(x: char, y: char) -> bool {
    x as int == y as int || (65 <= x as int <= 90 && y as int == x as int + 32) || (65 <= y as int
        <= 90 && x as int == y as int + 32)
}

proof fn lemma_same_case_all(a: Seq<char>, b: Seq<char>)
    requires
        a.len() == b.len(),
    ensures
        crate::text::same_ignoring_case(a, b) <==> forall|i: int|
            0 <= i < a.len() ==> same_letter(#[trigger] a[i], b[i]),
        a.len() == 5 ==> (crate::text::same_ignoring_case(a, b) <==> same_letter(a[0], b[0])
            && same_letter(a[1], b[1]) && same_letter(a[2], b[2]) && same_letter(a[3], b[3])
            && same_letter(a[4], b[4])),
        a.len() == 9 ==> (crate::text::same_ignoring_case(a, b) <==> same_letter(a[0], b[0])
            && same_letter(a[1], b[1]) && same_letter(a[2], b[2]) && same_letter(a[3], b[3])
            && same_letter(a[4], b[4]) && same_letter(a[5], b[5]) && same_letter(a[6], b[6])
            && same_letter(a[7], b[7]) && same_letter(a[8], b[8])),
{
    law_only_the_case_of_ascii_letters_is_ignored(a, b);
    if forall|i: int| 0 <= i < a.len() ==> same_letter(#[trigger] a[i], b[i]) {
        assert(crate::text::same_ignoring_case(a, b));
    }
    if crate::text::same_ignoring_case(a, b) {
        assert forall|i: int| 0 <= i < a.len() implies same_letter(#[trigger] a[i], b[i]) by {}
    }
}

/// What stands in the last brackets of a line, behind the last slash in them and without white space
/// around it, is the id there, unless it stands in for one. A line whose last closing bracket does
/// not come behind its last opening one has none.
pub proof fn law_which_id_stands_in_brackets(a: Seq<char>, x: Seq<char>, b: Seq<char>)
    requires
        !x.contains('('),
        !b.contains('('),
        !b.contains(')'),
    ensures
        ({
            let id = trimmed(last_piece(trimmed(x), CharSet::One('/')));
            id_in_brackets(a + seq!['('] + x + seq![')'] + b) == if is_placeholder(id) {
                None
            } else {
                Some(id)
            }
        }),
        id_in_brackets(b) is None,
        id_in_brackets(a + seq!['('] + b) is None,
{
    let line = a + seq!['('] + x + seq![')'] + b;
    law_the_last_place_is_found(line, '(');
    law_the_last_place_is_found(line, ')');
    let open = a.len() as int;
    let close = open + 1 + x.len();
    assert(line[open] == '(' && line[close] == ')');
    assert(line.contains('(')) by {
        assert(line[open] == '(');
    }
    assert(line.contains(')')) by {
        assert(line[close] == ')');
    }
    assert(last_index(line, '(') == Some(open)) by {
        let k = last_index(line, '(')->0;
        if k > open {
            if k < close {
                assert(line[k] == x[k - open - 1]);
                assert(x.contains(x[k - open - 1]));
            } else if k > close {
                assert(line[k] == b[k - close - 1]);
                assert(b.contains(b[k - close - 1]));
            }
        }
    }
    assert(last_index(line, ')') == Some(close)) by {
        let k = last_index(line, ')')->0;
        if k > close {
            assert(line[k] == b[k - close - 1]);
            assert(b.contains(b[k - close - 1]));
        }
    }
    assert(line.subrange(open + 1, close) =~= x);
    law_the_last_place_is_found(b, '(');
    if let Some(k) = last_index(b, '(') {
        assert(b.contains(b[k]));
    }
    let l2 = a + seq!['('] + b;
    law_the_last_place_is_found(l2, '(');
    law_the_last_place_is_found(l2, ')');
    assert(l2[open] == '(');
    assert(l2.contains('('));
    if let Some(k) = last_index(l2, ')') {
        if k > open {
            assert(l2[k] == b[k - open - 1]);
            assert(b.contains(b[k - open - 1]));
        }
        let o = last_index(l2, '(')->0;
        assert(o >= open);
    }
}

} // verus!
