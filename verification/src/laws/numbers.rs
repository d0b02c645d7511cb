//! What numerals and calendar times stand for.

use crate::clock::{
    civil_millis, days_before_month, days_in_month, days_since_epoch, is_date, is_leap_year,
    is_time_of_day, CivilTime,
};
use crate::numerals::{
    all_digits, bounded_numeral, digit, digits_value, i32_numeral, i64_numeral, int_text, is_digit,
    nat_text, numeral_value, u32_numeral,
};
use vstd::prelude::*;

verus! {

broadcast use vstd::string::group_string_axioms;

// ---------------------------------------------------------------------------
// Numerals
// ---------------------------------------------------------------------------

/// A digit stands for its value, and one more digit makes ten times as much and its own value.
pub proof fn law_what_digits_stand_for(s: Seq<char>, c: char)
    ensures
        is_digit(c) <==> c == '0' || c == '1' || c == '2' || c == '3' || c == '4' || c == '5' || c
            == '6' || c == '7' || c == '8' || c == '9',
        is_digit(c) ==> digits_value(s.push(c)) == digits_value(s) * 10 + (c as int - 48),
        digits_value(Seq::empty()) == 0,
        all_digits(s) <==> forall|i: int| 0 <= i < s.len() ==> 48 <= (#[trigger] s[i]) as int <= 57,
{
    assert(s.push(c).drop_last() =~= s);
    if forall|i: int| 0 <= i < s.len() ==> 48 <= (#[trigger] s[i]) as int <= 57 {
        assert forall|i: int| 0 <= i < s.len() implies is_digit(#[trigger] s[i]) by {}
    }
    if all_digits(s) {
        assert forall|i: int| 0 <= i < s.len() implies 48 <= (#[trigger] s[i]) as int <= 57 by {
            assert(is_digit(s[i]));
        }
    }
}

/// A number that is written is read back as itself. It is written in digits alone, and begins with
/// a zero only where it is zero.
pub proof fn law_written_numbers_are_read_back(n: nat)
    ensures
        nat_text(n).len() > 0,
        all_digits(nat_text(n)),
        digits_value(nat_text(n)) == n,
        n > 0 ==> nat_text(n)[0] != '0',
    decreases n,
{
    let t = nat_text(n);
    if n < 10 {
        assert(t.drop_last().len() == 0);
        assert(digits_value(t.drop_last()) == 0);
        assert(is_digit(digit(n as int)));
    } else {
        law_written_numbers_are_read_back(n / 10);
        let head = nat_text(n / 10);
        assert(t.drop_last() =~= head);
        assert(is_digit(digit((n % 10) as int)));
        assert forall|i: int| 0 <= i < t.len() implies is_digit(#[trigger] t[i]) by {
            if i < head.len() {
                assert(is_digit(head[i]));
            }
        }
    }
}

/// Integers are read back as themselves, the negative ones by their sign, wherever they lie within
/// the bounds; a sign that is not allowed makes no numeral.
pub proof fn law_written_integers_are_read_back(n: int)
    ensures
        i64::MIN <= n <= i64::MAX ==> i64_numeral(int_text(n)) == Some(n),
        i32::MIN <= n <= i32::MAX ==> i32_numeral(int_text(n)) == Some(n),
        0 <= n <= u32::MAX ==> u32_numeral(int_text(n)) == Some(n),
        !(i64::MIN <= n <= i64::MAX) ==> i64_numeral(int_text(n)) is None,
        !(i32::MIN <= n <= i32::MAX) ==> i32_numeral(int_text(n)) is None,
        !(0 <= n <= u32::MAX) ==> u32_numeral(int_text(n)) is None,
{
    let t = int_text(n);
    if n < 0 {
        law_written_numbers_are_read_back((-n) as nat);
        assert(t.drop_first() =~= nat_text((-n) as nat));
        assert(t[0] == '-');
        assert(!is_digit(t[0]));
        assert(!all_digits(t));
    } else {
        law_written_numbers_are_read_back(n as nat);
        assert(is_digit(t[0]));
    }
}

/// A text is a numeral exactly where it is one digit or more, behind at most one sign; a `+` changes
/// nothing, a `-` is allowed for signed numbers and makes the value negative.
pub proof fn law_what_a_numeral_is(s: Seq<char>, signed: bool)
    ensures
        s.len() > 0 && all_digits(s) ==> numeral_value(s, signed) == Some(digits_value(s) as int),
        s.len() > 0 && all_digits(s) ==> numeral_value(seq!['+'] + s, signed) == Some(
            digits_value(s) as int,
        ),
        s.len() > 0 && all_digits(s) && signed ==> numeral_value(seq!['-'] + s, signed) == Some(
            -(digits_value(s) as int),
        ),
        !signed ==> numeral_value(seq!['-'] + s, signed) is None,
        numeral_value(s, signed) is Some ==> {
            let body = if s[0] == '+' || s[0] == '-' {
                s.drop_first()
            } else {
                s
            };
            body.len() > 0 && all_digits(body) && s.len() > 0
        },
{
    if s.len() > 0 && all_digits(s) {
        assert(is_digit(s[0]));
    }
    assert((seq!['+'] + s).drop_first() =~= s);
    assert((seq!['-'] + s).drop_first() =~= s);
    let minus = seq!['-'] + s;
    assert(!is_digit(minus[0]));
    assert(!all_digits(minus));
}

/// A bounded numeral reads as its value where that lies within the bounds, both included, and as
/// nothing elsewhere.
pub proof fn law_what_a_bounded_numeral_is(s: Seq<char>, signed: bool, lo: int, hi: int, n: int)
    ensures
        bounded_numeral(s, signed, lo, hi) == Some(n) <==> numeral_value(s, signed) == Some(n) && lo
            <= n <= hi,
        i64_numeral(s) == bounded_numeral(
            s,
            true,
            -9_223_372_036_854_775_808,
            9_223_372_036_854_775_807,
        ),
        i32_numeral(s) == bounded_numeral(s, true, -2_147_483_648, 2_147_483_647),
        u32_numeral(s) == bounded_numeral(s, false, 0, 4_294_967_295),
{
}

// ---------------------------------------------------------------------------
// Calendar
// ---------------------------------------------------------------------------

/// The days are counted one by one from the first of January 1970: the next day of a month, the
/// first of the next month and the first of the next year each count one more.
pub proof fn law_days_are_counted_one_by_one(year: int, month: int, day: int)
    requires
        1 <= month <= 12,
    ensures
        days_since_epoch(1970, 1, 1) == 0,
        days_since_epoch(year, month, day + 1) == days_since_epoch(year, month, day) + 1,
        month < 12 ==> days_since_epoch(year, month + 1, 1) == days_since_epoch(
            year,
            month,
            days_in_month(year, month),
        ) + 1,
        days_since_epoch(year + 1, 1, 1) == days_since_epoch(year, 12, 31) + 1,
{
    assert(days_before_month(1970, 1) == 0);
    assert(days_before_month(year + 1, 1) == 0);
    lemma_year(year);
    lemma_leap(year);
}

proof fn lemma_year(year: int)
    ensures
        days_before_month(year, 12) + 31 == if is_leap_year(year) {
            366int
        } else {
            365
        },
{
    reveal_with_fuel(days_before_month, 13);
}

proof fn lemma_leap(year: int)
    ensures
        year / 4 - year / 100 + year / 400 - ((year - 1) / 4 - (year - 1) / 100 + (year - 1) / 400)
            == if is_leap_year(year) {
            1int
        } else {
            0
        },
{
}

/// February has a day more every fourth year, but for three of four centuries; the other months have
/// their thirty or thirty-one.
pub proof fn law_how_long_months_are(year: int, month: int)
    ensures
        is_leap_year(year) <==> year % 400 == 0 || (year % 4 == 0 && year % 100 != 0),
        month == 2 ==> days_in_month(year, month) == if is_leap_year(year) {
            29int
        } else {
            28
        },
        month == 4 || month == 6 || month == 9 || month == 11 ==> days_in_month(year, month) == 30,
        month == 1 || month == 3 || month == 5 || month == 7 || month == 8 || month == 10 || month
            == 12 ==> days_in_month(year, month) == 31,
{
}

/// A moment is counted in milliseconds: so many as its day, hour, minute, second and fraction lie
/// behind the start of 1970 on the clock of its zone, less those by which that clock is ahead.
pub proof fn law_moments_are_counted_in_milliseconds(t: CivilTime, offset: int)
    requires
        is_date(t),
        is_time_of_day(t),
        -86400 < offset < 86400,
        -262142 <= t.year <= 262141,
    ensures
        civil_millis(t, offset) == Some(
            (((days_since_epoch(t.year as int, t.month as int, t.day as int) * 24 + t.hour) * 60
                + t.minute) * 60 + t.second - offset) * 1000 + t.nano as int / 1_000_000,
        ),
{
    lemma_within(t);
    let d = days_since_epoch(t.year as int, t.month as int, t.day as int);
    assert(days_since_epoch(-262143, 1, 1) + 365 <= d);
    assert(d + 365 <= days_since_epoch(262142, 12, 31));
}

/// The days of a year within reach lie within reach.
proof fn lemma_within(t: CivilTime)
    requires
        is_date(t),
        -262142 <= t.year <= 262141,
    ensures
        ({
            let d = days_since_epoch(t.year as int, t.month as int, t.day as int);
            &&& days_since_epoch(-262143, 1, 1) + 365 <= d
            &&& d + 365 <= days_since_epoch(262142, 12, 31)
        }),
{
    let y = t.year as int;
    lemma_year(y);
    lemma_month(y, t.month as int);
    lemma_year(262142);
    assert(days_before_month(-262143, 1) == 0);
}

proof fn lemma_month(year: int, month: int)
    requires
        1 <= month <= 12,
    ensures
        0 <= days_before_month(year, month),
        days_before_month(year, month) + days_in_month(year, month) <= 366,
        !is_leap_year(year) ==> days_before_month(year, month) + days_in_month(year, month) <= 365,
{
    reveal_with_fuel(days_before_month, 13);
}

/// Without such a date, such a time of day or such a zone there is no moment.
pub proof fn law_only_real_times_are_moments(t: CivilTime, offset: int)
    ensures
        civil_millis(t, offset) is Some ==> {
            &&& 1 <= t.month <= 12
            &&& 1 <= t.day <= days_in_month(t.year as int, t.month as int)
            &&& t.hour < 24 && t.minute < 60 && t.second < 60
            &&& t.nano < 2_000_000_000
            &&& t.nano >= 1_000_000_000 ==> t.second == 59
            &&& -86400 < offset < 86400
        },
{
}

} // verus!
