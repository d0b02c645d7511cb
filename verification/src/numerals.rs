//! Decimal numerals: writing integers and reading them back.

use crate::text::chars_of;
use vstd::prelude::*;

verus! {

broadcast use vstd::string::group_string_axioms;

// ---------------------------------------------------------------------------
// Writing
// ---------------------------------------------------------------------------

/// The decimal digit for `d`.
pub open spec fn digit(d: int) -> char {
    (('0' as int) + d) as char
}

/// `n` in decimal, without leading zeros.
pub open spec fn nat_text(n: nat) -> Seq<char>
    decreases n,
{
    if n < 10 {
        seq![digit(n as int)]
    } else {
        nat_text(n / 10).push(digit((n % 10) as int))
    }
}

/// `n` in decimal, with a `-` in front where it is negative.
pub open spec fn int_text(n: int) -> Seq<char> {
    if n < 0 {
        seq!['-'] + nat_text((-n) as nat)
    } else {
        nat_text(n as nat)
    }
}

fn push_nat(out: &mut String, n: u64)
    ensures
        final(out)@ == old(out)@ + nat_text(n as nat),
    decreases n,
{
    if n >= 10 {
        push_nat(out, n / 10);
    }
    let d: u8 = (n % 10) as u8;
    out.push((48u8 + d) as char);
    assert(out@ =~= old(out)@ + nat_text(n as nat));
}

/// `n` in decimal.
pub fn decimal(n: i64) -> (r: String)
    ensures
        r@ == int_text(n as int),
{
    let mut out = String::new();
    if n < 0 {
        out.push('-');
        let magnitude: u64 = (-(n as i128)) as u64;
        push_nat(&mut out, magnitude);
        assert(out@ =~= int_text(n as int));
    } else {
        push_nat(&mut out, n as u64);
        assert(out@ =~= int_text(n as int));
    }
    out
}

// ---------------------------------------------------------------------------
// Reading
// ---------------------------------------------------------------------------

pub open spec fn is_digit(c: char) -> bool {
    '0' <= c <= '9'
}

pub open spec fn all_digits(s: Seq<char>) -> bool {
    forall|i: int| 0 <= i < s.len() ==> is_digit(#[trigger] s[i])
}

/// The value of a run of decimal digits.
pub open spec fn digits_value(s: Seq<char>) -> nat
    decreases s.len(),
{
    if s.len() == 0 {
        0
    } else {
        (digits_value(s.drop_last()) * 10 + (s.last() as int - '0' as int)) as nat
    }
}

/// Three digits at most write a number below a thousand.
pub proof fn lemma_short_numeral(s: Seq<char>)
    requires
        s.len() <= 3,
    ensures
        u32_numeral(s) matches Some(v) ==> 0 <= v < 1000,
{
    lemma_short_digits(s);
    if s.len() > 0 {
        lemma_short_digits(s.drop_first());
    }
}

proof fn lemma_short_digits(s: Seq<char>)
    requires
        s.len() <= 3,
    ensures
        all_digits(s) ==> digits_value(s) < 1000,
{
    if all_digits(s) && s.len() > 0 {
        assert(is_digit(s[s.len() - 1]));
        let t = s.drop_last();
        if t.len() > 0 {
            assert(is_digit(s[t.len() - 1]));
            let u = t.drop_last();
            if u.len() > 0 {
                assert(is_digit(s[u.len() - 1]));
                assert(digits_value(u.drop_last()) == 0);
            }
            assert(digits_value(u) < 10);
        }
        assert(digits_value(t) < 100);
    }
}

/// The value of a run of one digit or more.
pub open spec fn magnitude(s: Seq<char>) -> Option<int> {
    if s.len() > 0 && all_digits(s) {
        Some(digits_value(s) as int)
    } else {
        None
    }
}

/// The integer that `s` writes: digits behind an optional `+`, or, where `signed`, behind a `-`.
pub open spec fn numeral_value(s: Seq<char>, signed: bool) -> Option<int> {
    if s.len() > 0 && s[0] == '+' {
        magnitude(s.drop_first())
    } else if s.len() > 0 && s[0] == '-' && signed {
        match magnitude(s.drop_first()) {
            Some(v) => Some(-v),
            None => None,
        }
    } else {
        magnitude(s)
    }
}

/// The integer that `s` writes, where it lies from `lo` to `hi`.
pub open spec fn bounded_numeral(s: Seq<char>, signed: bool, lo: int, hi: int) -> Option<int> {
    match numeral_value(s, signed) {
        Some(v) => if lo <= v <= hi {
            Some(v)
        } else {
            None
        },
        None => None,
    }
}

/// What a decimal `i64` reads as.
pub open spec fn i64_numeral(s: Seq<char>) -> Option<int> {
    bounded_numeral(s, true, i64::MIN as int, i64::MAX as int)
}

/// What a decimal `i32` reads as.
pub open spec fn i32_numeral(s: Seq<char>) -> Option<int> {
    bounded_numeral(s, true, i32::MIN as int, i32::MAX as int)
}

/// What a decimal `u32` reads as.
pub open spec fn u32_numeral(s: Seq<char>) -> Option<int> {
    bounded_numeral(s, false, 0, u32::MAX as int)
}

/// An optional machine integer as an optional integer.
pub open spec fn opt_int(v: Option<i64>) -> Option<int> {
    match v {
        Some(v) => Some(v as int),
        None => None,
    }
}

const TOO_LARGE: u64 = 0x8000_0000_0000_0001;

/// The value of the digits from `lo` on; one past the largest magnitude of an `i64` stands for
/// every value beyond it.
fn read_digits(chars: &Vec<char>, lo: usize) -> (r: Option<u64>)
    requires
        lo <= chars@.len(),
    ensures
        r is Some == magnitude(chars@.skip(lo as int)) is Some,
        r matches Some(v) ==> {
            let exact = magnitude(chars@.skip(lo as int))->0;
            if exact < TOO_LARGE {
                v == exact
            } else {
                v == TOO_LARGE
            }
        },
{
    if lo == chars.len() {
        return None;
    }
    let ghost rest = chars@.skip(lo as int);
    let mut value: u64 = 0;
    let mut i: usize = lo;
    while i < chars.len()
        invariant
            lo <= i <= chars@.len(),
            rest == chars@.skip(lo as int),
            forall|k: int| 0 <= k < i - lo ==> is_digit(#[trigger] rest[k]),
            value <= TOO_LARGE,
            ({
                let exact = digits_value(rest.take(i - lo));
                if exact < TOO_LARGE {
                    value == exact
                } else {
                    value == TOO_LARGE
                }
            }),
        decreases chars@.len() - i,
    {
        let c = chars[i];
        if !('0' <= c && c <= '9') {
            assert(!is_digit(rest[i - lo]));
            return None;
        }
        let d: u64 = (c as u32 - '0' as u32) as u64;
        proof {
            let longer = rest.take(i - lo + 1);
            assert(longer.drop_last() =~= rest.take(i - lo));
            assert(longer.last() == c);
        }
        let wide: u128 = (value as u128) * 10 + d as u128;
        value = if wide < TOO_LARGE as u128 {
            wide as u64
        } else {
            TOO_LARGE
        };
        i += 1;
    }
    assert(rest.take(i - lo) =~= rest);
    Some(value)
}

/// The integer that `s` writes, where it lies from `lo` to `hi`.
pub fn parse_bounded(s: &str, signed: bool, lo: i64, hi: i64) -> (r: Option<i64>)
    ensures
        opt_int(r) == bounded_numeral(s@, signed, lo as int, hi as int),
{
    let chars = chars_of(s);
    let plus = chars.len() > 0 && chars[0] == '+';
    let minus = chars.len() > 0 && chars[0] == '-' && signed;
    let start: usize = if plus || minus {
        1
    } else {
        0
    };
    proof {
        assert(chars@.skip(0) =~= s@);
        if s@.len() > 0 {
            assert(chars@.skip(1) =~= s@.drop_first());
        }
    }
    match read_digits(&chars, start) {
        None => None,
        Some(v) => {
            let value: i128 = if minus {
                -(v as i128)
            } else {
                v as i128
            };
            if (lo as i128) <= value && value <= (hi as i128) && v != TOO_LARGE {
                Some(value as i64)
            } else {
                None
            }
        },
    }
}

} // verus!
