//! Timestamps in the wire's fixed format: year, month and day, then hour,
//! minute and second, then exactly six fractional digits, UTC throughout.
//! The round trip is exact to the microsecond, and parsing checks calendar
//! validity, leap years included.

use vstd::prelude::*;

use vstd::arithmetic::power::pow;

use crate::radix::{
    all_digits_of, digit_value, fixed_width, lemma_fixed_width_round_trip, lemma_pow10_facts,
    lemma_run_val_bound, push_fixed_width, run_val,
};
use crate::text::{chars_string, str_chars};

verus! {

/// One moment, to microsecond precision.
#[derive(Clone, Copy, PartialEq, Eq, Structural, Debug)]
pub struct Timestamp {
    pub year: u32,
    pub month: u8,
    pub day: u8,
    pub hour: u8,
    pub minute: u8,
    pub second: u8,
    pub micros: u32,
}

pub open spec fn is_leap_year(y: int) -> bool {
    y % 4 == 0 && (y % 100 != 0 || y % 400 == 0)
}

pub open spec fn spec_days_in_month(y: int, m: int) -> int {
    if m == 2 {
        if is_leap_year(y) {
            29
        } else {
            28
        }
    } else if m == 4 || m == 6 || m == 9 || m == 11 {
        30
    } else {
        31
    }
}

/// A calendar-valid moment the four-digit year can carry.
pub open spec fn ts_wf(t: Timestamp) -> bool {
    &&& t.year <= 9999
    &&& 1 <= t.month <= 12
    &&& 1 <= t.day <= spec_days_in_month(t.year as int, t.month as int)
    &&& t.hour <= 23
    &&& t.minute <= 59
    &&& t.second <= 59
    &&& t.micros <= 999999
}

/// The 26-character text of a moment.
pub open spec fn ts_text(t: Timestamp) -> Seq<char> {
    fixed_width(10, t.year as int, 4) + seq!['-'] + fixed_width(10, t.month as int, 2) + seq!['-']
        + fixed_width(10, t.day as int, 2) + seq![' '] + fixed_width(10, t.hour as int, 2) + seq![
        ':',
    ] + fixed_width(10, t.minute as int, 2) + seq![':'] + fixed_width(10, t.second as int, 2)
        + seq!['.'] + fixed_width(10, t.micros as int, 6)
}

/// The moments a text denotes: exactly the fixed format, with every field
/// in range and the day valid for its month and year.
pub open spec fn parse_ts_text(s: Seq<char>) -> Option<Timestamp> {
    if s.len() == 26 && s[4] == '-' && s[7] == '-' && s[10] == ' ' && s[13] == ':' && s[16] == ':'
        && s[19] == '.' && all_digits_of(10, s.subrange(0, 4)) && all_digits_of(
        10,
        s.subrange(5, 7),
    ) && all_digits_of(10, s.subrange(8, 10)) && all_digits_of(10, s.subrange(11, 13))
        && all_digits_of(10, s.subrange(14, 16)) && all_digits_of(10, s.subrange(17, 19))
        && all_digits_of(10, s.subrange(20, 26)) {
        let year = run_val(10, s.subrange(0, 4));
        let month = run_val(10, s.subrange(5, 7));
        let day = run_val(10, s.subrange(8, 10));
        let hour = run_val(10, s.subrange(11, 13));
        let minute = run_val(10, s.subrange(14, 16));
        let second = run_val(10, s.subrange(17, 19));
        let micros = run_val(10, s.subrange(20, 26));
        if 1 <= month <= 12 && 1 <= day <= spec_days_in_month(year, month) && hour <= 23 && minute
            <= 59 && second <= 59 {
            Some(
                Timestamp {
                    year: year as u32,
                    month: month as u8,
                    day: day as u8,
                    hour: hour as u8,
                    minute: minute as u8,
                    second: second as u8,
                    micros: micros as u32,
                },
            )
        } else {
            None
        }
    } else {
        None
    }
}

/// The written text of a valid moment parses back to it.
pub proof fn lemma_ts_text_round_trip(t: Timestamp)
    requires
        ts_wf(t),
    ensures
        parse_ts_text(ts_text(t)) == Some(t),
        ts_text(t).len() == 26,
{
    lemma_pow10_facts();
    lemma_fixed_width_round_trip(10, t.year as int, 4);
    lemma_fixed_width_round_trip(10, t.month as int, 2);
    lemma_fixed_width_round_trip(10, t.day as int, 2);
    lemma_fixed_width_round_trip(10, t.hour as int, 2);
    lemma_fixed_width_round_trip(10, t.minute as int, 2);
    lemma_fixed_width_round_trip(10, t.second as int, 2);
    lemma_fixed_width_round_trip(10, t.micros as int, 6);
    let s = ts_text(t);
    assert(s.len() == 26);
    assert(s.subrange(0, 4) =~= fixed_width(10, t.year as int, 4));
    assert(s.subrange(5, 7) =~= fixed_width(10, t.month as int, 2));
    assert(s.subrange(8, 10) =~= fixed_width(10, t.day as int, 2));
    assert(s.subrange(11, 13) =~= fixed_width(10, t.hour as int, 2));
    assert(s.subrange(14, 16) =~= fixed_width(10, t.minute as int, 2));
    assert(s.subrange(17, 19) =~= fixed_width(10, t.second as int, 2));
    assert(s.subrange(20, 26) =~= fixed_width(10, t.micros as int, 6));
    assert(s[4] == '-' && s[7] == '-' && s[10] == ' ' && s[13] == ':' && s[16] == ':' && s[19]
        == '.');
}

/// Whether a year has 366 days.
pub fn leap_year(y: u32) -> (r: bool)
    ensures
        r == is_leap_year(y as int),
{
    y % 4 == 0 && (y % 100 != 0 || y % 400 == 0)
}

/// The day count of a month.
pub fn days_in_month(y: u32, m: u8) -> (r: u8)
    ensures
        r as int == spec_days_in_month(y as int, m as int),
{
    if m == 2 {
        if leap_year(y) {
            29
        } else {
            28
        }
    } else if m == 4 || m == 6 || m == 9 || m == 11 {
        30
    } else {
        31
    }
}

impl Timestamp {
    /// The fixed-format text of this moment.
    pub fn to_text(&self) -> (r: String)
        requires
            ts_wf(*self),
        ensures
            r@ == ts_text(*self),
    {
        let mut out: Vec<char> = Vec::new();
        push_fixed_width(&mut out, 10, self.year as u128, 4);
        out.push('-');
        push_fixed_width(&mut out, 10, self.month as u128, 2);
        out.push('-');
        push_fixed_width(&mut out, 10, self.day as u128, 2);
        out.push(' ');
        push_fixed_width(&mut out, 10, self.hour as u128, 2);
        out.push(':');
        push_fixed_width(&mut out, 10, self.minute as u128, 2);
        out.push(':');
        push_fixed_width(&mut out, 10, self.second as u128, 2);
        out.push('.');
        push_fixed_width(&mut out, 10, self.micros as u128, 6);
        proof {
            assert(out@ =~= ts_text(*self));
        }
        chars_string(&out)
    }

    /// Parses the fixed format, rejecting out-of-range fields and days the
    /// calendar does not have.
    pub fn parse_text(s: &str) -> (r: Option<Timestamp>)
        ensures
            match r {
                Some(t) => parse_ts_text(s@) == Some(t),
                None => parse_ts_text(s@) is None,
            },
    {
        let cs = str_chars(s);
        if cs.len() != 26 {
            return None;
        }
        if !(cs[4] == '-' && cs[7] == '-' && cs[10] == ' ' && cs[13] == ':' && cs[16] == ':'
            && cs[19] == '.') {
            return None;
        }
        let year = match parse_dec_run(&cs, 0, 4) {
            Option::Some(v) => v,
            Option::None => {
                return None;
            },
        };
        let month = match parse_dec_run(&cs, 5, 2) {
            Option::Some(v) => v,
            Option::None => {
                return None;
            },
        };
        let day = match parse_dec_run(&cs, 8, 2) {
            Option::Some(v) => v,
            Option::None => {
                return None;
            },
        };
        let hour = match parse_dec_run(&cs, 11, 2) {
            Option::Some(v) => v,
            Option::None => {
                return None;
            },
        };
        let minute = match parse_dec_run(&cs, 14, 2) {
            Option::Some(v) => v,
            Option::None => {
                return None;
            },
        };
        let second = match parse_dec_run(&cs, 17, 2) {
            Option::Some(v) => v,
            Option::None => {
                return None;
            },
        };
        let micros = match parse_dec_run(&cs, 20, 6) {
            Option::Some(v) => v,
            Option::None => {
                return None;
            },
        };
        proof {
            lemma_pow10_facts();
            lemma_run_val_bound(10, s@.subrange(0, 4));
            lemma_run_val_bound(10, s@.subrange(5, 7));
            lemma_run_val_bound(10, s@.subrange(8, 10));
            lemma_run_val_bound(10, s@.subrange(11, 13));
            lemma_run_val_bound(10, s@.subrange(14, 16));
            lemma_run_val_bound(10, s@.subrange(17, 19));
            lemma_run_val_bound(10, s@.subrange(20, 26));
        }
        if !(1 <= month && month <= 12) {
            return None;
        }
        let dim = days_in_month(year as u32, month as u8);
        if !(1 <= day && day <= dim as u64) {
            return None;
        }
        if !(hour <= 23 && minute <= 59 && second <= 59) {
            return None;
        }
        Some(
            Timestamp {
                year: year as u32,
                month: month as u8,
                day: day as u8,
                hour: hour as u8,
                minute: minute as u8,
                second: second as u8,
                micros: micros as u32,
            },
        )
    }
}

/// Parses `width` decimal digits at `start`; the value fits 48 bits.
fn parse_dec_run(cs: &Vec<char>, start: usize, width: usize) -> (r: Option<u64>)
    requires
        start + width <= cs@.len(),
        width <= 11,
    ensures
        match r {
            Some(v) => all_digits_of(10, cs@.subrange(start as int, (start + width) as int)) && v
                == run_val(10, cs@.subrange(start as int, (start + width) as int)),
            None => !all_digits_of(10, cs@.subrange(start as int, (start + width) as int)),
        },
{
    let ghost seg = cs@.subrange(start as int, (start + width) as int);
    let n = cs.len();
    let mut acc: u64 = 0;
    let mut j: usize = 0;
    while j < width
        invariant
            j <= width,
            width <= 11,
            n == cs@.len(),
            start + width <= n,
            seg == cs@.subrange(start as int, (start + width) as int),
            all_digits_of(10, seg.take(j as int)),
            acc == run_val(10, seg.take(j as int)),
            acc < 100000000000,
        decreases width - j,
    {
        let c = cs[start + j];
        let d: u32 = match digit_value(10, c) {
            Option::Some(d) => d,
            Option::None => {
                proof {
                    assert(seg[j as int] == c);
                }
                return None;
            },
        };
        proof {
            let t = seg.take(j + 1);
            assert(t.drop_last() =~= seg.take(j as int));
            assert(t.last() == c);
            crate::radix::lemma_run_val_bound(10, seg.take(j as int));
            assert(pow(10, seg.take(j as int).len() as nat) <= pow(10, 10nat)) by {
                vstd::arithmetic::power::lemma_pow_increases(
                    10nat,
                    seg.take(j as int).len() as nat,
                    10nat,
                );
            }
            lemma_pow10_facts();
            assert(pow(10, 10nat) * 10 == pow(10, 11nat)) by {
                reveal(pow);
            }
            assert forall|w: int| 0 <= w < t.len() implies crate::radix::is_digit_of(
                10,
                #[trigger] t[w],
            ) by {
                if w < t.len() - 1 {
                    assert(t[w] == seg.take(j as int)[w]);
                }
            }
        }
        acc = acc * 10 + d as u64;
        j = j + 1;
    }
    proof {
        assert(seg.take(width as int) =~= seg);
    }
    Some(acc)
}

} // verus!
