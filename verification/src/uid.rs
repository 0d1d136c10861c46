//! Unique requirement identifiers: a 128-bit value written and read in the
//! canonical hyphenated form, lowercase hex in five groups of 8-4-4-4-12
//! digits. Parsing accepts uppercase digits; formatting is lowercase.

use vstd::prelude::*;

use vstd::arithmetic::power::pow;

use crate::radix::{
    all_digits_of, fixed_width, lemma_fixed_width_concat, lemma_fixed_width_round_trip,
    lemma_run_val_bound, lemma_run_val_concat, push_fixed_width, digit_value, run_val,
};
use crate::text::{chars_string, str_chars};

verus! {

/// A unique identifier: 128 bits.
#[derive(Clone, Copy, PartialEq, Eq, Structural, Debug)]
pub struct UuidValue {
    pub bits: u128,
}

/// The canonical hyphenated, lowercase text of an identifier.
pub open spec fn uuid_text(bits: u128) -> Seq<char> {
    let n = bits as int;
    fixed_width(16, n / pow(16, 24), 8) + seq!['-'] + fixed_width(16, n / pow(16, 20), 4)
        + seq!['-'] + fixed_width(16, n / pow(16, 16), 4) + seq!['-'] + fixed_width(
        16,
        n / pow(16, 12),
        4,
    ) + seq!['-'] + fixed_width(16, n, 12)
}

/// The 32 hex digits of a 36-character hyphenated form, hyphens removed.
pub open spec fn uuid_digit_chars(s: Seq<char>) -> Seq<char> {
    s.subrange(0, 8) + s.subrange(9, 13) + s.subrange(14, 18) + s.subrange(19, 23) + s.subrange(
        24,
        36,
    )
}

/// The identifiers a text denotes: exactly the 36-character hyphenated
/// form.
pub open spec fn parse_uuid_text(s: Seq<char>) -> Option<u128> {
    if s.len() == 36 && s[8] == '-' && s[13] == '-' && s[18] == '-' && s[23] == '-'
        && all_digits_of(16, uuid_digit_chars(s)) {
        Some(run_val(16, uuid_digit_chars(s)) as u128)
    } else {
        None
    }
}

/// The canonical text of an identifier parses back to it.
pub proof fn lemma_uuid_text_round_trip(bits: u128)
    ensures
        parse_uuid_text(uuid_text(bits)) == Some(bits),
        uuid_text(bits).len() == 36,
{
    let n = bits as int;
    let s = uuid_text(bits);
    crate::radix::lemma_pow16_facts();
    vstd::arithmetic::power::lemma_pow_adds(16, 24, 8);
    vstd::arithmetic::power::lemma_pow_adds(16, 20, 4);
    vstd::arithmetic::power::lemma_pow_adds(16, 16, 4);
    vstd::arithmetic::power::lemma_pow_adds(16, 12, 4);
    lemma_fixed_width_round_trip(16, n / pow(16, 24), 8);
    assert(n / pow(16, 24) < pow(16, 8)) by (nonlinear_arith)
        requires
            0 <= n < pow(16, 32),
            pow(16, 24) > 0,
            pow(16, 32) == pow(16, 24) * pow(16, 8),
    ;
    assert(pow(16, 32) == pow(16, 24) * pow(16, 8) && pow(16, 24) == pow(16, 20) * pow(16, 4)
        && pow(16, 20) == pow(16, 16) * pow(16, 4) && pow(16, 16) == pow(16, 12) * pow(16, 4));
    assert(0 <= n / pow(16, 24)) by (nonlinear_arith)
        requires
            0 <= n,
            pow(16, 24) > 0,
    ;
    let a = fixed_width(16, n / pow(16, 24), 8);
    let b = fixed_width(16, n / pow(16, 20), 4);
    let c = fixed_width(16, n / pow(16, 16), 4);
    let d = fixed_width(16, n / pow(16, 12), 4);
    let e = fixed_width(16, n, 12);
    crate::radix::lemma_fixed_width_props(16, n / pow(16, 20), 4);
    crate::radix::lemma_fixed_width_props(16, n / pow(16, 16), 4);
    crate::radix::lemma_fixed_width_props(16, n / pow(16, 12), 4);
    crate::radix::lemma_fixed_width_props(16, n, 12);
    assert(0 <= n / pow(16, 20) && 0 <= n / pow(16, 16) && 0 <= n / pow(16, 12))
        by (nonlinear_arith)
        requires
            0 <= n,
            pow(16, 20) > 0,
            pow(16, 16) > 0,
            pow(16, 12) > 0,
    ;
    assert(s.len() == 36);
    assert(s[8] == '-' && s[13] == '-' && s[18] == '-' && s[23] == '-');
    // the digit positions reassemble into the full 32-digit numeral
    lemma_fixed_width_concat(16, n, 8, 24);
    lemma_fixed_width_concat(16, n, 4, 20);
    lemma_fixed_width_concat(16, n, 4, 16);
    lemma_fixed_width_concat(16, n, 4, 12);
    assert(fixed_width(16, n, 32) =~= a + fixed_width(16, n, 24));
    assert(fixed_width(16, n, 24) =~= b + fixed_width(16, n, 20));
    assert(fixed_width(16, n, 20) =~= c + fixed_width(16, n, 16));
    assert(fixed_width(16, n, 16) =~= d + e);
    assert(uuid_digit_chars(s) =~= a + b + c + d + e);
    assert(a + b + c + d + e =~= fixed_width(16, n, 32));
    lemma_fixed_width_round_trip(16, n, 32);
    assert(run_val(16, uuid_digit_chars(s)) == n);
    assert(all_digits_of(16, uuid_digit_chars(s)));
}

impl UuidValue {
    /// The canonical hyphenated lowercase form.
    pub fn to_text(&self) -> (r: String)
        ensures
            r@ == uuid_text(self.bits),
    {
        let n = self.bits;
        let mut out: Vec<char> = Vec::new();
        proof {
            crate::radix::lemma_pow16_facts();
        }
        push_fixed_width(&mut out, 16, n / 0x1000000000000000000000000u128, 8);
        out.push('-');
        push_fixed_width(&mut out, 16, n / 0x100000000000000000000u128, 4);
        out.push('-');
        push_fixed_width(&mut out, 16, n / 0x10000000000000000u128, 4);
        out.push('-');
        push_fixed_width(&mut out, 16, n / 0x1000000000000u128, 4);
        out.push('-');
        push_fixed_width(&mut out, 16, n, 12);
        proof {
            crate::radix::lemma_pow16_facts();
            assert(0 <= (n as int) / pow(16, 24) && 0 <= (n as int) / pow(16, 20) && 0 <= (
            n as int) / pow(16, 16) && 0 <= (n as int) / pow(16, 12)) by (nonlinear_arith)
                requires
                    0 <= n as int,
                    pow(16, 24) > 0 && pow(16, 20) > 0 && pow(16, 16) > 0 && pow(16, 12) > 0,
            ;
            crate::radix::lemma_fixed_width_props(16, (n as int) / pow(16, 24), 8);
            crate::radix::lemma_fixed_width_props(16, (n as int) / pow(16, 20), 4);
            crate::radix::lemma_fixed_width_props(16, (n as int) / pow(16, 16), 4);
            crate::radix::lemma_fixed_width_props(16, (n as int) / pow(16, 12), 4);
            crate::radix::lemma_fixed_width_props(16, n as int, 12);
            assert((n / 0x1000000000000000000000000u128) as int == (n as int) / pow(16, 24));
            assert((n / 0x100000000000000000000u128) as int == (n as int) / pow(16, 20));
            assert((n / 0x10000000000000000u128) as int == (n as int) / pow(16, 16));
            assert((n / 0x1000000000000u128) as int == (n as int) / pow(16, 12));
            assert(out@ =~= uuid_text(self.bits));
        }
        chars_string(&out)
    }

    /// Parses the canonical hyphenated form, either case.
    pub fn parse_text(s: &str) -> (r: Option<UuidValue>)
        ensures
            match r {
                Some(u) => parse_uuid_text(s@) == Some(u.bits),
                None => parse_uuid_text(s@) is None,
            },
    {
        let cs = str_chars(s);
        if cs.len() != 36 {
            return None;
        }
        if !(cs[8] == '-' && cs[13] == '-' && cs[18] == '-' && cs[23] == '-') {
            return None;
        }
        let a = match parse_hex_run(&cs, 0, 8) {
            Option::Some(v) => v,
            Option::None => {
                proof {
                    lemma_segment_spoils(s@, 0, 8);
                }
                return None;
            },
        };
        let b = match parse_hex_run(&cs, 9, 4) {
            Option::Some(v) => v,
            Option::None => {
                proof {
                    lemma_segment_spoils(s@, 9, 13);
                }
                return None;
            },
        };
        let c = match parse_hex_run(&cs, 14, 4) {
            Option::Some(v) => v,
            Option::None => {
                proof {
                    lemma_segment_spoils(s@, 14, 18);
                }
                return None;
            },
        };
        let d = match parse_hex_run(&cs, 19, 4) {
            Option::Some(v) => v,
            Option::None => {
                proof {
                    lemma_segment_spoils(s@, 19, 23);
                }
                return None;
            },
        };
        let e = match parse_hex_run(&cs, 24, 12) {
            Option::Some(v) => v,
            Option::None => {
                proof {
                    lemma_segment_spoils(s@, 24, 36);
                }
                return None;
            },
        };
        proof {
            lemma_run_val_bound(16, s@.subrange(0, 8));
            lemma_run_val_bound(16, s@.subrange(9, 13));
            lemma_run_val_bound(16, s@.subrange(14, 18));
            lemma_run_val_bound(16, s@.subrange(19, 23));
            lemma_run_val_bound(16, s@.subrange(24, 36));
            crate::radix::lemma_pow16_facts();
        }
        let bits: u128 = (a as u128) * 0x1000000000000000000000000u128 + (b as u128)
            * 0x100000000000000000000u128 + (c as u128) * 0x10000000000000000u128 + (d as u128)
            * 0x1000000000000u128 + (e as u128);
        proof {
            let digits = uuid_digit_chars(s@);
            lemma_run_val_concat(16, s@.subrange(0, 8) + s@.subrange(9, 13) + s@.subrange(14, 18)
                + s@.subrange(19, 23), s@.subrange(24, 36));
            lemma_run_val_concat(16, s@.subrange(0, 8) + s@.subrange(9, 13) + s@.subrange(14, 18),
                s@.subrange(19, 23));
            lemma_run_val_concat(16, s@.subrange(0, 8) + s@.subrange(9, 13), s@.subrange(14, 18));
            lemma_run_val_concat(16, s@.subrange(0, 8), s@.subrange(9, 13));
            assert(run_val(16, digits) == bits as int);
            assert(all_digits_of(16, digits)) by {
                assert forall|i: int| 0 <= i < digits.len() implies crate::radix::is_digit_of(
                    16,
                    #[trigger] digits[i],
                ) by {
                    if i < 8 {
                        assert(digits[i] == s@.subrange(0, 8)[i]);
                    } else if i < 12 {
                        assert(digits[i] == s@.subrange(9, 13)[i - 8]);
                    } else if i < 16 {
                        assert(digits[i] == s@.subrange(14, 18)[i - 12]);
                    } else if i < 20 {
                        assert(digits[i] == s@.subrange(19, 23)[i - 16]);
                    } else {
                        assert(digits[i] == s@.subrange(24, 36)[i - 20]);
                    }
                }
            }
        }
        Some(UuidValue { bits })
    }
}

/// A segment that fails to parse spoils the whole digit sequence.
proof fn lemma_segment_spoils(s: Seq<char>, lo: int, hi: int)
    requires
        s.len() == 36,
        0 <= lo < hi <= 36,
        (lo, hi) == (0int, 8int) || (lo, hi) == (9int, 13int) || (lo, hi) == (14int, 18int) || (
        lo,
        hi,
        ) == (19int, 23int) || (lo, hi) == (24int, 36int),
        !all_digits_of(16, s.subrange(lo, hi)),
    ensures
        !all_digits_of(16, uuid_digit_chars(s)),
{
    let seg = s.subrange(lo, hi);
    let digits = uuid_digit_chars(s);
    let j = choose|j: int| 0 <= j < seg.len() && !crate::radix::is_digit_of(16, seg[j]);
    let off: int = if lo == 0 {
        0
    } else if lo == 9 {
        8
    } else if lo == 14 {
        12
    } else if lo == 19 {
        16
    } else {
        20
    };
    assert(digits[off + j] == seg[j]);
}

/// Parses `width` hex digits at `start`; the value fits 48 bits.
fn parse_hex_run(cs: &Vec<char>, start: usize, width: usize) -> (r: Option<u64>)
    requires
        start + width <= cs@.len(),
        width <= 12,
    ensures
        match r {
            Some(v) => all_digits_of(16, cs@.subrange(start as int, (start + width) as int)) && v
                == run_val(16, cs@.subrange(start as int, (start + width) as int)),
            None => !all_digits_of(16, cs@.subrange(start as int, (start + width) as int)),
        },
{
    let ghost seg = cs@.subrange(start as int, (start + width) as int);
    let n = cs.len();
    let mut acc: u64 = 0;
    let mut j: usize = 0;
    while j < width
        invariant
            j <= width,
            width <= 12,
            n == cs@.len(),
            start + width <= n,
            seg == cs@.subrange(start as int, (start + width) as int),
            all_digits_of(16, seg.take(j as int)),
            acc == run_val(16, seg.take(j as int)),
            acc < 0x1000000000000,
        decreases width - j,
    {
        let c = cs[start + j];
        let d: u32 = match digit_value(16, c) {
            Option::Some(d) => d,
            Option::None => {
                proof {
                    assert(seg[j as int] == c);
                }
                return None;
            },
        };
        proof {
            let t = seg.take(j + 1);
            assert(t.drop_last() =~= seg.take(j as int));
            assert(t.last() == c);
            assert(all_digits_of(16, seg.take(j as int)));
            crate::radix::lemma_run_val_bound(16, seg.take(j as int));
            assert(pow(16, seg.take(j as int).len() as nat) <= pow(16, 11nat)) by {
                vstd::arithmetic::power::lemma_pow_increases(16nat, seg.take(j as int).len() as nat, 11nat);
            }
            crate::radix::lemma_pow16_facts();
            assert forall|w: int| 0 <= w < t.len() implies crate::radix::is_digit_of(
                16,
                #[trigger] t[w],
            ) by {
                if w < t.len() - 1 {
                    assert(t[w] == seg.take(j as int)[w]);
                }
            }
        }
        acc = acc * 16 + d as u64;
        j = j + 1;
    }
    proof {
        assert(seg.take(width as int) =~= seg);
    }
    Some(acc)
}

} // verus!
