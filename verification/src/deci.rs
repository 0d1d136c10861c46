//! Decimal numerals over character sequences: the one numeric encoding the
//! wire format uses. Numbers are written canonically (a minus sign for
//! negatives, no leading zeroes); parsing accepts an optional sign and any
//! digit run that fits the target width.

use vstd::prelude::*;

verus! {

pub open spec fn is_dec_digit(c: char) -> bool {
    '0' <= c && c <= '9'
}

pub open spec fn digit_val(c: char) -> int {
    c as int - 48
}

pub open spec fn all_digits(s: Seq<char>) -> bool {
    forall|i: int| 0 <= i < s.len() ==> is_dec_digit(#[trigger] s[i])
}

/// The value of a digit run, most significant digit first.
pub open spec fn dec_val(s: Seq<char>) -> int
    decreases s.len(),
{
    if s.len() == 0 {
        0
    } else {
        dec_val(s.drop_last()) * 10 + digit_val(s.last())
    }
}

pub open spec fn digit_char(d: int) -> char {
    (48 + d) as char
}

/// The canonical numeral of a non-negative number.
pub open spec fn dec_of(n: nat) -> Seq<char>
    decreases n,
{
    if n <= 9 {
        seq![digit_char(n as int)]
    } else {
        dec_of(n / 10).push(digit_char((n % 10) as int))
    }
}

/// The canonical numeral of any integer.
pub open spec fn int_text(v: int) -> Seq<char> {
    if v < 0 {
        seq!['-'] + dec_of((-v) as nat)
    } else {
        dec_of(v as nat)
    }
}

/// The integers a signed numeral denotes: an optional sign, then at least
/// one digit.
pub open spec fn parse_int_text(s: Seq<char>) -> Option<int> {
    let signed = s.len() > 0 && (s[0] == '-' || s[0] == '+');
    let body = if signed {
        s.drop_first()
    } else {
        s
    };
    if body.len() >= 1 && all_digits(body) {
        if s.len() > 0 && s[0] == '-' {
            Some(-dec_val(body))
        } else {
            Some(dec_val(body))
        }
    } else {
        None
    }
}

/// The numerals accepted as a 32-bit integer.
pub open spec fn parse_i32_text(s: Seq<char>) -> Option<int> {
    match parse_int_text(s) {
        Some(v) => if -0x8000_0000 <= v <= 0x7fff_ffff {
            Some(v)
        } else {
            None
        },
        None => None,
    }
}

pub proof fn lemma_dec_of_digits(n: nat)
    ensures
        all_digits(dec_of(n)),
        dec_of(n).len() >= 1,
        dec_val(dec_of(n)) == n,
    decreases n,
{
    if n <= 9 {
        assert(dec_of(n) == seq![digit_char(n as int)]);
        assert(dec_val(dec_of(n)) == dec_val(dec_of(n).drop_last()) * 10 + digit_val(dec_of(n).last()));
        assert(dec_of(n).drop_last() =~= Seq::<char>::empty());
        assert(digit_val(digit_char(n as int)) == n);
    } else {
        lemma_dec_of_digits(n / 10);
        let s = dec_of(n);
        assert(s.drop_last() =~= dec_of(n / 10));
        assert(digit_val(digit_char((n % 10) as int)) == n % 10);
        assert(dec_val(s) == (n / 10) * 10 + n % 10);
        assert((n / 10) * 10 + n % 10 == n) by (nonlinear_arith);
        assert forall|i: int| 0 <= i < s.len() implies is_dec_digit(s[i]) by {
            if i < s.len() - 1 {
                assert(s[i] == dec_of(n / 10)[i]);
            }
        }
    }
}

pub proof fn lemma_dec_val_bounds(s: Seq<char>)
    requires
        all_digits(s),
    ensures
        0 <= dec_val(s),
    decreases s.len(),
{
    if s.len() > 0 {
        assert(all_digits(s.drop_last())) by {
            assert(forall|i: int| 0 <= i < s.len() - 1 ==> s.drop_last()[i] == s[i]);
        }
        lemma_dec_val_bounds(s.drop_last());
        assert(is_dec_digit(s.last()));
        assert(dec_val(s.drop_last()) * 10 >= 0) by (nonlinear_arith)
            requires
                dec_val(s.drop_last()) >= 0,
        ;
    }
}

/// Longer digit runs denote no smaller values.
pub proof fn lemma_dec_val_prefix(s: Seq<char>, i: int)
    requires
        all_digits(s),
        0 <= i <= s.len(),
    ensures
        dec_val(s.take(i)) <= dec_val(s),
    decreases s.len() - i,
{
    if i < s.len() {
        lemma_dec_val_prefix(s, i + 1);
        let t = s.take(i + 1);
        assert(t.drop_last() =~= s.take(i));
        assert(all_digits(s.take(i))) by {
            assert(forall|k: int| 0 <= k < i ==> s.take(i)[k] == s[k]);
        }
        lemma_dec_val_bounds(s.take(i));
        assert(is_dec_digit(t.last()));
        assert(dec_val(t) == dec_val(s.take(i)) * 10 + digit_val(t.last()));
        assert(dec_val(s.take(i)) * 10 >= dec_val(s.take(i))) by (nonlinear_arith)
            requires
                dec_val(s.take(i)) >= 0,
        ;
    } else {
        assert(s.take(i) =~= s);
    }
}

/// The canonical numeral of an integer parses back to it.
pub proof fn lemma_int_text_round_trip(v: int)
    requires
        -0x8000_0000 <= v <= 0x7fff_ffff,
    ensures
        parse_i32_text(int_text(v)) == Some(v),
{
    if v < 0 {
        lemma_dec_of_digits((-v) as nat);
        let s = int_text(v);
        assert(s[0] == '-');
        assert(s.drop_first() =~= dec_of((-v) as nat));
    } else {
        lemma_dec_of_digits(v as nat);
        let s = int_text(v);
        assert(is_dec_digit(s[0]));
        assert(s[0] != '-' && s[0] != '+');
    }
}

/// Formats a non-negative number as its canonical numeral.
pub fn format_u32(n: u32) -> (r: Vec<char>)
    ensures
        r@ == dec_of(n as nat),
    decreases n,
{
    if n <= 9 {
        let mut v: Vec<char> = Vec::new();
        v.push((48 + n as u8) as char);
        proof {
            assert(v@ =~= dec_of(n as nat));
        }
        v
    } else {
        let mut v: Vec<char> = format_u32(n / 10);
        v.push((48 + (n % 10) as u8) as char);
        proof {
            assert(v@ =~= dec_of(n as nat));
        }
        v
    }
}

/// Formats a signed 32-bit integer as its canonical numeral.
pub fn format_i32(v: i32) -> (r: Vec<char>)
    ensures
        r@ == int_text(v as int),
{
    if v < 0 {
        let mag: u32 = (-(v as i64)) as u32;
        let digits: Vec<char> = format_u32(mag);
        let mut r: Vec<char> = Vec::new();
        r.push('-');
        let n = digits.len();
        for i in 0..n
            invariant
                n == digits@.len(),
                r@ =~= seq!['-'] + digits@.take(i as int),
        {
            r.push(digits[i]);
            proof {
                assert(digits@.take(i + 1) =~= digits@.take(i as int).push(digits@[i as int]));
            }
        }
        proof {
            assert(digits@.take(n as int) =~= digits@);
        }
        r
    } else {
        format_u32(v as u32)
    }
}

/// Parses a signed 32-bit integer; `None` on any other shape or on a value
/// out of range.
pub fn parse_i32_chars(s: &Vec<char>) -> (r: Option<i32>)
    ensures
        match r {
            Some(v) => parse_i32_text(s@) == Some(v as int),
            None => parse_i32_text(s@) is None,
        },
{
    let len = s.len();
    if len == 0 {
        return None;
    }
    let c0 = s[0];
    let signed: bool = c0 == '-' || c0 == '+';
    let neg: bool = c0 == '-';
    let start: usize = if signed {
        1
    } else {
        0
    };
    if start == len {
        return None;
    }
    let ghost body = if signed {
        s@.drop_first()
    } else {
        s@
    };
    proof {
        assert(body =~= s@.subrange(start as int, len as int));
    }
    let mut acc: u64 = 0;
    let mut i: usize = start;
    while i < len
        invariant
            start <= i <= len,
            len == s@.len(),
            len > 0,
            signed == (s@[0] == '-' || s@[0] == '+'),
            neg == (s@[0] == '-'),
            start == if signed { 1int } else { 0int },
            body == s@.subrange(start as int, len as int),
            body == (if signed {
                s@.drop_first()
            } else {
                s@
            }),
            body.len() >= 1,
            all_digits(body.take(i - start)),
            acc == dec_val(body.take(i - start)),
            acc <= 0x8000_0000,
        decreases len - i,
    {
        let c = s[i];
        if c < '0' || c > '9' {
            proof {
                assert(body[i - start] == c);
            }
            return None;
        }
        let d: u64 = (c as u32 - 48) as u64;
        acc = acc * 10 + d;
        proof {
            let t = body.take(i + 1 - start);
            assert(t.drop_last() =~= body.take(i - start));
            assert(t.last() == c);
        }
        if acc > 0x8000_0000 {
            proof {
                let t = body.take(i + 1 - start);
                assert(t.drop_last() =~= body.take(i - start));
                assert(t.last() == body[i - start]);
                assert(body[i - start] == c);
                assert(acc == dec_val(t));
                if all_digits(body) {
                    lemma_dec_val_prefix(body, (i + 1 - start) as int);
                    assert(dec_val(body) >= acc);
                    assert(parse_int_text(s@) == Some(if neg { -dec_val(body) } else { dec_val(body) }));
                    assert(parse_i32_text(s@) is None);
                } else {
                    assert(parse_int_text(s@) is None);
                    assert(parse_i32_text(s@) is None);
                }
            }
            return None;
        }
        i = i + 1;
    }
    proof {
        assert(body.take(body.len() as int) =~= body);
    }
    if neg {
        let v: i64 = -(acc as i64);
        Some(v as i32)
    } else {
        if acc > 0x7fff_ffff {
            return None;
        }
        Some(acc as i32)
    }
}

} // verus!
