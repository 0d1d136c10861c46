//! Fixed-width numerals in a small radix, over characters: the shape the
//! identifier and timestamp codecs are built from. Digits are `0-9` then
//! lowercase `a-f`; parsing accepts uppercase hex digits too.

use vstd::prelude::*;

use vstd::arithmetic::div_mod::lemma_breakdown;
use vstd::arithmetic::power::pow;

verus! {

/// The digit character for a value, lowercase.
pub open spec fn digit_char_of(d: int) -> char {
    if d < 10 {
        (48 + d) as char
    } else {
        (87 + d) as char
    }
}

/// The value of a digit character, or -1.
pub open spec fn char_digit_val(c: char) -> int {
    if '0' <= c && c <= '9' {
        c as int - 48
    } else if 'a' <= c && c <= 'f' {
        c as int - 87
    } else if 'A' <= c && c <= 'F' {
        c as int - 55
    } else {
        -1
    }
}

pub open spec fn is_digit_of(b: int, c: char) -> bool {
    0 <= char_digit_val(c) < b
}

pub open spec fn all_digits_of(b: int, s: Seq<char>) -> bool {
    forall|i: int| 0 <= i < s.len() ==> is_digit_of(b, #[trigger] s[i])
}

/// The value of a digit run, most significant first.
pub open spec fn run_val(b: int, s: Seq<char>) -> int
    decreases s.len(),
{
    if s.len() == 0 {
        0
    } else {
        run_val(b, s.drop_last()) * b + char_digit_val(s.last())
    }
}

/// The numeral of `n` in base `b`, zero-padded to exactly `w` digits;
/// only the low `w` digits of `n` are kept.
pub open spec fn fixed_width(b: int, n: int, w: nat) -> Seq<char>
    decreases w,
{
    if w == 0 {
        Seq::empty()
    } else {
        fixed_width(b, n / b, (w - 1) as nat).push(digit_char_of(n % b))
    }
}

/// Writing a digit and reading it back is the identity.
pub proof fn lemma_digit_char_val(b: int, d: int)
    requires
        2 <= b <= 16,
        0 <= d < b,
    ensures
        char_digit_val(digit_char_of(d)) == d,
        is_digit_of(b, digit_char_of(d)),
{
    if d < 10 {
        assert(((48 + d) as char) as int == 48 + d);
    } else {
        assert(((87 + d) as char) as int == 87 + d);
    }
}

/// A fixed-width numeral has that width, only digits, and denotes the
/// number's low digits.
pub proof fn lemma_fixed_width_props(b: int, n: int, w: nat)
    requires
        2 <= b <= 16,
        0 <= n,
    ensures
        fixed_width(b, n, w).len() == w,
        all_digits_of(b, fixed_width(b, n, w)),
        run_val(b, fixed_width(b, n, w)) == n % pow(b, w),
    decreases w,
{
    reveal(pow);
    let s = fixed_width(b, n, w);
    if w == 0 {
        assert(pow(b, 0) == 1);
        assert(n % 1 == 0) by (nonlinear_arith)
            requires
                0 <= n,
        ;
    } else {
        lemma_fixed_width_props(b, n / b, (w - 1) as nat);
        assert(n / b >= 0) by (nonlinear_arith)
            requires
                0 <= n,
                2 <= b,
        ;
        assert(0 <= n % b < b) by (nonlinear_arith)
            requires
                0 <= n,
                2 <= b,
        ;
        lemma_digit_char_val(b, n % b);
        let head = fixed_width(b, n / b, (w - 1) as nat);
        assert(s.drop_last() =~= head);
        assert(s.last() == digit_char_of(n % b));
        assert(run_val(b, s) == run_val(b, head) * b + (n % b));
        let p = pow(b, (w - 1) as nat);
        assert(p > 0) by {
            vstd::arithmetic::power::lemma_pow_positive(b, (w - 1) as nat);
        }
        lemma_breakdown(n, b, p);
        assert(n % (b * p) == b * ((n / b) % p) + n % b);
        assert(pow(b, w) == b * p);
        assert(run_val(b, s) == ((n / b) % p) * b + (n % b));
        assert(((n / b) % p) * b == b * ((n / b) % p)) by (nonlinear_arith);
        assert forall|i: int| 0 <= i < s.len() implies is_digit_of(b, #[trigger] s[i]) by {
            if i < s.len() - 1 {
                assert(s[i] == head[i]);
            }
        }
    }
}

/// A digit run denotes a value below `b` to its length.
pub proof fn lemma_run_val_bound(b: int, s: Seq<char>)
    requires
        2 <= b <= 16,
        all_digits_of(b, s),
    ensures
        0 <= run_val(b, s) < pow(b, s.len() as nat),
    decreases s.len(),
{
    reveal(pow);
    if s.len() == 0 {
        assert(pow(b, 0) == 1);
    } else {
        assert(all_digits_of(b, s.drop_last())) by {
            assert(forall|i: int| 0 <= i < s.len() - 1 ==> s.drop_last()[i] == s[i]);
        }
        lemma_run_val_bound(b, s.drop_last());
        let v = run_val(b, s.drop_last());
        let p = pow(b, (s.len() - 1) as nat);
        assert(is_digit_of(b, s.last()));
        assert(pow(b, s.len() as nat) == b * p);
        assert(0 <= v * b + char_digit_val(s.last()) < b * p) by (nonlinear_arith)
            requires
                0 <= v < p,
                0 <= char_digit_val(s.last()) < b,
        ;
    }
}

/// Fixed-width numerals concatenate: high digits then low digits.
pub proof fn lemma_fixed_width_concat(b: int, n: int, w1: nat, w2: nat)
    requires
        2 <= b <= 16,
        0 <= n,
    ensures
        fixed_width(b, n, (w1 + w2) as nat) =~= fixed_width(b, n / pow(b, w2), w1) + fixed_width(
            b,
            n,
            w2,
        ),
    decreases w2,
{
    reveal(pow);
    if w2 == 0 {
        assert(pow(b, 0) == 1);
        assert(fixed_width(b, n, 0nat) =~= Seq::<char>::empty());
        assert(n / 1 == n) by (nonlinear_arith);
    } else {
        assert(n / b >= 0) by (nonlinear_arith)
            requires
                0 <= n,
                2 <= b,
        ;
        lemma_fixed_width_concat(b, n / b, w1, (w2 - 1) as nat);
        let p2 = pow(b, (w2 - 1) as nat);
        assert(p2 > 0) by {
            vstd::arithmetic::power::lemma_pow_positive(b, (w2 - 1) as nat);
        }
        assert((n / b) / p2 == n / (b * p2)) by {
            vstd::arithmetic::div_mod::lemma_div_denominator(n, b, p2);
        }
        assert(pow(b, w2) == b * p2);
    }
}

/// Parsing a fixed-width numeral of a small enough number returns it.
pub proof fn lemma_fixed_width_round_trip(b: int, n: int, w: nat)
    requires
        2 <= b <= 16,
        0 <= n < pow(b, w),
    ensures
        fixed_width(b, n, w).len() == w,
        all_digits_of(b, fixed_width(b, n, w)),
        run_val(b, fixed_width(b, n, w)) == n,
    decreases w,
{
    reveal(pow);
    lemma_fixed_width_props(b, n, w);
    assert(n % pow(b, w) == n) by {
        vstd::arithmetic::div_mod::lemma_small_mod(n as nat, pow(b, w) as nat);
    }
}

/// Formats `n` in base `b`, zero-padded to `w` digits, appending to `out`.
pub fn push_fixed_width(out: &mut Vec<char>, b: u32, n: u128, w: usize)
    requires
        2 <= b <= 16,
        w <= 32,
    ensures
        final(out)@ == old(out)@ + fixed_width(b as int, n as int, w as nat),
    decreases w,
{
    if w == 0 {
        proof {
            assert(final(out)@ =~= old(out)@ + fixed_width(b as int, n as int, 0nat));
        }
    } else {
        push_fixed_width(out, b, n / (b as u128), w - 1);
        let d: u32 = (n % (b as u128)) as u32;
        let c: char = if d < 10 {
            (48 + d as u8) as char
        } else {
            (87 + d as u8) as char
        };
        proof {
            assert(0 <= (n as int) % (b as int) < b as int) by (nonlinear_arith)
                requires
                    0 <= n as int,
                    2 <= b as int,
            ;
            assert(c == digit_char_of((n as int) % (b as int)));
        }
        out.push(c);
        proof {
            assert(final(out)@ =~= old(out)@ + fixed_width(b as int, n as int, w as nat));
        }
    }
}

/// Reads the digit value of one character in base `b`, or `None`.
pub fn digit_value(b: u32, c: char) -> (r: Option<u32>)
    requires
        2 <= b <= 16,
    ensures
        match r {
            Some(d) => is_digit_of(b as int, c) && d == char_digit_val(c),
            None => !is_digit_of(b as int, c),
        },
{
    let u = c as u32;
    let v: i64 = if 48 <= u && u <= 57 {
        u as i64 - 48
    } else if 97 <= u && u <= 102 {
        u as i64 - 87
    } else if 65 <= u && u <= 70 {
        u as i64 - 55
    } else {
        -1
    };
    if 0 <= v && v < b as i64 {
        Some(v as u32)
    } else {
        None
    }
}


/// The value of a concatenation: the high run shifted past the low run.
pub proof fn lemma_run_val_concat(b: int, s1: Seq<char>, s2: Seq<char>)
    requires
        2 <= b <= 16,
    ensures
        run_val(b, s1 + s2) == run_val(b, s1) * pow(b, s2.len() as nat) + run_val(b, s2),
    decreases s2.len(),
{
    reveal(pow);
    if s2.len() == 0 {
        assert(s1 + s2 =~= s1);
        assert(pow(b, 0) == 1);
    } else {
        lemma_run_val_concat(b, s1, s2.drop_last());
        let t = s1 + s2;
        assert(t.drop_last() =~= s1 + s2.drop_last());
        assert(t.last() == s2.last());
        let p = pow(b, (s2.len() - 1) as nat);
        assert(run_val(b, t) == (run_val(b, s1) * p + run_val(b, s2.drop_last())) * b
            + char_digit_val(s2.last()));
        assert((run_val(b, s1) * p + run_val(b, s2.drop_last())) * b == run_val(b, s1) * (p * b)
            + run_val(b, s2.drop_last()) * b) by (nonlinear_arith);
        assert(pow(b, s2.len() as nat) == b * p);
        assert(p * b == b * p) by (nonlinear_arith);
    }
}


/// The concrete hex place values the identifier codec needs.
pub proof fn lemma_pow16_facts()
    ensures
        pow(16, 4) == 0x10000,
        pow(16, 8) == 0x1_0000_0000,
        pow(16, 11) == 0x1000_0000_0000,
        pow(16, 12) == 0x1_0000_0000_0000,
        pow(16, 16) == 0x1_0000_0000_0000_0000,
        pow(16, 20) == 0x1_0000_0000_0000_0000_0000,
        pow(16, 24) == 0x1_0000_0000_0000_0000_0000_0000,
        pow(16, 32) == 0x1_0000_0000_0000_0000_0000_0000_0000_0000,
{
    reveal(pow);
    assert(pow(16, 0) == 1);
    assert(pow(16, 1) == 16);
    assert(pow(16, 2) == 256);
    assert(pow(16, 3) == 4096);
    assert(pow(16, 4) == 0x10000);
    vstd::arithmetic::power::lemma_pow_adds(16, 4, 4);
    assert(pow(16, 8) == 0x1_0000_0000);
    vstd::arithmetic::power::lemma_pow_adds(16, 8, 3);
    assert(pow(16, 11) == 0x1000_0000_0000);
    vstd::arithmetic::power::lemma_pow_adds(16, 8, 4);
    assert(pow(16, 12) == 0x1_0000_0000_0000);
    vstd::arithmetic::power::lemma_pow_adds(16, 8, 8);
    assert(pow(16, 16) == 0x1_0000_0000_0000_0000);
    vstd::arithmetic::power::lemma_pow_adds(16, 16, 4);
    assert(pow(16, 20) == 0x1_0000_0000_0000_0000_0000);
    vstd::arithmetic::power::lemma_pow_adds(16, 16, 8);
    assert(pow(16, 24) == 0x1_0000_0000_0000_0000_0000_0000);
    vstd::arithmetic::power::lemma_pow_adds(16, 16, 16);
    assert(pow(16, 32) == 0x1_0000_0000_0000_0000_0000_0000_0000_0000);
}


/// The concrete decimal place values the timestamp codec needs.
pub proof fn lemma_pow10_facts()
    ensures
        pow(10, 2) == 100,
        pow(10, 4) == 10000,
        pow(10, 6) == 1000000,
        pow(10, 11) == 100000000000,
{
    reveal(pow);
    assert(pow(10, 0) == 1);
    assert(pow(10, 1) == 10);
    assert(pow(10, 2) == 100);
    assert(pow(10, 3) == 1000);
    assert(pow(10, 4) == 10000);
    assert(pow(10, 5) == 100000);
    assert(pow(10, 6) == 1000000);
    assert(pow(10, 7) == 10000000);
    assert(pow(10, 8) == 100000000);
    assert(pow(10, 9) == 1000000000);
    assert(pow(10, 10) == 10000000000);
    assert(pow(10, 11) == 100000000000);
}

} // verus!
