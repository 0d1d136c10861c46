//! The typed attribute codec: one shared parsing contract between the
//! weakly-typed wire attribute and strongly-typed domain values. A missing
//! attribute fails with `MissingField`; a present one with the wrong tag or
//! an unparseable payload fails with `TypeMismatch`. Numbers ride the
//! number tag as decimal text; identifiers and decimal fractions ride the
//! string tag.

use vstd::prelude::*;

use crate::attr::{AttrVal, AttrValue};
use crate::deci::{all_digits, format_i32, int_text, parse_i32_chars, parse_i32_text};
use crate::errors::StoreError;
use crate::text::{chars_string, str_chars};
use crate::stamp::{parse_ts_text, ts_text, ts_wf, Timestamp};
use crate::uid::{parse_uuid_text, uuid_text, UuidValue};

verus! {

/// The view of an optional borrowed attribute.
pub open spec fn opt_attr_view(v: Option<&AttrValue>) -> Option<AttrVal> {
    match v {
        Option::Some(a) => Some(a@),
        Option::None => None,
    }
}

pub open spec fn spec_parse_string(v: Option<AttrVal>) -> Result<Seq<char>, StoreError> {
    match v {
        Option::None => Err(StoreError::MissingField),
        Option::Some(AttrVal::S(s)) => Ok(s),
        Option::Some(_) => Err(StoreError::TypeMismatch),
    }
}

pub open spec fn spec_parse_opt_string(v: Option<AttrVal>) -> Result<
    Option<Seq<char>>,
    StoreError,
> {
    match v {
        Option::None => Ok(None),
        Option::Some(AttrVal::S(s)) => Ok(Some(s)),
        Option::Some(_) => Err(StoreError::TypeMismatch),
    }
}

pub open spec fn spec_parse_i32(v: Option<AttrVal>) -> Result<int, StoreError> {
    match v {
        Option::None => Err(StoreError::MissingField),
        Option::Some(AttrVal::N(s)) => match parse_i32_text(s) {
            Option::Some(n) => Ok(n),
            Option::None => Err(StoreError::TypeMismatch),
        },
        Option::Some(_) => Err(StoreError::TypeMismatch),
    }
}

pub open spec fn spec_parse_bool(v: Option<AttrVal>) -> Result<bool, StoreError> {
    match v {
        Option::None => Err(StoreError::MissingField),
        Option::Some(AttrVal::B(b)) => Ok(b),
        Option::Some(_) => Err(StoreError::TypeMismatch),
    }
}

pub open spec fn spec_parse_uuid(v: Option<AttrVal>) -> Result<u128, StoreError> {
    match v {
        Option::None => Err(StoreError::MissingField),
        Option::Some(AttrVal::S(s)) => match parse_uuid_text(s) {
            Option::Some(bits) => Ok(bits),
            Option::None => Err(StoreError::TypeMismatch),
        },
        Option::Some(_) => Err(StoreError::TypeMismatch),
    }
}

/// The digits of a decimal text, past any leading minus sign.
pub open spec fn dec_body(s: Seq<char>) -> Seq<char> {
    if s.len() > 0 && s[0] == '-' {
        s.drop_first()
    } else {
        s
    }
}

/// A well-formed split of a decimal body: `k` digits, then either the end
/// or a dot opening a nonempty all-digit fraction.
pub open spec fn decimal_split_at(body: Seq<char>, k: int) -> bool {
    &&& 1 <= k <= body.len()
    &&& all_digits(body.take(k))
    &&& (k == body.len() || (k < body.len() && body[k] == '.' && body.len() > k + 1 && all_digits(
        body.skip(k + 1),
    )))
}

/// The decimal-fraction texts the codec accepts for fractional fields: an
/// optional minus sign, an integer part, and an optional fractional part.
pub open spec fn is_decimal_text(s: Seq<char>) -> bool {
    exists|k: int| #[trigger] decimal_split_at(dec_body(s), k)
}

pub open spec fn spec_parse_decimal(v: Option<AttrVal>) -> Result<Seq<char>, StoreError> {
    match v {
        Option::None => Err(StoreError::MissingField),
        Option::Some(AttrVal::S(s)) => if is_decimal_text(s) {
            Ok(s)
        } else {
            Err(StoreError::TypeMismatch)
        },
        Option::Some(_) => Err(StoreError::TypeMismatch),
    }
}

/// Parses a required string attribute.
pub fn parse_string(value: Option<&AttrValue>) -> (r: Result<String, StoreError>)
    ensures
        match r {
            Ok(s) => spec_parse_string(opt_attr_view(value)) == Ok::<_, StoreError>(s@),
            Err(e) => spec_parse_string(opt_attr_view(value)) == Err::<Seq<char>, _>(e),
        },
{
    match value {
        Option::None => Err(StoreError::MissingField),
        Option::Some(AttrValue::S(s)) => Ok(s.clone()),
        Option::Some(_) => Err(StoreError::TypeMismatch),
    }
}

/// Parses an optional string attribute; absence is not an error.
pub fn parse_opt_string(value: Option<&AttrValue>) -> (r: Result<Option<String>, StoreError>)
    ensures
        match r {
            Ok(s) => spec_parse_opt_string(opt_attr_view(value)) matches Ok(sv) && sv == (match s {
                Option::Some(t) => Some(t@),
                Option::None => None,
            }),
            Err(e) => spec_parse_opt_string(opt_attr_view(value)) == Err::<Option<Seq<char>>, _>(
                e,
            ),
        },
{
    match value {
        Option::None => Ok(None),
        Option::Some(AttrValue::S(s)) => Ok(Some(s.clone())),
        Option::Some(_) => Err(StoreError::TypeMismatch),
    }
}

/// Parses a 32-bit integer from a number attribute.
pub fn parse_i32(value: Option<&AttrValue>) -> (r: Result<i32, StoreError>)
    ensures
        match r {
            Ok(n) => spec_parse_i32(opt_attr_view(value)) == Ok::<_, StoreError>(n as int),
            Err(e) => spec_parse_i32(opt_attr_view(value)) == Err::<int, _>(e),
        },
{
    match value {
        Option::None => Err(StoreError::MissingField),
        Option::Some(AttrValue::N(s)) => {
            let cs = str_chars(s.as_str());
            match parse_i32_chars(&cs) {
                Option::Some(n) => Ok(n),
                Option::None => Err(StoreError::TypeMismatch),
            }
        },
        Option::Some(_) => Err(StoreError::TypeMismatch),
    }
}

/// Parses a boolean attribute.
pub fn parse_bool(value: Option<&AttrValue>) -> (r: Result<bool, StoreError>)
    ensures
        match r {
            Ok(b) => spec_parse_bool(opt_attr_view(value)) == Ok::<_, StoreError>(b),
            Err(e) => spec_parse_bool(opt_attr_view(value)) == Err::<bool, _>(e),
        },
{
    match value {
        Option::None => Err(StoreError::MissingField),
        Option::Some(AttrValue::B(b)) => Ok(*b),
        Option::Some(_) => Err(StoreError::TypeMismatch),
    }
}

/// Parses a unique identifier from a string attribute in the canonical
/// hyphenated form.
pub fn parse_uuid(value: Option<&AttrValue>) -> (r: Result<UuidValue, StoreError>)
    ensures
        match r {
            Ok(u) => spec_parse_uuid(opt_attr_view(value)) == Ok::<_, StoreError>(u.bits),
            Err(e) => spec_parse_uuid(opt_attr_view(value)) == Err::<u128, _>(e),
        },
{
    match value {
        Option::None => Err(StoreError::MissingField),
        Option::Some(AttrValue::S(s)) => match UuidValue::parse_text(s.as_str()) {
            Option::Some(u) => Ok(u),
            Option::None => Err(StoreError::TypeMismatch),
        },
        Option::Some(_) => Err(StoreError::TypeMismatch),
    }
}

/// Parses a decimal-fraction text from a string attribute, keeping its
/// exact text.
pub fn parse_decimal(value: Option<&AttrValue>) -> (r: Result<String, StoreError>)
    ensures
        match r {
            Ok(s) => spec_parse_decimal(opt_attr_view(value)) == Ok::<_, StoreError>(s@),
            Err(e) => spec_parse_decimal(opt_attr_view(value)) == Err::<Seq<char>, _>(e),
        },
{
    match value {
        Option::None => Err(StoreError::MissingField),
        Option::Some(AttrValue::S(s)) => {
            let cs = str_chars(s.as_str());
            if is_decimal_chars(&cs) {
                Ok(s.clone())
            } else {
                Err(StoreError::TypeMismatch)
            }
        },
        Option::Some(_) => Err(StoreError::TypeMismatch),
    }
}

/// A split at `kk` witnesses the decimal shape.
proof fn lemma_decimal_witness(s: Seq<char>, kk: int)
    requires
        decimal_split_at(dec_body(s), kk),
    ensures
        is_decimal_text(s),
{
    assert(decimal_split_at(dec_body(s), kk));
}

/// Checks the decimal-fraction shape.
fn is_decimal_chars(cs: &Vec<char>) -> (r: bool)
    ensures
        r == is_decimal_text(cs@),
{
    let n = cs.len();
    if n == 0 {
        proof {
            assert(!is_decimal_text(cs@));
        }
        return false;
    }
    let neg: bool = cs[0] == '-';
    let start: usize = if neg {
        1
    } else {
        0
    };
    let ghost body = if neg {
        cs@.drop_first()
    } else {
        cs@
    };
    proof {
        assert(body =~= cs@.subrange(start as int, n as int));
    }
    let mut i: usize = start;
    while i < n
        invariant
            start <= i <= n,
            n == cs@.len(),
            n > 0,
            neg == (cs@[0] == '-'),
            start == if neg { 1int } else { 0int },
            body == cs@.subrange(start as int, n as int),
            body == (if neg {
                cs@.drop_first()
            } else {
                cs@
            }),
            forall|k: int| 0 <= k < i - start ==> crate::deci::is_dec_digit(#[trigger] body[k]),
        ensures
            start <= i <= n,
            i < n ==> !crate::deci::is_dec_digit(body[i - start]),
        decreases n - i,
    {
        let c = cs[i];
        if c < '0' || c > '9' {
            proof {
                assert(body[i - start] == c);
            }
            break ;
        }
        i = i + 1;
    }
    let int_len = i - start;
    if int_len == 0 {
        proof {
            assert(body == dec_body(cs@));
            assert forall|k: int| !(#[trigger] decimal_split_at(body, k)) by {
                if 1 <= k <= body.len() && all_digits(body.take(k)) {
                    assert(body.take(k)[0] == body[0]);
                    assert(crate::deci::is_dec_digit(body[0]));
                }
            }
        }
        return false;
    }
    let ghost kk = int_len as int;
    proof {
        assert(all_digits(body.take(kk))) by {
            assert(forall|w: int| 0 <= w < kk ==> #[trigger] body.take(kk)[w] == body[w]);
        }
    }
    if i == n {
        proof {
            assert(kk == body.len());
            lemma_decimal_witness(cs@, kk);
        }
        return true;
    }
    // a non-digit stopped the scan; it must be a dot opening a nonempty
    // all-digit fraction
    let c = cs[i];
    proof {
        assert(body[kk] == c);
        assert(!crate::deci::is_dec_digit(body[kk]));
    }
    if c != '.' {
        proof {
            lemma_decimal_shape_fails(cs@, body, kk);
        }
        return false;
    }
    if n - i < 2 {
        proof {
            assert(kk + 1 >= body.len());
            lemma_decimal_shape_fails(cs@, body, kk);
        }
        return false;
    }
    let mut j: usize = i + 1;
    while j < n
        invariant
            i + 1 <= j <= n,
            n == cs@.len(),
            n > 0,
            neg == (cs@[0] == '-'),
            start == if neg { 1int } else { 0int },
            start <= i < n,
            kk == i - start,
            body == cs@.subrange(start as int, n as int),
            body == (if neg {
                cs@.drop_first()
            } else {
                cs@
            }),
            1 <= kk < body.len(),
            forall|k: int| 0 <= k < kk ==> crate::deci::is_dec_digit(#[trigger] body[k]),
            !crate::deci::is_dec_digit(body[kk]),
            forall|k: int| kk + 1 <= k < j - start ==> crate::deci::is_dec_digit(
                #[trigger] body[k],
            ),
        decreases n - j,
    {
        let c2 = cs[j];
        if c2 < '0' || c2 > '9' {
            proof {
                assert(body[j - start] == c2);
                lemma_decimal_shape_fails(cs@, body, kk);
            }
            return false;
        }
        j = j + 1;
    }
    proof {
        assert(all_digits(body.skip(kk + 1))) by {
            assert(forall|w: int|
                0 <= w < body.len() - kk - 1 ==> #[trigger] body.skip(kk + 1)[w] == body[w + kk
                    + 1]);
        }
        assert(body[kk] == '.');
        assert(body.len() > kk + 1);
        lemma_decimal_witness(cs@, kk);
    }
    true
}

/// When the digits stop at a character that does not open a well-formed
/// fraction, no split witnesses the decimal shape.
proof fn lemma_decimal_shape_fails(s: Seq<char>, body: Seq<char>, kk: int)
    requires
        body == (if s.len() > 0 && s[0] == '-' {
            s.drop_first()
        } else {
            s
        }),
        s.len() > 0,
        1 <= kk < body.len(),
        forall|k: int| 0 <= k < kk ==> crate::deci::is_dec_digit(#[trigger] body[k]),
        !crate::deci::is_dec_digit(body[kk]),
        body[kk] != '.' || kk + 1 >= body.len() || exists|w: int|
            kk + 1 <= w < body.len() && !crate::deci::is_dec_digit(#[trigger] body[w]),
    ensures
        !is_decimal_text(s),
{
    assert(body == dec_body(s));
    assert forall|k: int| !(#[trigger] decimal_split_at(body, k)) by {
        if 1 <= k <= body.len() && all_digits(body.take(k)) {
            if k == body.len() {
                assert(body.take(k)[kk] == body[kk]);
                assert(crate::deci::is_dec_digit(body[kk]));
            } else if body[k] == '.' {
                if k < kk {
                    assert(crate::deci::is_dec_digit(body[k]));
                    assert(body[k] != '.');
                } else if k > kk {
                    assert(body.take(k)[kk] == body[kk]);
                    assert(crate::deci::is_dec_digit(body[kk]));
                } else {
                    if body[kk] == '.' && kk + 1 < body.len() && all_digits(body.skip(kk + 1)) {
                        let w = choose|w: int|
                            kk + 1 <= w < body.len() && !crate::deci::is_dec_digit(
                                #[trigger] body[w],
                            );
                        assert(body.skip(kk + 1)[w - kk - 1] == body[w]);
                    }
                }
            }
        }
    }
}

/// Encodes a string value.
pub fn encode_string(s: &String) -> (r: AttrValue)
    ensures
        r@ == AttrVal::S(s@),
{
    AttrValue::S(s.clone())
}

/// Encodes a 32-bit integer as a number attribute in canonical decimal
/// text.
pub fn encode_i32(v: i32) -> (r: AttrValue)
    ensures
        r@ == AttrVal::N(int_text(v as int)),
{
    let digits = format_i32(v);
    AttrValue::N(chars_string(&digits))
}

/// Encodes a boolean.
pub fn encode_bool(b: bool) -> (r: AttrValue)
    ensures
        r@ == AttrVal::B(b),
{
    AttrValue::B(b)
}

/// Encodes a unique identifier as its canonical hyphenated text.
pub fn encode_uuid(u: &UuidValue) -> (r: AttrValue)
    ensures
        r@ == AttrVal::S(uuid_text(u.bits)),
{
    AttrValue::S(u.to_text())
}

/// Round trip: a string value survives encode then parse.
pub proof fn lemma_attr_round_trip_string(s: Seq<char>)
    ensures
        spec_parse_string(Some(AttrVal::S(s))) == Ok::<_, StoreError>(s),
        spec_parse_opt_string(Some(AttrVal::S(s))) == Ok::<_, StoreError>(Some(s)),
{
}

/// Round trip: a 32-bit integer survives encode then parse.
pub proof fn lemma_attr_round_trip_i32(v: int)
    requires
        -0x8000_0000 <= v <= 0x7fff_ffff,
    ensures
        spec_parse_i32(Some(AttrVal::N(int_text(v)))) == Ok::<_, StoreError>(v),
{
    crate::deci::lemma_int_text_round_trip(v);
}

/// Round trip: a boolean survives encode then parse.
pub proof fn lemma_attr_round_trip_bool(b: bool)
    ensures
        spec_parse_bool(Some(AttrVal::B(b))) == Ok::<_, StoreError>(b),
{
}

/// Round trip: a unique identifier survives encode then parse.
pub proof fn lemma_attr_round_trip_uuid(bits: u128)
    ensures
        spec_parse_uuid(Some(AttrVal::S(uuid_text(bits)))) == Ok::<_, StoreError>(bits),
{
    crate::uid::lemma_uuid_text_round_trip(bits);
}

/// Exactly one element, or a plumbing failure.
pub fn single<T>(v: Vec<T>) -> (r: Result<T, StoreError>)
    ensures
        v@.len() == 1 ==> (r matches Ok(x) && x == v@[0]),
        v@.len() != 1 ==> r == Err::<T, StoreError>(StoreError::BackendUnavailable),
{
    if v.len() == 1 {
        let mut v = v;
        match v.pop() {
            Option::Some(x) => Ok(x),
            Option::None => vstd::pervasive::unreached(),
        }
    } else {
        Err(StoreError::BackendUnavailable)
    }
}


pub open spec fn spec_parse_timestamp(v: Option<AttrVal>) -> Result<Timestamp, StoreError> {
    match v {
        Option::None => Err(StoreError::MissingField),
        Option::Some(AttrVal::S(s)) => match parse_ts_text(s) {
            Option::Some(t) => Ok(t),
            Option::None => Err(StoreError::TypeMismatch),
        },
        Option::Some(_) => Err(StoreError::TypeMismatch),
    }
}

/// Parses a timestamp from a string attribute in the wire's fixed format.
pub fn parse_timestamp(value: Option<&AttrValue>) -> (r: Result<Timestamp, StoreError>)
    ensures
        match r {
            Ok(t) => spec_parse_timestamp(opt_attr_view(value)) == Ok::<_, StoreError>(t),
            Err(e) => spec_parse_timestamp(opt_attr_view(value)) == Err::<Timestamp, _>(e),
        },
{
    match value {
        Option::None => Err(StoreError::MissingField),
        Option::Some(AttrValue::S(s)) => match Timestamp::parse_text(s.as_str()) {
            Option::Some(t) => Ok(t),
            Option::None => Err(StoreError::TypeMismatch),
        },
        Option::Some(_) => Err(StoreError::TypeMismatch),
    }
}

/// Encodes a valid timestamp as its fixed-format text.
pub fn encode_timestamp(t: &Timestamp) -> (r: AttrValue)
    requires
        ts_wf(*t),
    ensures
        r@ == AttrVal::S(ts_text(*t)),
{
    AttrValue::S(t.to_text())
}

/// Round trip: a valid timestamp survives encode then parse, exact to the
/// microsecond.
pub proof fn lemma_attr_round_trip_timestamp(t: Timestamp)
    requires
        ts_wf(t),
    ensures
        spec_parse_timestamp(Some(AttrVal::S(ts_text(t)))) == Ok::<_, StoreError>(t),
{
    crate::stamp::lemma_ts_text_round_trip(t);
}

/// Round trip: a decimal text survives encode then parse unchanged.
pub proof fn lemma_attr_round_trip_decimal(s: Seq<char>)
    requires
        is_decimal_text(s),
    ensures
        spec_parse_decimal(Some(AttrVal::S(s))) == Ok::<_, StoreError>(s),
{
}

} // verus!
