//! The pagination cursor codec: a key record is written as a JSON object
//! mapping each field name to a tag-prefixed string, then armoured in
//! base64. The token is opaque to callers; decoding fails with
//! `InvalidCursor` on malformed base64, malformed JSON, or an unknown tag.

use vstd::prelude::*;

use vstd::utf8::{decode_utf8, encode_utf8, encode_utf8_decode_utf8, encode_utf8_valid_utf8,
    valid_utf8};

use crate::attr::{AttrVal, AttrValue, Record, RecV};
use crate::b64;
use crate::errors::StoreError;
use crate::jsonstr::{
    escape_str, lemma_string_body_round_trip, parse_string_body, push_escaped, quoted,
    scan_string_body,
};
use crate::text::{bytes_string, chars_string, str_chars};

verus! {

/// The view of a growing field list.
pub open spec fn fields_view(rows: Seq<(String, AttrValue)>) -> RecV {
    Seq::new(rows.len(), |i: int| (rows[i].0@, rows[i].1@))
}

/// The tag-prefixed text of one attribute value.
pub open spec fn value_text(v: AttrVal) -> Seq<char> {
    match v {
        AttrVal::S(s) => seq!['S', ':'] + s,
        AttrVal::N(s) => seq!['N', ':'] + s,
        AttrVal::B(b) => if b {
            seq!['B', ':', 't', 'r', 'u', 'e']
        } else {
            seq!['B', ':', 'f', 'a', 'l', 's', 'e']
        },
    }
}

/// The values a tag-prefixed text denotes.
pub open spec fn parse_value_text(s: Seq<char>) -> Option<AttrVal> {
    if s.len() < 2 || s[1] != ':' {
        None
    } else if s[0] == 'S' {
        Some(AttrVal::S(s.skip(2)))
    } else if s[0] == 'N' {
        Some(AttrVal::N(s.skip(2)))
    } else if s[0] == 'B' {
        if s.skip(2) == seq!['t', 'r', 'u', 'e'] {
            Some(AttrVal::B(true))
        } else if s.skip(2) == seq!['f', 'a', 'l', 's', 'e'] {
            Some(AttrVal::B(false))
        } else {
            None
        }
    } else {
        None
    }
}

pub proof fn lemma_value_text_round_trip(v: AttrVal)
    ensures
        parse_value_text(value_text(v)) == Some(v),
{
    match v {
        AttrVal::S(s) => {
            assert(value_text(v).skip(2) =~= s);
        },
        AttrVal::N(s) => {
            assert(value_text(v).skip(2) =~= s);
        },
        AttrVal::B(b) => {
            if b {
                assert(value_text(v).skip(2) =~= seq!['t', 'r', 'u', 'e']);
            } else {
                assert(value_text(v).skip(2) =~= seq!['f', 'a', 'l', 's', 'e']);
            }
        },
    }
}

/// One JSON member: quoted name, colon, quoted tagged value.
pub open spec fn enc_pair(kv: (Seq<char>, AttrVal)) -> Seq<char> {
    quoted(kv.0) + seq![':'] + quoted(value_text(kv.1))
}

/// The members in order, comma-separated.
pub open spec fn enc_pairs(rec: RecV) -> Seq<char>
    decreases rec.len(),
{
    if rec.len() == 0 {
        Seq::empty()
    } else if rec.len() == 1 {
        enc_pair(rec[0])
    } else {
        enc_pairs(rec.drop_last()) + seq![','] + enc_pair(rec.last())
    }
}

/// The cursor's JSON text: one object.
pub open spec fn enc_obj(rec: RecV) -> Seq<char> {
    seq!['{'] + enc_pairs(rec) + seq!['}']
}

/// A nonempty member list decomposes at the front.
pub proof fn lemma_enc_pairs_front(rec: RecV)
    requires
        rec.len() >= 1,
    ensures
        rec.len() == 1 ==> enc_pairs(rec) == enc_pair(rec[0]),
        rec.len() > 1 ==> enc_pairs(rec) == enc_pair(rec[0]) + seq![','] + enc_pairs(
            rec.drop_first(),
        ),
    decreases rec.len(),
{
    if rec.len() > 1 {
        lemma_enc_pairs_front(rec.drop_last());
        assert(rec.drop_last()[0] == rec[0]);
        if rec.len() == 2 {
            assert(rec.drop_last() =~= seq![rec[0]]);
            assert(rec.drop_first() =~= seq![rec[1]]);
            assert(enc_pairs(rec.drop_first()) == enc_pair(rec[1]));
            assert(enc_pairs(rec) =~= enc_pair(rec[0]) + seq![','] + enc_pairs(rec.drop_first()));
        } else {
            assert(rec.drop_last().drop_first() =~= rec.drop_first().drop_last());
            assert(rec.drop_first().last() == rec.last());
            assert(enc_pairs(rec.drop_first()) == enc_pairs(rec.drop_first().drop_last())
                + seq![','] + enc_pair(rec.last()));
            assert(enc_pairs(rec) =~= enc_pair(rec[0]) + seq![','] + enc_pairs(rec.drop_first()));
        }
    }
}

/// Reads one member from the front: the name-value pair and the count of
/// characters consumed, through the value's closing quote.
pub open spec fn parse_pair(s: Seq<char>) -> Option<((Seq<char>, AttrVal), int)> {
    if s.len() < 1 || s[0] != '"' {
        None
    } else {
        match parse_string_body(s.skip(1)) {
            Option::None => None,
            Option::Some((k, n1)) => {
                let p = 1 + n1;
                if p + 1 >= s.len() || s[p] != ':' || s[p + 1] != '"' {
                    None
                } else {
                    match parse_string_body(s.skip(p + 2)) {
                        Option::None => None,
                        Option::Some((vt, n2)) => match parse_value_text(vt) {
                            Option::None => None,
                            Option::Some(v) => Some(((k, v), p + 2 + n2)),
                        },
                    }
                }
            },
        }
    }
}

/// Reads members until the closing brace, inclusive.
pub open spec fn parse_pair_list(s: Seq<char>) -> Option<(RecV, int)>
    decreases s.len(),
{
    match parse_pair(s) {
        Option::None => None,
        Option::Some((kv, n)) => {
            if n < 1 || n >= s.len() {
                None
            } else if s[n] == ',' {
                match parse_pair_list(s.skip(n + 1)) {
                    Option::Some((rec, m)) => Some((seq![kv] + rec, n + 1 + m)),
                    Option::None => None,
                }
            } else if s[n] == '}' {
                Some((seq![kv], n + 1))
            } else {
                None
            }
        },
    }
}

/// The records a JSON object text denotes, when it is the whole text.
pub open spec fn parse_obj(s: Seq<char>) -> Option<RecV> {
    if s.len() < 2 || s[0] != '{' {
        None
    } else if s[1] == '}' {
        if s.len() == 2 {
            Some(Seq::empty())
        } else {
            None
        }
    } else {
        match parse_pair_list(s.skip(1)) {
            Option::Some((rec, n)) => if 1 + n == s.len() {
                Some(rec)
            } else {
                None
            },
            Option::None => None,
        }
    }
}

/// One written member reads back as itself, wherever it stands.
pub proof fn lemma_pair_round_trip(kv: (Seq<char>, AttrVal), rest: Seq<char>)
    ensures
        parse_pair(enc_pair(kv) + rest) == Some((kv, enc_pair(kv).len() as int)),
        enc_pair(kv).len() >= 1,
{
    let buf = enc_pair(kv) + rest;
    let ek = escape_str(kv.0);
    let vt = value_text(kv.1);
    let ev = escape_str(vt);
    assert(buf =~= seq!['"'] + (ek + seq!['"'] + (seq![':', '"'] + (ev + seq!['"'] + rest))));
    assert(buf[0] == '"');
    assert(buf.skip(1) =~= ek + seq!['"'] + (seq![':', '"'] + (ev + seq!['"'] + rest)));
    lemma_string_body_round_trip(kv.0, seq![':', '"'] + (ev + seq!['"'] + rest));
    let n1 = ek.len() + 1;
    let p = 1 + n1;
    assert(buf[p as int] == ':' && buf[p as int + 1] == '"');
    assert(buf.skip(p as int + 2) =~= ev + seq!['"'] + rest);
    lemma_string_body_round_trip(vt, rest);
    lemma_value_text_round_trip(kv.1);
    assert(parse_pair(buf) == Some((kv, p as int + 2 + (ev.len() + 1))));
    assert(enc_pair(kv).len() == p + 2 + ev.len() + 1);
}

/// A written member list followed by the closing brace reads back as the
/// record.
pub proof fn lemma_pair_list_round_trip(rec: RecV)
    requires
        rec.len() >= 1,
    ensures
        parse_pair_list(enc_pairs(rec) + seq!['}']) == Some(
            (rec, enc_pairs(rec).len() as int + 1),
        ),
    decreases rec.len(),
{
    lemma_enc_pairs_front(rec);
    if rec.len() == 1 {
        let buf = enc_pairs(rec) + seq!['}'];
        lemma_pair_round_trip(rec[0], seq!['}']);
        assert(buf =~= enc_pair(rec[0]) + seq!['}']);
        let n = enc_pair(rec[0]).len() as int;
        assert(buf[n] == '}');
        assert(seq![rec[0]] =~= rec);
    } else {
        lemma_pair_list_round_trip(rec.drop_first());
        let buf = enc_pairs(rec) + seq!['}'];
        let tail = enc_pairs(rec.drop_first()) + seq!['}'];
        assert(buf =~= enc_pair(rec[0]) + (seq![','] + tail));
        lemma_pair_round_trip(rec[0], seq![','] + tail);
        let n = enc_pair(rec[0]).len() as int;
        assert(buf[n] == ',');
        assert(buf.skip(n + 1) =~= tail);
        assert(seq![rec[0]] + rec.drop_first() =~= rec);
    }
}

/// A written object reads back as the record.
pub proof fn lemma_obj_round_trip(rec: RecV)
    ensures
        parse_obj(enc_obj(rec)) == Some(rec),
{
    let s = enc_obj(rec);
    assert(s[0] == '{');
    if rec.len() == 0 {
        assert(s =~= seq!['{', '}']);
    } else {
        lemma_pair_list_round_trip(rec);
        assert(s.skip(1) =~= enc_pairs(rec) + seq!['}']);
        assert(s[1] != '}') by {
            lemma_enc_pairs_front(rec);
            assert(enc_pairs(rec)[0] == '"');
            assert(s[1] == enc_pairs(rec)[0]);
        }
    }
}

/// The token text of a cursor record.
pub open spec fn spec_encode_cursor(rec: RecV) -> Seq<char> {
    b64::b64_encode(encode_utf8(enc_obj(rec)))
}

/// The cursor records a token denotes.
pub open spec fn spec_decode_cursor(s: Seq<char>) -> Option<RecV> {
    match b64::b64_decode(s) {
        Option::None => None,
        Option::Some(bytes) => if valid_utf8(bytes) {
            parse_obj(decode_utf8(bytes))
        } else {
            None
        },
    }
}

/// Decoding a written token returns the cursor record: the round-trip law
/// of the cursor codec.
pub proof fn lemma_cursor_round_trip(rec: RecV)
    ensures
        spec_decode_cursor(spec_encode_cursor(rec)) == Some(rec),
{
    let json = enc_obj(rec);
    let bytes = encode_utf8(json);
    b64::lemma_b64_round_trip(bytes);
    broadcast use encode_utf8_valid_utf8;
    broadcast use encode_utf8_decode_utf8;

    assert(valid_utf8(bytes));
    assert(decode_utf8(bytes) == json);
    lemma_obj_round_trip(rec);
}

/// Appends the tag-prefixed text of a value.
fn push_value_text(out: &mut Vec<char>, v: &AttrValue)
    ensures
        final(out)@ == old(out)@ + value_text(v@),
{
    match v {
        AttrValue::S(s) => {
            out.push('S');
            out.push(':');
            let cs = str_chars(s.as_str());
            let n = cs.len();
            for i in 0..n
                invariant
                    n == cs@.len(),
                    cs@ == s@,
                    out@ == old(out)@ + seq!['S', ':'] + cs@.take(i as int),
            {
                out.push(cs[i]);
                proof {
                    assert(cs@.take(i + 1) =~= cs@.take(i as int).push(cs@[i as int]));
                }
            }
            proof {
                assert(cs@.take(n as int) =~= cs@);
                assert(out@ =~= old(out)@ + value_text(v@));
            }
        },
        AttrValue::N(s) => {
            out.push('N');
            out.push(':');
            let cs = str_chars(s.as_str());
            let n = cs.len();
            for i in 0..n
                invariant
                    n == cs@.len(),
                    cs@ == s@,
                    out@ == old(out)@ + seq!['N', ':'] + cs@.take(i as int),
            {
                out.push(cs[i]);
                proof {
                    assert(cs@.take(i + 1) =~= cs@.take(i as int).push(cs@[i as int]));
                }
            }
            proof {
                assert(cs@.take(n as int) =~= cs@);
                assert(out@ =~= old(out)@ + value_text(v@));
            }
        },
        AttrValue::B(b) => {
            out.push('B');
            out.push(':');
            if *b {
                out.push('t');
                out.push('r');
                out.push('u');
                out.push('e');
            } else {
                out.push('f');
                out.push('a');
                out.push('l');
                out.push('s');
                out.push('e');
            }
            proof {
                assert(out@ =~= old(out)@ + value_text(v@));
            }
        },
    }
}

/// Writes a record as one JSON object, in member order.
pub fn record_json_chars(rec: &Record) -> (r: Vec<char>)
    ensures
        r@ == enc_obj(rec@),
{
    let mut json: Vec<char> = Vec::new();
    json.push('{');
    let n = rec.len();
    for i in 0..n
        invariant
            n == rec@.len(),
            json@ == seq!['{'] + enc_pairs(rec@.take(i as int)),
    {
        if i > 0 {
            json.push(',');
        }
        let (name, value) = rec.field_at(i);
        json.push('"');
        let name_chars = str_chars(name.as_str());
        push_escaped(&mut json, &name_chars);
        json.push('"');
        json.push(':');
        json.push('"');
        let mut vt: Vec<char> = Vec::new();
        push_value_text(&mut vt, value);
        push_escaped(&mut json, &vt);
        json.push('"');
        proof {
            let prev = rec@.take(i as int);
            let cur = rec@.take(i + 1);
            assert(cur.drop_last() =~= prev);
            assert(cur.last() == rec@[i as int]);
            assert(quoted(rec@[i as int].0) =~= seq!['"'] + escape_str(rec@[i as int].0) + seq![
                '"',
            ]);
            assert(quoted(value_text(rec@[i as int].1)) =~= seq!['"'] + escape_str(
                value_text(rec@[i as int].1),
            ) + seq!['"']);
            if i == 0 {
                assert(enc_pairs(cur) == enc_pair(cur[0]));
                assert(json@ =~= seq!['{'] + enc_pairs(cur));
            } else {
                assert(enc_pairs(cur) == enc_pairs(prev) + seq![','] + enc_pair(rec@[i as int]));
                assert(json@ =~= seq!['{'] + enc_pairs(cur));
            }
        }
    }
    json.push('}');
    proof {
        assert(rec@.take(n as int) =~= rec@);
        assert(json@ =~= enc_obj(rec@));
    }
    json
}

/// Serialises a key record into an opaque pagination token.
pub fn serialise_db_key(rec: &Record) -> (r: String)
    ensures
        r@ == spec_encode_cursor(rec@),
{
    let json = record_json_chars(rec);
    let jstring = chars_string(&json);
    let jbytes = jstring.as_str().as_bytes_vec();
    proof {
        broadcast use vstd::utf8::encode_utf8_valid_utf8;

    }
    let token_chars = b64::encode(&jbytes);
    chars_string(&token_chars)
}

/// Decodes an opaque pagination token back into its key record; fails
/// with `InvalidCursor` on anything `serialise_db_key` cannot produce.
pub fn deserialise_db_key(token: &str) -> (r: Result<Record, StoreError>)
    ensures
        match r {
            Ok(rec) => spec_decode_cursor(token@) == Some(rec@),
            Err(e) => spec_decode_cursor(token@) is None && e == StoreError::InvalidCursor,
        },
{
    let token_chars = str_chars(token);
    let bytes = match b64::decode(&token_chars) {
        Option::Some(b) => b,
        Option::None => {
            return Err(StoreError::InvalidCursor);
        },
    };
    let ghost bytesv = bytes@;
    let jstring = match bytes_string(bytes) {
        Option::Some(s) => s,
        Option::None => {
            return Err(StoreError::InvalidCursor);
        },
    };
    proof {
        broadcast use vstd::utf8::encode_utf8_decode_utf8;

        assert(decode_utf8(bytesv) == jstring@);
    }
    let cs = str_chars(jstring.as_str());
    match parse_record_json(&cs) {
        Option::Some(rec) => Ok(rec),
        Option::None => Err(StoreError::InvalidCursor),
    }
}

/// Reads one whole JSON object back into a record; `None` on anything
/// `record_json_chars` cannot produce.
pub fn parse_record_json(cs: &Vec<char>) -> (r: Option<Record>)
    ensures
        match r {
            Some(rec) => parse_obj(cs@) == Some(rec@),
            None => parse_obj(cs@) is None,
        },
{
    let n = cs.len();
    if n < 2 || cs[0] != '{' {
        return None;
    }
    if cs[1] == '}' {
        if n == 2 {
            let rec = Record::new();
            return Some(rec);
        } else {
            return None;
        }
    }
    let mut fields: Vec<(String, AttrValue)> = Vec::new();
    let mut pos: usize = 1;
    proof {
        if parse_pair_list(cs@.skip(1)) is Some {
            assert(fields_view(fields@) + parse_pair_list(cs@.skip(1))->Some_0.0 =~= parse_pair_list(
                cs@.skip(1),
            )->Some_0.0);
        }
    }
    loop
        invariant
            1 <= pos <= n,
            n == cs@.len(),
            n >= 2 && cs@[0] == '{' && cs@[1] != '}',
            parse_pair_list(cs@.skip(1)) == crate::jsonstr::shift_parse(
                parse_pair_list(cs@.skip(pos as int)),
                fields_view(fields@),
                pos - 1,
            ),
        decreases n - pos,
    {
        let ghost here = cs@.skip(pos as int);
        if pos >= n || cs[pos] != '"' {
            proof {
                if pos < n {
                    assert(here[0] == cs@[pos as int]);
                }
                assert(parse_pair(here) is None);
            }
            return None;
        }
        proof {
            assert(here[0] == '"');
            assert(here.skip(1) =~= cs@.skip(pos + 1));
        }
        let (kchars, p1) = match scan_string_body(&cs, pos + 1) {
            Option::Some(out) => out,
            Option::None => {
                proof {
                    assert(parse_pair(here) is None);
                }
                return None;
            },
        };
        if n - p1 < 2 || cs[p1] != ':' || cs[p1 + 1] != '"' {
            proof {
                assert(here.len() == n - pos);
                if n - p1 >= 2 {
                    assert(here[p1 - pos] == cs@[p1 as int]);
                    assert(here[p1 - pos + 1] == cs@[p1 as int + 1]);
                }
                assert(parse_pair(here) is None);
            }
            return None;
        }
        proof {
            assert(here[p1 - pos] == ':' && here[p1 - pos + 1] == '"');
            assert(here.skip(p1 - pos + 2) =~= cs@.skip(p1 as int + 2));
        }
        let (vtchars, p2) = match scan_string_body(&cs, p1 + 2) {
            Option::Some(out) => out,
            Option::None => {
                proof {
                    assert(parse_pair(here) is None);
                }
                return None;
            },
        };
        let value: AttrValue = match parse_value_chars(&vtchars) {
            Option::Some(v) => v,
            Option::None => {
                proof {
                    assert(parse_pair(here) is None);
                }
                return None;
            },
        };
        let ghost consumed = p2 - pos;
        proof {
            assert(parse_pair(here) == Some(((kchars@, value@), consumed)));
            assert(consumed >= 1);
        }
        let key_string = chars_string(&kchars);
        let ghost fields0 = fields@;
        fields.push((key_string, value));
        proof {
            assert(fields_view(fields@) =~= fields_view(fields0).push(
                (kchars@, value@),
            ));
        }
        if p2 < n {
            let sep = cs[p2];
            proof {
                assert(here[consumed] == sep);
            }
            if sep == ',' {
                proof {
                    assert(here.skip(consumed + 1) =~= cs@.skip(p2 as int + 1));
                    assert(parse_pair_list(here) == crate::jsonstr::shift_parse(
                        parse_pair_list(cs@.skip(p2 as int + 1)),
                        seq![(kchars@, value@)],
                        consumed + 1,
                    ));
                    crate::jsonstr::lemma_shift_parse_compose(
                        parse_pair_list(cs@.skip(p2 as int + 1)),
                        fields_view(fields0),
                        pos - 1,
                        seq![(kchars@, value@)],
                        consumed + 1,
                    );
                    assert(fields_view(fields@) =~= fields_view(fields0) + seq![
                        (kchars@, value@),
                    ]);
                }
                pos = p2 + 1;
            } else if sep == '}' {
                proof {
                    assert(parse_pair_list(here) == Some(
                        (seq![(kchars@, value@)], consumed + 1),
                    ));
                    assert(fields_view(fields0) + seq![(kchars@, value@)]
                        =~= fields_view(fields@));
                    assert(parse_pair_list(cs@.skip(1)) == Some(
                        (fields_view(fields@), p2 as int),
                    ));
                }
                if p2 + 1 == n {
                    let rec = Record { fields };
                    proof {
                        assert(rec@ =~= fields_view(rec.fields@));
                        assert(parse_obj(cs@) == Some(rec@));
                    }
                    return Some(rec);
                } else {
                    return None;
                }
            } else {
                proof {
                    assert(parse_pair_list(here) is None);
                }
                return None;
            }
        } else {
            proof {
                assert(consumed >= here.len());
                assert(parse_pair_list(here) is None);
            }
            return None;
        }
    }
}

/// Reads a tag-prefixed value text.
fn parse_value_chars(vt: &Vec<char>) -> (r: Option<AttrValue>)
    ensures
        match r {
            Some(v) => parse_value_text(vt@) == Some(v@),
            None => parse_value_text(vt@) is None,
        },
{
    let n = vt.len();
    if n < 2 || vt[1] != ':' {
        return None;
    }
    let tag = vt[0];
    if tag == 'S' || tag == 'N' {
        let mut payload: Vec<char> = Vec::new();
        let mut i: usize = 2;
        while i < n
            invariant
                2 <= i <= n,
                n == vt@.len(),
                payload@ == vt@.skip(2).take(i - 2),
            decreases n - i,
        {
            payload.push(vt[i]);
            proof {
                assert(vt@.skip(2).take(i - 2 + 1) =~= vt@.skip(2).take(i - 2).push(
                    vt@[i as int],
                ));
            }
            i = i + 1;
        }
        proof {
            assert(vt@.skip(2).take(n - 2) =~= vt@.skip(2));
        }
        let s = chars_string(&payload);
        if tag == 'S' {
            Some(AttrValue::S(s))
        } else {
            Some(AttrValue::N(s))
        }
    } else if tag == 'B' {
        if n == 6 && vt[2] == 't' && vt[3] == 'r' && vt[4] == 'u' && vt[5] == 'e' {
            proof {
                assert(vt@.skip(2) =~= seq!['t', 'r', 'u', 'e']);
            }
            Some(AttrValue::B(true))
        } else if n == 7 && vt[2] == 'f' && vt[3] == 'a' && vt[4] == 'l' && vt[5] == 's' && vt[6]
            == 'e' {
            proof {
                assert(vt@.skip(2) =~= seq!['f', 'a', 'l', 's', 'e']);
            }
            Some(AttrValue::B(false))
        } else {
            proof {
                if vt@.skip(2) == seq!['t', 'r', 'u', 'e'] {
                    assert(vt@.skip(2).len() == seq!['t', 'r', 'u', 'e'].len());
                    assert(vt@.len() == 6);
                    assert(vt@[2] == vt@.skip(2)[0]);
                    assert(vt@[2] == 't' && vt@[3] == 'r' && vt@[4] == 'u' && vt@[5] == 'e');
                }
                if vt@.skip(2) == seq!['f', 'a', 'l', 's', 'e'] {
                    assert(vt@.skip(2).len() == seq!['f', 'a', 'l', 's', 'e'].len());
                    assert(vt@.len() == 7);
                    assert(vt@[2] == vt@.skip(2)[0]);
                    assert(vt@[2] == 'f' && vt@[3] == 'a' && vt@[4] == 'l' && vt@[5] == 's'
                        && vt@[6] == 'e');
                }
            }
            None
        }
    } else {
        None
    }
}

} // verus!
