//! JSON string literals over characters: escaping for the quote, the
//! backslash and control characters, and a strict parser that accepts
//! exactly what the writer emits. The pagination cursor and the stored
//! tile list are both written in this grammar.

use vstd::prelude::*;

use crate::radix::{char_digit_val, digit_char_of, digit_value, is_digit_of};

verus! {

broadcast use vstd::utf8::char_is_scalar, vstd::utf8::char_u32_cast;

/// How one character is written inside a JSON string literal.
pub open spec fn escape_char(c: char) -> Seq<char> {
    let u = (c as u32) as int;
    if c == '"' {
        seq!['\\', '"']
    } else if c == '\\' {
        seq!['\\', '\\']
    } else if u < 0x20 {
        seq!['\\', 'u', '0', '0', digit_char_of(u / 16), digit_char_of(u % 16)]
    } else {
        seq![c]
    }
}

/// A string's characters, escaped.
pub open spec fn escape_str(s: Seq<char>) -> Seq<char>
    decreases s.len(),
{
    if s.len() == 0 {
        Seq::empty()
    } else {
        escape_char(s[0]) + escape_str(s.drop_first())
    }
}

/// A quoted JSON string literal.
pub open spec fn quoted(s: Seq<char>) -> Seq<char> {
    seq!['"'] + escape_str(s) + seq!['"']
}

/// Escaping distributes over concatenation.
pub proof fn lemma_escape_str_concat(s1: Seq<char>, s2: Seq<char>)
    ensures
        escape_str(s1 + s2) == escape_str(s1) + escape_str(s2),
    decreases s1.len(),
{
    if s1.len() == 0 {
        assert(s1 + s2 =~= s2);
        assert(escape_str(s1) + escape_str(s2) =~= escape_str(s2));
    } else {
        lemma_escape_str_concat(s1.drop_first(), s2);
        assert((s1 + s2).drop_first() =~= s1.drop_first() + s2);
        assert((s1 + s2)[0] == s1[0]);
        assert(escape_char(s1[0]) + (escape_str(s1.drop_first()) + escape_str(s2)) =~= (escape_char(
            s1[0],
        ) + escape_str(s1.drop_first())) + escape_str(s2));
    }
}

/// Reads the body of a JSON string literal from the front of `s`, up to
/// and including the closing quote: the content and how many characters
/// were consumed. Accepts exactly the writer's escapes.
pub open spec fn parse_string_body(s: Seq<char>) -> Option<(Seq<char>, int)>
    decreases s.len(),
{
    if s.len() == 0 {
        None
    } else if s[0] == '"' {
        Some((Seq::empty(), 1))
    } else if s[0] == '\\' {
        if s.len() < 2 {
            None
        } else if s[1] == '"' || s[1] == '\\' {
            match parse_string_body(s.skip(2)) {
                Option::Some((v, n)) => Some((seq![s[1]] + v, n + 2)),
                Option::None => None,
            }
        } else if s[1] == 'u' {
            if s.len() < 6 {
                None
            } else if s[2] == '0' && s[3] == '0' && is_digit_of(16, s[4]) && is_digit_of(16, s[5])
                && char_digit_val(s[4]) * 16 + char_digit_val(s[5]) < 0x20 {
                match parse_string_body(s.skip(6)) {
                    Option::Some((v, n)) => Some(
                        (
                            seq![
                                (((char_digit_val(s[4]) * 16 + char_digit_val(s[5])) as u8) as char),
                            ] + v,
                            n + 6,
                        ),
                    ),
                    Option::None => None,
                }
            } else {
                None
            }
        } else {
            None
        }
    } else if ((s[0] as u32) as int) < 0x20 {
        None
    } else {
        match parse_string_body(s.skip(1)) {
            Option::Some((v, n)) => Some((seq![s[0]] + v, n + 1)),
            Option::None => None,
        }
    }
}

/// Reading back what the writer wrote returns the content and stops right
/// after the closing quote, whatever follows.
pub proof fn lemma_string_body_round_trip(content: Seq<char>, rest: Seq<char>)
    ensures
        parse_string_body(escape_str(content) + seq!['"'] + rest) == Some(
            (content, escape_str(content).len() as int + 1),
        ),
    decreases content.len(),
{
    let buf = escape_str(content) + seq!['"'] + rest;
    if content.len() == 0 {
        assert(buf[0] == '"');
    } else {
        lemma_string_body_round_trip(content.drop_first(), rest);
        let c = content[0];
        let u = (c as u32) as int;
        let e = escape_char(c);
        let tail = escape_str(content.drop_first()) + seq!['"'] + rest;
        assert(buf =~= e + tail);
        if c == '"' {
            assert(buf[0] == '\\' && buf[1] == '"');
            assert(buf.skip(2) =~= tail);
            assert(seq![c] + content.drop_first() =~= content);
        } else if c == '\\' {
            assert(buf[0] == '\\' && buf[1] == '\\');
            assert(buf.skip(2) =~= tail);
            assert(seq![c] + content.drop_first() =~= content);
        } else if u < 0x20 {
            assert(buf[0] == '\\' && buf[1] == 'u' && buf[2] == '0' && buf[3] == '0');
            assert(buf[4] == digit_char_of(u / 16) && buf[5] == digit_char_of(u % 16));
            assert(0 <= u / 16 < 16 && 0 <= u % 16 < 16) by (nonlinear_arith)
                requires
                    0 <= u < 0x20,
            ;
            crate::radix::lemma_digit_char_val(16, u / 16);
            crate::radix::lemma_digit_char_val(16, u % 16);
            assert(char_digit_val(buf[4]) * 16 + char_digit_val(buf[5]) == u) by {
                assert((u / 16) * 16 + u % 16 == u) by (nonlinear_arith);
            }
            let d = ((u as u8) as char);
            assert(d as u32 == c as u32);
            vstd::utf8::char_u32_cast(c, c as u32);
            vstd::utf8::char_u32_cast(d, d as u32);
            assert(d == c);
            assert(buf.skip(6) =~= tail);
            assert(seq![c] + content.drop_first() =~= content);
        } else {
            assert(buf[0] == c);
            assert(buf.skip(1) =~= tail);
            assert(seq![c] + content.drop_first() =~= content);
        }
    }
}

/// Appends the escaped form of `content` to `out`.
pub fn push_escaped(out: &mut Vec<char>, content: &Vec<char>)
    ensures
        final(out)@ == old(out)@ + escape_str(content@),
{
    let n = content.len();
    for i in 0..n
        invariant
            n == content@.len(),
            out@ == old(out)@ + escape_str(content@.take(i as int)),
    {
        let c = content[i];
        let u = c as u32;
        if c == '"' {
            out.push('\\');
            out.push('"');
        } else if c == '\\' {
            out.push('\\');
            out.push('\\');
        } else if u < 0x20 {
            out.push('\\');
            out.push('u');
            out.push('0');
            out.push('0');
            let hi: u8 = (u / 16) as u8;
            let lo: u8 = (u % 16) as u8;
            out.push((48 + hi) as char);
            out.push(if lo < 10 {
                (48 + lo) as char
            } else {
                (87 + lo) as char
            });
            proof {
                assert(hi as int == ((c as u32) as int) / 16);
                assert(lo as int == ((c as u32) as int) % 16);
                assert(hi < 2);
                assert((48 + hi) as char == digit_char_of(((c as u32) as int) / 16));
                assert((if lo < 10 {
                    (48 + lo) as char
                } else {
                    (87 + lo) as char
                }) == digit_char_of(((c as u32) as int) % 16));
            }
        } else {
            out.push(c);
        }
        proof {
            lemma_escape_take_step(content@, i as int);
            assert(out@ =~= old(out)@ + escape_str(content@.take(i + 1)));
        }
    }
    proof {
        assert(content@.take(n as int) =~= content@);
    }
}

/// One more character extends the escaped prefix by its escape.
proof fn lemma_escape_take_step(s: Seq<char>, i: int)
    requires
        0 <= i < s.len(),
    ensures
        escape_str(s.take(i + 1)) == escape_str(s.take(i)) + escape_char(s[i]),
{
    let single = seq![s[i]];
    assert(single.drop_first() =~= Seq::<char>::empty());
    assert(escape_str(single.drop_first()) =~= Seq::<char>::empty());
    assert(escape_str(single) == escape_char(s[i]) + escape_str(single.drop_first()));
    assert(escape_char(s[i]) + Seq::<char>::empty() =~= escape_char(s[i]));
    assert(s.take(i + 1) =~= s.take(i) + single);
    lemma_escape_str_concat(s.take(i), single);
}

/// A parse outcome seen from an earlier position: the characters already
/// read go in front and the consumed count grows.
pub open spec fn shift_parse<V>(r: Option<(Seq<V>, int)>, prefix: Seq<V>, delta: int) -> Option<
    (Seq<V>, int),
> {
    match r {
        Option::Some((v, m)) => Some((prefix + v, m + delta)),
        Option::None => None,
    }
}

pub proof fn lemma_shift_parse_compose<V>(
    r: Option<(Seq<V>, int)>,
    p1: Seq<V>,
    d1: int,
    p2: Seq<V>,
    d2: int,
)
    ensures
        shift_parse(shift_parse(r, p2, d2), p1, d1) == shift_parse(r, p1 + p2, d1 + d2),
{
    match r {
        Option::Some((v, m)) => {
            assert(p1 + (p2 + v) =~= (p1 + p2) + v);
        },
        Option::None => {},
    }
}

/// Reads a string body out of `cs` starting at `pos` (just past the
/// opening quote); returns the content and the position just past the
/// closing quote.
pub fn scan_string_body(cs: &Vec<char>, pos: usize) -> (r: Option<(Vec<char>, usize)>)
    requires
        pos <= cs@.len(),
    ensures
        match r {
            Some(out) => parse_string_body(cs@.skip(pos as int)) == Some(
                (out.0@, out.1 - pos as int),
            ) && pos < out.1 <= cs@.len(),
            None => parse_string_body(cs@.skip(pos as int)) is None,
        },
{
    let mut acc: Vec<char> = Vec::new();
    let mut i: usize = pos;
    let n = cs.len();
    loop
        invariant
            pos <= i <= n,
            n == cs@.len(),
            parse_string_body(cs@.skip(pos as int)) == shift_parse(
                parse_string_body(cs@.skip(i as int)),
                acc@,
                i - pos,
            ),
        decreases n - i,
    {
        let ghost here = cs@.skip(i as int);
        if i >= n {
            proof {
                assert(here =~= Seq::<char>::empty());
            }
            return None;
        }
        let c = cs[i];
        proof {
            assert(here[0] == c);
        }
        if c == '"' {
            proof {
                assert(parse_string_body(here) == Some((Seq::<char>::empty(), 1int)));
                assert(acc@ + Seq::<char>::empty() =~= acc@);
            }
            return Some((acc, i + 1));
        } else if c == '\\' {
            if n - i < 2 {
                proof {
                    assert(here.len() < 2);
                }
                return None;
            }
            let c2 = cs[i + 1];
            proof {
                assert(here[1] == c2);
            }
            if c2 == '"' || c2 == '\\' {
                let ghost acc0 = acc@;
                acc.push(c2);
                proof {
                    assert(here.skip(2) =~= cs@.skip(i + 2));
                    assert(parse_string_body(here) == shift_parse(
                        parse_string_body(cs@.skip(i + 2)),
                        seq![c2],
                        2int,
                    ));
                    lemma_shift_parse_compose(
                        parse_string_body(cs@.skip(i + 2)),
                        acc0,
                        i - pos,
                        seq![c2],
                        2int,
                    );
                    assert(acc@ =~= acc0 + seq![c2]);
                }
                i = i + 2;
            } else if c2 == 'u' {
                if n - i < 6 {
                    proof {
                        assert(here.len() < 6);
                    }
                    return None;
                }
                let c3 = cs[i + 2];
                let c4 = cs[i + 3];
                let c5 = cs[i + 4];
                let c6 = cs[i + 5];
                proof {
                    assert(here[2] == c3 && here[3] == c4 && here[4] == c5 && here[5] == c6);
                }
                if !(c3 == '0' && c4 == '0') {
                    return None;
                }
                let hi: u32 = match digit_value(16, c5) {
                    Option::Some(d) => d,
                    Option::None => {
                        return None;
                    },
                };
                let lo: u32 = match digit_value(16, c6) {
                    Option::Some(d) => d,
                    Option::None => {
                        return None;
                    },
                };
                let v: u32 = hi * 16 + lo;
                if v >= 0x20 {
                    return None;
                }
                let decoded: char = (v as u8) as char;
                let ghost acc0 = acc@;
                acc.push(decoded);
                proof {
                    assert(v as int == char_digit_val(c5) * 16 + char_digit_val(c6));
                    assert(here.skip(6) =~= cs@.skip(i + 6));
                    assert(parse_string_body(here) == shift_parse(
                        parse_string_body(cs@.skip(i + 6)),
                        seq![decoded],
                        6int,
                    ));
                    lemma_shift_parse_compose(
                        parse_string_body(cs@.skip(i + 6)),
                        acc0,
                        i - pos,
                        seq![decoded],
                        6int,
                    );
                    assert(acc@ =~= acc0 + seq![decoded]);
                }
                i = i + 6;
            } else {
                return None;
            }
        } else if (c as u32) < 0x20 {
            return None;
        } else {
            let ghost acc0 = acc@;
            acc.push(c);
            proof {
                assert(here.skip(1) =~= cs@.skip(i + 1));
                assert(parse_string_body(here) == shift_parse(
                    parse_string_body(cs@.skip(i + 1)),
                    seq![c],
                    1int,
                ));
                lemma_shift_parse_compose(
                    parse_string_body(cs@.skip(i + 1)),
                    acc0,
                    i - pos,
                    seq![c],
                    1int,
                );
                assert(acc@ =~= acc0 + seq![c]);
            }
            i = i + 1;
        }
    }
}

} // verus!
