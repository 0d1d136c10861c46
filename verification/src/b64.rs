//! Base64 over bytes, standard alphabet with `=` padding: the transport
//! armour of the pagination cursor. Encoding and decoding invert each
//! other, and decoding rejects every string the encoder cannot produce.

use vstd::prelude::*;

verus! {

/// The alphabet character for a 6-bit group.
pub open spec fn b64_char(v: int) -> char {
    if v < 26 {
        (65 + v) as char
    } else if v < 52 {
        (97 + v - 26) as char
    } else if v < 62 {
        (48 + v - 52) as char
    } else if v == 62 {
        '+'
    } else {
        '/'
    }
}

/// The 6-bit group of an alphabet character, or -1.
pub open spec fn b64_val(c: char) -> int {
    if 'A' <= c && c <= 'Z' {
        c as int - 65
    } else if 'a' <= c && c <= 'z' {
        c as int - 97 + 26
    } else if '0' <= c && c <= '9' {
        c as int - 48 + 52
    } else if c == '+' {
        62
    } else if c == '/' {
        63
    } else {
        -1
    }
}

pub proof fn lemma_b64_char_val(v: int)
    requires
        0 <= v < 64,
    ensures
        b64_val(b64_char(v)) == v,
{
    if v < 26 {
        assert(((65 + v) as char) as int == 65 + v);
    } else if v < 52 {
        assert(((97 + v - 26) as char) as int == 97 + v - 26);
    } else if v < 62 {
        assert(((48 + v - 52) as char) as int == 48 + v - 52);
    }
}

/// The four characters of one input chunk of up to three bytes.
pub open spec fn b64_quantum(chunk: Seq<u8>) -> Seq<char> {
    let b0 = chunk[0] as int;
    if chunk.len() == 1 {
        seq![b64_char(b0 / 4), b64_char((b0 % 4) * 16), '=', '=']
    } else {
        let b1 = chunk[1] as int;
        if chunk.len() == 2 {
            seq![b64_char(b0 / 4), b64_char((b0 % 4) * 16 + b1 / 16), b64_char((b1 % 16) * 4), '=']
        } else {
            let b2 = chunk[2] as int;
            seq![
                b64_char(b0 / 4),
                b64_char((b0 % 4) * 16 + b1 / 16),
                b64_char((b1 % 16) * 4 + b2 / 64),
                b64_char(b2 % 64),
            ]
        }
    }
}

/// The base64 text of a byte sequence.
pub open spec fn b64_encode(bytes: Seq<u8>) -> Seq<char>
    decreases bytes.len(),
{
    if bytes.len() == 0 {
        Seq::empty()
    } else if bytes.len() <= 3 {
        b64_quantum(bytes)
    } else {
        b64_quantum(bytes.take(3)) + b64_encode(bytes.skip(3))
    }
}

/// The bytes a base64 text denotes, or `None` when it is not one the
/// encoder produces.
pub open spec fn b64_decode(s: Seq<char>) -> Option<Seq<u8>>
    decreases s.len(),
{
    if s.len() == 0 {
        Some(Seq::empty())
    } else if s.len() < 4 {
        None
    } else {
        let v0 = b64_val(s[0]);
        let v1 = b64_val(s[1]);
        if v0 < 0 || v1 < 0 {
            None
        } else if s.len() == 4 && s[2] == '=' && s[3] == '=' {
            if v1 % 16 == 0 {
                Some(seq![(v0 * 4 + v1 / 16) as u8])
            } else {
                None
            }
        } else if s.len() == 4 && s[3] == '=' {
            let v2 = b64_val(s[2]);
            if v2 >= 0 && v2 % 4 == 0 {
                Some(seq![(v0 * 4 + v1 / 16) as u8, ((v1 % 16) * 16 + v2 / 4) as u8])
            } else {
                None
            }
        } else {
            let v2 = b64_val(s[2]);
            let v3 = b64_val(s[3]);
            if v2 < 0 || v3 < 0 {
                None
            } else {
                match b64_decode(s.skip(4)) {
                    Option::Some(rest) => Some(
                        seq![
                            (v0 * 4 + v1 / 16) as u8,
                            ((v1 % 16) * 16 + v2 / 4) as u8,
                            ((v2 % 4) * 64 + v3) as u8,
                        ] + rest,
                    ),
                    Option::None => None,
                }
            }
        }
    }
}

/// Decoding inverts encoding.
#[verifier::rlimit(50)]
pub proof fn lemma_b64_round_trip(bytes: Seq<u8>)
    ensures
        b64_decode(b64_encode(bytes)) == Some(bytes),
        b64_encode(bytes).len() == ((bytes.len() + 2) / 3) * 4,
    decreases bytes.len(),
{
    let s = b64_encode(bytes);
    if bytes.len() == 0 {
    } else if bytes.len() == 1 {
        let b0 = bytes[0] as int;
        lemma_b64_char_val(b0 / 4);
        lemma_b64_char_val((b0 % 4) * 16);
        assert(b64_val('=') == -1);
        assert(((b0 % 4) * 16) % 16 == 0) by (nonlinear_arith)
            requires
                0 <= b0 < 256,
        ;
        assert((b0 / 4) * 4 + ((b0 % 4) * 16) / 16 == b0) by (nonlinear_arith)
            requires
                0 <= b0 < 256,
        ;
        assert(b64_decode(s) == Some(seq![bytes[0]]));
        assert(seq![bytes[0]] =~= bytes);
    } else if bytes.len() == 2 {
        let b0 = bytes[0] as int;
        let b1 = bytes[1] as int;
        lemma_b64_char_val(b0 / 4);
        lemma_b64_char_val((b0 % 4) * 16 + b1 / 16);
        lemma_b64_char_val((b1 % 16) * 4);
        assert(b64_val('=') == -1);
        assert(s[3] == '=' && b64_val(s[2]) >= 0);
        assert(((b1 % 16) * 4) % 4 == 0) by (nonlinear_arith)
            requires
                0 <= b1 < 256,
        ;
        assert((b0 / 4) * 4 + ((b0 % 4) * 16 + b1 / 16) / 16 == b0) by (nonlinear_arith)
            requires
                0 <= b0 < 256 && 0 <= b1 < 256,
        ;
        assert((((b0 % 4) * 16 + b1 / 16) % 16) * 16 + ((b1 % 16) * 4) / 4 == b1)
            by (nonlinear_arith)
            requires
                0 <= b0 < 256 && 0 <= b1 < 256,
        ;
        assert(b64_decode(s) == Some(seq![bytes[0], bytes[1]]));
        assert(seq![bytes[0], bytes[1]] =~= bytes);
    } else {
        let chunk = if bytes.len() == 3 {
            bytes
        } else {
            bytes.take(3)
        };
        let b0 = chunk[0] as int;
        let b1 = chunk[1] as int;
        let b2 = chunk[2] as int;
        lemma_b64_char_val(b0 / 4);
        lemma_b64_char_val((b0 % 4) * 16 + b1 / 16);
        lemma_b64_char_val((b1 % 16) * 4 + b2 / 64);
        lemma_b64_char_val(b2 % 64);
        assert((b0 / 4) * 4 + ((b0 % 4) * 16 + b1 / 16) / 16 == b0) by (nonlinear_arith)
            requires
                0 <= b0 < 256 && 0 <= b1 < 256,
        ;
        assert((((b0 % 4) * 16 + b1 / 16) % 16) * 16 + (((b1 % 16) * 4 + b2 / 64)) / 4 == b1)
            by (nonlinear_arith)
            requires
                0 <= b0 < 256 && 0 <= b1 < 256 && 0 <= b2 < 256,
        ;
        assert((((b1 % 16) * 4 + b2 / 64) % 4) * 64 + (b2 % 64) == b2) by (nonlinear_arith)
            requires
                0 <= b1 < 256 && 0 <= b2 < 256,
        ;
        if bytes.len() == 3 {
            assert(s == b64_quantum(bytes));
            assert(s[3] != '=') by {
                assert(b64_val(s[3]) == b2 % 64 >= 0);
                assert(b64_val('=') == -1);
            }
            assert(s.skip(4) =~= Seq::<char>::empty());
            assert(b64_decode(s.skip(4)) == Some(Seq::<u8>::empty()));
            assert(b64_decode(s) == Some(
                seq![chunk[0], chunk[1], chunk[2]] + Seq::<u8>::empty(),
            ));
            assert(seq![chunk[0], chunk[1], chunk[2]] + Seq::<u8>::empty() =~= bytes);
        } else {
            lemma_b64_round_trip(bytes.skip(3));
            let rest = b64_encode(bytes.skip(3));
            assert(s == b64_quantum(chunk) + rest);
            assert(s.len() >= 8);
            assert(s[0] == b64_quantum(chunk)[0] && s[1] == b64_quantum(chunk)[1] && s[2]
                == b64_quantum(chunk)[2] && s[3] == b64_quantum(chunk)[3]);
            assert(s[3] != '=') by {
                assert(b64_val(s[3]) == b2 % 64 >= 0);
                assert(b64_val('=') == -1);
            }
            assert(s.skip(4) =~= rest);
            assert(b64_decode(s) == Some(
                seq![chunk[0], chunk[1], chunk[2]] + bytes.skip(3),
            ));
            assert(seq![chunk[0], chunk[1], chunk[2]] + bytes.skip(3) =~= bytes);
        }
    }
}

/// Encodes bytes to base64 text.
#[verifier::rlimit(50)]
pub fn encode(bytes: &Vec<u8>) -> (r: Vec<char>)
    ensures
        r@ == b64_encode(bytes@),
{
    let n = bytes.len();
    let mut out: Vec<char> = Vec::new();
    let mut i: usize = 0;
    proof {
        assert(bytes@.skip(0) =~= bytes@);
        assert(out@ + b64_encode(bytes@) =~= b64_encode(bytes@));
    }
    while i < n
        invariant
            i <= n,
            n == bytes@.len(),
            i % 3 == 0 || i == n,
            b64_encode(bytes@) == out@ + b64_encode(bytes@.skip(i as int)),
        decreases n - i,
    {
        proof {
            assert(i < n && (i % 3 == 0));
        }
        let ghost out0 = out@;
        let b0 = bytes[i];
        let c0 = b64_char_of(b0 / 4);
        if i + 1 >= n {
            let c1 = b64_char_of((b0 % 4) * 16);
            out.push(c0);
            out.push(c1);
            out.push('=');
            out.push('=');
            proof {
                let tail = bytes@.skip(i as int);
                assert(tail =~= seq![bytes@[i as int]]);
                assert(b64_encode(tail) == b64_quantum(tail));
                assert(out@ =~= out0 + b64_quantum(tail));
            }
            i = n;
            proof {
                assert(bytes@.skip(n as int) =~= Seq::<u8>::empty());
                assert(out@ + b64_encode(bytes@.skip(n as int)) =~= out@);
            }
        } else if i + 2 >= n {
            let b1 = bytes[i + 1];
            let c1 = b64_char_of((b0 % 4) * 16 + b1 / 16);
            let c2 = b64_char_of((b1 % 16) * 4);
            out.push(c0);
            out.push(c1);
            out.push(c2);
            out.push('=');
            proof {
                let tail = bytes@.skip(i as int);
                assert(tail =~= seq![bytes@[i as int], bytes@[i + 1]]);
                assert(b64_encode(tail) == b64_quantum(tail));
                assert(out@ =~= out0 + b64_quantum(tail));
            }
            i = n;
            proof {
                assert(bytes@.skip(n as int) =~= Seq::<u8>::empty());
                assert(out@ + b64_encode(bytes@.skip(n as int)) =~= out@);
            }
        } else {
            let b1 = bytes[i + 1];
            let b2 = bytes[i + 2];
            let c1 = b64_char_of((b0 % 4) * 16 + b1 / 16);
            let c2 = b64_char_of((b1 % 16) * 4 + b2 / 64);
            let c3 = b64_char_of(b2 % 64);
            out.push(c0);
            out.push(c1);
            out.push(c2);
            out.push(c3);
            proof {
                let whole = bytes@.skip(i as int);
                assert(whole.take(3) =~= seq![bytes@[i as int], bytes@[i + 1], bytes@[i + 2]]);
                if whole.len() > 3 {
                    assert(whole.skip(3) =~= bytes@.skip(i + 3));
                    assert(b64_encode(whole) == b64_quantum(whole.take(3)) + b64_encode(
                        bytes@.skip(i + 3),
                    ));
                } else {
                    assert(whole.len() == 3);
                    assert(whole.take(3) =~= whole);
                    assert(bytes@.skip(i + 3) =~= Seq::<u8>::empty());
                    assert(b64_encode(whole) == b64_quantum(whole.take(3)));
                    assert(b64_encode(bytes@.skip(i + 3)) =~= Seq::<char>::empty());
                }
                assert(out@ =~= out0 + b64_quantum(whole.take(3)));
                assert(out@ + b64_encode(bytes@.skip(i + 3)) =~= out0 + b64_encode(whole));
            }
            i = i + 3;
        }
    }
    proof {
        assert(bytes@.skip(n as int) =~= Seq::<u8>::empty());
        assert(bytes@.take(n as int) =~= bytes@);
    }
    out
}

/// Splitting after a whole number of chunks splits the text.
proof fn lemma_b64_encode_concat(bytes: Seq<u8>, i: int)
    requires
        0 <= i <= bytes.len(),
        i % 3 == 0,
    ensures
        b64_encode(bytes) == b64_encode(bytes.take(i)) + b64_encode(bytes.skip(i)),
    decreases i,
{
    if i == 0 {
        assert(bytes.take(0) =~= Seq::<u8>::empty());
        assert(bytes.skip(0) =~= bytes);
        assert(b64_encode(bytes.take(0)) + b64_encode(bytes) =~= b64_encode(bytes));
    } else {
        assert(i >= 3);
        lemma_b64_encode_concat(bytes.skip(3), i - 3);
        assert(bytes.skip(3).take(i - 3) =~= bytes.take(i).skip(3));
        assert(bytes.skip(3).skip(i - 3) =~= bytes.skip(i));
        assert(bytes.take(3) =~= bytes.take(i).take(3));
        if bytes.len() > 3 {
            assert(b64_encode(bytes) == b64_quantum(bytes.take(3)) + b64_encode(bytes.skip(3)));
            if i < bytes.len() {
                assert(bytes.take(i).len() > 3 || bytes.take(i).len() == 3);
                if bytes.take(i).len() > 3 {
                    assert(b64_encode(bytes.take(i)) == b64_quantum(bytes.take(i).take(3))
                        + b64_encode(bytes.take(i).skip(3)));
                } else {
                    assert(bytes.take(i).take(3) =~= bytes.take(i));
                    assert(bytes.take(i).skip(3) =~= Seq::<u8>::empty());
                }
                assert((b64_quantum(bytes.take(3)) + b64_encode(bytes.skip(3).take(i - 3)))
                    + b64_encode(bytes.skip(i)) =~= b64_quantum(bytes.take(3)) + (b64_encode(
                    bytes.skip(3).take(i - 3),
                ) + b64_encode(bytes.skip(i))));
            } else {
                assert(bytes.take(i) =~= bytes);
                assert(bytes.skip(i) =~= Seq::<u8>::empty());
                assert(b64_encode(bytes.take(i)) + b64_encode(bytes.skip(i)) =~= b64_encode(
                    bytes,
                ));
            }
        } else {
            assert(bytes.len() == 3 && i == 3);
            assert(bytes.take(i) =~= bytes);
            assert(bytes.skip(i) =~= Seq::<u8>::empty());
            assert(b64_encode(bytes.take(i)) + b64_encode(bytes.skip(i)) =~= b64_encode(bytes));
        }
    }
}

/// The alphabet character of a 6-bit value.
fn b64_char_of(v: u8) -> (r: char)
    requires
        v < 64,
    ensures
        r == b64_char(v as int),
{
    if v < 26 {
        (65 + v) as char
    } else if v < 52 {
        (97 + v - 26) as char
    } else if v < 62 {
        (48 + v - 52) as char
    } else if v == 62 {
        '+'
    } else {
        '/'
    }
}

/// The 6-bit value of an alphabet character, or `None`.
fn b64_val_of(c: char) -> (r: Option<u8>)
    ensures
        match r {
            Some(v) => b64_val(c) == v as int,
            None => b64_val(c) < 0,
        },
{
    let u = c as u32;
    if 65 <= u && u <= 90 {
        Some((u - 65) as u8)
    } else if 97 <= u && u <= 122 {
        Some((u - 97 + 26) as u8)
    } else if 48 <= u && u <= 57 {
        Some((u - 48 + 52) as u8)
    } else if c == '+' {
        Some(62)
    } else if c == '/' {
        Some(63)
    } else {
        None
    }
}

/// A decode outcome seen with bytes already produced in front.
pub open spec fn prepend_bytes(pre: Seq<u8>, r: Option<Seq<u8>>) -> Option<Seq<u8>> {
    match r {
        Option::Some(v) => Some(pre + v),
        Option::None => None,
    }
}

proof fn lemma_prepend_compose(r: Option<Seq<u8>>, p1: Seq<u8>, p2: Seq<u8>)
    ensures
        prepend_bytes(p1, prepend_bytes(p2, r)) == prepend_bytes(p1 + p2, r),
{
    match r {
        Option::Some(v) => {
            assert(p1 + (p2 + v) =~= (p1 + p2) + v);
        },
        Option::None => {},
    }
}

/// Decodes base64 text; `None` on anything the encoder cannot produce.
pub fn decode(s: &Vec<char>) -> (r: Option<Vec<u8>>)
    ensures
        match r {
            Some(bytes) => b64_decode(s@) == Some(bytes@),
            None => b64_decode(s@) is None,
        },
{
    let n = s.len();
    let mut out: Vec<u8> = Vec::new();
    let mut i: usize = 0;
    proof {
        assert(s@.skip(0) =~= s@);
        if b64_decode(s@) is Some {
            assert(Seq::<u8>::empty() + b64_decode(s@)->Some_0 =~= b64_decode(s@)->Some_0);
        }
    }
    loop
        invariant
            i <= n,
            n == s@.len(),
            b64_decode(s@) == prepend_bytes(out@, b64_decode(s@.skip(i as int))),
        decreases n - i,
    {
        let ghost here = s@.skip(i as int);
        if i >= n {
            proof {
                assert(here =~= Seq::<char>::empty());
                assert(b64_decode(here) == Some(Seq::<u8>::empty()));
                assert(out@ + Seq::<u8>::empty() =~= out@);
            }
            return Some(out);
        }
        proof {
            assert(here.len() >= 1);
        }
        if n - i < 4 {
            return None;
        }
        let c0 = s[i];
        let c1 = s[i + 1];
        let c2 = s[i + 2];
        let c3 = s[i + 3];
        proof {
            assert(here[0] == c0 && here[1] == c1 && here[2] == c2 && here[3] == c3);
        }
        let v0 = match b64_val_of(c0) {
            Option::Some(v) => v,
            Option::None => {
                return None;
            },
        };
        let v1 = match b64_val_of(c1) {
            Option::Some(v) => v,
            Option::None => {
                return None;
            },
        };
        if i + 4 == n && c2 == '=' && c3 == '=' {
            if v1 % 16 != 0 {
                return None;
            }
            let ghost acc0 = out@;
            out.push(v0 * 4 + v1 / 16);
            proof {
                assert(here.len() == 4);
                assert(b64_decode(here) == Some(seq![(v0 * 4 + v1 / 16) as u8]));
                assert(acc0 + seq![(v0 * 4 + v1 / 16) as u8] =~= out@);
                assert(s@.skip(n as int) =~= Seq::<char>::empty());
                assert(b64_decode(s@.skip(n as int)) == Some(Seq::<u8>::empty()));
                assert(out@ + Seq::<u8>::empty() =~= out@);
            }
            i = n;
        } else if i + 4 == n && c3 == '=' {
            let v2 = match b64_val_of(c2) {
                Option::Some(v) => v,
                Option::None => {
                    proof {
                        assert(c2 != '=') by {
                            assert(b64_val(c2) < 0);
                        }
                    }
                    return None;
                },
            };
            if v2 % 4 != 0 {
                return None;
            }
            let ghost acc0 = out@;
            out.push(v0 * 4 + v1 / 16);
            out.push((v1 % 16) * 16 + v2 / 4);
            proof {
                assert(c2 != '=') by {
                    assert(b64_val('=') == -1);
                }
                assert(here.len() == 4);
                assert(b64_decode(here) == Some(
                    seq![(v0 * 4 + v1 / 16) as u8, ((v1 % 16) * 16 + v2 / 4) as u8],
                ));
                assert(acc0 + seq![(v0 * 4 + v1 / 16) as u8, ((v1 % 16) * 16 + v2 / 4) as u8]
                    =~= out@);
                assert(s@.skip(n as int) =~= Seq::<char>::empty());
                assert(b64_decode(s@.skip(n as int)) == Some(Seq::<u8>::empty()));
                assert(out@ + Seq::<u8>::empty() =~= out@);
            }
            i = n;
        } else {
            let v2 = match b64_val_of(c2) {
                Option::Some(v) => v,
                Option::None => {
                    proof {
                        if here.len() == 4 && here[2] == '=' && here[3] == '=' {
                            assert(b64_val('=') == -1);
                        }
                    }
                    return None;
                },
            };
            let v3 = match b64_val_of(c3) {
                Option::Some(v) => v,
                Option::None => {
                    proof {
                        if here.len() == 4 && here[3] == '=' {
                            assert(b64_val('=') == -1);
                        }
                    }
                    return None;
                },
            };
            proof {
                assert(c2 != '=' && c3 != '=') by {
                    assert(b64_val('=') == -1);
                }
            }
            let ghost acc0 = out@;
            out.push(v0 * 4 + v1 / 16);
            out.push((v1 % 16) * 16 + v2 / 4);
            out.push((v2 % 4) * 64 + v3);
            proof {
                let trio = seq![
                    (v0 * 4 + v1 / 16) as u8,
                    ((v1 % 16) * 16 + v2 / 4) as u8,
                    ((v2 % 4) * 64 + v3) as u8,
                ];
                assert(here.skip(4) =~= s@.skip(i + 4));
                assert(b64_decode(here) == prepend_bytes(trio, b64_decode(s@.skip(i + 4))));
                lemma_prepend_compose(b64_decode(s@.skip(i + 4)), acc0, trio);
                assert(acc0 + trio =~= out@);
            }
            i = i + 4;
        }
    }
}

} // verus!
