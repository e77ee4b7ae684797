//! Base64url (no padding) over bytes, as compact tokens use for their
//! header, payload and signature segments.
use vstd::prelude::*;

verus! {

/// Value of a base64url alphabet byte; `None` for bytes outside the alphabet.
pub open spec fn b64_val(b: u8) -> Option<u8> {
    if 65 <= b && b <= 90 {
        Some((b - 65) as u8)  // 'A'..='Z' -> 0..=25
    } else if 97 <= b && b <= 122 {
        Some((b - 71) as u8)  // 'a'..='z' -> 26..=51
    } else if 48 <= b && b <= 57 {
        Some((b + 4) as u8)  // '0'..='9' -> 52..=61
    } else if b == 45 {
        Some(62u8)  // '-'
    } else if b == 95 {
        Some(63u8)  // '_'
    } else {
        None
    }
}

pub open spec fn is_b64_byte(b: u8) -> bool {
    b64_val(b) is Some
}

/// The alphabet byte standing for a 6-bit value.
pub open spec fn b64_byte_of(v: u8) -> u8
    recommends
        v < 64,
{
    if v < 26 {
        (v + 65) as u8
    } else if v < 52 {
        (v + 71) as u8
    } else if v < 62 {
        (v - 4) as u8
    } else if v == 62 {
        45u8
    } else {
        95u8
    }
}

proof fn lemma_b64_byte_val(v: u8)
    requires
        v < 64,
    ensures
        b64_val(b64_byte_of(v)) == Some(v),
{
}

/// Decoding of a padding-free base64url byte string, group by group from the
/// front; `None` when a byte is outside the alphabet or the length leaves a
/// single trailing byte.
pub open spec fn b64_decode(s: Seq<u8>) -> Option<Seq<u8>>
    decreases s.len(),
{
    if s.len() == 0 {
        Some(Seq::empty())
    } else if s.len() == 1 {
        None
    } else if s.len() == 2 {
        match (b64_val(s[0]), b64_val(s[1])) {
            (Some(v0), Some(v1)) => Some(seq![((v0 as int) * 4 + (v1 as int) / 16) as u8]),
            _ => None,
        }
    } else if s.len() == 3 {
        match (b64_val(s[0]), b64_val(s[1]), b64_val(s[2])) {
            (Some(v0), Some(v1), Some(v2)) => Some(
                seq![
                    ((v0 as int) * 4 + (v1 as int) / 16) as u8,
                    ((v1 as int) % 16 * 16 + (v2 as int) / 4) as u8,
                ],
            ),
            _ => None,
        }
    } else {
        match (b64_val(s[0]), b64_val(s[1]), b64_val(s[2]), b64_val(s[3])) {
            (Some(v0), Some(v1), Some(v2), Some(v3)) => match b64_decode(s.skip(4)) {
                Some(rest) => Some(
                    seq![
                        ((v0 as int) * 4 + (v1 as int) / 16) as u8,
                        ((v1 as int) % 16 * 16 + (v2 as int) / 4) as u8,
                        ((v2 as int) % 4 * 64 + (v3 as int)) as u8,
                    ] + rest,
                ),
                None => None,
            },
            _ => None,
        }
    }
}

pub open spec fn all_b64_bytes(s: Seq<u8>) -> bool {
    forall|i: int| 0 <= i < s.len() ==> is_b64_byte(#[trigger] s[i])
}

/// The 6-bit split of a byte triple recombines to the original bytes.
proof fn lemma_split3(b0: u8, b1: u8, b2: u8, v0: u8, v1: u8, v2: u8, v3: u8)
    requires
        v0 == b0 / 4,
        v1 == b0 % 4 * 16 + b1 / 16,
        v2 == b1 % 16 * 4 + b2 / 64,
        v3 == b2 % 64,
    ensures
        v0 < 64 && v1 < 64 && v2 < 64 && v3 < 64,
        (v0 as int) * 4 + (v1 as int) / 16 == b0,
        (v1 as int) % 16 * 16 + (v2 as int) / 4 == b1,
        (v2 as int) % 4 * 64 + (v3 as int) == b2,
{
    assert(v0 < 64 && v1 < 64 && v2 < 64 && v3 < 64) by (bit_vector)
        requires
            v0 == b0 / 4,
            v1 == b0 % 4 * 16 + b1 / 16,
            v2 == b1 % 16 * 4 + b2 / 64,
            v3 == b2 % 64,
    ;
    assert(v0 * 4 + v1 / 16 == b0) by (bit_vector)
        requires
            v0 == b0 / 4,
            v1 == b0 % 4 * 16 + b1 / 16,
    ;
    assert(v1 % 16 * 16 + v2 / 4 == b1) by (bit_vector)
        requires
            v1 == b0 % 4 * 16 + b1 / 16,
            v2 == b1 % 16 * 4 + b2 / 64,
    ;
    assert(v2 % 4 * 64 + v3 == b2) by (bit_vector)
        requires
            v2 == b1 % 16 * 4 + b2 / 64,
            v3 == b2 % 64,
    ;
}

/// The 6-bit split of a byte pair recombines to the original bytes.
proof fn lemma_split2(b0: u8, b1: u8, v0: u8, v1: u8, v2: u8)
    requires
        v0 == b0 / 4,
        v1 == b0 % 4 * 16 + b1 / 16,
        v2 == b1 % 16 * 4,
    ensures
        v0 < 64 && v1 < 64 && v2 < 64,
        (v0 as int) * 4 + (v1 as int) / 16 == b0,
        (v1 as int) % 16 * 16 + (v2 as int) / 4 == b1,
{
    assert(v0 < 64 && v1 < 64 && v2 < 64) by (bit_vector)
        requires
            v0 == b0 / 4,
            v1 == b0 % 4 * 16 + b1 / 16,
            v2 == b1 % 16 * 4,
    ;
    assert(v0 * 4 + v1 / 16 == b0) by (bit_vector)
        requires
            v0 == b0 / 4,
            v1 == b0 % 4 * 16 + b1 / 16,
    ;
    assert(v1 % 16 * 16 + v2 / 4 == b1) by (bit_vector)
        requires
            v1 == b0 % 4 * 16 + b1 / 16,
            v2 == b1 % 16 * 4,
    ;
}

/// The 6-bit split of a single byte recombines to it.
proof fn lemma_split1(b0: u8, v0: u8, v1: u8)
    requires
        v0 == b0 / 4,
        v1 == b0 % 4 * 16,
    ensures
        v0 < 64 && v1 < 64,
        (v0 as int) * 4 + (v1 as int) / 16 == b0,
{
    assert(v0 < 64 && v1 < 64) by (bit_vector)
        requires
            v0 == b0 / 4,
            v1 == b0 % 4 * 16,
    ;
    assert(v0 * 4 + v1 / 16 == b0) by (bit_vector)
        requires
            v0 == b0 / 4,
            v1 == b0 % 4 * 16,
    ;
}

proof fn lemma_b64_decode_append(a: Seq<u8>, b: Seq<u8>)
    requires
        a.len() % 4 == 0,
        b64_decode(a) is Some,
        b64_decode(b) is Some,
    ensures
        b64_decode(a + b) == Some(b64_decode(a)->Some_0 + b64_decode(b)->Some_0),
    decreases a.len(),
{
    if a.len() == 0 {
        assert(a + b =~= b);
        assert(b64_decode(a)->Some_0 + b64_decode(b)->Some_0 =~= b64_decode(b)->Some_0);
    } else {
        let rest = a.skip(4);
        assert((a + b).len() >= 4);
        assert(forall|i: int| 0 <= i < 4 ==> (a + b)[i] == a[i]);
        assert((a + b).skip(4) =~= rest + b);
        lemma_b64_decode_append(rest, b);
        assert(b64_decode(a)->Some_0 + b64_decode(b)->Some_0 =~= seq![
            b64_decode(a)->Some_0[0],
            b64_decode(a)->Some_0[1],
            b64_decode(a)->Some_0[2],
        ] + (b64_decode(rest)->Some_0 + b64_decode(b)->Some_0));
    }
}

fn b64_byte_exec(v: u8) -> (r: u8)
    requires
        v < 64,
    ensures
        r == b64_byte_of(v),
{
    if v < 26 {
        v + 65
    } else if v < 52 {
        v + 71
    } else if v < 62 {
        v - 4
    } else if v == 62 {
        45
    } else {
        95
    }
}

fn b64_val_exec(b: u8) -> (r: Option<u8>)
    ensures
        r == b64_val(b),
{
    if 65 <= b && b <= 90 {
        Some(b - 65)
    } else if 97 <= b && b <= 122 {
        Some(b - 71)
    } else if 48 <= b && b <= 57 {
        Some(b + 4)
    } else if b == 45 {
        Some(62)
    } else if b == 95 {
        Some(63)
    } else {
        None
    }
}

/// Encode bytes as padding-free base64url; the contract states that decoding
/// gives the input back and that every output byte is in the alphabet.
pub fn b64_encode(bytes: &Vec<u8>) -> (r: Vec<u8>)
    ensures
        b64_decode(r@) == Some(bytes@),
        all_b64_bytes(r@),
{
    let mut out: Vec<u8> = Vec::new();
    let mut i: usize = 0;
    proof {
        assert(bytes@.take(0) =~= Seq::<u8>::empty());
    }
    while bytes.len() - i >= 3
        invariant
            i <= bytes.len(),
            out@.len() % 4 == 0,
            b64_decode(out@) == Some(bytes@.take(i as int)),
            all_b64_bytes(out@),
        decreases bytes.len() - i,
    {
        let b0 = bytes[i];
        let b1 = bytes[i + 1];
        let b2 = bytes[i + 2];
        let v0 = b0 / 4;
        let v1 = b0 % 4 * 16 + b1 / 16;
        let v2 = b1 % 16 * 4 + b2 / 64;
        let v3 = b2 % 64;
        proof {
            lemma_split3(b0, b1, b2, v0, v1, v2, v3);
        }
        let g0 = b64_byte_exec(v0);
        let g1 = b64_byte_exec(v1);
        let g2 = b64_byte_exec(v2);
        let g3 = b64_byte_exec(v3);
        let ghost old_out = out@;
        out.push(g0);
        out.push(g1);
        out.push(g2);
        out.push(g3);
        proof {
            let g = seq![g0, g1, g2, g3];
            assert(out@ =~= old_out + g);
            lemma_b64_byte_val(v0);
            lemma_b64_byte_val(v1);
            lemma_b64_byte_val(v2);
            lemma_b64_byte_val(v3);
            assert(g.skip(4) =~= Seq::<u8>::empty());
            assert(b64_decode(Seq::<u8>::empty()) == Some(Seq::<u8>::empty()));
            assert(b64_decode(g) == Some(seq![b0, b1, b2])) by {
                assert(seq![b0, b1, b2] + Seq::<u8>::empty() =~= seq![b0, b1, b2]);
            }
            lemma_b64_decode_append(old_out, g);
            assert(bytes@.take(i as int) + seq![b0, b1, b2] =~= bytes@.take(i + 3));
        }
        i = i + 3;
    }
    let ghost done = out@;
    if bytes.len() - i == 2 {
        let b0 = bytes[i];
        let b1 = bytes[i + 1];
        let v0 = b0 / 4;
        let v1 = b0 % 4 * 16 + b1 / 16;
        let v2 = b1 % 16 * 4;
        proof {
            lemma_split2(b0, b1, v0, v1, v2);
        }
        let g0 = b64_byte_exec(v0);
        let g1 = b64_byte_exec(v1);
        let g2 = b64_byte_exec(v2);
        out.push(g0);
        out.push(g1);
        out.push(g2);
        proof {
            let g = seq![g0, g1, g2];
            assert(out@ =~= done + g);
            lemma_b64_byte_val(v0);
            lemma_b64_byte_val(v1);
            lemma_b64_byte_val(v2);
            assert(b64_decode(g) == Some(seq![b0, b1]));
            lemma_b64_decode_append(done, g);
            assert(bytes@.take(i as int) + seq![b0, b1] =~= bytes@);
        }
    } else if bytes.len() - i == 1 {
        let b0 = bytes[i];
        let v0 = b0 / 4;
        let v1 = b0 % 4 * 16;
        proof {
            lemma_split1(b0, v0, v1);
        }
        let g0 = b64_byte_exec(v0);
        let g1 = b64_byte_exec(v1);
        out.push(g0);
        out.push(g1);
        proof {
            let g = seq![g0, g1];
            assert(out@ =~= done + g);
            lemma_b64_byte_val(v0);
            lemma_b64_byte_val(v1);
            assert(b64_decode(g) == Some(seq![b0]));
            lemma_b64_decode_append(done, g);
            assert(bytes@.take(i as int) + seq![b0] =~= bytes@);
        }
    } else {
        proof {
            assert(bytes@.take(i as int) =~= bytes@);
        }
    }
    out
}

/// Decode a padding-free base64url byte string; `None` exactly where the
/// specification-level decoding is undefined.
pub fn b64_decode_exec(s: &Vec<u8>) -> (r: Option<Vec<u8>>)
    ensures
        match r {
            Some(v) => b64_decode(s@) == Some(v@),
            None => b64_decode(s@) is None,
        },
{
    let mut out: Vec<u8> = Vec::new();
    let mut i: usize = 0;
    proof {
        assert(s@.skip(0) =~= s@);
        if b64_decode(s@) is Some {
            assert(Seq::<u8>::empty() + b64_decode(s@)->Some_0 =~= b64_decode(s@)->Some_0);
        }
    }
    while s.len() - i >= 4
        invariant
            i <= s.len(),
            b64_decode(s@) == match b64_decode(s@.skip(i as int)) {
                Some(rest) => Some(out@ + rest),
                None => None::<Seq<u8>>,
            },
        decreases s.len() - i,
    {
        proof {
            assert(s@.skip(i as int).len() >= 4);
            assert(s@.skip(i as int).skip(4) =~= s@.skip(i + 4));
            assert(s@.skip(i as int)[0] == s@[i as int]);
            assert(s@.skip(i as int)[1] == s@[i + 1]);
            assert(s@.skip(i as int)[2] == s@[i + 2]);
            assert(s@.skip(i as int)[3] == s@[i + 3]);
        }
        let v0 = b64_val_exec(s[i]);
        let v1 = b64_val_exec(s[i + 1]);
        let v2 = b64_val_exec(s[i + 2]);
        let v3 = b64_val_exec(s[i + 3]);
        match (v0, v1, v2, v3) {
            (Some(v0), Some(v1), Some(v2), Some(v3)) => {
                let ghost old_out = out@;
                out.push(v0 * 4 + v1 / 16);
                out.push(v1 % 16 * 16 + v2 / 4);
                out.push(v2 % 4 * 64 + v3);
                proof {
                    let rest_opt = b64_decode(s@.skip(i + 4));
                    if rest_opt is Some {
                        assert(out@ + rest_opt->Some_0 =~= old_out + (seq![
                            ((v0 as int) * 4 + (v1 as int) / 16) as u8,
                            ((v1 as int) % 16 * 16 + (v2 as int) / 4) as u8,
                            ((v2 as int) % 4 * 64 + (v3 as int)) as u8,
                        ] + rest_opt->Some_0));
                    }
                }
                i = i + 4;
            },
            _ => {
                return None;
            },
        }
    }
    proof {
        if i < s.len() {
            assert(s@.skip(i as int)[0] == s@[i as int]);
            if s.len() - i >= 2 {
                assert(s@.skip(i as int)[1] == s@[i + 1]);
            }
            if s.len() - i >= 3 {
                assert(s@.skip(i as int)[2] == s@[i + 2]);
            }
        }
    }
    if i == s.len() {
        proof {
            assert(s@.skip(i as int) =~= Seq::<u8>::empty());
            assert(out@ + Seq::<u8>::empty() =~= out@);
        }
        Some(out)
    } else if s.len() - i == 1 {
        None
    } else if s.len() - i == 2 {
        match (b64_val_exec(s[i]), b64_val_exec(s[i + 1])) {
            (Some(v0), Some(v1)) => {
                let ghost old_out = out@;
                out.push(v0 * 4 + v1 / 16);
                proof {
                    assert(out@ =~= old_out + seq![((v0 as int) * 4 + (v1 as int) / 16) as u8]);
                }
                Some(out)
            },
            _ => None,
        }
    } else {
        match (b64_val_exec(s[i]), b64_val_exec(s[i + 1]), b64_val_exec(s[i + 2])) {
            (Some(v0), Some(v1), Some(v2)) => {
                let ghost old_out = out@;
                out.push(v0 * 4 + v1 / 16);
                out.push(v1 % 16 * 16 + v2 / 4);
                proof {
                    assert(out@ =~= old_out + seq![
                        ((v0 as int) * 4 + (v1 as int) / 16) as u8,
                        ((v1 as int) % 16 * 16 + (v2 as int) / 4) as u8,
                    ]);
                }
                Some(out)
            },
            _ => None,
        }
    }
}

} // verus!
