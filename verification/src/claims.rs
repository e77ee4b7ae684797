//! The token payload: a subject (owner identifier) and an expiry instant,
//! carried as the canonical JSON document `{"sub":"...","exp":N}`.
use vstd::prelude::*;
use crate::bytesutil::{ascii_bytes, find_byte, lemma_find_byte, lemma_find_byte_is, str_ascii_bytes,
    subvec, bytes_eq, find_byte_exec};

verus! {

/// The payload carried by a token: the subject (an owner identifier) and the
/// expiry, in seconds since the Unix epoch.
pub struct Claims {
    pub sub: String,
    pub exp: u64,
}

/// Decimal digits of `n`, most significant first.
pub open spec fn dec_bytes(n: nat) -> Seq<u8>
    decreases n,
{
    if n < 10 {
        seq![(48 + n) as u8]
    } else {
        dec_bytes(n / 10).push((48 + n % 10) as u8)
    }
}

pub proof fn lemma_dec_bytes_digits(n: nat)
    ensures
        dec_bytes(n).len() >= 1,
        forall|i: int| 0 <= i < dec_bytes(n).len() ==> 48 <= #[trigger] dec_bytes(n)[i] <= 57,
    decreases n,
{
    if n >= 10 {
        lemma_dec_bytes_digits(n / 10);
    }
}

/// Left-to-right decimal accumulation, `None` on a non-digit or on overflow
/// past `u64::MAX`.
pub open spec fn parse_digits(d: Seq<u8>, acc: u64) -> Option<u64>
    decreases d.len(),
{
    if d.len() == 0 {
        Some(acc)
    } else if 48 <= d[0] && d[0] <= 57 {
        if (acc as int) * 10 + (d[0] - 48) > u64::MAX {
            None
        } else {
            parse_digits(d.drop_first(), ((acc as int) * 10 + (d[0] - 48)) as u64)
        }
    } else {
        None
    }
}

proof fn lemma_parse_digits_snoc(a: Seq<u8>, x: u8, acc: u64)
    ensures
        parse_digits(a.push(x), acc) == match parse_digits(a, acc) {
            Some(m) => if 48 <= x && x <= 57 {
                if (m as int) * 10 + (x - 48) > u64::MAX {
                    None
                } else {
                    Some((((m as int) * 10 + (x - 48)) as u64))
                }
            } else {
                None::<u64>
            },
            None => None::<u64>,
        },
    decreases a.len(),
{
    if a.len() == 0 {
        assert(a.push(x)[0] == x);
        assert(a.push(x).drop_first() =~= Seq::<u8>::empty());
    } else {
        assert(a.push(x)[0] == a[0]);
        assert(a.push(x).drop_first() =~= a.drop_first().push(x));
        if 48 <= a[0] && a[0] <= 57 && (acc as int) * 10 + (a[0] - 48) <= u64::MAX {
            lemma_parse_digits_snoc(a.drop_first(), x, ((acc as int) * 10 + (a[0] - 48)) as u64);
        }
    }
}

/// Parsing the decimal rendering of `n` yields `n` back.
pub proof fn lemma_dec_bytes_parse(n: u64)
    ensures
        parse_digits(dec_bytes(n as nat), 0) == Some(n),
    decreases n,
{
    if n < 10 {
        let d = dec_bytes(n as nat);
        assert(d[0] == 48 + n);
        assert(d.drop_first() =~= Seq::<u8>::empty());
        assert(parse_digits(Seq::<u8>::empty(), n) == Some(n));
        assert(((0 as int) * 10 + (d[0] - 48)) as u64 == n);
    } else {
        lemma_dec_bytes_parse(n / 10);
        let x = (48 + n % 10) as u8;
        assert(dec_bytes(n as nat) == dec_bytes((n / 10) as nat).push(x));
        lemma_parse_digits_snoc(dec_bytes((n / 10) as nat), x, 0);
        assert(x - 48 == n % 10);
        assert((n / 10) as int * 10 + n % 10 == n);
    }
}

pub open spec fn json_prefix() -> Seq<u8> {
    ascii_bytes("{\"sub\":\""@)
}

pub open spec fn json_mid() -> Seq<u8> {
    ascii_bytes("\",\"exp\":"@)
}

/// The canonical payload document for a subject and an expiry.
pub open spec fn claims_json(sub: Seq<u8>, exp: u64) -> Seq<u8> {
    json_prefix() + sub + json_mid() + dec_bytes(exp as nat) + seq![125u8]
}

/// Parse a payload document of the canonical shape; the subject runs to the
/// first closing quote, the expiry to the final brace.
pub open spec fn parse_claims(b: Seq<u8>) -> Option<(Seq<u8>, u64)> {
    let q = find_byte(b, 34, 8);
    if b.len() < 8 || b.subrange(0, 8) != json_prefix() {
        None
    } else if q >= b.len() || q + 10 > b.len() {
        None
    } else if b.subrange(q, q + 8) != json_mid() {
        None
    } else if b[b.len() - 1] != 125 {
        None
    } else {
        match parse_digits(b.subrange(q + 8, b.len() - 1), 0) {
            Some(v) => Some((b.subrange(8, q), v)),
            None => None,
        }
    }
}

proof fn lemma_literal_bytes()
    ensures
        json_prefix().len() == 8,
        json_prefix()[7] == 34,
        json_mid().len() == 8,
        json_mid()[0] == 34,
{
    reveal_strlit("{\"sub\":\"");
    reveal_strlit("\",\"exp\":");
}

/// A rendered payload parses back to the subject and expiry it was rendered
/// from, provided the subject contains no quote byte.
pub proof fn lemma_claims_roundtrip(sub: Seq<u8>, exp: u64)
    requires
        forall|i: int| 0 <= i < sub.len() ==> #[trigger] sub[i] != 34,
    ensures
        parse_claims(claims_json(sub, exp)) == Some((sub, exp)),
{
    lemma_literal_bytes();
    lemma_dec_bytes_digits(exp as nat);
    let b = claims_json(sub, exp);
    let d = dec_bytes(exp as nat);
    let r = 8 + sub.len() as int;
    assert(b.len() == 17 + sub.len() + d.len());
    assert(b.subrange(0, 8) =~= json_prefix());
    assert(b[r] == json_mid()[0]);
    assert(forall|m: int| 8 <= m < r ==> #[trigger] b[m] == sub[m - 8]);
    lemma_find_byte_is(b, 34, 8, r);
    let q = find_byte(b, 34, 8);
    assert(q == r);
    assert(b.subrange(q, q + 8) =~= json_mid());
    assert(b[b.len() - 1] == 125);
    assert(b.subrange(q + 8, b.len() - 1) =~= d);
    lemma_dec_bytes_parse(exp);
    assert(b.subrange(8, q) =~= sub);
}

pub(crate) fn push_all(out: &mut Vec<u8>, src: &Vec<u8>)
    ensures
        final(out)@ == old(out)@ + src@,
{
    let mut i: usize = 0;
    proof {
        assert(out@ =~= old(out)@ + src@.take(0));
    }
    while i < src.len()
        invariant
            i <= src.len(),
            out@ == old(out)@ + src@.take(i as int),
        decreases src.len() - i,
    {
        out.push(src[i]);
        proof {
            assert(old(out)@ + src@.take(i as int) + seq![src@[i as int]] =~= old(out)@ + src@.take(
                i + 1,
            ));
        }
        i = i + 1;
    }
    proof {
        assert(old(out)@ + src@.take(src@.len() as int) =~= old(out)@ + src@);
    }
}

fn push_decimal(out: &mut Vec<u8>, n: u64)
    ensures
        final(out)@ == old(out)@ + dec_bytes(n as nat),
    decreases n,
{
    if n < 10 {
        out.push(48 + n as u8);
        proof {
            assert(out@ =~= old(out)@ + dec_bytes(n as nat));
        }
    } else {
        push_decimal(out, n / 10);
        out.push(48 + (n % 10) as u8);
        proof {
            assert(out@ =~= old(out)@ + dec_bytes(n as nat));
        }
    }
}

/// Render the canonical payload document of a claims value.
pub fn claims_json_exec(c: &Claims) -> (r: Vec<u8>)
    requires
        vstd::utf8::is_ascii_chars(c.sub@),
    ensures
        r@ == claims_json(ascii_bytes(c.sub@), c.exp),
{
    let p = "{\"sub\":\"";
    let m = "\",\"exp\":";
    proof {
        reveal_strlit("{\"sub\":\"");
        reveal_strlit("\",\"exp\":");
    }
    let mut out = str_ascii_bytes(p);
    let sb = str_ascii_bytes(c.sub.as_str());
    push_all(&mut out, &sb);
    let mb = str_ascii_bytes(m);
    push_all(&mut out, &mb);
    push_decimal(&mut out, c.exp);
    out.push(125);
    proof {
        assert(out@ =~= claims_json(ascii_bytes(c.sub@), c.exp));
    }
    out
}

fn parse_digits_exec(d: &Vec<u8>) -> (r: Option<u64>)
    ensures
        match r {
            Some(v) => parse_digits(d@, 0) == Some(v),
            None => parse_digits(d@, 0) is None,
        },
{
    let mut acc: u64 = 0;
    let mut i: usize = 0;
    proof {
        assert(d@.skip(0) =~= d@);
    }
    while i < d.len()
        invariant
            i <= d.len(),
            parse_digits(d@, 0) == parse_digits(d@.skip(i as int), acc),
        decreases d.len() - i,
    {
        proof {
            assert(d@.skip(i as int)[0] == d@[i as int]);
            assert(d@.skip(i as int).drop_first() =~= d@.skip(i + 1));
        }
        let c = d[i];
        if c < 48 || c > 57 {
            return None;
        }
        let dig = (c - 48) as u64;
        match acc.checked_mul(10) {
            Some(m10) => match m10.checked_add(dig) {
                Some(s) => {
                    acc = s;
                },
                None => {
                    return None;
                },
            },
            None => {
                return None;
            },
        }
        i = i + 1;
    }
    proof {
        assert(d@.skip(d@.len() as int) =~= Seq::<u8>::empty());
    }
    Some(acc)
}

/// Parse a payload document; `None` exactly where the specification-level
/// parse is undefined.
pub fn parse_claims_exec(b: &Vec<u8>) -> (r: Option<(Vec<u8>, u64)>)
    ensures
        match r {
            Some(p) => parse_claims(b@) == Some((p.0@, p.1)),
            None => parse_claims(b@) is None,
        },
{
    proof {
        reveal_strlit("{\"sub\":\"");
        reveal_strlit("\",\"exp\":");
    }
    if b.len() < 8 {
        return None;
    }
    let p = "{\"sub\":\"";
    let prefix = str_ascii_bytes(p);
    let bpre = subvec(b, 0, 8);
    if !bytes_eq(&bpre, &prefix) {
        return None;
    }
    let q = find_byte_exec(b, 34, 8);
    proof {
        lemma_find_byte(b@, 34, 8);
    }
    if q >= b.len() {
        return None;
    }
    if b.len() - q < 10 {
        return None;
    }
    let m = "\",\"exp\":";
    let mid = str_ascii_bytes(m);
    let bmid = subvec(b, q, q + 8);
    if !bytes_eq(&bmid, &mid) {
        return None;
    }
    if b[b.len() - 1] != 125 {
        return None;
    }
    let digits = subvec(b, q + 8, b.len() - 1);
    match parse_digits_exec(&digits) {
        Some(v) => {
            let sub = subvec(b, 8, q);
            Some((sub, v))
        },
        None => None,
    }
}

} // verus!
