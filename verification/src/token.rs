//! Signed, expiring identity tokens in the compact three-segment form
//! `base64url(header).base64url(payload).signature`, with an HS256 signature.
//!
//! Issue and verification are pure in the current time: callers pass the
//! clock reading in, and the contracts speak of the outcome at any instant.
use vstd::prelude::*;
use crate::b64::{b64_decode, b64_encode, b64_decode_exec, all_b64_bytes, is_b64_byte};
use crate::bytesutil::{ascii_bytes, bytes_chars, all_lt_128, find_byte, lemma_find_byte,
    lemma_find_byte_is, str_ascii_bytes, subvec, bytes_eq, find_byte_exec, ascii_to_string,
    lemma_bytes_chars_roundtrip, lemma_chars_bytes_roundtrip};
use crate::claims::{Claims, claims_json, parse_claims, claims_json_exec, parse_claims_exec,
    lemma_claims_roundtrip};

verus! {

/// Why a token was rejected: it does not parse or its signature does not
/// match; its expiry has passed; or its subject is not an owner identifier.
#[derive(Clone, Copy, Debug, PartialEq, Eq, Structural)]
pub enum TokenError {
    Malformed,
    Expired,
    InvalidSubject,
}

/// Hexadecimal digit, either case.
pub open spec fn is_hex_byte(b: u8) -> bool {
    (48 <= b && b <= 57) || (97 <= b && b <= 102) || (65 <= b && b <= 70)
}

/// An owner identifier is rendered as exactly 24 hexadecimal digits.
pub open spec fn valid_owner_bytes(s: Seq<u8>) -> bool {
    s.len() == 24 && forall|i: int| 0 <= i < s.len() ==> is_hex_byte(#[trigger] s[i])
}

pub open spec fn valid_owner_chars(s: Seq<char>) -> bool {
    vstd::utf8::is_ascii_chars(s) && valid_owner_bytes(ascii_bytes(s))
}

pub fn check_owner_bytes(v: &Vec<u8>) -> (r: bool)
    ensures
        r == valid_owner_bytes(v@),
{
    if v.len() != 24 {
        return false;
    }
    let mut i: usize = 0;
    while i < v.len()
        invariant
            i <= v@.len(),
            forall|m: int| 0 <= m < i ==> is_hex_byte(#[trigger] v@[m]),
        decreases v@.len() - i,
    {
        let b = v[i];
        if !((48 <= b && b <= 57) || (97 <= b && b <= 102) || (65 <= b && b <= 70)) {
            return false;
        }
        i = i + 1;
    }
    true
}

/// Whether an owner identifier string is well-formed.
pub fn check_owner_id(s: &String) -> (r: bool)
    ensures
        r == valid_owner_chars(s@),
{
    if !s.is_ascii() {
        return false;
    }
    let b = str_ascii_bytes(s.as_str());
    check_owner_bytes(&b)
}

/// The signature jsonwebtoken's HS256 signing produces for a secret and a
/// message, as base64url text.
pub uninterp spec fn hs256_sig_of(secret: Seq<u8>, msg: Seq<u8>) -> Seq<u8>;

/// Relies on jsonwebtoken's `crypto::sign` with `Algorithm::HS256` and an
/// `EncodingKey::from_secret` key: the result is an HMAC-SHA-256 digest of
/// the message, a function of secret and message alone; its source encodes
/// the digest as padding-free base64url text and never fails for the HMAC
/// family.
#[verifier::external_body]
fn hs256_sign(secret: &[u8], msg: &Vec<u8>) -> (r: Vec<u8>)
    ensures
        r@ == hs256_sig_of(secret@, msg@),
        all_b64_bytes(r@),
{
    let key = jsonwebtoken::EncodingKey::from_secret(secret);
    jsonwebtoken::crypto::sign(msg, &key, jsonwebtoken::Algorithm::HS256).unwrap().into_bytes()
}

/// The fixed header document naming the token type and algorithm.
pub open spec fn header_json() -> Seq<u8> {
    ascii_bytes("{\"typ\":\"JWT\",\"alg\":\"HS256\"}"@)
}

fn header_json_exec() -> (r: Vec<u8>)
    ensures
        r@ == header_json(),
{
    let h = "{\"typ\":\"JWT\",\"alg\":\"HS256\"}";
    proof {
        reveal_strlit("{\"typ\":\"JWT\",\"alg\":\"HS256\"}");
    }
    str_ascii_bytes(h)
}

/// Split a token at its two dots; `None` unless there are exactly two.
pub open spec fn spec_split3(t: Seq<u8>) -> Option<(Seq<u8>, Seq<u8>, Seq<u8>)> {
    let i = find_byte(t, 46, 0);
    let j = find_byte(t, 46, i + 1);
    let k = find_byte(t, 46, j + 1);
    if i < t.len() && j < t.len() && k == t.len() {
        Some((t.subrange(0, i), t.subrange(i + 1, j), t.subrange(j + 1, t.len() as int)))
    } else {
        None
    }
}

/// The verification outcome for a token given as bytes: the checks run in
/// the order split, signature, header, payload, expiry, subject.
pub open spec fn spec_verify_bytes(t: Seq<u8>, secret: Seq<u8>, now: u64) -> Result<
    Seq<u8>,
    TokenError,
> {
    match spec_split3(t) {
        None => Err(TokenError::Malformed),
        Some((h, p, sg)) => {
            if sg != hs256_sig_of(secret, h + seq![46u8] + p) {
                Err(TokenError::Malformed)
            } else if b64_decode(h) != Some(header_json()) {
                Err(TokenError::Malformed)
            } else {
                match b64_decode(p) {
                    None => Err(TokenError::Malformed),
                    Some(pl) => match parse_claims(pl) {
                        None => Err(TokenError::Malformed),
                        Some((sub, exp)) => if exp <= now {
                            Err(TokenError::Expired)
                        } else if !valid_owner_bytes(sub) {
                            Err(TokenError::InvalidSubject)
                        } else {
                            Ok(sub)
                        },
                    },
                }
            }
        },
    }
}

/// The verification outcome for a token string.
pub open spec fn spec_verify(token: Seq<char>, secret: Seq<u8>, now: u64) -> Result<
    Seq<char>,
    TokenError,
> {
    if !vstd::utf8::is_ascii_chars(token) {
        Err(TokenError::Malformed)
    } else {
        match spec_verify_bytes(ascii_bytes(token), secret, now) {
            Ok(sub) => Ok(bytes_chars(sub)),
            Err(e) => Err(e),
        }
    }
}

/// What verifying a token issued for `(sub, exp)` returns at instant `t`.
pub open spec fn issued_outcome(sub: Seq<char>, exp: u64, t: u64) -> Result<Seq<char>, TokenError> {
    if exp <= t {
        Err(TokenError::Expired)
    } else if !valid_owner_chars(sub) {
        Err(TokenError::InvalidSubject)
    } else {
        Ok(sub)
    }
}

proof fn lemma_b64_not_dot(s: Seq<u8>)
    requires
        all_b64_bytes(s),
    ensures
        all_lt_128(s),
        forall|i: int| 0 <= i < s.len() ==> #[trigger] s[i] != 46,
{
    assert forall|i: int| 0 <= i < s.len() implies #[trigger] s[i] < 128 && s[i] != 46 by {
        assert(is_b64_byte(s[i]));
    }
}

/// Sign and assemble a token carrying the given claims.  The contract pins
/// the verification outcome at every instant: `Expired` once the expiry has
/// passed, `InvalidSubject` for a subject that is not an owner identifier,
/// and the subject itself otherwise.
pub fn issue_claims(c: &Claims, secret: &[u8]) -> (r: String)
    requires
        vstd::utf8::is_ascii_chars(c.sub@),
        forall|i: int| 0 <= i < c.sub@.len() ==> #[trigger] c.sub@[i] != '"',
    ensures
        forall|t: u64| spec_verify(r@, secret@, t) == issued_outcome(c.sub@, c.exp, t),
{
    let hb = header_json_exec();
    let h64 = b64_encode(&hb);
    let pl = claims_json_exec(c);
    let p64 = b64_encode(&pl);
    let mut msg = Vec::new();
    crate::claims::push_all(&mut msg, &h64);
    msg.push(46);
    crate::claims::push_all(&mut msg, &p64);
    let sig = hs256_sign(secret, &msg);
    let mut tb = Vec::new();
    crate::claims::push_all(&mut tb, &msg);
    tb.push(46);
    crate::claims::push_all(&mut tb, &sig);
    proof {
        let sub = ascii_bytes(c.sub@);
        let hl = h64@.len() as int;
        let jl = hl + 1 + p64@.len() as int;
        lemma_b64_not_dot(h64@);
        lemma_b64_not_dot(p64@);
        lemma_b64_not_dot(sig@);
        assert(msg@ =~= h64@ + seq![46u8] + p64@);
        assert(tb@ =~= msg@ + seq![46u8] + sig@);
        assert(all_lt_128(tb@));
        // the two dots stand exactly after the header and payload segments
        assert(tb@[hl] == 46);
        assert(tb@[jl] == 46);
        lemma_find_byte_is(tb@, 46, 0, hl);
        lemma_find_byte_is(tb@, 46, hl + 1, jl);
        lemma_find_byte_is(tb@, 46, jl + 1, tb@.len() as int);
        assert(tb@.subrange(0, hl) =~= h64@);
        assert(tb@.subrange(hl + 1, jl) =~= p64@);
        assert(tb@.subrange(jl + 1, tb@.len() as int) =~= sig@);
        assert(spec_split3(tb@) == Some((h64@, p64@, sig@)));
        lemma_chars_bytes_roundtrip(c.sub@);
        assert(forall|i: int| 0 <= i < sub.len() ==> #[trigger] sub[i] != 34) by {
            assert(forall|i: int|
                0 <= i < c.sub@.len() ==> #[trigger] sub[i] == (c.sub@[i] as u8));
        }
        lemma_claims_roundtrip(sub, c.exp);
        lemma_bytes_chars_roundtrip(tb@);
        assert forall|t: u64|
            spec_verify(bytes_chars(tb@), secret@, t) == issued_outcome(c.sub@, c.exp, t) by {
            assert(ascii_bytes(bytes_chars(tb@)) == tb@);
            if c.exp <= t {
            } else if !valid_owner_chars(c.sub@) {
                if valid_owner_bytes(sub) {
                    // a well-formed subject byte string makes the chars well-formed
                    assert(valid_owner_chars(c.sub@));
                }
            } else {
                assert(bytes_chars(sub) == c.sub@);
            }
        }
    }
    ascii_to_string(tb)
}

/// Issue a token for an owner that expires `ttl` seconds after `now`.
pub fn issue(owner_id: &String, now: u64, ttl: u64, secret: &[u8]) -> (r: String)
    requires
        valid_owner_chars(owner_id@),
        now + ttl <= u64::MAX,
    ensures
        forall|t: u64|
            t < now + ttl ==> spec_verify(r@, secret@, t) == Ok::<Seq<char>, TokenError>(
                owner_id@,
            ),
        forall|t: u64|
            t >= now + ttl ==> spec_verify(r@, secret@, t) == Err::<Seq<char>, TokenError>(
                TokenError::Expired,
            ),
{
    let c = Claims { sub: owner_id.clone(), exp: now + ttl };
    proof {
        assert forall|i: int| 0 <= i < c.sub@.len() implies #[trigger] c.sub@[i] != '"' by {
            assert(is_hex_byte(ascii_bytes(c.sub@)[i]));
            assert(ascii_bytes(c.sub@)[i] == (c.sub@[i] as u8));
        }
    }
    issue_claims(&c, secret)
}

/// Check a token against the secret at instant `now`; on success the
/// subject, the owner identifier the token was issued for, comes back.
pub fn verify(token: &str, secret: &[u8], now: u64) -> (r: Result<String, TokenError>)
    ensures
        match r {
            Ok(s) => spec_verify(token@, secret@, now) == Ok::<Seq<char>, TokenError>(s@),
            Err(e) => spec_verify(token@, secret@, now) == Err::<Seq<char>, TokenError>(e),
        },
{
    if !token.is_ascii() {
        return Err(TokenError::Malformed);
    }
    let tb = str_ascii_bytes(token);
    let i = find_byte_exec(&tb, 46, 0);
    proof {
        lemma_find_byte(tb@, 46, 0);
    }
    if i >= tb.len() {
        return Err(TokenError::Malformed);
    }
    let j = find_byte_exec(&tb, 46, i + 1);
    proof {
        lemma_find_byte(tb@, 46, i + 1);
    }
    if j >= tb.len() {
        return Err(TokenError::Malformed);
    }
    let k = find_byte_exec(&tb, 46, j + 1);
    if k != tb.len() {
        return Err(TokenError::Malformed);
    }
    let h = subvec(&tb, 0, i);
    let p = subvec(&tb, i + 1, j);
    let sg = subvec(&tb, j + 1, tb.len());
    let msg = subvec(&tb, 0, j);
    proof {
        assert(msg@ =~= h@ + seq![46u8] + p@);
    }
    let sig2 = hs256_sign(secret, &msg);
    if !bytes_eq(&sg, &sig2) {
        return Err(TokenError::Malformed);
    }
    let hd = match b64_decode_exec(&h) {
        Some(hd) => hd,
        None => {
            return Err(TokenError::Malformed);
        },
    };
    let want = header_json_exec();
    if !bytes_eq(&hd, &want) {
        return Err(TokenError::Malformed);
    }
    let pl = match b64_decode_exec(&p) {
        Some(pl) => pl,
        None => {
            return Err(TokenError::Malformed);
        },
    };
    let (sub, exp) = match parse_claims_exec(&pl) {
        Some(se) => se,
        None => {
            return Err(TokenError::Malformed);
        },
    };
    if exp <= now {
        return Err(TokenError::Expired);
    }
    if !check_owner_bytes(&sub) {
        return Err(TokenError::InvalidSubject);
    }
    proof {
        assert(all_lt_128(sub@)) by {
            assert(forall|m: int| 0 <= m < sub@.len() ==> is_hex_byte(#[trigger] sub@[m]));
        }
        lemma_bytes_chars_roundtrip(sub@);
    }
    Ok(ascii_to_string(sub))
}

/// Tampering with the signature segment of a token that verifies is always
/// caught: with any other final segment, verification reports `Malformed`,
/// at every instant.
pub proof fn lemma_signature_tamper(
    h: Seq<char>,
    p: Seq<char>,
    s1: Seq<char>,
    s2: Seq<char>,
    secret: Seq<u8>,
    now: u64,
    now2: u64,
)
    requires
        !h.contains('.'),
        !p.contains('.'),
        spec_verify(h + seq!['.'] + p + seq!['.'] + s1, secret, now) is Ok,
        s2 != s1,
    ensures
        spec_verify(h + seq!['.'] + p + seq!['.'] + s2, secret, now2) == Err::<
            Seq<char>,
            TokenError,
        >(TokenError::Malformed),
{
    let t1 = h + seq!['.'] + p + seq!['.'] + s1;
    let t2 = h + seq!['.'] + p + seq!['.'] + s2;
    assert(vstd::utf8::is_ascii_chars(t1));
    assert(vstd::utf8::is_ascii_chars(h)) by {
        assert(forall|i: int| 0 <= i < h.len() ==> #[trigger] h[i] == t1[i]);
        assert(forall|j: int| 0 <= j < t1.len() ==> '\0' <= #[trigger] t1[j] <= '\u{7f}');
        assert(forall|i: int| 0 <= i < h.len() ==> '\0' <= #[trigger] h[i] <= '\u{7f}');
    }
    assert(vstd::utf8::is_ascii_chars(p)) by {
        assert(forall|i: int| 0 <= i < p.len() ==> #[trigger] p[i] == t1[h.len() + 1 + i]);
        assert(forall|j: int| 0 <= j < t1.len() ==> '\0' <= #[trigger] t1[j] <= '\u{7f}');
        assert(forall|i: int| 0 <= i < p.len() ==> '\0' <= #[trigger] p[i] <= '\u{7f}');
    }
    assert(vstd::utf8::is_ascii_chars(s1)) by {
        assert(forall|i: int| 0 <= i < s1.len() ==> #[trigger] s1[i] == t1[h.len() + 1 + p.len()
            + 1 + i]);
        assert(forall|j: int| 0 <= j < t1.len() ==> '\0' <= #[trigger] t1[j] <= '\u{7f}');
        assert(forall|i: int| 0 <= i < s1.len() ==> '\0' <= #[trigger] s1[i] <= '\u{7f}');
    }
    if !vstd::utf8::is_ascii_chars(s2) {
        assert(!vstd::utf8::is_ascii_chars(t2)) by {
            if vstd::utf8::is_ascii_chars(t2) {
                assert(forall|i: int| 0 <= i < s2.len() ==> #[trigger] s2[i] == t2[h.len() + 1
                    + p.len() + 1 + i]);
                assert(forall|j: int| 0 <= j < t2.len() ==> '\0' <= #[trigger] t2[j] <= '\u{7f}');
                assert(forall|i: int| 0 <= i < s2.len() ==> '\0' <= #[trigger] s2[i] <= '\u{7f}');
            }
        }
    } else {
        let hb = ascii_bytes(h);
        let pb = ascii_bytes(p);
        let s1b = ascii_bytes(s1);
        let s2b = ascii_bytes(s2);
        let t1b = ascii_bytes(t1);
        let t2b = ascii_bytes(t2);
        let hl = hb.len() as int;
        let jl = hl + 1 + pb.len() as int;
        assert(t1b =~= hb + seq![46u8] + pb + seq![46u8] + s1b);
        assert(t2b =~= hb + seq![46u8] + pb + seq![46u8] + s2b);
        lemma_chars_bytes_roundtrip(h);
        lemma_chars_bytes_roundtrip(p);
        lemma_chars_bytes_roundtrip(s1);
        lemma_chars_bytes_roundtrip(s2);
        // a dot-free ASCII segment maps to 46-free bytes
        assert(forall|i: int| 0 <= i < hb.len() ==> #[trigger] hb[i] != 46) by {
            assert(forall|i: int| 0 <= i < h.len() ==> #[trigger] h[i] != '.');
            assert(forall|i: int| 0 <= i < h.len() ==> #[trigger] hb[i] == (h[i] as u8));
            assert(forall|i: int| 0 <= i < h.len() ==> '\0' <= #[trigger] h[i] <= '\u{7f}');
        }
        assert(forall|i: int| 0 <= i < pb.len() ==> #[trigger] pb[i] != 46) by {
            assert(forall|i: int| 0 <= i < p.len() ==> #[trigger] p[i] != '.');
            assert(forall|i: int| 0 <= i < p.len() ==> #[trigger] pb[i] == (p[i] as u8));
            assert(forall|i: int| 0 <= i < p.len() ==> '\0' <= #[trigger] p[i] <= '\u{7f}');
        }
        lemma_find_byte_is(t1b, 46, 0, hl);
        lemma_find_byte_is(t1b, 46, hl + 1, jl);
        lemma_find_byte_is(t2b, 46, 0, hl);
        lemma_find_byte_is(t2b, 46, hl + 1, jl);
        // the verified token splits with the signature as its third segment
        let k1 = find_byte(t1b, 46, jl + 1);
        lemma_find_byte(t1b, 46, jl + 1);
        assert(k1 == t1b.len()) by {
            if k1 < t1b.len() {
                assert(spec_split3(t1b) is None);
            }
        }
        assert(t1b.subrange(0, hl) =~= hb);
        assert(t1b.subrange(hl + 1, jl) =~= pb);
        assert(t1b.subrange(jl + 1, t1b.len() as int) =~= s1b);
        assert(s1b == hs256_sig_of(secret, hb + seq![46u8] + pb));
        let k2 = find_byte(t2b, 46, jl + 1);
        lemma_find_byte(t2b, 46, jl + 1);
        if k2 == t2b.len() {
            assert(t2b.subrange(0, hl) =~= hb);
            assert(t2b.subrange(hl + 1, jl) =~= pb);
            assert(t2b.subrange(jl + 1, t2b.len() as int) =~= s2b);
            assert(s2b != s1b) by {
                if s2b == s1b {
                    assert(bytes_chars(s2b) == s2 && bytes_chars(s1b) == s1);
                }
            }
        }
    }
}

} // verus!
