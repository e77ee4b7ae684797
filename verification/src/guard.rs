//! The authentication guard: find the Authorization header among a
//! request's headers, demand the Bearer scheme, and verify the token.
use vstd::prelude::*;
use crate::bytesutil::{ascii_bytes, str_ascii_bytes};
use crate::token::{spec_verify, verify};

verus! {

/// Why a request was rejected: no Authorization header, a credential not in
/// the Bearer scheme, or a token that failed verification.
#[derive(Clone, Copy, Debug, PartialEq, Eq, Structural)]
pub enum AuthError {
    MissingCredentials,
    MalformedCredentials,
    InvalidCredentials,
}

pub open spec fn lower_byte(b: u8) -> u8 {
    if 65 <= b && b <= 90 {
        (b + 32) as u8
    } else {
        b
    }
}

/// A header name addresses the Authorization header when, ASCII case
/// ignored, it reads "authorization".
pub open spec fn is_authorization_name(name: Seq<char>) -> bool {
    vstd::utf8::is_ascii_chars(name) && ascii_bytes(name).map_values(|b: u8| lower_byte(b))
        == ascii_bytes("authorization"@)
}

/// Index of the first header named Authorization, or the header count.
pub open spec fn find_auth(hs: Seq<(String, String)>, from: int) -> int
    decreases hs.len() - from,
{
    if from < 0 || from >= hs.len() {
        hs.len() as int
    } else if is_authorization_name(hs[from].0@) {
        from
    } else {
        find_auth(hs, from + 1)
    }
}

/// The guard's outcome on a header list: the subject of a valid Bearer
/// token, or the rejection the list earns.
pub open spec fn spec_authenticate(hs: Seq<(String, String)>, secret: Seq<u8>, now: u64) -> Result<
    Seq<char>,
    AuthError,
> {
    let i = find_auth(hs, 0);
    if i >= hs.len() {
        Err(AuthError::MissingCredentials)
    } else {
        let v = hs[i].1@;
        if v.len() < 7 || v.subrange(0, 7) != "Bearer "@ {
            Err(AuthError::MalformedCredentials)
        } else {
            match spec_verify(v.skip(7), secret, now) {
                Ok(sub) => Ok(sub),
                Err(_) => Err(AuthError::InvalidCredentials),
            }
        }
    }
}

fn lower_byte_exec(b: u8) -> (r: u8)
    ensures
        r == lower_byte(b),
{
    if 65 <= b && b <= 90 {
        b + 32
    } else {
        b
    }
}

fn is_auth_name_exec(name: &String) -> (r: bool)
    ensures
        r == is_authorization_name(name@),
{
    proof {
        reveal_strlit("authorization");
    }
    if !name.is_ascii() {
        return false;
    }
    let t = "authorization";
    let tb = str_ascii_bytes(t);
    let nb = str_ascii_bytes(name.as_str());
    let ghost mapped = ascii_bytes(name@).map_values(|b: u8| lower_byte(b));
    if nb.len() != tb.len() {
        proof {
            assert(mapped.len() == nb@.len());
        }
        return false;
    }
    let mut i: usize = 0;
    while i < nb.len()
        invariant
            i <= nb@.len(),
            nb@.len() == tb@.len(),
            nb@ == ascii_bytes(name@),
            tb@ == ascii_bytes("authorization"@),
            mapped == ascii_bytes(name@).map_values(|b: u8| lower_byte(b)),
            forall|m: int| 0 <= m < i ==> #[trigger] mapped[m] == tb@[m],
        decreases nb@.len() - i,
    {
        let lb = lower_byte_exec(nb[i]);
        proof {
            assert(mapped[i as int] == lower_byte(nb@[i as int]));
        }
        if lb != tb[i] {
            proof {
                assert(mapped != ascii_bytes("authorization"@)) by {
                    assert(mapped[i as int] != tb@[i as int]);
                }
            }
            return false;
        }
        i = i + 1;
    }
    proof {
        assert(mapped =~= ascii_bytes("authorization"@));
    }
    true
}

/// Run the guard on a request's headers: look the Authorization header up
/// (name compared ASCII case-insensitively, first match taken), strip the
/// literal scheme prefix "Bearer ", and verify the remainder at instant
/// `now`.  On success the authenticated owner identifier comes back.
pub fn authenticate(headers: &Vec<(String, String)>, secret: &[u8], now: u64) -> (r: Result<
    String,
    AuthError,
>)
    ensures
        match r {
            Ok(s) => spec_authenticate(headers@, secret@, now) == Ok::<Seq<char>, AuthError>(s@),
            Err(e) => spec_authenticate(headers@, secret@, now) == Err::<Seq<char>, AuthError>(e),
        },
{
    let mut i: usize = 0;
    while i < headers.len()
        invariant
            i <= headers@.len(),
            forall|m: int| 0 <= m < i ==> !is_authorization_name(#[trigger] headers@[m].0@),
            find_auth(headers@, 0) == find_auth(headers@, i as int),
        decreases headers@.len() - i,
    {
        if is_auth_name_exec(&headers[i].0) {
            let value = &headers[i].1;
            proof {
                assert(find_auth(headers@, i as int) == i);
            }
            let n = value.as_str().unicode_len();
            if n < 7 {
                return Err(AuthError::MalformedCredentials);
            }
            proof {
                reveal_strlit("Bearer ");
            }
            let s = value.as_str();
            if !(s.get_char(0) == 'B' && s.get_char(1) == 'e' && s.get_char(2) == 'a'
                && s.get_char(3) == 'r' && s.get_char(4) == 'e' && s.get_char(5) == 'r'
                && s.get_char(6) == ' ') {
                proof {
                    assert(value@.subrange(0, 7) != "Bearer "@) by {
                        if value@.subrange(0, 7) == "Bearer "@ {
                            assert(value@.subrange(0, 7)[0] == value@[0]);
                            assert(value@.subrange(0, 7)[1] == value@[1]);
                            assert(value@.subrange(0, 7)[2] == value@[2]);
                            assert(value@.subrange(0, 7)[3] == value@[3]);
                            assert(value@.subrange(0, 7)[4] == value@[4]);
                            assert(value@.subrange(0, 7)[5] == value@[5]);
                            assert(value@.subrange(0, 7)[6] == value@[6]);
                        }
                    }
                }
                return Err(AuthError::MalformedCredentials);
            }
            proof {
                assert(value@.subrange(0, 7) =~= "Bearer "@);
            }
            let token = s.substring_char(7, n);
            proof {
                assert(token@ =~= value@.skip(7));
            }
            match verify(token, secret, now) {
                Ok(sub) => {
                    return Ok(sub);
                },
                Err(_) => {
                    return Err(AuthError::InvalidCredentials);
                },
            }
        }
        i = i + 1;
    }
    proof {
        assert(find_auth(headers@, 0) == headers@.len());
    }
    Err(AuthError::MissingCredentials)
}

} // verus!
