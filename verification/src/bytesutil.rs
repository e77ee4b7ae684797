//! Byte-level helpers shared by the token codec and the guard: the
//! correspondence between ASCII strings and their bytes, byte searching,
//! slicing and comparison.
use vstd::prelude::*;

verus! {

/// The bytes of a sequence of ASCII characters.
pub open spec fn ascii_bytes(s: Seq<char>) -> Seq<u8> {
    s.map_values(|c: char| c as u8)
}

/// The characters read off a byte sequence, one character per byte.
pub open spec fn bytes_chars(b: Seq<u8>) -> Seq<char> {
    b.map_values(|x: u8| x as char)
}

pub open spec fn all_lt_128(b: Seq<u8>) -> bool {
    forall|i: int| 0 <= i < b.len() ==> #[trigger] b[i] < 128
}

pub proof fn lemma_bytes_chars_roundtrip(b: Seq<u8>)
    ensures
        ascii_bytes(bytes_chars(b)) =~= b,
        all_lt_128(b) ==> vstd::utf8::is_ascii_chars(bytes_chars(b)),
{
    let cs = bytes_chars(b);
    assert(forall|i: int| 0 <= i < b.len() ==> #[trigger] cs[i] == (b[i] as char));
    assert(forall|i: int| 0 <= i < b.len() ==> #[trigger] ascii_bytes(cs)[i] == ((b[i] as char) as u8));
    if all_lt_128(b) {
        assert(forall|i| 0 <= i < cs.len() ==> '\0' <= #[trigger] cs[i] <= '\u{7f}') by {
            assert(forall|i: int| 0 <= i < b.len() ==> #[trigger] b[i] < 128);
        }
    }
}

pub proof fn lemma_chars_bytes_roundtrip(s: Seq<char>)
    requires
        vstd::utf8::is_ascii_chars(s),
    ensures
        bytes_chars(ascii_bytes(s)) =~= s,
        all_lt_128(ascii_bytes(s)),
{
    let b = ascii_bytes(s);
    assert(forall|i| 0 <= i < s.len() ==> '\0' <= #[trigger] s[i] <= '\u{7f}');
    assert(forall|i: int| 0 <= i < s.len() ==> #[trigger] b[i] == (s[i] as u8));
    assert(forall|i: int| 0 <= i < b.len() ==> #[trigger] b[i] < 128);
    assert(forall|i: int| 0 <= i < s.len() ==> #[trigger] bytes_chars(b)[i] == ((s[i] as u8) as char));
}

/// The bytes of an ASCII string slice.
pub fn str_ascii_bytes(s: &str) -> (r: Vec<u8>)
    requires
        s.is_ascii(),
    ensures
        r@ == ascii_bytes(s@),
        all_lt_128(r@),
{
    let r = s.as_bytes_vec();
    proof {
        vstd::string::is_ascii_spec_bytes(s);
        assert(r@ =~= ascii_bytes(s@));
        lemma_chars_bytes_roundtrip(s@);
    }
    r
}

/// Relies on `String::from_utf8`: bytes below 128 are valid UTF-8 and decode
/// to the characters of the same code points.
#[verifier::external_body]
pub fn ascii_to_string(v: Vec<u8>) -> (r: String)
    requires
        all_lt_128(v@),
    ensures
        r@ == bytes_chars(v@),
{
    String::from_utf8(v).unwrap()
}

pub fn bytes_eq(a: &Vec<u8>, b: &Vec<u8>) -> (r: bool)
    ensures
        r == (a@ == b@),
{
    if a.len() != b.len() {
        return false;
    }
    let mut i: usize = 0;
    while i < a.len()
        invariant
            i <= a.len(),
            a.len() == b.len(),
            forall|m: int| 0 <= m < i ==> a@[m] == b@[m],
        decreases a.len() - i,
    {
        if a[i] != b[i] {
            return false;
        }
        i = i + 1;
    }
    proof {
        assert(a@ =~= b@);
    }
    true
}

pub fn subvec(v: &Vec<u8>, a: usize, b: usize) -> (r: Vec<u8>)
    requires
        a <= b <= v@.len(),
    ensures
        r@ == v@.subrange(a as int, b as int),
{
    let mut r: Vec<u8> = Vec::new();
    let mut i: usize = a;
    while i < b
        invariant
            a <= i <= b <= v@.len(),
            r@ =~= v@.subrange(a as int, i as int),
        decreases b - i,
    {
        r.push(v[i]);
        proof {
            assert(r@ =~= v@.subrange(a as int, i + 1));
        }
        i = i + 1;
    }
    r
}

/// Index of the first occurrence of `x` in `s` at or after `from`, or
/// `s.len()` if there is none.
pub open spec fn find_byte(s: Seq<u8>, x: u8, from: int) -> int
    decreases s.len() - from,
{
    if from < 0 || from >= s.len() {
        s.len() as int
    } else if s[from] == x {
        from
    } else {
        find_byte(s, x, from + 1)
    }
}

pub proof fn lemma_find_byte(s: Seq<u8>, x: u8, from: int)
    requires
        0 <= from <= s.len(),
    ensures
        from <= find_byte(s, x, from) <= s.len(),
        find_byte(s, x, from) < s.len() ==> s[find_byte(s, x, from)] == x,
        forall|m: int| from <= m < find_byte(s, x, from) ==> s[m] != x,
    decreases s.len() - from,
{
    if from < s.len() && s[from] != x {
        lemma_find_byte(s, x, from + 1);
    }
}

/// The first occurrence characterizes `find_byte` uniquely.
pub proof fn lemma_find_byte_is(s: Seq<u8>, x: u8, from: int, r: int)
    requires
        0 <= from <= r <= s.len(),
        r < s.len() ==> s[r] == x,
        forall|m: int| from <= m < r ==> s[m] != x,
    ensures
        find_byte(s, x, from) == r,
    decreases s.len() - from,
{
    if from < s.len() && s[from] != x {
        lemma_find_byte_is(s, x, from + 1, r);
    }
}

pub fn find_byte_exec(v: &Vec<u8>, x: u8, from: usize) -> (r: usize)
    requires
        from <= v@.len(),
    ensures
        r == find_byte(v@, x, from as int),
{
    let mut i: usize = from;
    while i < v.len()
        invariant
            from <= i <= v@.len(),
            forall|m: int| from <= m < i ==> v@[m] != x,
        decreases v.len() - i,
    {
        if v[i] == x {
            proof {
                lemma_find_byte_is(v@, x, from as int, i as int);
            }
            return i;
        }
        i = i + 1;
    }
    proof {
        lemma_find_byte_is(v@, x, from as int, v@.len() as int);
    }
    v.len()
}

} // verus!
