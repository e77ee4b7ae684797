//! Literal substring search over strings, as the name filter uses.
use vstd::prelude::*;

verus! {

/// `n` occurs contiguously somewhere in `h` (always true for an empty `n`).
pub open spec fn contains_sub(h: Seq<char>, n: Seq<char>) -> bool {
    exists|k: int| 0 <= k <= h.len() - n.len() && #[trigger] h.subrange(k, k + n.len()) == n
}

fn matches_at(h: &str, n: &str, hl: usize, nl: usize, k: usize) -> (r: bool)
    requires
        hl == h@.len(),
        nl == n@.len(),
        k + nl <= hl,
    ensures
        r == (h@.subrange(k as int, k + nl) == n@),
{
    let mut j: usize = 0;
    while j < nl
        invariant
            j <= nl,
            hl == h@.len(),
            nl == n@.len(),
            k + nl <= hl,
            forall|m: int| 0 <= m < j ==> h@[k + m] == n@[m],
        decreases nl - j,
    {
        if h.get_char(k + j) != n.get_char(j) {
            proof {
                assert(h@.subrange(k as int, k + nl)[j as int] == h@[k + j]);
            }
            return false;
        }
        j = j + 1;
    }
    proof {
        assert(h@.subrange(k as int, k + nl) =~= n@);
    }
    true
}

/// Literal, case-sensitive substring test.
pub fn contains_str(h: &str, n: &str) -> (r: bool)
    ensures
        r == contains_sub(h@, n@),
{
    let hl = h.unicode_len();
    let nl = n.unicode_len();
    if nl > hl {
        return false;
    }
    if nl == 0 {
        proof {
            assert(h@.subrange(0, 0 + n@.len() as int) =~= n@);
        }
        return true;
    }
    let mut k: usize = 0;
    while k <= hl - nl
        invariant
            1 <= nl <= hl,
            hl == h@.len(),
            nl == n@.len(),
            k <= hl - nl + 1,
            forall|m: int| 0 <= m < k ==> #[trigger] h@.subrange(m, m + n@.len()) != n@,
        decreases hl - nl - k + 1,
    {
        if matches_at(h, n, hl, nl, k) {
            return true;
        }
        k = k + 1;
    }
    false
}

} // verus!
