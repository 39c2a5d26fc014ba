//! Low-level byte scanning: first-occurrence search and literal substring
//! containment, the building blocks of the decoder and the pattern table.

use vstd::prelude::*;

verus! {

/// ASCII whitespace, the separator class the header trimmer and the
/// attribute-value rules stop at.
pub open spec fn is_ascii_space(b: u8) -> bool {
    b == 32 || b == 9 || b == 10 || b == 13 || b == 11 || b == 12
}

/// The sequence of views of a vector of byte vectors.
pub open spec fn views_of(v: Seq<Vec<u8>>) -> Seq<Seq<u8>> {
    v.map(|i: int, x: Vec<u8>| x@)
}

/// First index `j` with `from <= j < s.len()` and `s[j] == b`, if any.
pub open spec fn find_byte(s: Seq<u8>, from: int, b: u8) -> Option<int>
    decreases s.len() - from when 0 <= from
{
    if from >= s.len() {
        None
    } else if s[from] == b {
        Some(from)
    } else {
        find_byte(s, from + 1, b)
    }
}

pub proof fn lemma_find_byte_bounds(s: Seq<u8>, from: int, b: u8)
    requires
        0 <= from,
        find_byte(s, from, b) is Some,
    ensures
        from <= find_byte(s, from, b)->Some_0 < s.len(),
        s[find_byte(s, from, b)->Some_0] == b,
    decreases s.len() - from
{
    if from < s.len() && s[from] != b {
        lemma_find_byte_bounds(s, from + 1, b);
    }
}

/// Executable counterpart of `find_byte`.
pub fn seek_byte(s: &[u8], from: usize, b: u8) -> (r: Option<usize>)
    ensures
        match r {
            Some(j) => find_byte(s@, from as int, b) == Some(j as int)
                && from <= j < s@.len() && s@[j as int] == b,
            None => find_byte(s@, from as int, b) is None,
        },
{
    let mut i: usize = from;
    while i < s.len()
        invariant
            from <= i,
            find_byte(s@, from as int, b) == find_byte(s@, i as int, b),
        decreases s.len() - i,
    {
        if s[i] == b {
            return Some(i);
        }
        i = i + 1;
    }
    None
}

/// `t` occurs as a contiguous subrange of `body`.
pub open spec fn has_substring(body: Seq<u8>, t: Seq<u8>) -> bool {
    exists|k: int| 0 <= k && k + t.len() <= body.len() && #[trigger] body.subrange(k, k + t.len()) == t
}

/// Does `body[k .. k + t.len()]` equal `t`?
pub fn matches_at(body: &[u8], k: usize, t: &[u8]) -> (r: bool)
    requires
        k + t@.len() <= body@.len(),
    ensures
        r == (body@.subrange(k as int, k + t@.len()) == t@),
{
    let blen: usize = body.len();
    let mut i: usize = 0;
    while i < t.len()
        invariant
            0 <= i <= t@.len(),
            k + t@.len() <= body@.len(),
            blen == body@.len(),
            forall|j: int| 0 <= j < i ==> body@[k + j] == t@[j],
        decreases t@.len() - i,
    {
        if body[k + i] != t[i] {
            assert(body@.subrange(k as int, k + t@.len())[i as int] != t@[i as int]);
            return false;
        }
        i = i + 1;
    }
    assert(body@.subrange(k as int, k + t@.len()) =~= t@);
    true
}

/// Executable literal substring containment test.
pub fn contains_literal(body: &[u8], t: &[u8]) -> (r: bool)
    ensures
        r == has_substring(body@, t@),
{
    if t.len() > body.len() {
        assert(!has_substring(body@, t@));
        return false;
    }
    if t.len() == 0 {
        assert(body@.subrange(0, 0 + t@.len() as int) =~= t@);
        assert(has_substring(body@, t@));
        return true;
    }
    let blen: usize = body.len();
    let tlen: usize = t.len();
    let bound: usize = blen - tlen;
    let mut k: usize = 0;
    while k <= bound
        invariant
            1 <= t@.len() <= body@.len(),
            blen == body@.len(),
            tlen == t@.len(),
            bound == body@.len() - t@.len(),
            forall|kk: int| 0 <= kk < k ==> #[trigger] body@.subrange(kk, kk + t@.len()) != t@,
        decreases bound - k + 1,
    {
        if matches_at(body, k, t) {
            assert(has_substring(body@, t@));
            return true;
        }
        k = k + 1;
    }
    assert(!has_substring(body@, t@)) by {
        if has_substring(body@, t@) {
            let kk = choose|kk: int|
                0 <= kk && kk + t@.len() <= body@.len() && #[trigger] body@.subrange(kk, kk + t@.len()) == t@;
            assert(body@.subrange(kk, kk + t@.len()) != t@);
        }
    }
    false
}

} // verus!
