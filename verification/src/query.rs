//! Splitting a raw query string into (key, value) pairs: segments separated by
//! `&` (empty segments skipped), each split at its first `=` (missing `=`
//! means an empty value). Keys and values stay raw here; values are
//! percent-decoded later, keys never.

use vstd::prelude::*;
use crate::bytes::{find_byte, lemma_find_byte_bounds, seek_byte};
use vstd::slice::{slice_subrange, slice_to_vec};

verus! {

pub const AMP: u8 = 38; // '&'

pub const EQUALS: u8 = 61; // '='

/// First index `j` with `from <= j < end` and `s[j] == b`, if any.
pub open spec fn find_byte_before(s: Seq<u8>, from: int, end: int, b: u8) -> Option<int>
    decreases end - from when 0 <= from
{
    if from >= end || from >= s.len() {
        None
    } else if s[from] == b {
        Some(from)
    } else {
        find_byte_before(s, from + 1, end, b)
    }
}

/// Executable counterpart of `find_byte_before`.
pub fn seek_byte_before(s: &[u8], from: usize, end: usize, b: u8) -> (r: Option<usize>)
    requires
        end <= s@.len(),
    ensures
        match r {
            Some(j) => find_byte_before(s@, from as int, end as int, b) == Some(j as int)
                && from <= j < end && s@[j as int] == b,
            None => find_byte_before(s@, from as int, end as int, b) is None,
        },
{
    let mut i: usize = from;
    while i < end
        invariant
            from <= i,
            end <= s@.len(),
            find_byte_before(s@, from as int, end as int, b)
                == find_byte_before(s@, i as int, end as int, b),
        decreases end - i,
    {
        if s[i] == b {
            return Some(i);
        }
        i = i + 1;
    }
    None
}

/// The pairs one segment `q[start..end)` contributes: none if it is empty,
/// else the split at its first `=`.
pub open spec fn segment_pairs(q: Seq<u8>, start: int, end: int) -> Seq<(Seq<u8>, Seq<u8>)> {
    if end <= start {
        Seq::empty()
    } else {
        match find_byte_before(q, start, end, EQUALS) {
            Some(j) => seq![(q.subrange(start, j), q.subrange(j + 1, end))],
            None => seq![(q.subrange(start, end), Seq::empty())],
        }
    }
}

/// The (raw key, raw value) pairs of `q` from index `i` on, in appearance
/// order.
pub open spec fn query_pairs_from(q: Seq<u8>, i: int) -> Seq<(Seq<u8>, Seq<u8>)>
    decreases q.len() - i when 0 <= i
    via query_pairs_from_decreases
{
    if i >= q.len() {
        Seq::empty()
    } else {
        match find_byte(q, i, AMP) {
            Some(j) => segment_pairs(q, i, j) + query_pairs_from(q, j + 1),
            None => segment_pairs(q, i, q.len() as int),
        }
    }
}

#[via_fn]
proof fn query_pairs_from_decreases(q: Seq<u8>, i: int) {
    if 0 <= i && i < q.len() {
        if find_byte(q, i, AMP) is Some {
            lemma_find_byte_bounds(q, i, AMP);
        }
    }
}

/// The (raw key, raw value) pairs of the whole query string `q`.
pub open spec fn query_pairs(q: Seq<u8>) -> Seq<(Seq<u8>, Seq<u8>)> {
    query_pairs_from(q, 0)
}

/// The sequence of views of a vector of byte-pair entries.
pub open spec fn pairs_view(v: Seq<(Vec<u8>, Vec<u8>)>) -> Seq<(Seq<u8>, Seq<u8>)> {
    v.map(|i: int, p: (Vec<u8>, Vec<u8>)| (p.0@, p.1@))
}

/// Split a raw query string into its (raw key, raw value) pairs.
pub fn parse_query(q: &[u8]) -> (r: Vec<(Vec<u8>, Vec<u8>)>)
    ensures
        pairs_view(r@) == query_pairs(q@),
{
    let len: usize = q.len();
    let mut out: Vec<(Vec<u8>, Vec<u8>)> = Vec::new();
    let mut i: usize = 0;
    assert(pairs_view(out@) + query_pairs_from(q@, 0) =~= query_pairs_from(q@, 0));
    while i < len
        invariant
            len == q@.len(),
            0 <= i <= len,
            pairs_view(out@) + query_pairs_from(q@, i as int) == query_pairs_from(q@, 0),
        decreases len - i,
    {
        let ghost before = pairs_view(out@);
        let (seg_end, next_i): (usize, usize) = match seek_byte(q, i, AMP) {
            Some(j) => {
                proof { lemma_find_byte_bounds(q@, i as int, AMP); }
                (j, j + 1)
            },
            None => (len, len),
        };
        let ghost seg = segment_pairs(q@, i as int, seg_end as int);
        let ghost rest = query_pairs_from(q@, next_i as int);
        assert(query_pairs_from(q@, i as int) == seg + rest) by {
            if seg_end < len {
                assert(find_byte(q@, i as int, AMP) == Some(seg_end as int));
            } else {
                assert(find_byte(q@, i as int, AMP) is None);
                assert(query_pairs_from(q@, len as int) =~= Seq::<(Seq<u8>, Seq<u8>)>::empty());
                assert(seg + query_pairs_from(q@, len as int) =~= seg);
            }
        }
        if seg_end > i {
            match seek_byte_before(q, i, seg_end, EQUALS) {
                Some(j) => {
                    let key = slice_to_vec(slice_subrange(q, i, j));
                    let val = slice_to_vec(slice_subrange(q, j + 1, seg_end));
                    let ghost p = (key@, val@);
                    out.push((key, val));
                    assert(seg =~= seq![p]);
                    assert(pairs_view(out@) =~= before + seg);
                },
                None => {
                    let key = slice_to_vec(slice_subrange(q, i, seg_end));
                    let val: Vec<u8> = Vec::new();
                    let ghost p = (key@, val@);
                    out.push((key, val));
                    assert(seg =~= seq![p]);
                    assert(pairs_view(out@) =~= before + seg);
                },
            }
        } else {
            assert(seg =~= Seq::<(Seq<u8>, Seq<u8>)>::empty());
            assert(pairs_view(out@) =~= before + seg);
        }
        assert((before + seg) + rest =~= before + (seg + rest));
        i = next_i;
    }
    assert(query_pairs_from(q@, i as int) =~= Seq::<(Seq<u8>, Seq<u8>)>::empty());
    assert(pairs_view(out@) =~= query_pairs(q@));
    out
}

} // verus!
