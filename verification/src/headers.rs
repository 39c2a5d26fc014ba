//! Custom header parsing: a "Name: Value" line splits at its first colon and
//! both sides are trimmed; a line without a colon is dropped silently.

use vstd::prelude::*;
use crate::bytes::{find_byte, is_ascii_space, seek_byte, views_of};
use crate::query::pairs_view;
use vstd::slice::{slice_subrange, slice_to_vec};

verus! {

pub const COLON: u8 = 58; // ':'

pub open spec fn trim_start(s: Seq<u8>) -> Seq<u8>
    decreases s.len()
{
    if s.len() > 0 && is_ascii_space(s[0]) {
        trim_start(s.subrange(1, s.len() as int))
    } else {
        s
    }
}

pub open spec fn trim_end(s: Seq<u8>) -> Seq<u8>
    decreases s.len()
{
    if s.len() > 0 && is_ascii_space(s[s.len() - 1]) {
        trim_end(s.subrange(0, s.len() - 1))
    } else {
        s
    }
}

/// `s` with leading and trailing ASCII whitespace removed.
pub open spec fn trimmed(s: Seq<u8>) -> Seq<u8> {
    trim_end(trim_start(s))
}

fn is_space(b: u8) -> (r: bool)
    ensures
        r == is_ascii_space(b),
{
    b == 32 || b == 9 || b == 10 || b == 13 || b == 11 || b == 12
}

/// The trimmed copy of `s[start..end)`.
fn trim_range(s: &[u8], start: usize, end: usize) -> (r: Vec<u8>)
    requires
        start <= end <= s@.len(),
    ensures
        r@ == trimmed(s@.subrange(start as int, end as int)),
{
    let ghost t0 = s@.subrange(start as int, end as int);
    let mut a: usize = start;
    while a < end && is_space(s[a])
        invariant
            start <= a <= end <= s@.len(),
            trim_start(t0) == trim_start(s@.subrange(a as int, end as int)),
        decreases end - a,
    {
        assert(s@.subrange(a as int, end as int).subrange(1, end - a)
            =~= s@.subrange(a + 1, end as int));
        a = a + 1;
    }
    assert(trim_start(t0) == s@.subrange(a as int, end as int));
    let mut b: usize = end;
    while b > a && is_space(s[b - 1])
        invariant
            a <= b <= end <= s@.len(),
            trim_end(trim_start(t0)) == trim_end(s@.subrange(a as int, b as int)),
        decreases b,
    {
        assert(s@.subrange(a as int, b as int).subrange(0, b - a - 1)
            =~= s@.subrange(a as int, b - 1));
        b = b - 1;
    }
    assert(trim_end(trim_start(t0)) == s@.subrange(a as int, b as int));
    slice_to_vec(slice_subrange(s, a, b))
}

/// The (name, value) pair a header line parses to, or nothing when the line
/// holds no colon.
pub open spec fn header_pair_spec(h: Seq<u8>) -> Option<(Seq<u8>, Seq<u8>)> {
    match find_byte(h, 0, COLON) {
        Some(j) => Some((trimmed(h.subrange(0, j)), trimmed(h.subrange(j + 1, h.len() as int)))),
        None => None,
    }
}

/// Parse one "Name: Value" header line; a line without a colon yields nothing.
pub fn header_pair(h: &[u8]) -> (r: Option<(Vec<u8>, Vec<u8>)>)
    ensures
        match r {
            Some(p) => header_pair_spec(h@) == Some((p.0@, p.1@)),
            None => header_pair_spec(h@) is None,
        },
{
    match seek_byte(h, 0, COLON) {
        Some(j) => {
            proof { crate::bytes::lemma_find_byte_bounds(h@, 0, COLON); }
            let hlen: usize = h.len();
            let name = trim_range(h, 0, j);
            let value = trim_range(h, j + 1, hlen);
            Some((name, value))
        },
        None => None,
    }
}

/// The valid header pairs among the lines from index `i` on, in order.
pub open spec fn parsed_headers_from(hs: Seq<Seq<u8>>, i: int) -> Seq<(Seq<u8>, Seq<u8>)>
    decreases hs.len() - i when 0 <= i
{
    if i >= hs.len() {
        Seq::empty()
    } else {
        match header_pair_spec(hs[i]) {
            Some(p) => seq![p] + parsed_headers_from(hs, i + 1),
            None => parsed_headers_from(hs, i + 1),
        }
    }
}

/// The valid header pairs among all lines, in order; malformed lines drop out.
pub open spec fn parsed_headers(hs: Seq<Seq<u8>>) -> Seq<(Seq<u8>, Seq<u8>)> {
    parsed_headers_from(hs, 0)
}

/// Parse every header line, dropping the ones without a colon.
pub fn parse_headers(hs: &Vec<Vec<u8>>) -> (r: Vec<(Vec<u8>, Vec<u8>)>)
    ensures
        pairs_view(r@) == parsed_headers(views_of(hs@)),
{
    let ghost hv = views_of(hs@);
    let mut out: Vec<(Vec<u8>, Vec<u8>)> = Vec::new();
    let mut i: usize = 0;
    assert(pairs_view(out@) + parsed_headers_from(hv, 0) =~= parsed_headers_from(hv, 0));
    while i < hs.len()
        invariant
            hv == views_of(hs@),
            0 <= i <= hs@.len(),
            hv.len() == hs@.len(),
            pairs_view(out@) + parsed_headers_from(hv, i as int) == parsed_headers_from(hv, 0),
        decreases hs@.len() - i,
    {
        let ghost before = pairs_view(out@);
        let ghost rest = parsed_headers_from(hv, i + 1);
        assert(hv[i as int] == hs@[i as int]@);
        match header_pair(&hs[i]) {
            Some(p) => {
                let ghost pv = (p.0@, p.1@);
                out.push(p);
                assert(pairs_view(out@) =~= before + seq![pv]);
                assert(parsed_headers_from(hv, i as int) == seq![pv] + rest);
                assert((before + seq![pv]) + rest =~= before + (seq![pv] + rest));
            },
            None => {
                assert(parsed_headers_from(hv, i as int) == rest);
            },
        }
        i = i + 1;
    }
    assert(parsed_headers_from(hv, i as int) =~= Seq::<(Seq<u8>, Seq<u8>)>::empty());
    assert(pairs_view(out@) =~= parsed_headers(hv));
    out
}

} // verus!
