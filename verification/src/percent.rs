//! Percent-decoding of query parameter values, the matching encoder, and the
//! proof that encoding then decoding returns the original bytes.

use vstd::prelude::*;

verus! {

pub const PERCENT: u8 = 37; // '%'

/// `0`-`9`, `a`-`f` or `A`-`F`.
pub open spec fn is_hex_digit(b: u8) -> bool {
    (48 <= b <= 57) || (97 <= b <= 102) || (65 <= b <= 70)
}

pub open spec fn hex_val(b: u8) -> u8 {
    if 48 <= b <= 57 {
        (b - 48) as u8
    } else if 97 <= b <= 102 {
        (b - 97 + 10) as u8
    } else if 65 <= b <= 70 {
        (b - 65 + 10) as u8
    } else {
        0
    }
}

pub open spec fn hex_pair_val(a: u8, b: u8) -> u8 {
    (hex_val(a) * 16 + hex_val(b)) as u8
}

/// A valid escape sequence stands at the front of `s`.
pub open spec fn escape_at_front(s: Seq<u8>) -> bool {
    s.len() >= 3 && s[0] == PERCENT && is_hex_digit(s[1]) && is_hex_digit(s[2])
}

/// The bytes `s` decode to, taking each valid `%XX` to its byte and leaving
/// every other byte as it stands.
pub open spec fn percent_decoded(s: Seq<u8>) -> Seq<u8>
    decreases s.len()
{
    if s.len() == 0 {
        Seq::empty()
    } else if escape_at_front(s) {
        seq![hex_pair_val(s[1], s[2])] + percent_decoded(s.subrange(3, s.len() as int))
    } else {
        seq![s[0]] + percent_decoded(s.subrange(1, s.len() as int))
    }
}

/// Every `%` in `s` starts a valid two-digit escape.
pub open spec fn decodes_cleanly(s: Seq<u8>) -> bool
    decreases s.len()
{
    if s.len() == 0 {
        true
    } else if s[0] == PERCENT {
        escape_at_front(s) && decodes_cleanly(s.subrange(3, s.len() as int))
    } else {
        decodes_cleanly(s.subrange(1, s.len() as int))
    }
}

/// Index of the first `%` that does not start a valid escape; `s.len()` if
/// every escape is valid.
pub open spec fn first_bad_escape(s: Seq<u8>) -> int
    decreases s.len()
{
    if s.len() == 0 {
        0
    } else if s[0] == PERCENT {
        if escape_at_front(s) {
            3 + first_bad_escape(s.subrange(3, s.len() as int))
        } else {
            0
        }
    } else {
        1 + first_bad_escape(s.subrange(1, s.len() as int))
    }
}

fn hex_val_of(b: u8) -> (r: Option<u8>)
    ensures
        r is Some <==> is_hex_digit(b),
        r matches Some(v) ==> v == hex_val(b) && v < 16,
{
    if 48 <= b && b <= 57 {
        Some(b - 48)
    } else if 97 <= b && b <= 102 {
        Some(b - 97 + 10)
    } else if 65 <= b && b <= 70 {
        Some(b - 65 + 10)
    } else {
        None
    }
}

/// Decode `%XX` escapes; report the position of the first malformed escape.
pub fn percent_decode(s: &[u8]) -> (r: Result<Vec<u8>, usize>)
    ensures
        r is Ok <==> decodes_cleanly(s@),
        r matches Ok(v) ==> v@ == percent_decoded(s@),
        r matches Err(p) ==> p == first_bad_escape(s@) && p < s@.len() && s@[p as int] == PERCENT,
{
    let len: usize = s.len();
    let mut out: Vec<u8> = Vec::new();
    let mut i: usize = 0;
    assert(s@.subrange(0, len as int) =~= s@);
    assert(out@ + percent_decoded(s@) =~= percent_decoded(s@));
    while i < len
        invariant
            len == s@.len(),
            0 <= i <= len,
            out@ + percent_decoded(s@.subrange(i as int, len as int)) == percent_decoded(s@),
            decodes_cleanly(s@) == decodes_cleanly(s@.subrange(i as int, len as int)),
            first_bad_escape(s@) == i + first_bad_escape(s@.subrange(i as int, len as int)),
        decreases len - i,
    {
        let ghost tail = s@.subrange(i as int, len as int);
        assert(tail[0] == s@[i as int]);
        if s[i] == PERCENT {
            let mut good: bool = false;
            if len - i > 2 {
                if let Some(hi) = hex_val_of(s[i + 1]) {
                    if let Some(lo) = hex_val_of(s[i + 2]) {
                        assert(tail[1] == s@[i + 1] && tail[2] == s@[i + 2]);
                        assert(escape_at_front(tail));
                        assert(tail.subrange(3, tail.len() as int)
                            =~= s@.subrange(i + 3, len as int));
                        out.push(hi * 16 + lo);
                        assert(out@ + percent_decoded(s@.subrange(i + 3, len as int))
                            =~= percent_decoded(s@)) by {
                            assert(percent_decoded(tail) == seq![hex_pair_val(tail[1], tail[2])]
                                + percent_decoded(tail.subrange(3, tail.len() as int)));
                        }
                        i = i + 3;
                        good = true;
                    }
                }
            }
            if !good {
                assert(!escape_at_front(tail));
                assert(first_bad_escape(tail) == 0);
                assert(!decodes_cleanly(tail));
                return Err(i);
            }
        } else {
            assert(tail.subrange(1, tail.len() as int) =~= s@.subrange(i + 1, len as int));
            out.push(s[i]);
            assert(out@ + percent_decoded(s@.subrange(i + 1, len as int))
                =~= percent_decoded(s@)) by {
                assert(percent_decoded(tail) == seq![tail[0]]
                    + percent_decoded(tail.subrange(1, tail.len() as int)));
            }
            i = i + 1;
        }
    }
    assert(s@.subrange(len as int, len as int) =~= Seq::<u8>::empty());
    assert(out@ =~= percent_decoded(s@));
    Ok(out)
}

/// Bytes that the encoder leaves bare: ALPHA / DIGIT / `-` / `.` / `_` / `~`.
pub open spec fn is_unreserved(b: u8) -> bool {
    (48 <= b <= 57) || (65 <= b <= 90) || (97 <= b <= 122)
        || b == 45 || b == 46 || b == 95 || b == 126
}

pub open spec fn upper_hex_digit(n: u8) -> u8 {
    if n < 10 {
        (48 + n) as u8
    } else {
        (65 + n - 10) as u8
    }
}

/// The percent-encoding of `s`: unreserved bytes stand bare, every other byte
/// becomes `%` and two uppercase hex digits.
pub open spec fn percent_encoded(s: Seq<u8>) -> Seq<u8>
    decreases s.len()
{
    if s.len() == 0 {
        Seq::empty()
    } else {
        let unit = if is_unreserved(s[0]) {
            seq![s[0]]
        } else {
            seq![PERCENT, upper_hex_digit(s[0] / 16), upper_hex_digit(s[0] % 16)]
        };
        unit + percent_encoded(s.subrange(1, s.len() as int))
    }
}

pub fn percent_encode(s: &[u8]) -> (r: Vec<u8>)
    ensures
        r@ == percent_encoded(s@),
{
    let len: usize = s.len();
    let mut out: Vec<u8> = Vec::new();
    let mut i: usize = 0;
    assert(s@.subrange(0, len as int) =~= s@);
    assert(out@ + percent_encoded(s@) =~= percent_encoded(s@));
    while i < len
        invariant
            len == s@.len(),
            0 <= i <= len,
            out@ + percent_encoded(s@.subrange(i as int, len as int)) == percent_encoded(s@),
        decreases len - i,
    {
        let ghost tail = s@.subrange(i as int, len as int);
        assert(tail[0] == s@[i as int]);
        assert(tail.subrange(1, tail.len() as int) =~= s@.subrange(i + 1, len as int));
        let b = s[i];
        if (48 <= b && b <= 57) || (65 <= b && b <= 90) || (97 <= b && b <= 122)
            || b == 45 || b == 46 || b == 95 || b == 126 {
            out.push(b);
        } else {
            out.push(PERCENT);
            let hi: u8 = b / 16;
            let lo: u8 = b % 16;
            out.push(if hi < 10 { 48 + hi } else { 65 + hi - 10 });
            out.push(if lo < 10 { 48 + lo } else { 65 + lo - 10 });
        }
        assert(out@ + percent_encoded(s@.subrange(i + 1, len as int)) =~= percent_encoded(s@));
        i = i + 1;
    }
    assert(s@.subrange(len as int, len as int) =~= Seq::<u8>::empty());
    assert(out@ =~= percent_encoded(s@));
    out
}

/// Percent-encoding then percent-decoding returns the original bytes, and the
/// encoded form always decodes cleanly.
pub proof fn lemma_percent_round_trip(s: Seq<u8>)
    ensures
        decodes_cleanly(percent_encoded(s)),
        percent_decoded(percent_encoded(s)) == s,
    decreases s.len()
{
    if s.len() == 0 {
        assert(percent_decoded(percent_encoded(s)) =~= s);
    } else {
        let rest = s.subrange(1, s.len() as int);
        lemma_percent_round_trip(rest);
        let e = percent_encoded(s);
        if is_unreserved(s[0]) {
            assert(e == seq![s[0]] + percent_encoded(rest));
            assert(e[0] == s[0] && s[0] != PERCENT);
            assert(e.subrange(1, e.len() as int) =~= percent_encoded(rest));
            assert(percent_decoded(e) == seq![s[0]] + percent_decoded(percent_encoded(rest)));
            assert(percent_decoded(e) =~= s);
        } else {
            let hi = upper_hex_digit(s[0] / 16);
            let lo = upper_hex_digit(s[0] % 16);
            assert(s[0] / 16 < 16 && s[0] % 16 < 16);
            assert(is_hex_digit(hi) && hex_val(hi) == s[0] / 16);
            assert(is_hex_digit(lo) && hex_val(lo) == s[0] % 16);
            assert(e == seq![PERCENT, hi, lo] + percent_encoded(rest));
            assert(e[0] == PERCENT && e[1] == hi && e[2] == lo);
            assert(escape_at_front(e));
            assert(hex_pair_val(hi, lo) == s[0]) by {
                assert(s[0] / 16 * 16 + s[0] % 16 == s[0]) by (nonlinear_arith);
            }
            assert(e.subrange(3, e.len() as int) =~= percent_encoded(rest));
            assert(percent_decoded(e) == seq![s[0]] + percent_decoded(percent_encoded(rest)));
            assert(percent_decoded(e) =~= s);
        }
    }
}

} // verus!
