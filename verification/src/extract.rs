//! The pattern table and the tag extractor. A fixed list of detection rules
//! runs over one decoded parameter value; every rule collects its
//! non-overlapping, leftmost matches in order, and the matches of all rules
//! are concatenated in rule order.

use vstd::prelude::*;
use crate::bytes::{find_byte, is_ascii_space, lemma_find_byte_bounds, matches_at, seek_byte, views_of};
use vstd::slice::{slice_subrange, slice_to_vec};

verus! {

pub const LT: u8 = 60; // '<'

pub const GT: u8 = 62; // '>'

pub const SLASH: u8 = 47; // '/'

/// One detection rule: a full tag pair with text between, any single tag, or
/// a dangerous attribute assignment introduced by a fixed literal.
pub enum Pattern {
    PairedTag,
    AnyTag,
    AttrPrefix(Vec<u8>),
}

/// The mathematical form of a `Pattern`.
pub enum PatternModel {
    PairedTag,
    AnyTag,
    AttrPrefix(Seq<u8>),
}

pub open spec fn pattern_view(p: Pattern) -> PatternModel {
    match p {
        Pattern::PairedTag => PatternModel::PairedTag,
        Pattern::AnyTag => PatternModel::AnyTag,
        Pattern::AttrPrefix(l) => PatternModel::AttrPrefix(l@),
    }
}

/// First index `>= from` holding `>` or whitespace; `s.len()` if none does.
/// An attribute value match extends to (not including) this index.
pub open spec fn attr_value_end(s: Seq<u8>, from: int) -> int
    decreases s.len() - from when 0 <= from
{
    if from >= s.len() {
        s.len() as int
    } else if s[from] == GT || is_ascii_space(s[from]) {
        from
    } else {
        attr_value_end(s, from + 1)
    }
}

pub proof fn lemma_attr_value_end_bounds(s: Seq<u8>, from: int)
    requires
        0 <= from <= s.len(),
    ensures
        from <= attr_value_end(s, from) <= s.len(),
    decreases s.len() - from
{
    if from < s.len() && !(s[from] == GT || is_ascii_space(s[from])) {
        lemma_attr_value_end_bounds(s, from + 1);
    }
}

/// Length of the match of `<X>`-shaped rule at `i`: a `<`, one or more
/// non-`>` bytes, then the first `>`.
pub open spec fn any_tag_len(s: Seq<u8>, i: int) -> Option<int> {
    if 0 <= i < s.len() && s[i] == LT {
        match find_byte(s, i + 1, GT) {
            Some(j) => if j >= i + 2 {
                Some(j - i + 1)
            } else {
                None
            },
            None => None,
        }
    } else {
        None
    }
}

/// Length of the match of the paired-tag rule at `i`: an opening tag, then
/// non-`<` text up to the first `<`, which must start `</...>`.
pub open spec fn paired_tag_len(s: Seq<u8>, i: int) -> Option<int> {
    if 0 <= i < s.len() && s[i] == LT {
        match find_byte(s, i + 1, GT) {
            Some(j) => if j >= i + 2 {
                match find_byte(s, j + 1, LT) {
                    Some(k) => if k + 1 < s.len() && s[k + 1] == SLASH {
                        match find_byte(s, k + 2, GT) {
                            Some(m) => if m >= k + 3 {
                                Some(m - i + 1)
                            } else {
                                None
                            },
                            None => None,
                        }
                    } else {
                        None
                    },
                    None => None,
                }
            } else {
                None
            },
            None => None,
        }
    } else {
        None
    }
}

/// Length of the match of `lit` (an attribute name and `=`) followed by one
/// or more bytes that are neither `>` nor whitespace.
pub open spec fn attr_len(s: Seq<u8>, i: int, lit: Seq<u8>) -> Option<int> {
    if 0 <= i && i + lit.len() <= s.len() && s.subrange(i, i + lit.len() as int) == lit {
        let e = attr_value_end(s, i + lit.len() as int);
        if e > i + lit.len() {
            Some(e - i)
        } else {
            None
        }
    } else {
        None
    }
}

pub open spec fn pattern_match_len(p: PatternModel, s: Seq<u8>, i: int) -> Option<int> {
    match p {
        PatternModel::PairedTag => paired_tag_len(s, i),
        PatternModel::AnyTag => any_tag_len(s, i),
        PatternModel::AttrPrefix(lit) => attr_len(s, i, lit),
    }
}

pub proof fn lemma_pattern_match_len_bounds(p: PatternModel, s: Seq<u8>, i: int)
    requires
        0 <= i,
        pattern_match_len(p, s, i) is Some,
    ensures
        1 <= pattern_match_len(p, s, i)->Some_0,
        i + pattern_match_len(p, s, i)->Some_0 <= s.len(),
{
    match p {
        PatternModel::PairedTag => {
            lemma_find_byte_bounds(s, i + 1, GT);
            let j = find_byte(s, i + 1, GT)->Some_0;
            lemma_find_byte_bounds(s, j + 1, LT);
            let k = find_byte(s, j + 1, LT)->Some_0;
            lemma_find_byte_bounds(s, k + 2, GT);
        },
        PatternModel::AnyTag => {
            lemma_find_byte_bounds(s, i + 1, GT);
        },
        PatternModel::AttrPrefix(lit) => {
            lemma_attr_value_end_bounds(s, i + lit.len() as int);
        },
    }
}

/// The non-overlapping leftmost matches of rule `p` in `s` from index `i` on:
/// scanning left to right, each match is emitted whole and the scan resumes
/// right after it.
pub open spec fn matches_from(p: PatternModel, s: Seq<u8>, i: int) -> Seq<Seq<u8>>
    decreases s.len() - i when 0 <= i
    via matches_from_decreases
{
    if i >= s.len() {
        Seq::empty()
    } else {
        match pattern_match_len(p, s, i) {
            Some(l) => seq![s.subrange(i, i + l)] + matches_from(p, s, i + l),
            None => matches_from(p, s, i + 1),
        }
    }
}

#[via_fn]
proof fn matches_from_decreases(p: PatternModel, s: Seq<u8>, i: int) {
    if 0 <= i && i < s.len() && pattern_match_len(p, s, i) is Some {
        lemma_pattern_match_len_bounds(p, s, i);
    }
}

/// All matches of rule `p` in `s`.
pub open spec fn pattern_matches(p: PatternModel, s: Seq<u8>) -> Seq<Seq<u8>> {
    matches_from(p, s, 0)
}

pub open spec fn lit_onerror() -> Seq<u8> {
    seq![111u8, 110, 101, 114, 114, 111, 114, 61]
}

pub open spec fn lit_onerror_mixed() -> Seq<u8> {
    seq![79u8, 110, 69, 114, 114, 111, 114, 61]
}

pub open spec fn lit_onclick() -> Seq<u8> {
    seq![111u8, 110, 99, 108, 105, 99, 107, 61]
}

pub open spec fn lit_onclick_mixed() -> Seq<u8> {
    seq![79u8, 110, 67, 108, 105, 67, 107, 61]
}

pub open spec fn lit_onload() -> Seq<u8> {
    seq![111u8, 110, 108, 111, 97, 100, 61]
}

pub open spec fn lit_onload_mixed() -> Seq<u8> {
    seq![79u8, 110, 76, 111, 65, 100, 61]
}

pub open spec fn lit_ontoggle() -> Seq<u8> {
    seq![111u8, 110, 116, 111, 103, 103, 108, 101, 61]
}

pub open spec fn lit_ontoggle_mixed() -> Seq<u8> {
    seq![79u8, 110, 84, 111, 71, 103, 76, 101, 61]
}

pub open spec fn lit_src() -> Seq<u8> {
    seq![115u8, 114, 99, 61]
}

/// Every Candidate Tag rule `s` yields, in fixed rule order: the paired-tag
/// rule, the single-tag rule, the eight event-handler spellings, then `src=`.
pub open spec fn extracted_tags(s: Seq<u8>) -> Seq<Seq<u8>> {
    pattern_matches(PatternModel::PairedTag, s)
        + pattern_matches(PatternModel::AnyTag, s)
        + pattern_matches(PatternModel::AttrPrefix(lit_onerror()), s)
        + pattern_matches(PatternModel::AttrPrefix(lit_onerror_mixed()), s)
        + pattern_matches(PatternModel::AttrPrefix(lit_onclick()), s)
        + pattern_matches(PatternModel::AttrPrefix(lit_onclick_mixed()), s)
        + pattern_matches(PatternModel::AttrPrefix(lit_onload()), s)
        + pattern_matches(PatternModel::AttrPrefix(lit_onload_mixed()), s)
        + pattern_matches(PatternModel::AttrPrefix(lit_ontoggle()), s)
        + pattern_matches(PatternModel::AttrPrefix(lit_ontoggle_mixed()), s)
        + pattern_matches(PatternModel::AttrPrefix(lit_src()), s)
}

/// First index `>= from` holding `>` or whitespace, executably.
fn seek_attr_end(s: &[u8], from: usize) -> (r: usize)
    requires
        from <= s@.len(),
    ensures
        r == attr_value_end(s@, from as int),
        from <= r <= s@.len(),
{
    let mut i: usize = from;
    while i < s.len()
        invariant
            from <= i <= s@.len(),
            attr_value_end(s@, from as int) == attr_value_end(s@, i as int),
        decreases s.len() - i,
    {
        let b = s[i];
        if b == GT || b == 32 || b == 9 || b == 10 || b == 13 || b == 11 || b == 12 {
            return i;
        }
        i = i + 1;
    }
    i
}

/// Length of the match of `p` at position `i` of `s`, if `p` matches there.
fn pattern_match_at(p: &Pattern, s: &[u8], i: usize) -> (r: Option<usize>)
    requires
        i < s@.len(),
    ensures
        match r {
            Some(l) => pattern_match_len(pattern_view(*p), s@, i as int) == Some(l as int)
                && 1 <= l && i + l <= s@.len(),
            None => pattern_match_len(pattern_view(*p), s@, i as int) is None,
        },
{
    let slen: usize = s.len();
    match p {
        Pattern::AnyTag => {
            if s[i] != LT {
                return None;
            }
            match seek_byte(s, i + 1, GT) {
                Some(j) => {
                    if j - i < 2 {
                        None
                    } else {
                        Some(j - i + 1)
                    }
                },
                None => None,
            }
        },
        Pattern::PairedTag => {
            if s[i] != LT {
                return None;
            }
            let j = match seek_byte(s, i + 1, GT) {
                Some(j) => j,
                None => { return None; },
            };
            if j - i < 2 {
                return None;
            }
            let k = match seek_byte(s, j + 1, LT) {
                Some(k) => k,
                None => { return None; },
            };
            if slen - k < 2 {
                return None;
            }
            if s[k + 1] != SLASH {
                return None;
            }
            let m = match seek_byte(s, k + 2, GT) {
                Some(m) => m,
                None => { return None; },
            };
            if m - k < 3 {
                return None;
            }
            Some(m - i + 1)
        },
        Pattern::AttrPrefix(lit) => {
            let litlen: usize = lit.len();
            if slen - i < litlen {
                return None;
            }
            if !matches_at(s, i, lit.as_slice()) {
                return None;
            }
            let e = seek_attr_end(s, i + litlen);
            if e - i > litlen {
                Some(e - i)
            } else {
                None
            }
        },
    }
}

/// Append every match of `p` in `s`, leftmost first and non-overlapping.
fn scan_pattern(p: &Pattern, s: &[u8], out: &mut Vec<Vec<u8>>)
    ensures
        views_of(final(out)@) == views_of(old(out)@) + matches_from(pattern_view(*p), s@, 0),
{
    let ghost pv = pattern_view(*p);
    let mut i: usize = 0;
    assert(views_of(out@) + matches_from(pv, s@, 0) =~= views_of(old(out)@) + matches_from(
        pv,
        s@,
        0,
    ));
    while i < s.len()
        invariant
            0 <= i,
            pv == pattern_view(*p),
            views_of(out@) + matches_from(pv, s@, i as int) == views_of(old(out)@)
                + matches_from(pv, s@, 0),
        decreases s.len() - i,
    {
        let ghost before = views_of(out@);
        match pattern_match_at(p, s, i) {
            Some(l) => {
                let ghost rest = matches_from(pv, s@, i + l);
                let tag = slice_to_vec(slice_subrange(s, i, i + l));
                out.push(tag);
                assert(views_of(out@) =~= before + seq![s@.subrange(i as int, i + l)]);
                assert(matches_from(pv, s@, i as int) == seq![s@.subrange(i as int, i + l)]
                    + rest);
                assert((before + seq![s@.subrange(i as int, i + l)]) + rest =~= before + (seq![
                    s@.subrange(i as int, i + l),
                ] + rest));
                i = i + l;
            },
            None => {
                assert(matches_from(pv, s@, i as int) == matches_from(pv, s@, i + 1));
                i = i + 1;
            },
        }
    }
    assert(matches_from(pv, s@, i as int) =~= Seq::<Seq<u8>>::empty());
    assert(views_of(out@) =~= views_of(out@) + matches_from(pv, s@, i as int));
}

fn lit_onerror_vec() -> (r: Vec<u8>)
    ensures
        r@ == lit_onerror(),
{
    let mut v: Vec<u8> = Vec::new();
    v.push(111);
    v.push(110);
    v.push(101);
    v.push(114);
    v.push(114);
    v.push(111);
    v.push(114);
    v.push(61);
    assert(v@ =~= lit_onerror());
    v
}

fn lit_onerror_mixed_vec() -> (r: Vec<u8>)
    ensures
        r@ == lit_onerror_mixed(),
{
    let mut v: Vec<u8> = Vec::new();
    v.push(79);
    v.push(110);
    v.push(69);
    v.push(114);
    v.push(114);
    v.push(111);
    v.push(114);
    v.push(61);
    assert(v@ =~= lit_onerror_mixed());
    v
}

fn lit_onclick_vec() -> (r: Vec<u8>)
    ensures
        r@ == lit_onclick(),
{
    let mut v: Vec<u8> = Vec::new();
    v.push(111);
    v.push(110);
    v.push(99);
    v.push(108);
    v.push(105);
    v.push(99);
    v.push(107);
    v.push(61);
    assert(v@ =~= lit_onclick());
    v
}

fn lit_onclick_mixed_vec() -> (r: Vec<u8>)
    ensures
        r@ == lit_onclick_mixed(),
{
    let mut v: Vec<u8> = Vec::new();
    v.push(79);
    v.push(110);
    v.push(67);
    v.push(108);
    v.push(105);
    v.push(67);
    v.push(107);
    v.push(61);
    assert(v@ =~= lit_onclick_mixed());
    v
}

fn lit_onload_vec() -> (r: Vec<u8>)
    ensures
        r@ == lit_onload(),
{
    let mut v: Vec<u8> = Vec::new();
    v.push(111);
    v.push(110);
    v.push(108);
    v.push(111);
    v.push(97);
    v.push(100);
    v.push(61);
    assert(v@ =~= lit_onload());
    v
}

fn lit_onload_mixed_vec() -> (r: Vec<u8>)
    ensures
        r@ == lit_onload_mixed(),
{
    let mut v: Vec<u8> = Vec::new();
    v.push(79);
    v.push(110);
    v.push(76);
    v.push(111);
    v.push(65);
    v.push(100);
    v.push(61);
    assert(v@ =~= lit_onload_mixed());
    v
}

fn lit_ontoggle_vec() -> (r: Vec<u8>)
    ensures
        r@ == lit_ontoggle(),
{
    let mut v: Vec<u8> = Vec::new();
    v.push(111);
    v.push(110);
    v.push(116);
    v.push(111);
    v.push(103);
    v.push(103);
    v.push(108);
    v.push(101);
    v.push(61);
    assert(v@ =~= lit_ontoggle());
    v
}

fn lit_ontoggle_mixed_vec() -> (r: Vec<u8>)
    ensures
        r@ == lit_ontoggle_mixed(),
{
    let mut v: Vec<u8> = Vec::new();
    v.push(79);
    v.push(110);
    v.push(84);
    v.push(111);
    v.push(71);
    v.push(103);
    v.push(76);
    v.push(101);
    v.push(61);
    assert(v@ =~= lit_ontoggle_mixed());
    v
}

fn lit_src_vec() -> (r: Vec<u8>)
    ensures
        r@ == lit_src(),
{
    let mut v: Vec<u8> = Vec::new();
    v.push(115);
    v.push(114);
    v.push(99);
    v.push(61);
    assert(v@ =~= lit_src());
    v
}

/// Apply the whole pattern table to one decoded parameter value; the result
/// lists every Candidate Tag in rule order, then left-to-right within a rule.
pub fn extract_tags_from_param(s: &[u8]) -> (r: Vec<Vec<u8>>)
    ensures
        views_of(r@) == extracted_tags(s@),
{
    let mut out: Vec<Vec<u8>> = Vec::new();
    scan_pattern(&Pattern::PairedTag, s, &mut out);
    assert(views_of(out@) =~= pattern_matches(PatternModel::PairedTag, s@));
    scan_pattern(&Pattern::AnyTag, s, &mut out);
    scan_pattern(&Pattern::AttrPrefix(lit_onerror_vec()), s, &mut out);
    scan_pattern(&Pattern::AttrPrefix(lit_onerror_mixed_vec()), s, &mut out);
    scan_pattern(&Pattern::AttrPrefix(lit_onclick_vec()), s, &mut out);
    scan_pattern(&Pattern::AttrPrefix(lit_onclick_mixed_vec()), s, &mut out);
    scan_pattern(&Pattern::AttrPrefix(lit_onload_vec()), s, &mut out);
    scan_pattern(&Pattern::AttrPrefix(lit_onload_mixed_vec()), s, &mut out);
    scan_pattern(&Pattern::AttrPrefix(lit_ontoggle_vec()), s, &mut out);
    scan_pattern(&Pattern::AttrPrefix(lit_ontoggle_mixed_vec()), s, &mut out);
    scan_pattern(&Pattern::AttrPrefix(lit_src_vec()), s, &mut out);
    out
}

} // verus!
