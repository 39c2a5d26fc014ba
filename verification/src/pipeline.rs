//! The per-URL pipeline: given the fetched response, parse the URL's query,
//! percent-decode every parameter value, extract Candidate Tags, and test
//! each for literal containment in the body, in order, stopping at the first
//! hit.

use vstd::prelude::*;
use crate::bytes::{has_substring, views_of};
use crate::extract::{extract_tags_from_param, extracted_tags};
use crate::outcome::{ErrorModel, FetchOutput, OutcomeModel, ScanError, ScanOutcome};
use crate::percent::{decodes_cleanly, percent_decode, percent_decoded};
use crate::query::{pairs_view, parse_query, query_pairs};

verus! {

/// Index of the first pair (from `i` on) whose raw value holds a malformed
/// percent escape; `pairs.len()` if every value decodes.
pub open spec fn first_undecodable(pairs: Seq<(Seq<u8>, Seq<u8>)>, i: int) -> int
    decreases pairs.len() - i when 0 <= i
{
    if i >= pairs.len() {
        pairs.len() as int
    } else if !decodes_cleanly(pairs[i].1) {
        i
    } else {
        first_undecodable(pairs, i + 1)
    }
}

/// The Candidate Tags of the pairs from `i` on: each decoded value's tags in
/// rule order, parameters in appearance order.
pub open spec fn tags_from(pairs: Seq<(Seq<u8>, Seq<u8>)>, i: int) -> Seq<Seq<u8>>
    decreases pairs.len() - i when 0 <= i
{
    if i >= pairs.len() {
        Seq::empty()
    } else {
        extracted_tags(percent_decoded(pairs[i].1)) + tags_from(pairs, i + 1)
    }
}

/// All Candidate Tags of a query's pairs.
pub open spec fn candidate_tags(pairs: Seq<(Seq<u8>, Seq<u8>)>) -> Seq<Seq<u8>> {
    tags_from(pairs, 0)
}

/// Index of the first tag (from `i` on) contained literally in `body`.
pub open spec fn first_reflected(tags: Seq<Seq<u8>>, body: Seq<u8>, i: int) -> Option<int>
    decreases tags.len() - i when 0 <= i
{
    if i >= tags.len() {
        None
    } else if has_substring(body, tags[i]) {
        Some(i)
    } else {
        first_reflected(tags, body, i + 1)
    }
}

/// The outcome of scanning a response for a URL whose raw query is `q`.
pub open spec fn query_outcome(q: Seq<u8>, status: u16, body: Seq<u8>) -> OutcomeModel {
    let pairs = query_pairs(q);
    if first_undecodable(pairs, 0) < pairs.len() {
        OutcomeModel::Failed {
            error: ErrorModel::Decoding { param: first_undecodable(pairs, 0) },
        }
    } else {
        let tags = candidate_tags(pairs);
        match first_reflected(tags, body, 0) {
            Some(t) => OutcomeModel::Reflected { tag: tags[t], status },
            None => OutcomeModel::NotReflected { status },
        }
    }
}

/// The outcome of scanning a fetched response: a URL with no query string
/// always scans as `NotReflected`.
pub open spec fn response_outcome(query: Option<Seq<u8>>, status: u16, body: Seq<u8>) -> OutcomeModel {
    match query {
        None => OutcomeModel::NotReflected { status },
        Some(q) => query_outcome(q, status, body),
    }
}

/// A URL with no query string always yields `NotReflected`, whatever the
/// status and whatever the body holds.
pub proof fn lemma_no_query_not_reflected(status: u16, body: Seq<u8>)
    ensures
        response_outcome(None::<Seq<u8>>, status, body) == (OutcomeModel::NotReflected { status }),
{
}

/// Scan one fetched response against the decoded parameter values of the raw
/// query `query`.
#[verifier::loop_isolation(false)]
pub fn evaluate_response(query: Option<&[u8]>, status: u16, body: &[u8]) -> (r: ScanOutcome)
    ensures
        r@ == response_outcome(
            match query {
                Some(q) => Some(q@),
                None => None::<Seq<u8>>,
            },
            status,
            body@,
        ),
{
    let q: &[u8] = match query {
        None => {
            return ScanOutcome::NotReflected { status };
        },
        Some(q) => q,
    };
    let pairs = parse_query(q);
    let ghost pv = pairs_view(pairs@);
    assert(pv == query_pairs(q@));
    let plen: usize = pairs.len();
    let mut decoded: Vec<Vec<u8>> = Vec::new();
    let mut i: usize = 0;
    while i < plen
        invariant
            pv == pairs_view(pairs@),
            plen == pairs@.len(),
            pv.len() == pairs@.len(),
            0 <= i <= plen,
            first_undecodable(pv, 0) == first_undecodable(pv, i as int),
            decoded@.len() == i,
            forall|j: int| 0 <= j < i ==> decodes_cleanly(#[trigger] pv[j].1)
                && views_of(decoded@)[j] == percent_decoded(pv[j].1),
        decreases plen - i,
    {
        assert(pv[i as int] == (pairs@[i as int].0@, pairs@[i as int].1@));
        match percent_decode(pairs[i].1.as_slice()) {
            Ok(d) => {
                decoded.push(d);
            },
            Err(_) => {
                assert(first_undecodable(pv, i as int) == i);
                return ScanOutcome::Failed { error: ScanError::Decoding { param: i } };
            },
        }
        i = i + 1;
    }
    assert(first_undecodable(pv, 0) == pv.len() as int);
    let mut tags: Vec<Vec<u8>> = Vec::new();
    let mut k: usize = 0;
    assert(views_of(tags@) + tags_from(pv, 0) =~= tags_from(pv, 0));
    while k < plen
        invariant
            pv.len() == plen,
            decoded@.len() == plen,
            0 <= k <= plen,
            forall|j: int| 0 <= j < plen ==> decodes_cleanly(#[trigger] pv[j].1)
                && views_of(decoded@)[j] == percent_decoded(pv[j].1),
            views_of(tags@) + tags_from(pv, k as int) == tags_from(pv, 0),
        decreases plen - k,
    {
        let ghost before = views_of(tags@);
        let ghost rest = tags_from(pv, k + 1);
        let mut part = extract_tags_from_param(decoded[k].as_slice());
        assert(views_of(decoded@)[k as int] == decoded@[k as int]@);
        assert(views_of(part@) == extracted_tags(percent_decoded(pv[k as int].1)));
        let ghost partv = views_of(part@);
        tags.append(&mut part);
        assert(views_of(tags@) =~= before + partv);
        assert(tags_from(pv, k as int) == partv + rest);
        assert((before + partv) + rest =~= before + (partv + rest));
        k = k + 1;
    }
    assert(tags_from(pv, plen as int) =~= Seq::<Seq<u8>>::empty());
    let ghost tv = views_of(tags@);
    assert(tv =~= candidate_tags(pv));
    let tlen: usize = tags.len();
    let mut t: usize = 0;
    while t < tlen
        invariant
            tv == views_of(tags@),
            tlen == tags@.len(),
            tv.len() == tags@.len(),
            0 <= t <= tlen,
            first_reflected(tv, body@, 0) == first_reflected(tv, body@, t as int),
        decreases tlen - t,
    {
        assert(tv[t as int] == tags@[t as int]@);
        if crate::bytes::contains_literal(body, tags[t].as_slice()) {
            assert(first_reflected(tv, body@, t as int) == Some(t as int));
            let tag = vstd::slice::slice_to_vec(tags[t].as_slice());
            return ScanOutcome::Reflected { tag, status };
        }
        t = t + 1;
    }
    assert(first_reflected(tv, body@, t as int) is None);
    ScanOutcome::NotReflected { status }
}

/// Names the result of parsing a URL string and reading its serialized query:
/// a function of the string alone.
pub uninterp spec fn url_query_of(s: Seq<char>) -> Option<Option<Seq<u8>>>;

/// Relies on `url::Url::parse` and `url::Url::query`: `parse` either fails
/// (the outer `None`) or yields a URL whose serialized form is a function of
/// the input string alone; `query` returns the serialized query after `?`,
/// or nothing when the URL has none.
#[verifier::external_body]
fn url_query(url: &str) -> (r: Result<Option<Vec<u8>>, String>)
    ensures
        r is Ok <==> url_query_of(url@) is Some,
        r matches Ok(q) ==> (match q {
            Some(v) => url_query_of(url@) == Some(Some(v@)),
            None => url_query_of(url@) == Some(None::<Seq<u8>>),
        }),
{
    match url::Url::parse(url) {
        Ok(u) => Ok(u.query().map(|q| q.as_bytes().to_vec())),
        Err(e) => Err(format!("{}", e)),
    }
}

/// One full pipeline step after the fetch: a failed fetch or an unparseable
/// URL becomes `Failed`; otherwise the response is scanned against the URL's
/// decoded parameter values.
pub fn check_xss_reflection(url: &str, fetch: Result<FetchOutput, String>) -> (r: ScanOutcome)
    ensures
        (match fetch {
            Err(m) => r@ == (OutcomeModel::Failed { error: ErrorModel::Fetch { message: m@ } }),
            Ok(f) => match url_query_of(url@) {
                None => r@ matches OutcomeModel::Failed {
                    error: ErrorModel::UrlParse { message: _ },
                },
                Some(q) => r@ == response_outcome(q, f.status, f.body@),
            },
        }),
{
    let f = match fetch {
        Ok(f) => f,
        Err(message) => {
            return ScanOutcome::Failed { error: ScanError::Fetch { message } };
        },
    };
    match url_query(url) {
        Err(message) => ScanOutcome::Failed { error: ScanError::UrlParse { message } },
        Ok(None) => evaluate_response(None, f.status, f.body.as_slice()),
        Ok(Some(q)) => evaluate_response(Some(q.as_slice()), f.status, f.body.as_slice()),
    }
}

} // verus!
