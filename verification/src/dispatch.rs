//! The bounded-concurrency dispatcher, modelled as a state machine. The
//! caller admits runs with `try_admit` (never more than `limit` in flight),
//! records each run's outcome with `complete` in any order, and collects one
//! outcome per URL, paired by position, with `into_results`.

use vstd::prelude::*;
use crate::outcome::ScanOutcome;
use vstd::pervasive::{unreached, VecAdditionalExecFns};

verus! {

/// How many slots already hold an outcome.
pub open spec fn count_some(s: Seq<Option<ScanOutcome>>) -> int
    decreases s.len()
{
    if s.len() == 0 {
        0
    } else {
        count_some(s.drop_last()) + if s.last() is Some {
            1int
        } else {
            0int
        }
    }
}

pub proof fn lemma_count_some_bounds(s: Seq<Option<ScanOutcome>>)
    ensures
        0 <= count_some(s) <= s.len(),
    decreases s.len()
{
    if s.len() > 0 {
        lemma_count_some_bounds(s.drop_last());
    }
}

pub proof fn lemma_count_some_full(s: Seq<Option<ScanOutcome>>)
    requires
        count_some(s) == s.len(),
    ensures
        forall|i: int| 0 <= i < s.len() ==> s[i] is Some,
    decreases s.len()
{
    if s.len() > 0 {
        lemma_count_some_bounds(s.drop_last());
        lemma_count_some_full(s.drop_last());
        assert(forall|i: int| 0 <= i < s.len() - 1 ==> s[i] == s.drop_last()[i]);
    }
}

/// When every filled slot lies below `n`, at most `n` slots are filled, and
/// exactly `n` filled slots means every slot below `n` is filled.
pub proof fn lemma_count_some_prefix(s: Seq<Option<ScanOutcome>>, n: int)
    requires
        0 <= n <= s.len(),
        forall|i: int| 0 <= i < s.len() && #[trigger] s[i] is Some ==> i < n,
    ensures
        count_some(s) <= n,
        count_some(s) == n ==> forall|i: int| 0 <= i < n ==> s[i] is Some,
    decreases s.len()
{
    if s.len() == 0 {
    } else if s.len() > n {
        assert(s.last() is None);
        assert(forall|i: int| 0 <= i < s.len() - 1 ==> s[i] == s.drop_last()[i]);
        lemma_count_some_prefix(s.drop_last(), n);
    } else {
        lemma_count_some_bounds(s);
        if count_some(s) == n {
            lemma_count_some_full(s);
        }
    }
}

pub proof fn lemma_count_some_update(s: Seq<Option<ScanOutcome>>, i: int, v: ScanOutcome)
    requires
        0 <= i < s.len(),
        s[i] is None,
    ensures
        count_some(s.update(i, Some(v))) == count_some(s) + 1,
    decreases s.len()
{
    let t = s.update(i, Some(v));
    if i == s.len() - 1 {
        assert(t.drop_last() =~= s.drop_last());
        assert(t.last() == Some(v));
        assert(s.last() is None);
    } else {
        assert(t.drop_last() =~= s.drop_last().update(i, Some(v)));
        assert(t.last() == s.last());
        lemma_count_some_update(s.drop_last(), i, v);
    }
}

/// The dispatcher's state: URLs in admission order, the concurrency limit,
/// how many runs were admitted (`next`), and one outcome slot per URL.
pub struct Dispatcher {
    pub urls: Vec<String>,
    pub limit: usize,
    pub next: usize,
    pub completed: usize,
    pub outcomes: Vec<Option<ScanOutcome>>,
}

impl Dispatcher {
    /// Well-formedness: one slot per URL, admissions never outrun the list,
    /// filled slots are admitted ones, and runs in flight stay within the
    /// limit.
    pub open spec fn wf(self) -> bool {
        &&& self.limit >= 1
        &&& self.outcomes@.len() == self.urls@.len()
        &&& self.next <= self.urls@.len()
        &&& count_some(self.outcomes@) == self.completed
        &&& self.completed <= self.next
        &&& self.next - self.completed <= self.limit
        &&& forall|i: int|
            0 <= i < self.outcomes@.len() && #[trigger] self.outcomes@[i] is Some ==> i < self.next
    }

    /// Runs admitted and not yet completed.
    pub open spec fn in_flight(self) -> int {
        self.next - self.completed
    }

    /// Every run has completed.
    pub open spec fn is_complete(self) -> bool {
        self.completed == self.urls@.len()
    }

    pub fn new(urls: Vec<String>, limit: usize) -> (d: Dispatcher)
        requires
            limit >= 1,
        ensures
            d.wf(),
            d.urls == urls,
            d.limit == limit,
            d.next == 0,
            d.completed == 0,
    {
        let n: usize = urls.len();
        let mut outcomes: Vec<Option<ScanOutcome>> = Vec::new();
        let mut i: usize = 0;
        while i < n
            invariant
                0 <= i <= n,
                outcomes@.len() == i,
                count_some(outcomes@) == 0,
                forall|j: int| 0 <= j < outcomes@.len() ==> outcomes@[j] is None,
            decreases n - i,
        {
            let ghost before = outcomes@;
            outcomes.push(None);
            proof {
                assert(outcomes@.drop_last() =~= before);
            }
            i = i + 1;
        }
        Dispatcher { urls, limit, next: 0, completed: 0, outcomes }
    }

    /// Admit the next URL if any remain and a slot is free under the limit;
    /// the returned index is the admitted URL's position.
    pub fn try_admit(&mut self) -> (r: Option<usize>)
        requires
            old(self).wf(),
        ensures
            final(self).wf(),
            final(self).urls == old(self).urls,
            final(self).limit == old(self).limit,
            final(self).completed == old(self).completed,
            final(self).outcomes == old(self).outcomes,
            (match r {
                Some(i) => old(self).next < old(self).urls@.len() && old(self).in_flight()
                    < old(self).limit && i == old(self).next && final(self).next == old(self).next
                    + 1,
                None => final(self).next == old(self).next && (old(self).next
                    == old(self).urls@.len() || old(self).in_flight() >= old(self).limit),
            }),
    {
        if self.next < self.urls.len() && self.next - self.completed < self.limit {
            let i = self.next;
            self.next = self.next + 1;
            Some(i)
        } else {
            None
        }
    }

    /// The URL standing at position `i`.
    pub fn url_of(&self, i: usize) -> (r: String)
        requires
            i < self.urls@.len(),
        ensures
            r@ == self.urls@[i as int]@,
    {
        self.urls[i].clone()
    }

    /// Whether `complete(i, _)` may be called: `i` was admitted and holds no
    /// outcome yet.
    pub fn can_complete(&self, i: usize) -> (r: bool)
        ensures
            r == (i < self.next && i < self.outcomes@.len() && self.outcomes@[i as int] is None),
    {
        i < self.next && i < self.outcomes.len() && self.outcomes[i].is_none()
    }

    /// Record the outcome of run `i`; order of completion is free.
    pub fn complete(&mut self, i: usize, outcome: ScanOutcome)
        requires
            old(self).wf(),
            i < old(self).next,
            i < old(self).outcomes@.len(),
            old(self).outcomes@[i as int] is None,
        ensures
            final(self).wf(),
            final(self).urls == old(self).urls,
            final(self).limit == old(self).limit,
            final(self).next == old(self).next,
            final(self).completed == old(self).completed + 1,
            final(self).outcomes@ == old(self).outcomes@.update(i as int, Some(outcome)),
    {
        proof {
            lemma_count_some_prefix(self.outcomes@, self.next as int);
            assert(self.completed < self.next);
            lemma_count_some_update(self.outcomes@, i as int, outcome);
        }
        self.outcomes.set(i, Some(outcome));
        self.completed = self.completed + 1;
    }

    /// Whether the whole batch is done.
    pub fn is_done(&self) -> (r: bool)
        requires
            self.wf(),
        ensures
            r == self.is_complete(),
    {
        self.completed == self.urls.len()
    }

    /// Hand out the batch's outcomes: exactly one per input URL, paired by
    /// position.
    pub fn into_results(self) -> (r: Vec<(String, ScanOutcome)>)
        requires
            self.wf(),
            self.is_complete(),
        ensures
            r@.len() == self.urls@.len(),
            forall|i: int| 0 <= i < r@.len() ==> (#[trigger] r@[i]).0 == self.urls@[i]
                && Some(r@[i].1) == self.outcomes@[i],
    {
        proof {
            lemma_count_some_full(self.outcomes@);
        }
        let Dispatcher { mut urls, mut outcomes, .. } = self;
        let ghost ourls = urls@;
        let ghost oouts = outcomes@;
        assert(ourls == self.urls@);
        assert(oouts == self.outcomes@);
        let n: usize = urls.len();
        let mut r: Vec<(String, ScanOutcome)> = Vec::new();
        let mut idx: usize = 0;
        assert(urls@ =~= ourls.subrange(0, n as int));
        assert(outcomes@ =~= oouts.subrange(0, n as int));
        while idx < n
            invariant
                0 <= idx <= n,
                n == ourls.len(),
                oouts.len() == n,
                urls@ == ourls.subrange(idx as int, n as int),
                outcomes@ == oouts.subrange(idx as int, n as int),
                r@.len() == idx,
                forall|i: int| 0 <= i < idx ==> (#[trigger] r@[i]).0 == ourls[i]
                    && Some(r@[i].1) == oouts[i],
                forall|i: int| 0 <= i < n ==> #[trigger] oouts[i] is Some,
            decreases n - idx,
        {
            let u = urls.remove(0);
            let o = outcomes.remove(0);
            assert(u == ourls[idx as int]);
            assert(o == oouts[idx as int]);
            assert(urls@ =~= ourls.subrange(idx + 1, n as int));
            assert(outcomes@ =~= oouts.subrange(idx + 1, n as int));
            match o {
                Some(oc) => {
                    let ghost rbefore = r@;
                    r.push((u, oc));
                    assert(r@ =~= rbefore.push((u, oc)));
                    assert(r@[idx as int].0 == ourls[idx as int]);
                    assert(Some(r@[idx as int].1) == oouts[idx as int]);
                    assert(forall|i2: int| 0 <= i2 < idx ==> r@[i2] == rbefore[i2]);
                },
                None => {
                    // a complete batch has every slot filled
                    unreached::<()>();
                },
            }
            idx = idx + 1;
        }
        assert(forall|i: int| 0 <= i < r@.len() ==> (#[trigger] r@[i]).0 == self.urls@[i]
            && Some(r@[i].1) == self.outcomes@[i]);
        r
    }
}

/// Law: once every run has completed, the dispatcher holds exactly one
/// outcome per input URL, whatever order the runs completed in.
pub proof fn lemma_one_outcome_per_url(d: Dispatcher)
    requires
        d.wf(),
        d.is_complete(),
    ensures
        d.outcomes@.len() == d.urls@.len(),
        forall|i: int| 0 <= i < d.outcomes@.len() ==> d.outcomes@[i] is Some,
{
    lemma_count_some_full(d.outcomes@);
}

/// Law: in every well-formed dispatcher state, runs in flight never exceed
/// the concurrency limit.
pub proof fn lemma_concurrency_bounded(d: Dispatcher)
    requires
        d.wf(),
    ensures
        0 <= d.in_flight() <= d.limit,
{
}

} // verus!
