use vstd::prelude::*;
use crate::downloader::DownloadResult;

verus! {

/// The admission bookkeeping of a run: which items have been handed out,
/// which are in their active-execution window, and which have settled.
///
/// The driver loop asks `try_start` for the next item whenever it can,
/// runs each started item's job, and hands the result back through
/// `finish`. The scheduler guarantees that at most `capacity` items are
/// active at once and that a finished run holds exactly one outcome per
/// submitted item.
pub struct Scheduler {
    /// Titles of the submitted items; item `i` is `titles[i]`.
    pub titles: Vec<String>,
    /// How many jobs may run at once; at least 1.
    pub capacity: usize,
    /// Items `0..started` have been handed out so far.
    pub started: usize,
    /// Started items whose jobs have not settled yet.
    pub active: Vec<usize>,
    /// The item each settled outcome belongs to, in settlement order.
    pub finished: Vec<usize>,
    /// The settled outcomes, parallel to `finished`.
    pub outcomes: Vec<DownloadResult>,
}

impl Scheduler {
    /// Every reachable scheduler state is well-formed: the capacity
    /// admits at least one job, no more than `capacity` items are active,
    /// every handed-out item is active or finished but never both, and
    /// each outcome carries the title of the item it settles.
    pub open spec fn wf(self) -> bool {
        &&& self.capacity >= 1
        &&& self.started <= self.titles@.len()
        &&& self.active@.no_duplicates()
        &&& self.finished@.no_duplicates()
        &&& forall|i: int| 0 <= i < self.active@.len() ==> (#[trigger] self.active@[i])
            < self.started
        &&& forall|i: int| 0 <= i < self.finished@.len() ==> (#[trigger] self.finished@[i])
            < self.started
        &&& forall|x: usize| x < self.started ==> ((#[trigger] self.active@.contains(x))
            <==> !self.finished@.contains(x))
        &&& self.active@.len() <= self.capacity
        &&& self.outcomes@.len() == self.finished@.len()
        &&& forall|i: int| 0 <= i < self.finished@.len() ==> (#[trigger] self.outcomes@[i]).title@
            == self.titles@[self.finished@[i] as int]@
    }

    /// Whether every submitted item has settled.
    pub open spec fn spec_done(self) -> bool {
        self.started == self.titles@.len() && self.active@.len() == 0
    }

    /// A fresh scheduler over `titles` admitting at most
    /// `capacity` simultaneous jobs; nothing started, nothing settled.
    pub fn new(titles: Vec<String>, capacity: usize) -> (s: Scheduler)
        requires
            capacity >= 1,
        ensures
            s.wf(),
            s.titles@ == titles@,
            s.capacity == capacity,
            s.started == 0,
            s.active@.len() == 0,
            s.finished@.len() == 0,
            s.outcomes@.len() == 0,
    {
        Scheduler {
            titles,
            capacity,
            started: 0,
            active: Vec::new(),
            finished: Vec::new(),
            outcomes: Vec::new(),
        }
    }

    /// Admits the next item when a slot is free and items remain:
    /// exactly then it returns the item's index and moves it into the
    /// active window; otherwise it changes nothing.
    pub fn try_start(&mut self) -> (r: Option<usize>)
        requires
            old(self).wf(),
        ensures
            final(self).wf(),
            final(self).titles@ == old(self).titles@,
            final(self).capacity == old(self).capacity,
            final(self).finished@ == old(self).finished@,
            final(self).outcomes@ == old(self).outcomes@,
            match r {
                Some(i) => {
                    &&& old(self).active@.len() < old(self).capacity
                    &&& old(self).started < old(self).titles@.len()
                    &&& i == old(self).started
                    &&& final(self).started == old(self).started + 1
                    &&& final(self).active@ == old(self).active@.push(i)
                },
                None => {
                    &&& *final(self) == *old(self)
                    &&& (old(self).active@.len() >= old(self).capacity || old(self).started
                        == old(self).titles@.len())
                },
            },
    {
        if self.active.len() < self.capacity && self.started < self.titles.len() {
            let i = self.started;
            self.active.push(i);
            self.started = i + 1;
            proof {
                let a0 = old(self).active@;
                let a1 = self.active@;
                assert(a1 == a0.push(i));
                assert forall|p: int, q: int|
                    0 <= p < q < a1.len() implies a1[p] != a1[q] by {
                    if q == a1.len() - 1 {
                        assert(a1[p] == a0[p]);
                        assert(a0[p] < i);
                    } else {
                        assert(a1[p] == a0[p] && a1[q] == a0[q]);
                    }
                }
                assert forall|x: usize|
                    x < self.started implies ((#[trigger] a1.contains(x))
                    <==> !self.finished@.contains(x)) by {
                    if x == i {
                        assert(a1[a1.len() - 1] == i);
                        assert(a1.contains(i));
                        if self.finished@.contains(x) {
                            let j = choose|j: int|
                                0 <= j < self.finished@.len() && self.finished@[j] == x;
                            assert(self.finished@[j] < i);
                        }
                    } else {
                        assert(x < old(self).started);
                        if a1.contains(x) {
                            let j = choose|j: int| 0 <= j < a1.len() && a1[j] == x;
                            assert(a0[j] == x);
                            assert(a0.contains(x));
                        }
                        if a0.contains(x) {
                            let j = choose|j: int| 0 <= j < a0.len() && a0[j] == x;
                            assert(a1[j] == x);
                            assert(a1.contains(x));
                        }
                    }
                }
            }
            Some(i)
        } else {
            None
        }
    }

    /// Settles the active item `item` with `result`: the item leaves the
    /// active window, releasing its slot for a waiting item, and its outcome
    /// joins the settled list. Success and failure settle alike: a failed
    /// job never touches any other item's bookkeeping.
    pub fn finish(&mut self, item: usize, result: DownloadResult)
        requires
            old(self).wf(),
            old(self).active@.contains(item),
            result.title@ == old(self).titles@[item as int]@,
        ensures
            final(self).wf(),
            final(self).titles@ == old(self).titles@,
            final(self).capacity == old(self).capacity,
            final(self).started == old(self).started,
            final(self).active@.len() == old(self).active@.len() - 1,
            !final(self).active@.contains(item),
            forall|x: usize| x != item ==> ((#[trigger] final(self).active@.contains(x))
                <==> old(self).active@.contains(x)),
            final(self).finished@ == old(self).finished@.push(item),
            final(self).outcomes@ == old(self).outcomes@.push(result),
    {
        let ghost a0 = self.active@;
        let mut p: usize = 0;
        while p < self.active.len() && self.active[p] != item
            invariant
                0 <= p <= self.active@.len(),
                self.active@ == a0,
                forall|j: int| 0 <= j < p ==> (#[trigger] a0[j]) != item,
            decreases self.active@.len() - p,
        {
            p += 1;
        }
        proof {
            if p == self.active@.len() {
                let j = choose|j: int| 0 <= j < a0.len() && a0[j] == item;
                assert(a0[j] != item);
            }
        }
        self.active.remove(p);
        self.finished.push(item);
        self.outcomes.push(result);
        proof {
            let a1 = self.active@;
            assert(a1 == a0.remove(p as int));
            assert forall|j: int, q: int| 0 <= j < q < a1.len() implies a1[j] != a1[q] by {
                let j0: int = if j < p { j } else { j + 1 };
                let q0: int = if q < p { q } else { q + 1 };
                assert(a1[j] == a0[j0] && a1[q] == a0[q0]);
            }
            assert forall|x: usize| !(a1.contains(x) && x == item) by {
                if a1.contains(x) && x == item {
                    let j = choose|j: int| 0 <= j < a1.len() && a1[j] == x;
                    let j0: int = if j < p { j } else { j + 1 };
                    assert(a0[j0] == item);
                    assert(a0[p as int] == item);
                    assert(a0.no_duplicates());
                }
            }
            assert forall|x: usize|
                x != item implies ((#[trigger] a1.contains(x)) <==> a0.contains(x)) by {
                if a1.contains(x) {
                    let j = choose|j: int| 0 <= j < a1.len() && a1[j] == x;
                    let j0: int = if j < p { j } else { j + 1 };
                    assert(a0[j0] == x);
                    assert(a0.contains(x));
                }
                if a0.contains(x) {
                    let j = choose|j: int| 0 <= j < a0.len() && a0[j] == x;
                    assert(j != p);
                    if j < p {
                        assert(a1[j] == x);
                    } else {
                        assert(a1[j - 1] == x);
                    }
                    assert(a1.contains(x));
                }
            }
            let f0 = old(self).finished@;
            let f1 = self.finished@;
            assert forall|j: int, q: int| 0 <= j < q < f1.len() implies f1[j] != f1[q] by {
                if q == f1.len() - 1 {
                    assert(f1[j] == f0[j]);
                    assert(f0.contains(f0[j]));
                    assert(!a0.contains(f0[j]) ==> true);
                    if f1[j] == item {
                        assert(f0.contains(item));
                        assert(a0.contains(item));
                        assert(item < old(self).started);
                    }
                } else {
                    assert(f1[j] == f0[j] && f1[q] == f0[q]);
                }
            }
            assert forall|x: usize|
                x < self.started implies ((#[trigger] a1.contains(x))
                <==> !f1.contains(x)) by {
                if x == item {
                    assert(f1[f1.len() - 1] == item);
                    assert(f1.contains(item));
                } else {
                    assert((a1.contains(x)) <==> a0.contains(x));
                    if f1.contains(x) {
                        let j = choose|j: int| 0 <= j < f1.len() && f1[j] == x;
                        assert(f0[j] == x);
                        assert(f0.contains(x));
                    }
                    if f0.contains(x) {
                        let j = choose|j: int| 0 <= j < f0.len() && f0[j] == x;
                        assert(f1[j] == x);
                        assert(f1.contains(x));
                    }
                }
            }
            assert forall|i: int|
                0 <= i < f1.len() implies (#[trigger] self.outcomes@[i]).title@
                == self.titles@[f1[i] as int]@ by {
                if i < f1.len() - 1 {
                    assert(self.outcomes@[i] == old(self).outcomes@[i]);
                    assert(f1[i] == f0[i]);
                }
            }
        }
    }

    /// How many jobs are in their active-execution window right now.
    pub fn active_len(&self) -> (n: usize)
        ensures
            n == self.active@.len(),
    {
        self.active.len()
    }

    /// Whether every submitted item has settled.
    pub fn is_done(&self) -> (r: bool)
        ensures
            r == self.spec_done(),
    {
        self.started == self.titles.len() && self.active.len() == 0
    }

    /// The settled outcomes of the run.
    pub fn into_outcomes(self) -> (r: Vec<DownloadResult>)
        ensures
            r@ == self.outcomes@,
    {
        self.outcomes
    }
}

/// How many of the outcomes report success.
pub open spec fn count_successes(rs: Seq<DownloadResult>) -> int
    decreases rs.len(),
{
    if rs.len() == 0 {
        0
    } else {
        count_successes(rs.drop_last()) + if rs.last().success {
            1int
        } else {
            0int
        }
    }
}

/// The final report's numbers: how many outcomes succeeded and how many
/// failed; together they account for every outcome.
#[verifier::loop_isolation(false)]
pub fn tally(results: &Vec<DownloadResult>) -> (r: (usize, usize))
    ensures
        r.0 as int == count_successes(results@),
        r.0 + r.1 == results@.len(),
{
    let mut succeeded: usize = 0;
    let mut failed: usize = 0;
    let mut i: usize = 0;
    proof {
        assert(results@.take(0) =~= Seq::<DownloadResult>::empty());
    }
    while i < results.len()
        invariant
            i <= results@.len(),
            succeeded as int == count_successes(results@.take(i as int)),
            succeeded + failed == i,
        decreases results@.len() - i,
    {
        proof {
            assert(results@.take(i + 1).drop_last() =~= results@.take(i as int));
            assert(results@.take(i + 1).last() == results@[i as int]);
        }
        if results[i].success {
            succeeded += 1;
        } else {
            failed += 1;
        }
        i += 1;
    }
    proof {
        assert(results@.take(results@.len() as int) =~= results@);
    }
    (succeeded, failed)
}

// ---------------------------------------------------------------------------
// Laws
// ---------------------------------------------------------------------------

/// At no instant are more than `capacity` jobs in their active-execution
/// window: well-formedness — which `new`, `try_start` and `finish` all
/// preserve — bounds the active set by the capacity, however many
/// items were submitted.
pub proof fn lemma_concurrency_bound(s: Scheduler)
    requires
        s.wf(),
    ensures
        s.active@.len() <= s.capacity,
{
}

/// A finished run settles every submitted item exactly once: the settled
/// list holds each item index below `titles.len()` once and only once —
/// one outcome per input item, whether the jobs succeeded or failed —
/// and outcome `k` carries the title of the item it settles.
pub proof fn lemma_outcome_completeness(s: Scheduler)
    requires
        s.wf(),
        s.spec_done(),
    ensures
        s.outcomes@.len() == s.titles@.len(),
        s.finished@.no_duplicates(),
        forall|x: usize| x < s.titles@.len() <==> s.finished@.contains(x),
        forall|k: int| 0 <= k < s.outcomes@.len() ==> (#[trigger] s.outcomes@[k]).title@
            == s.titles@[s.finished@[k] as int]@,
{
    let n = s.titles@.len() as int;
    assert forall|x: usize| x < s.titles@.len() <==> s.finished@.contains(x) by {
        if x < s.titles@.len() {
            assert(!s.active@.contains(x));
        }
        if s.finished@.contains(x) {
            let j = choose|j: int| 0 <= j < s.finished@.len() && s.finished@[j] == x;
            assert(s.finished@[j] < s.started);
        }
    }
    let m = s.finished@.map_values(|u: usize| u as int);
    assert(s.finished@.no_duplicates());
    assert forall|j: int, q: int| 0 <= j < q < m.len() implies m[j] != m[q] by {
        assert(s.finished@[j] != s.finished@[q]);
    }
    assert(m.no_duplicates());
    assert(m.to_set() =~= vstd::set_lib::set_int_range(0, n)) by {
        assert forall|x: int| m.to_set().contains(x) implies 0 <= x < n by {
            let j = choose|j: int| 0 <= j < m.len() && m[j] == x;
            assert(s.finished@[j] < s.started);
        }
        assert forall|x: int| 0 <= x < n implies m.to_set().contains(x) by {
            let u = x as usize;
            assert(s.finished@.contains(u));
            let j = choose|j: int| 0 <= j < s.finished@.len() && s.finished@[j] == u;
            assert(m[j] == x);
            assert(m.contains(x));
        }
    }
    m.unique_seq_to_set();
    vstd::set_lib::lemma_int_range(0, n);
    assert(m.len() == n);
}

} // verus!
