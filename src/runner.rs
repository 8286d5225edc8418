use vstd::prelude::*;

use crate::outcome::{outcome_of, ConfigError, QueryOutcome};

verus! {

/// How many of the first `n` slots are launched and still without an outcome.
pub open spec fn running_count<A>(slots: Seq<Option<A>>, n: int) -> nat
    decreases n,
{
    if n <= 0 {
        0
    } else {
        running_count(slots, n - 1) + if slots[n - 1] is None {
            1nat
        } else {
            0nat
        }
    }
}

/// Filling an empty slot below `n` lowers the count by one.
proof fn lemma_running_count_fill<A>(slots: Seq<Option<A>>, n: int, index: int, value: A)
    requires
        0 <= index < n <= slots.len(),
        slots[index] is None,
    ensures
        running_count(slots, n) >= 1,
        running_count(slots.update(index, Some(value)), n) == running_count(slots, n) - 1,
    decreases n,
{
    let filled = slots.update(index, Some(value));
    if index < n - 1 {
        lemma_running_count_fill(slots, n - 1, index, value);
    } else {
        lemma_running_count_prefix(slots, filled, n - 1);
    }
}

/// With no running slot among the first `n`, each of them holds an outcome.
proof fn lemma_running_count_zero<A>(slots: Seq<Option<A>>, n: int)
    requires
        0 <= n <= slots.len(),
        running_count(slots, n) == 0,
    ensures
        forall|i: int| 0 <= i < n ==> slots[i] is Some,
    decreases n,
{
    if n > 0 {
        lemma_running_count_zero(slots, n - 1);
    }
}

/// At most `n` of the first `n` slots are running.
proof fn lemma_running_count_bound<A>(slots: Seq<Option<A>>, n: int)
    requires
        0 <= n,
    ensures
        running_count(slots, n) <= n,
    decreases n,
{
    if n > 0 {
        lemma_running_count_bound(slots, n - 1);
    }
}

/// The count depends on the first `n` slots alone.
proof fn lemma_running_count_prefix<A>(a: Seq<Option<A>>, b: Seq<Option<A>>, n: int)
    requires
        0 <= n <= a.len(),
        n <= b.len(),
        forall|i: int| 0 <= i < n ==> a[i] == b[i],
    ensures
        running_count(a, n) == running_count(b, n),
    decreases n,
{
    if n > 0 {
        lemma_running_count_prefix(a, b, n - 1);
    }
}

/// The decisions of one batch run: keys are launched in input order while
/// fewer than the bound are in flight and no cancellation was requested, and
/// each completion is stored in the slot of its key's position.
pub struct BatchQueryRunner<T, E> {
    keys: Vec<String>,
    slots: Vec<Option<QueryOutcome<T, E>>>,
    launched: usize,
    in_flight: usize,
    max_concurrency: u64,
    cancelled: bool,
}

impl<T, E> BatchQueryRunner<T, E> {
    /// The keys of the batch, in input order.
    pub closed spec fn keys_view(&self) -> Seq<String> {
        self.keys@
    }

    /// The outcome recorded so far at each position.
    pub closed spec fn outcomes_view(&self) -> Seq<Option<QueryOutcome<T, E>>> {
        self.slots@
    }

    /// how many keys have been launched; they are the first ones of the batch.
    pub closed spec fn launched_count(&self) -> nat {
        self.launched as nat
    }

    /// How many launched keys have no outcome yet.
    pub closed spec fn in_flight_count(&self) -> nat {
        self.in_flight as nat
    }

    /// The most queries that may be in flight at once.
    pub closed spec fn concurrency_bound(&self) -> nat {
        self.max_concurrency as nat
    }

    pub closed spec fn cancel_requested(&self) -> bool {
        self.cancelled
    }

    /// The state is consistent: one slot per key, outcomes only for launched
    /// keys and each under its own key, and the in-flight count is the
    /// number of launched keys without an outcome, within the bound.
    pub closed spec fn wf(&self) -> bool {
        &&& self.slots@.len() == self.keys@.len()
        &&& self.launched <= self.keys@.len()
        &&& self.max_concurrency >= 1
        &&& self.in_flight as nat == running_count(self.slots@, self.launched as int)
        &&& self.in_flight as nat <= self.max_concurrency as nat
        &&& forall|i: int|
            0 <= i < self.slots@.len() && #[trigger] self.slots@[i] is Some ==> {
                &&& i < self.launched
                &&& self.slots@[i]->Some_0.key_of() == self.keys@[i]
            }
    }

    /// The key at `index` was launched and its outcome is not recorded yet.
    pub open spec fn running(&self, index: int) -> bool {
        &&& 0 <= index < self.launched_count()
        &&& self.outcomes_view()[index] is None
    }

    /// Whether a key can be launched now.
    pub open spec fn can_launch(&self) -> bool {
        &&& !self.cancel_requested()
        &&& self.launched_count() < self.keys_view().len()
        &&& self.in_flight_count() < self.concurrency_bound()
    }

    /// Nothing is in flight and nothing more will be launched.
    pub open spec fn done(&self) -> bool {
        &&& self.in_flight_count() == 0
        &&& (self.cancel_requested() || self.launched_count() == self.keys_view().len())
    }

    /// The batch result: the recorded outcome at each position, and
    /// `Cancelled` for each key that has none.
    pub open spec fn batch_result(&self) -> Seq<QueryOutcome<T, E>> {
        Seq::new(
            self.keys_view().len(),
            |i: int|
                match self.outcomes_view()[i] {
                    Some(o) => o,
                    None => QueryOutcome::Cancelled { key: self.keys_view()[i] },
                },
        )
    }

    /// Starts a batch over `keys` with at most `max_concurrency` queries in
    /// flight; a bound below one is refused before anything is launched.
    pub fn new(keys: Vec<String>, max_concurrency: i64) -> (r: Result<Self, ConfigError>)
        ensures
            r is Err <==> max_concurrency < 1,
            r is Err ==> r->Err_0 == (ConfigError { max_concurrency }),
            r is Ok ==> {
                let s = r->Ok_0;
                &&& s.wf()
                &&& s.keys_view() == keys@
                &&& s.outcomes_view() == Seq::new(keys@.len(), |i: int| None::<QueryOutcome<T, E>>)
                &&& s.launched_count() == 0
                &&& s.in_flight_count() == 0
                &&& s.concurrency_bound() == max_concurrency as nat
                &&& !s.cancel_requested()
            },
    {
        if max_concurrency < 1 {
            return Err(ConfigError { max_concurrency });
        }
        let n = keys.len();
        let mut slots: Vec<Option<QueryOutcome<T, E>>> = Vec::with_capacity(n);
        let mut i: usize = 0;
        while i < n
            invariant
                i <= n,
                slots@ == Seq::new(i as nat, |j: int| None::<QueryOutcome<T, E>>),
            decreases n - i,
        {
            slots.push(None);
            i = i + 1;
            assert(slots@ =~= Seq::new(i as nat, |j: int| None::<QueryOutcome<T, E>>));
        }
        Ok(BatchQueryRunner {
            keys,
            slots,
            launched: 0,
            in_flight: 0,
            max_concurrency: max_concurrency as u64,
            cancelled: false,
        })
    }

    /// The number of keys in the batch.
    pub fn len(&self) -> (r: usize)
        requires
            self.wf(),
        ensures
            r == self.keys_view().len(),
    {
        self.keys.len()
    }

    /// The key at `index`, which the caller hands to the executor.
    pub fn key(&self, index: usize) -> (r: &String)
        requires
            self.wf(),
            index < self.keys_view().len(),
        ensures
            *r == self.keys_view()[index as int],
    {
        &self.keys[index]
    }

    /// How many launched keys have no outcome yet.
    pub fn in_flight(&self) -> (r: usize)
        requires
            self.wf(),
        ensures
            r == self.in_flight_count(),
    {
        self.in_flight
    }

    /// Launches the next key in input order when launching is allowed: no
    /// cancellation, a key left, and fewer than the bound in flight.
    /// Returns the launched position; the caller runs the executor on its key.
    pub fn try_launch(&mut self) -> (r: Option<usize>)
        requires
            old(self).wf(),
        ensures
            final(self).wf(),
            old(self).can_launch() ==> {
                &&& r is Some
                &&& r->Some_0 as nat == old(self).launched_count()
                &&& final(self).running(old(self).launched_count() as int)
                &&& final(self).launched_count() == old(self).launched_count() + 1
                &&& final(self).in_flight_count() == old(self).in_flight_count() + 1
                &&& final(self).keys_view() == old(self).keys_view()
                &&& final(self).outcomes_view() == old(self).outcomes_view()
                &&& final(self).concurrency_bound() == old(self).concurrency_bound()
                &&& final(self).cancel_requested() == old(self).cancel_requested()
            },
            !old(self).can_launch() ==> r is None && *final(self) == *old(self),
    {
        if self.cancelled || self.launched >= self.keys.len() || (self.in_flight as u64)
            >= self.max_concurrency {
            return None;
        }
        let index = self.launched;
        proof {
            lemma_running_count_prefix(self.slots@, self.slots@, index as int);
            lemma_running_count_bound(self.slots@, index as int);
        }
        self.launched = index + 1;
        self.in_flight = self.in_flight + 1;
        Some(index)
    }

    /// Whether the key at `index` was launched and still has no outcome.
    pub fn is_running(&self, index: usize) -> (r: bool)
        requires
            self.wf(),
        ensures
            r == self.running(index as int),
    {
        index < self.launched && self.slots[index].is_none()
    }

    /// Records the executor's result for the running key at `index` in that
    /// key's own slot; no other slot changes.
    pub fn complete(&mut self, index: usize, result: Result<T, E>)
        requires
            old(self).wf(),
            old(self).running(index as int),
        ensures
            final(self).wf(),
            final(self).outcomes_view() == old(self).outcomes_view().update(
                index as int,
                Some(outcome_of(old(self).keys_view()[index as int], result)),
            ),
            final(self).in_flight_count() == old(self).in_flight_count() - 1,
            final(self).keys_view() == old(self).keys_view(),
            final(self).launched_count() == old(self).launched_count(),
            final(self).concurrency_bound() == old(self).concurrency_bound(),
            final(self).cancel_requested() == old(self).cancel_requested(),
    {
        let key = self.keys[index].clone();
        let outcome = QueryOutcome::from_result(key, result);
        proof {
            lemma_running_count_fill(self.slots@, self.launched as int, index as int, outcome);
        }
        self.slots.set(index, Some(outcome));
        self.in_flight = self.in_flight - 1;
    }

    /// Stops launching: no key is launched from now on. Keys in flight may
    /// still complete.
    pub fn cancel(&mut self)
        requires
            old(self).wf(),
        ensures
            final(self).wf(),
            final(self).cancel_requested(),
            final(self).keys_view() == old(self).keys_view(),
            final(self).outcomes_view() == old(self).outcomes_view(),
            final(self).launched_count() == old(self).launched_count(),
            final(self).in_flight_count() == old(self).in_flight_count(),
            final(self).concurrency_bound() == old(self).concurrency_bound(),
    {
        self.cancelled = true;
    }

    /// Whether the run is over: nothing in flight, and every key launched or
    /// cancellation requested.
    pub fn is_done(&self) -> (r: bool)
        requires
            self.wf(),
        ensures
            r == self.done(),
    {
        self.in_flight == 0 && (self.cancelled || self.launched == self.keys.len())
    }

    /// Hands back the batch result in input order: the recorded outcome of
    /// each key, and `Cancelled` for each key without one.
    pub fn finish(self) -> (r: Vec<QueryOutcome<T, E>>)
        requires
            self.wf(),
        ensures
            r@ == self.batch_result(),
    {
        let ghost spec_result = self.batch_result();
        let BatchQueryRunner { keys, mut slots, .. } = self;
        let n = keys.len();
        let mut result: Vec<QueryOutcome<T, E>> = Vec::with_capacity(n);
        let mut i: usize = 0;
        while i < n
            invariant
                i <= n,
                n == keys@.len(),
                keys@ == self.keys@,
                slots@.len() == n,
                forall|j: int| i <= j < n ==> slots@[j] == self.slots@[j],
                spec_result == self.batch_result(),
                result@ == spec_result.take(i as int),
            decreases n - i,
        {
            let slot = slots[i].take();
            let outcome = match slot {
                Some(o) => o,
                None => QueryOutcome::Cancelled { key: keys[i].clone() },
            };
            result.push(outcome);
            i = i + 1;
            assert(result@ =~= spec_result.take(i as int));
        }
        assert(result@ =~= spec_result);
        result
    }
}

/// The counters of a consistent run stay in range: at most every key is
/// launched, at most every launched key is in flight, the bound is at least
/// one and the in-flight count never exceeds it.
pub proof fn lemma_counts_in_range<T, E>(r: BatchQueryRunner<T, E>)
    requires
        r.wf(),
    ensures
        r.launched_count() <= r.keys_view().len(),
        r.in_flight_count() <= r.launched_count(),
        r.in_flight_count() <= r.concurrency_bound(),
        r.concurrency_bound() >= 1,
        r.outcomes_view().len() == r.keys_view().len(),
{
    lemma_running_count_bound(r.slots@, r.launched as int);
}

/// The batch result has one outcome per key, and the outcome at each
/// position belongs to the key at that position, whatever order the
/// completions came in.
pub proof fn lemma_result_matches_keys<T, E>(r: BatchQueryRunner<T, E>)
    requires
        r.wf(),
    ensures
        r.batch_result().len() == r.keys_view().len(),
        forall|i: int|
            0 <= i < r.keys_view().len() ==> #[trigger] r.batch_result()[i].key_of()
                == r.keys_view()[i],
{
}

/// Never more queries are in flight than the bound allows; with a bound of
/// one, no two keys are ever running at the same time.
pub proof fn lemma_in_flight_within_bound<T, E>(r: BatchQueryRunner<T, E>)
    requires
        r.wf(),
    ensures
        r.in_flight_count() <= r.concurrency_bound(),
        r.concurrency_bound() == 1 ==> forall|i: int, j: int|
            r.running(i) && r.running(j) ==> i == j,
{
    if r.concurrency_bound() == 1 {
        assert forall|i: int, j: int| r.running(i) && r.running(j) implies i == j by {
            if i != j {
                let s = r.slots@;
                let n = r.launched as int;
                let o = QueryOutcome::<T, E>::Cancelled { key: r.keys@[i] };
                lemma_running_count_fill(s, n, i, o);
                lemma_running_count_fill(s.update(i, Some(o)), n, j, o);
            }
        }
    }
}

/// A run in which every key was launched and nothing is in flight has an
/// outcome recorded for every key: none is reported `Cancelled` unless its
/// query said so.
pub proof fn lemma_completed_run_is_recorded<T, E>(r: BatchQueryRunner<T, E>)
    requires
        r.wf(),
        r.in_flight_count() == 0,
        r.launched_count() == r.keys_view().len(),
    ensures
        forall|i: int| 0 <= i < r.keys_view().len() ==> #[trigger] r.outcomes_view()[i] is Some,
        forall|i: int|
            0 <= i < r.keys_view().len() ==> r.batch_result()[i]
                == #[trigger] r.outcomes_view()[i]->Some_0,
{
    lemma_running_count_zero(r.slots@, r.launched as int);
}

/// Where each key's outcome was recorded from the executor's result for
/// that key, the batch result holds a `Failure` exactly at the positions
/// whose query failed and a `Success` exactly at those whose query
/// succeeded: one key's failure is never reported for another.
pub proof fn lemma_failures_stay_with_their_keys<T, E>(
    r: BatchQueryRunner<T, E>,
    results: Seq<Result<T, E>>,
)
    requires
        r.wf(),
        results.len() == r.keys_view().len(),
        forall|i: int|
            0 <= i < results.len() ==> #[trigger] r.outcomes_view()[i] == Some(
                outcome_of(r.keys_view()[i], results[i]),
            ),
    ensures
        forall|i: int|
            0 <= i < results.len() ==> (#[trigger] r.batch_result()[i] is Failure <==> results[i] is Err),
        forall|i: int|
            0 <= i < results.len() ==> (#[trigger] r.batch_result()[i] is Success <==> results[i] is Ok),
        forall|i: int|
            0 <= i < results.len() ==> #[trigger] r.batch_result()[i] == outcome_of(
                r.keys_view()[i],
                results[i],
            ),
{
    assert forall|i: int| 0 <= i < results.len() implies #[trigger] r.batch_result()[i] == outcome_of(
        r.keys_view()[i],
        results[i],
    ) by {
        assert(r.outcomes_view()[i] == Some(outcome_of(r.keys_view()[i], results[i])));
    }
}

/// A run cancelled before any key was launched launches nothing more, is
/// done at once, and reports every key as `Cancelled`.
pub proof fn lemma_cancel_before_start<T, E>(r: BatchQueryRunner<T, E>)
    requires
        r.wf(),
        r.launched_count() == 0,
        r.cancel_requested(),
    ensures
        !r.can_launch(),
        r.done(),
        forall|i: int|
            0 <= i < r.keys_view().len() ==> #[trigger] r.batch_result()[i] == (QueryOutcome::<
                T,
                E,
            >::Cancelled { key: r.keys_view()[i] }),
{
    assert forall|i: int| 0 <= i < r.keys_view().len() implies #[trigger] r.batch_result()[i]
        == (QueryOutcome::<T, E>::Cancelled { key: r.keys_view()[i] }) by {
        if r.slots@[i] is Some {
            assert(i < r.launched);
        }
    }
}

} // verus!
