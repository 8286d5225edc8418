use vstd::prelude::*;

use crate::outcome::{outcome_of, ConfigError, QueryOutcome};
use crate::runner::BatchQueryRunner;

verus! {

/// `outcome` is what one call of `executor` on `key` can be recorded as.
pub open spec fn produced_by<T, E, F: Fn(String) -> Result<T, E>>(
    executor: F,
    key: String,
    outcome: QueryOutcome<T, E>,
) -> bool {
    exists|res: Result<T, E>| #[trigger] executor.ensures((key,), res) && outcome == outcome_of(key, res)
}

/// Runs `executor` once on each key, in input order, under the concurrency
/// bound of a [`BatchQueryRunner`], and returns one outcome per key at the
/// key's position. A failing key becomes a `Failure` in its own slot and
/// never stops the others. A bound below one is refused before the executor
/// is called at all.
pub fn run_blocking<T, E, F: Fn(String) -> Result<T, E>>(
    keys: Vec<String>,
    executor: F,
    max_concurrency: i64,
) -> (r: Result<Vec<QueryOutcome<T, E>>, ConfigError>)
    requires
        forall|k: String| executor.requires((k,)),
    ensures
        r is Err <==> max_concurrency < 1,
        r is Err ==> r->Err_0 == (ConfigError { max_concurrency }),
        r is Ok ==> r->Ok_0@.len() == keys@.len(),
        r is Ok ==> forall|i: int|
            0 <= i < keys@.len() ==> produced_by(executor, keys@[i], #[trigger] r->Ok_0@[i]),
{
    let ghost key_seq = keys@;
    let mut runner = match BatchQueryRunner::new(keys, max_concurrency) {
        Ok(runner) => runner,
        Err(e) => {
            return Err(e);
        },
    };
    let ghost mut results: Seq<Result<T, E>> = Seq::empty();
    loop
        invariant
            runner.wf(),
            runner.keys_view() == key_seq,
            runner.in_flight_count() == 0,
            runner.concurrency_bound() >= 1,
            !runner.cancel_requested(),
            forall|k: String| executor.requires((k,)),
            results.len() == runner.launched_count(),
            forall|i: int|
                0 <= i < runner.launched_count() ==> #[trigger] executor.ensures(
                    (key_seq[i],),
                    results[i],
                ),
            forall|i: int|
                0 <= i < runner.launched_count() ==> #[trigger] runner.outcomes_view()[i] == Some(
                    outcome_of(key_seq[i], results[i]),
                ),
        ensures
            runner.launched_count() == key_seq.len(),
        decreases key_seq.len() - runner.launched_count(),
    {
        proof {
            crate::runner::lemma_counts_in_range(runner);
        }
        let launched = runner.try_launch();
        match launched {
            None => {
                break ;
            },
            Some(index) => {
                let key = runner.key(index).clone();
                let res = executor(key);
                runner.complete(index, res);
                proof {
                    results = results.push(res);
                }
            },
        }
    }
    proof {
        crate::runner::lemma_completed_run_is_recorded(runner);
    }
    let ghost last = runner;
    let result = runner.finish();
    let r: Result<Vec<QueryOutcome<T, E>>, ConfigError> = Ok(result);
    assert forall|i: int| 0 <= i < key_seq.len() implies produced_by(
        executor,
        key_seq[i],
        #[trigger] r->Ok_0@[i],
    ) by {
        assert(last.outcomes_view()[i] == Some(outcome_of(key_seq[i], results[i])));
        assert(executor.ensures((key_seq[i],), results[i]));
    }
    r
}

} // verus!
