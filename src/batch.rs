//! A whole batch run in one call, with work units that finish at once.
//!
//! Every decision goes through [`Scheduler`] and every unit through
//! [`ItemProgress`]; only the waiting is left out. Among the running units the
//! one admitted first completes first.

use vstd::prelude::*;
use crate::config::ConfigError;
use crate::item::WorkItem;
use crate::scheduler::{
    lemma_cap_never_exceeded,
    lemma_finished_batch,
    position_of,
    Action,
    AggregateProgress,
    Scheduler,
    UnitOutcome,
};
use crate::unit::run_unit;

verus! {

/// What a batch run reports at its end.
#[derive(Debug)]
pub struct BatchReport {
    pub aggregate: AggregateProgress,
    /// Indices of the items in the order their units were started.
    pub start_order: Vec<usize>,
    /// Indices of the items whose units succeeded, in order of completion.
    pub succeeded: Vec<usize>,
    /// The identifiers those units returned, in the same order.
    pub succeeded_ids: Vec<u128>,
    /// Indices of the items whose units failed, in order of completion.
    pub failed: Vec<usize>,
    /// The largest number of units that ever ran at once.
    pub peak_running: usize,
}

/// Runs every item of `items` with at most `cap` units at once. The units of
/// the items whose indices are listed in `failing` fail; the others succeed.
pub fn run_batch(items: Vec<WorkItem>, cap: usize, failing: &Vec<usize>) -> (r: Result<BatchReport, ConfigError>)
    ensures
        cap == 0 ==> r == Err::<BatchReport, ConfigError>(ConfigError::ZeroConcurrency),
        cap >= 1 ==> r is Ok,
        r matches Ok(rep) ==> {
            &&& rep.aggregate.total_items == items@.len()
            &&& rep.aggregate.completed_items == items@.len()
            &&& rep.aggregate.failed_items == rep.failed@.len()
            &&& rep.start_order@ == Seq::new(items@.len(), |i: int| i as usize)
            &&& rep.succeeded@.len() + rep.failed@.len() == items@.len()
            &&& forall|i: usize|
                #![trigger rep.failed@.contains(i)]
                #![trigger rep.succeeded@.contains(i)]
                i < items@.len() ==> (rep.failed@.contains(i) <==> failing@.contains(i))
                    && (rep.succeeded@.contains(i) <==> !failing@.contains(i))
            &&& forall|k: int| 0 <= k < rep.failed@.len() ==> #[trigger] rep.failed@[k] < items@.len()
            &&& forall|k: int| 0 <= k < rep.succeeded@.len() ==> #[trigger] rep.succeeded@[k] < items@.len()
            &&& rep.succeeded_ids@.len() == rep.succeeded@.len()
            &&& forall|k: int|
                0 <= k < rep.succeeded@.len() ==> #[trigger] rep.succeeded_ids@[k]
                    == items@[rep.succeeded@[k] as int].id
            &&& rep.peak_running <= cap
            &&& items@.len() > 0 ==> rep.peak_running >= 1
        },
{
    let ghost n = items@.len();
    let ghost batch = items@;
    let mut s = match Scheduler::new(items, cap) {
        Ok(s) => s,
        Err(e) => return Err(e),
    };
    let mut start_order: Vec<usize> = Vec::new();
    let mut peak: usize = 0;
    loop
        invariant
            s.wf(),
            s@.items == batch,
            s@.items.len() == n,
            s@.cap == cap,
            start_order@ == Seq::new(s@.admitted, |i: int| i as usize),
            s@.running.len() <= peak <= cap,
            s@.admitted > 0 ==> peak >= 1,
            forall|i: usize| #[trigger] s@.is_failed(i) ==> failing@.contains(i),
            forall|i: usize| #[trigger] s@.is_succeeded(i) ==> !failing@.contains(i),
        ensures
            s.wf(),
            s@.items == batch,
            s@.items.len() == n,
            s@.next_action() == Action::Finish,
            start_order@ == Seq::new(s@.admitted, |i: int| i as usize),
            peak <= cap,
            s@.admitted > 0 ==> peak >= 1,
            forall|i: usize| #[trigger] s@.is_failed(i) ==> failing@.contains(i),
            forall|i: usize| #[trigger] s@.is_succeeded(i) ==> !failing@.contains(i),
        decreases 2 * (s@.items.len() - s@.admitted) + s@.running.len(),
    {
        let ghost before = s@;
        match s.poll() {
            Action::Start(i, _item) => {
                start_order.push(i);
                if s.running_count() > peak {
                    peak = s.running_count();
                }
                proof {
                    assert(start_order@ =~= Seq::new(s@.admitted, |j: int| j as usize));
                    assert forall|j: usize| #[trigger] s@.is_failed(j) implies failing@.contains(j) by {
                        assert(before.is_failed(j));
                    }
                    assert forall|j: usize| #[trigger] s@.is_succeeded(j) implies !failing@.contains(j) by {
                        assert(before.is_succeeded(j));
                    }
                }
            },
            Action::AwaitCompletion => {
                // the scheduler waits only while some unit runs
                if let Some(i) = s.oldest_running() {
                    proof {
                        assert(s@.is_running(i));
                        assert(s@.running[0] < s@.admitted);
                    }
                    let item = s.item(i);
                    let fails = position_of(failing, i).is_some();
                    let outcome = if fails {
                        UnitOutcome::Failed
                    } else {
                        let (p, _events) = run_unit(item);
                        UnitOutcome::Succeeded(p.item_id())
                    };
                    proof {
                        lemma_cap_never_exceeded(s@, i, outcome);
                    }
                    let done = s.complete(i, outcome);
                    proof {
                        assert(done is Ok);
                        assert(s@.running.len() + 1 == before.running.len());
                        assert forall|j: usize| #[trigger] s@.is_failed(j) implies failing@.contains(j) by {
                            if j != i {
                                assert(before.is_failed(j));
                            }
                        }
                        assert forall|j: usize| #[trigger] s@.is_succeeded(j) implies !failing@.contains(j) by {
                            if j != i {
                                assert(before.is_succeeded(j));
                            }
                        }
                    }
                }
            },
            Action::Finish => break,
        }
    }
    proof {
        lemma_finished_batch(s@);
    }
    let failed = s.failures();
    let succeeded = s.successes();
    let succeeded_ids = s.succeeded_ids();
    let aggregate = s.aggregate();
    proof {
        assert forall|k: int| 0 <= k < failed@.len() implies #[trigger] failed@[k] < n by {
            assert(s@.is_failed(failed@[k]));
        }
        assert forall|k: int| 0 <= k < succeeded@.len() implies #[trigger] succeeded@[k] < n by {
            assert(s@.is_succeeded(succeeded@[k]));
        }
        assert forall|i: usize| i < n implies (failed@.contains(i) <==> failing@.contains(i))
            && (succeeded@.contains(i) <==> !failing@.contains(i)) by {
            assert(s@.is_succeeded(i) != s@.is_failed(i));
        }
    }
    Ok(BatchReport { aggregate, start_order, succeeded, succeeded_ids, failed, peak_running: peak })
}

} // verus!
