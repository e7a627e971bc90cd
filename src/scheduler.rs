//! The bounded scheduler: admits items in order under a concurrency cap and
//! accounts for each completion, success or failure.
//!
//! The scheduler only decides. Its caller asks for the next action with
//! [`Scheduler::poll`], starts the unit or waits for one to finish, and hands
//! each finished unit back with [`Scheduler::complete`].

use vstd::prelude::*;
use crate::config::ConfigError;
use crate::item::WorkItem;

verus! {

/// What the caller must do next.
#[derive(Clone, Copy, Debug, PartialEq, Eq)]
pub enum Action {
    /// Start the unit for the item at this index; it now holds a slot.
    Start(usize, WorkItem),
    /// Every slot is taken, or no item is left to admit: wait for any running
    /// unit to finish and report it.
    AwaitCompletion,
    /// Nothing runs and nothing is left: the batch is over.
    Finish,
}

/// How a unit ended.
#[derive(Clone, Copy, Debug, PartialEq, Eq)]
pub enum UnitOutcome {
    /// The unit returned this identifier.
    Succeeded(u128),
    /// The unit terminated abnormally.
    Failed,
}

/// A completion that the scheduler could not match to a running unit.
#[derive(Clone, Copy, Debug, PartialEq, Eq)]
pub enum CompletionError {
    NotRunning,
}

/// Batch-wide progress: units finished (successes and failures) against the total.
#[derive(Clone, Copy, Debug, PartialEq, Eq)]
pub struct AggregateProgress {
    pub total_items: u64,
    pub completed_items: u64,
    pub failed_items: u64,
}

/// The abstract state of a scheduler.
pub ghost struct SchedulerView {
    /// The batch, in source order.
    pub items: Seq<WorkItem>,
    /// The concurrency cap.
    pub cap: nat,
    /// How many items have been admitted: always a prefix of the batch.
    pub admitted: nat,
    /// Indices of the units that hold a slot, in order of admission.
    pub running: Seq<usize>,
    /// Indices of the units that returned their own identifier, in order of completion.
    pub succeeded: Seq<usize>,
    /// Indices of the units that failed, in order of completion.
    pub failed: Seq<usize>,
}

impl SchedulerView {
    pub open spec fn is_running(self, i: usize) -> bool {
        self.running.contains(i)
    }

    pub open spec fn is_succeeded(self, i: usize) -> bool {
        self.succeeded.contains(i)
    }

    pub open spec fn is_failed(self, i: usize) -> bool {
        self.failed.contains(i)
    }

    /// Units that have finished, whichever way.
    pub open spec fn completed(self) -> nat {
        self.succeeded.len() + self.failed.len()
    }

    /// Every admitted index is in exactly one of running, succeeded and failed;
    /// no other index is in any; the cap holds.
    pub open spec fn wf(self) -> bool {
        &&& self.cap >= 1
        &&& self.admitted <= self.items.len()
        &&& self.items.len() <= u64::MAX
        &&& self.items.len() <= usize::MAX
        &&& self.running.len() <= self.cap
        &&& self.running.len() + self.completed() == self.admitted
        &&& self.running.no_duplicates()
        &&& self.succeeded.no_duplicates()
        &&& self.failed.no_duplicates()
        &&& forall|k: int| 0 <= k < self.running.len() ==> #[trigger] self.running[k] < self.admitted
        &&& forall|k: int|
            0 <= k < self.succeeded.len() ==> #[trigger] self.succeeded[k] < self.admitted
        &&& forall|k: int| 0 <= k < self.failed.len() ==> #[trigger] self.failed[k] < self.admitted
        &&& forall|i: usize|
            i < self.admitted ==> #[trigger] self.is_running(i) || #[trigger] self.is_succeeded(i)
                || #[trigger] self.is_failed(i)
        &&& forall|i: usize| #[trigger] self.is_running(i) ==> !self.is_succeeded(i) && !self.is_failed(i)
        &&& forall|i: usize| #[trigger] self.is_succeeded(i) ==> !self.is_failed(i)
    }

    /// The decision rule: admit the next item in source order while a slot is
    /// free; otherwise wait while anything runs; otherwise finish.
    pub open spec fn next_action(self) -> Action {
        if self.admitted < self.items.len() && self.running.len() < self.cap {
            Action::Start(self.admitted as usize, self.items[self.admitted as int])
        } else if self.running.len() > 0 {
            Action::AwaitCompletion
        } else {
            Action::Finish
        }
    }

    /// The state after the next item is admitted.
    pub open spec fn start_next(self) -> SchedulerView {
        SchedulerView {
            admitted: self.admitted + 1,
            running: self.running.push(self.admitted as usize),
            ..self
        }
    }

    /// A unit succeeded when it returned its own item's identifier.
    pub open spec fn succeeds(self, index: usize, outcome: UnitOutcome) -> bool {
        match outcome {
            UnitOutcome::Succeeded(id) => id == self.items[index as int].id,
            UnitOutcome::Failed => false,
        }
    }

    /// The state after the unit at `index` finished with `outcome`: its slot is
    /// freed and it is recorded as a success or a failure.
    pub open spec fn retire(self, index: usize, outcome: UnitOutcome) -> SchedulerView {
        if self.succeeds(index, outcome) {
            SchedulerView {
                running: self.running.remove_value(index),
                succeeded: self.succeeded.push(index),
                ..self
            }
        } else {
            SchedulerView {
                running: self.running.remove_value(index),
                failed: self.failed.push(index),
                ..self
            }
        }
    }

    pub open spec fn aggregate(self) -> AggregateProgress {
        AggregateProgress {
            total_items: self.items.len() as u64,
            completed_items: self.completed() as u64,
            failed_items: self.failed.len() as u64,
        }
    }

    /// The identifiers of the units that succeeded.
    pub open spec fn succeeded_ids(self) -> Set<u128> {
        self.succeeded.to_set().map(|i: usize| self.items[i as int].id)
    }
}

/// The bounded scheduler.
pub struct Scheduler {
    items: Vec<WorkItem>,
    cap: usize,
    admitted: usize,
    running: Vec<usize>,
    succeeded: Vec<usize>,
    failed: Vec<usize>,
}

impl View for Scheduler {
    type V = SchedulerView;

    closed spec fn view(&self) -> SchedulerView {
        SchedulerView {
            items: self.items@,
            cap: self.cap as nat,
            admitted: self.admitted as nat,
            running: self.running@,
            succeeded: self.succeeded@,
            failed: self.failed@,
        }
    }
}

impl Scheduler {
    pub open spec fn wf(&self) -> bool {
        self@.wf()
    }

    /// A scheduler for `items` that runs at most `cap` units at once. A cap of
    /// zero is refused: no unit could ever run.
    pub fn new(items: Vec<WorkItem>, cap: usize) -> (r: Result<Scheduler, ConfigError>)
        ensures
            cap == 0 ==> r == Err::<Scheduler, ConfigError>(ConfigError::ZeroConcurrency),
            cap >= 1 ==> r is Ok,
            r matches Ok(s) ==> s.wf() && s@.items == items@ && s@.cap == cap && s@.admitted == 0
                && s@.running.len() == 0 && s@.succeeded.len() == 0 && s@.failed.len() == 0,
    {
        if cap == 0 {
            return Err(ConfigError::ZeroConcurrency);
        }
        let n = items.len();
        assert(n <= u64::MAX);
        let s = Scheduler {
            items,
            cap,
            admitted: 0,
            running: Vec::new(),
            succeeded: Vec::new(),
            failed: Vec::new(),
        };
        proof {
            assert forall|i: usize| #[trigger] s@.is_running(i) implies !s@.is_succeeded(i) && !s@.is_failed(i) by {
                assert(!s@.running.contains(i));
            }
            assert forall|i: usize| #[trigger] s@.is_succeeded(i) implies !s@.is_failed(i) by {
                assert(!s@.succeeded.contains(i));
            }
        }
        Ok(s)
    }

    /// Decides what the caller does next (see [`SchedulerView::next_action`]).
    /// On `Start` the unit is counted as running from now on.
    pub fn poll(&mut self) -> (a: Action)
        requires
            old(self).wf(),
        ensures
            final(self).wf(),
            a == old(self)@.next_action(),
            a is Start ==> final(self)@ == old(self)@.start_next(),
            !(a is Start) ==> final(self)@ == old(self)@,
    {
        if self.admitted < self.items.len() && self.running.len() < self.cap {
            proof {
                lemma_start_next_wf(self@);
            }
            let index = self.admitted;
            let item = self.items[index];
            self.running.push(index);
            self.admitted = index + 1;
            proof {
                assert(self@ =~= old(self)@.start_next());
            }
            Action::Start(index, item)
        } else if self.running.len() > 0 {
            Action::AwaitCompletion
        } else {
            Action::Finish
        }
    }

    /// Reports that the unit at `index` finished with `outcome`. Its slot is
    /// freed; it counts as a success only if it returned its own item's
    /// identifier, and as a failure otherwise. A unit that is not running is
    /// refused and nothing changes.
    pub fn complete(&mut self, index: usize, outcome: UnitOutcome) -> (r: Result<(), CompletionError>)
        requires
            old(self).wf(),
        ensures
            final(self).wf(),
            old(self)@.is_running(index) <==> r is Ok,
            r is Err ==> r == Err::<(), CompletionError>(CompletionError::NotRunning),
            r is Ok ==> final(self)@ == old(self)@.retire(index, outcome),
            r is Err ==> final(self)@ == old(self)@,
    {
        match position_of(&self.running, index) {
            None => Err(CompletionError::NotRunning),
            Some(k) => {
                proof {
                    assert(self@.is_running(index));
                    lemma_retire_wf(self@, index, outcome);
                    self.running@.index_of_first_ensures(index);
                    let p = self.running@.index_of_first(index).unwrap();
                    assert(p == k as int) by {
                        if p < k {
                            assert(self.running@[p] != index);
                        }
                        if k < p {
                            assert(self.running@[k as int] != index);
                        }
                    }
                }
                self.running.remove(k);
                let ok = match outcome {
                    UnitOutcome::Succeeded(id) => id == self.items[index].id,
                    UnitOutcome::Failed => false,
                };
                if ok {
                    self.succeeded.push(index);
                } else {
                    self.failed.push(index);
                }
                proof {
                    assert(self@ =~= old(self)@.retire(index, outcome));
                }
                Ok(())
            },
        }
    }

    /// The batch-wide counts.
    pub fn aggregate(&self) -> (r: AggregateProgress)
        requires
            self.wf(),
        ensures
            r == self@.aggregate(),
            r.total_items == self@.items.len(),
            r.completed_items == self@.completed(),
            r.failed_items == self@.failed.len(),
    {
        AggregateProgress {
            total_items: self.items.len() as u64,
            completed_items: (self.succeeded.len() + self.failed.len()) as u64,
            failed_items: self.failed.len() as u64,
        }
    }

    /// Indices of the failed units, in order of completion.
    pub fn failures(&self) -> (r: Vec<usize>)
        ensures
            r@ == self@.failed,
    {
        self.failed.clone()
    }

    /// Indices of the units that succeeded, in order of completion.
    pub fn successes(&self) -> (r: Vec<usize>)
        ensures
            r@ == self@.succeeded,
    {
        self.succeeded.clone()
    }

    /// Identifiers of the units that succeeded, in order of completion.
    pub fn succeeded_ids(&self) -> (r: Vec<u128>)
        requires
            self.wf(),
        ensures
            r@.len() == self@.succeeded.len(),
            forall|k: int| 0 <= k < r@.len() ==> #[trigger] r@[k] == self@.items[self@.succeeded[k] as int].id,
    {
        let mut r: Vec<u128> = Vec::new();
        let mut k: usize = 0;
        while k < self.succeeded.len()
            invariant
                self.wf(),
                k <= self@.succeeded.len(),
                r@.len() == k,
                forall|j: int| 0 <= j < k ==> #[trigger] r@[j] == self@.items[self@.succeeded[j] as int].id,
            decreases self@.succeeded.len() - k,
        {
            let i = self.succeeded[k];
            assert(self@.succeeded[k as int] < self@.admitted);
            r.push(self.items[i].id);
            k = k + 1;
        }
        r
    }

    /// The item at `index` in the batch.
    pub fn item(&self, index: usize) -> (r: WorkItem)
        requires
            index < self@.items.len(),
        ensures
            r == self@.items[index as int],
    {
        self.items[index]
    }

    /// How many units hold a slot now.
    pub fn running_count(&self) -> (r: usize)
        ensures
            r == self@.running.len(),
    {
        self.running.len()
    }

    /// The running unit that was admitted first, if any unit runs.
    pub fn oldest_running(&self) -> (r: Option<usize>)
        ensures
            self@.running.len() == 0 <==> r is None,
            r matches Some(i) ==> i == self@.running[0],
    {
        if self.running.len() == 0 {
            None
        } else {
            Some(self.running[0])
        }
    }

    /// The concurrency cap.
    pub fn cap(&self) -> (r: usize)
        ensures
            r == self@.cap,
    {
        self.cap
    }

    /// The number of items in the batch.
    pub fn total_items(&self) -> (r: usize)
        ensures
            r == self@.items.len(),
    {
        self.items.len()
    }
}

/// The first position of `x` in `v`, if any.
pub(crate) fn position_of(v: &Vec<usize>, x: usize) -> (r: Option<usize>)
    ensures
        match r {
            Some(k) => k < v@.len() && v@[k as int] == x && forall|j: int|
                0 <= j < k ==> v@[j] != x,
            None => !v@.contains(x),
        },
{
    let mut k: usize = 0;
    while k < v.len()
        invariant
            k <= v@.len(),
            forall|j: int| 0 <= j < k ==> v@[j] != x,
        decreases v@.len() - k,
    {
        if v[k] == x {
            return Some(k);
        }
        k = k + 1;
    }
    None
}

/// The concurrency cap is never exceeded: a well-formed state runs at most
/// `cap` units, a unit is started only while a slot is free, starting a unit
/// leads to a well-formed state again, and so does retiring one, whatever its
/// outcome, which frees exactly its own slot.
pub proof fn lemma_cap_never_exceeded(v: SchedulerView, index: usize, outcome: UnitOutcome)
    requires
        v.wf(),
    ensures
        v.running.len() <= v.cap,
        v.next_action() is Start ==> v.running.len() < v.cap && v.start_next().wf()
            && v.start_next().running.len() <= v.cap,
        v.is_running(index) ==> v.retire(index, outcome).wf() && v.retire(index, outcome).running.len()
            + 1 == v.running.len() && !v.retire(index, outcome).is_running(index),
{
    if v.next_action() is Start {
        lemma_start_next_wf(v);
    }
    if v.is_running(index) {
        lemma_retire_wf(v, index, outcome);
    }
}

/// Completions are counted one at a time and never overshoot: retiring a unit
/// raises the completed count by exactly one, starting one leaves it as it is,
/// the count never exceeds the total, and it equals the total exactly when the
/// batch is over.
pub proof fn lemma_completion_count(v: SchedulerView, index: usize, outcome: UnitOutcome)
    requires
        v.wf(),
    ensures
        v.completed() <= v.items.len(),
        v.is_running(index) ==> v.retire(index, outcome).completed() == v.completed() + 1,
        v.next_action() is Start ==> v.start_next().completed() == v.completed(),
        v.completed() == v.items.len() <==> v.next_action() == Action::Finish,
{
    if v.is_running(index) {
        lemma_retire_wf(v, index, outcome);
    }
}

/// When the batch is over every item has been started and has ended exactly
/// once, as a success or as a failure, and the aggregate count equals the total.
pub proof fn lemma_finished_batch(v: SchedulerView)
    requires
        v.wf(),
        v.next_action() == Action::Finish,
    ensures
        v.admitted == v.items.len(),
        v.running.len() == 0,
        v.aggregate().completed_items == v.aggregate().total_items,
        forall|i: usize| i < v.items.len() ==> (v.is_succeeded(i) != v.is_failed(i)),
        forall|i: usize| #[trigger] v.is_succeeded(i) ==> i < v.items.len(),
        forall|i: usize| #[trigger] v.is_failed(i) ==> i < v.items.len(),
{
    assert forall|i: usize| i < v.items.len() implies (v.is_succeeded(i) != v.is_failed(i)) by {
        assert(v.is_running(i) || v.is_succeeded(i) || v.is_failed(i));
        if v.is_running(i) {
            let k = choose|k: int| 0 <= k < v.running.len() && v.running[k] == i;
        }
    }
    assert forall|i: usize| #[trigger] v.is_succeeded(i) implies i < v.items.len() by {
        let k = choose|k: int| 0 <= k < v.succeeded.len() && v.succeeded[k] == i;
        assert(v.succeeded[k] < v.admitted);
    }
    assert forall|i: usize| #[trigger] v.is_failed(i) implies i < v.items.len() by {
        let k = choose|k: int| 0 <= k < v.failed.len() && v.failed[k] == i;
        assert(v.failed[k] < v.admitted);
    }
}

/// Two finished runs of the same batch whose units fail on the same items (a
/// deterministic workload) end with the same aggregate progress, the same sets
/// of succeeded and failed items and the same set of succeeded identifiers,
/// whatever order their units completed in.
pub proof fn lemma_same_outcome(v1: SchedulerView, v2: SchedulerView)
    requires
        v1.wf(),
        v2.wf(),
        v1.next_action() == Action::Finish,
        v2.next_action() == Action::Finish,
        v1.items == v2.items,
        forall|i: usize| i < v1.items.len() ==> (v1.is_failed(i) <==> v2.is_failed(i)),
    ensures
        v1.aggregate() == v2.aggregate(),
        v1.failed.to_set() == v2.failed.to_set(),
        v1.succeeded.to_set() == v2.succeeded.to_set(),
        v1.succeeded_ids() == v2.succeeded_ids(),
{
    lemma_finished_batch(v1);
    lemma_finished_batch(v2);
    assert forall|i: usize| v1.failed.to_set().contains(i) <==> v2.failed.to_set().contains(i) by {
        if v1.is_failed(i) || v2.is_failed(i) {
            assert(i < v1.items.len());
        }
    }
    assert(v1.failed.to_set() =~= v2.failed.to_set());
    assert forall|i: usize| v1.succeeded.to_set().contains(i) <==> v2.succeeded.to_set().contains(i) by {
        if v1.is_succeeded(i) || v2.is_succeeded(i) {
            assert(i < v1.items.len());
        }
    }
    assert(v1.succeeded.to_set() =~= v2.succeeded.to_set());
    v1.failed.unique_seq_to_set();
    v2.failed.unique_seq_to_set();
}

/// A list whose entries all lie below `bound` does not hold `bound` itself.
proof fn lemma_bound_not_contained(s: Seq<usize>, bound: nat)
    requires
        bound <= usize::MAX,
        forall|k: int| 0 <= k < s.len() ==> #[trigger] s[k] < bound,
    ensures
        !s.contains(bound as usize),
{
    if s.contains(bound as usize) {
        let k = choose|k: int| 0 <= k < s.len() && s[k] == bound as usize;
        assert(s[k] < bound);
    }
}

/// Pushing a new entry onto a duplicate-free list of indices below `bound`
/// keeps it duplicate-free, adds exactly that entry, and keeps every entry
/// below `new_bound`.
proof fn lemma_push_fresh(s: Seq<usize>, x: usize, bound: nat, new_bound: nat)
    requires
        s.no_duplicates(),
        !s.contains(x),
        bound <= new_bound,
        x < new_bound,
        forall|k: int| 0 <= k < s.len() ==> #[trigger] s[k] < bound,
    ensures
        s.push(x).no_duplicates(),
        forall|i: usize| #[trigger] s.push(x).contains(i) <==> s.contains(i) || i == x,
        forall|k: int| 0 <= k < s.push(x).len() ==> #[trigger] s.push(x)[k] < new_bound,
{
    let t = s.push(x);
    assert forall|i: usize| #[trigger] t.contains(i) <==> s.contains(i) || i == x by {
        if t.contains(i) {
            let k = choose|k: int| 0 <= k < t.len() && t[k] == i;
            if k < s.len() {
                assert(s[k] == i);
            }
        }
        if s.contains(i) {
            let k = choose|k: int| 0 <= k < s.len() && s[k] == i;
            assert(t[k] == i);
        }
        if i == x {
            assert(t[s.len() as int] == i);
        }
    }
    assert forall|k: int| 0 <= k < t.len() implies #[trigger] t[k] < new_bound by {
        if k < s.len() {
            assert(t[k] == s[k]);
        }
    }
    assert forall|j: int, k: int| 0 <= j < t.len() && 0 <= k < t.len() && j != k implies t[j] != t[k] by {
        if j < s.len() && k < s.len() {
            assert(s[j] != s[k]);
        } else if j < s.len() {
            assert(s.contains(s[j]));
        } else {
            assert(s.contains(s[k]));
        }
    }
}

/// Removing the first occurrence of `x` from a duplicate-free list keeps it
/// duplicate-free, removes exactly `x`, and keeps every entry below `bound`.
proof fn lemma_remove_present(s: Seq<usize>, x: usize, bound: nat)
    requires
        s.no_duplicates(),
        s.contains(x),
        forall|k: int| 0 <= k < s.len() ==> #[trigger] s[k] < bound,
    ensures
        s.remove_value(x).len() + 1 == s.len(),
        s.remove_value(x).no_duplicates(),
        forall|i: usize| #[trigger] s.remove_value(x).contains(i) <==> s.contains(i) && i != x,
        forall|k: int| 0 <= k < s.remove_value(x).len() ==> #[trigger] s.remove_value(x)[k] < bound,
{
    s.index_of_first_ensures(x);
    let p = s.index_of_first(x).unwrap();
    let t = s.remove_value(x);
    assert(t == s.remove(p));
    s.remove_ensures(p);
    assert forall|i: usize| #[trigger] t.contains(i) <==> s.contains(i) && i != x by {
        if t.contains(i) {
            let k = choose|k: int| 0 <= k < t.len() && t[k] == i;
            if k < p {
                assert(s[k] == i);
            } else {
                assert(s[k + 1] == i);
            }
        }
        if s.contains(i) && i != x {
            let k = choose|k: int| 0 <= k < s.len() && s[k] == i;
            if k < p {
                assert(t[k] == i);
            } else {
                assert(k != p);
                assert(t[k - 1] == i);
            }
        }
    }
    assert forall|k: int| 0 <= k < t.len() implies #[trigger] t[k] < bound by {
        if k < p {
            assert(t[k] == s[k]);
        } else {
            assert(t[k] == s[k + 1]);
        }
    }
    assert forall|j: int, k: int| 0 <= j < t.len() && 0 <= k < t.len() && j != k implies t[j] != t[k] by {
        let jj = if j < p { j } else { j + 1 };
        let kk = if k < p { k } else { k + 1 };
        assert(t[j] == s[jj]);
        assert(t[k] == s[kk]);
    }
}

/// Admitting the next item keeps the scheduler's invariant.
proof fn lemma_start_next_wf(v: SchedulerView)
    requires
        v.wf(),
        v.next_action() is Start,
    ensures
        v.start_next().wf(),
{
    let w = v.start_next();
    let a = v.admitted as usize;
    lemma_bound_not_contained(v.running, v.admitted);
    lemma_bound_not_contained(v.succeeded, v.admitted);
    lemma_bound_not_contained(v.failed, v.admitted);
    lemma_push_fresh(v.running, a, v.admitted, w.admitted);
    assert forall|k: int| 0 <= k < w.succeeded.len() implies #[trigger] w.succeeded[k] < w.admitted by {
        assert(v.succeeded[k] < v.admitted);
    }
    assert forall|k: int| 0 <= k < w.failed.len() implies #[trigger] w.failed[k] < w.admitted by {
        assert(v.failed[k] < v.admitted);
    }
    assert forall|i: usize| i < w.admitted implies #[trigger] w.is_running(i) || #[trigger] w.is_succeeded(i)
        || #[trigger] w.is_failed(i) by {
        if i < v.admitted {
            assert(v.is_running(i) || v.is_succeeded(i) || v.is_failed(i));
        }
    }
    assert forall|i: usize| #[trigger] w.is_succeeded(i) implies !w.is_failed(i) by {
        assert(v.is_succeeded(i));
    }
    assert forall|i: usize| #[trigger] w.is_running(i) implies !w.is_succeeded(i) && !w.is_failed(i) by {
        assert(v.is_succeeded(i) == w.is_succeeded(i));
        assert(v.is_failed(i) == w.is_failed(i));
        if i != a {
            assert(v.is_running(i));
        }
    }
}

/// Retiring a running unit keeps the scheduler's invariant.
proof fn lemma_retire_wf(v: SchedulerView, index: usize, outcome: UnitOutcome)
    requires
        v.wf(),
        v.running.contains(index),
    ensures
        v.retire(index, outcome).wf(),
        v.retire(index, outcome).running.len() + 1 == v.running.len(),
        v.retire(index, outcome).completed() == v.completed() + 1,
        forall|i: usize| #[trigger] v.retire(index, outcome).is_running(i) <==> v.is_running(i) && i != index,
{
    let w = v.retire(index, outcome);
    assert(v.is_running(index));
    assert(!v.is_succeeded(index) && !v.is_failed(index));
    assert(v.running[v.running.index_of(index)] < v.admitted);
    lemma_remove_present(v.running, index, v.admitted);
    if v.succeeds(index, outcome) {
        lemma_push_fresh(v.succeeded, index, v.admitted, v.admitted);
    } else {
        lemma_push_fresh(v.failed, index, v.admitted, v.admitted);
    }
    assert forall|i: usize| #[trigger] w.is_running(i) <==> v.is_running(i) && i != index by {}
    assert forall|k: int| 0 <= k < w.succeeded.len() implies #[trigger] w.succeeded[k] < w.admitted by {
        if !v.succeeds(index, outcome) {
            assert(v.succeeded[k] < v.admitted);
        }
    }
    assert forall|k: int| 0 <= k < w.failed.len() implies #[trigger] w.failed[k] < w.admitted by {
        if v.succeeds(index, outcome) {
            assert(v.failed[k] < v.admitted);
        }
    }
    assert forall|i: usize| i < w.admitted implies #[trigger] w.is_running(i) || #[trigger] w.is_succeeded(i)
        || #[trigger] w.is_failed(i) by {
        assert(v.is_running(i) || v.is_succeeded(i) || v.is_failed(i));
    }
    assert forall|i: usize| #[trigger] w.is_succeeded(i) implies !w.is_failed(i) by {
        assert(w.is_succeeded(i) ==> v.is_succeeded(i) || i == index);
        assert(w.is_failed(i) ==> v.is_failed(i) || i == index);
    }
    assert forall|i: usize| #[trigger] w.is_running(i) implies !w.is_succeeded(i) && !w.is_failed(i) by {
        assert(v.is_running(i));
    }
}

} // verus!
