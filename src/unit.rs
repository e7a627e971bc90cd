//! The progress of one work unit, as a state machine that emits indicator events.

use vstd::prelude::*;
use crate::item::WorkItem;

verus! {

/// Where a unit stands in its life: it moves forward only, once each.
#[derive(Clone, Copy, Debug, PartialEq, Eq)]
pub enum UnitStatus {
    Pending,
    Running,
    Done,
}

/// An event for the unit's own progress indicator.
#[derive(Clone, Copy, Debug, PartialEq, Eq)]
pub enum UnitEvent {
    /// Label the indicator with the unit's identifier.
    Begin,
    /// Perform one unit of work, then advance the indicator by one, to this position.
    Advance(u64),
    /// Give the indicator its terminal label and close it.
    Finish,
}

/// The advance events of the first `n` steps: positions 1 to `n`, in order.
pub open spec fn advances(n: nat) -> Seq<UnitEvent> {
    Seq::new(n, |i: int| UnitEvent::Advance((i + 1) as u64))
}

/// The position of a status in a unit's life.
pub open spec fn status_rank(s: UnitStatus) -> nat {
    match s {
        UnitStatus::Pending => 0,
        UnitStatus::Running => 1,
        UnitStatus::Done => 2,
    }
}

/// Every event that a unit of `total_steps` steps emits, in order.
pub open spec fn unit_trace(total_steps: u64) -> Seq<UnitEvent> {
    seq![UnitEvent::Begin] + advances(total_steps as nat) + seq![UnitEvent::Finish]
}

/// Progress of one work item; mutated only by the unit that runs it.
#[derive(Clone, Copy, Debug)]
pub struct ItemProgress {
    item_id: u128,
    completed_steps: u64,
    total_steps: u64,
    status: UnitStatus,
}

impl ItemProgress {
    pub closed spec fn spec_item_id(&self) -> u128 {
        self.item_id
    }

    pub closed spec fn spec_completed_steps(&self) -> u64 {
        self.completed_steps
    }

    pub closed spec fn spec_total_steps(&self) -> u64 {
        self.total_steps
    }

    pub closed spec fn spec_status(&self) -> UnitStatus {
        self.status
    }

    /// Steps stay within the total; a pending unit has done nothing, a finished one everything.
    pub open spec fn wf(&self) -> bool {
        &&& self.spec_completed_steps() <= self.spec_total_steps()
        &&& self.spec_status() == UnitStatus::Pending ==> self.spec_completed_steps() == 0
        &&& self.spec_status() == UnitStatus::Done ==> self.spec_completed_steps()
            == self.spec_total_steps()
    }

    /// The events emitted so far.
    pub open spec fn events(&self) -> Seq<UnitEvent> {
        match self.spec_status() {
            UnitStatus::Pending => seq![],
            UnitStatus::Running => seq![UnitEvent::Begin] + advances(
                self.spec_completed_steps() as nat,
            ),
            UnitStatus::Done => unit_trace(self.spec_total_steps()),
        }
    }

    /// The event that the next step emits, if the unit is not done.
    pub open spec fn next_event(&self) -> Option<UnitEvent> {
        match self.spec_status() {
            UnitStatus::Pending => Some(UnitEvent::Begin),
            UnitStatus::Running => if self.spec_completed_steps() < self.spec_total_steps() {
                Some(UnitEvent::Advance((self.spec_completed_steps() + 1) as u64))
            } else {
                Some(UnitEvent::Finish)
            },
            UnitStatus::Done => None,
        }
    }

    /// How many steps remain before the unit is done.
    pub open spec fn remaining(&self) -> nat {
        match self.spec_status() {
            UnitStatus::Pending => self.spec_total_steps() as nat + 2,
            UnitStatus::Running => (self.spec_total_steps() - self.spec_completed_steps()) as nat + 1,
            UnitStatus::Done => 0,
        }
    }

    /// A pending unit for `item`.
    pub fn new(item: WorkItem) -> (r: ItemProgress)
        ensures
            r.wf(),
            r.spec_item_id() == item.id,
            r.spec_total_steps() == item.total_steps,
            r.spec_completed_steps() == 0,
            r.spec_status() == UnitStatus::Pending,
            r.events() == Seq::<UnitEvent>::empty(),
    {
        ItemProgress { item_id: item.id, completed_steps: 0, total_steps: item.total_steps, status: UnitStatus::Pending }
    }

    /// Moves the unit one step forward and returns the event to emit, or `None`
    /// once the unit is done (nothing changes then).
    pub fn step(&mut self) -> (e: Option<UnitEvent>)
        requires
            old(self).wf(),
        ensures
            final(self).wf(),
            e == old(self).next_event(),
            final(self).spec_item_id() == old(self).spec_item_id(),
            final(self).spec_total_steps() == old(self).spec_total_steps(),
            final(self).spec_completed_steps() >= old(self).spec_completed_steps(),
            status_rank(final(self).spec_status()) >= status_rank(old(self).spec_status()),
            match e {
                Some(ev) => final(self).events() == old(self).events().push(ev)
                    && final(self).remaining() + 1 == old(self).remaining(),
                None => *final(self) == *old(self),
            },
    {
        match self.status {
            UnitStatus::Pending => {
                self.status = UnitStatus::Running;
                proof {
                    assert(self.events() =~= seq![UnitEvent::Begin]);
                }
                Some(UnitEvent::Begin)
            },
            UnitStatus::Running => {
                if self.completed_steps < self.total_steps {
                    let ghost before = self.events();
                    self.completed_steps = self.completed_steps + 1;
                    let ev = UnitEvent::Advance(self.completed_steps);
                    proof {
                        assert(self.events() =~= before.push(ev));
                    }
                    Some(ev)
                } else {
                    let ghost before = self.events();
                    self.status = UnitStatus::Done;
                    proof {
                        assert(self.events() =~= before.push(UnitEvent::Finish));
                    }
                    Some(UnitEvent::Finish)
                }
            },
            UnitStatus::Done => None,
        }
    }

    pub fn item_id(&self) -> (r: u128)
        ensures
            r == self.spec_item_id(),
    {
        self.item_id
    }

    pub fn completed_steps(&self) -> (r: u64)
        ensures
            r == self.spec_completed_steps(),
    {
        self.completed_steps
    }

    pub fn total_steps(&self) -> (r: u64)
        ensures
            r == self.spec_total_steps(),
    {
        self.total_steps
    }

    pub fn status(&self) -> (r: UnitStatus)
        ensures
            r == self.spec_status(),
    {
        self.status
    }
}

/// A unit's full trace is its start label, then exactly `total_steps` advances
/// of one position each in increasing order, then its terminal event, which
/// comes last.
pub proof fn lemma_unit_trace(total_steps: u64)
    ensures
        unit_trace(total_steps).len() == total_steps + 2,
        unit_trace(total_steps)[0] == UnitEvent::Begin,
        unit_trace(total_steps).last() == UnitEvent::Finish,
        forall|k: int|
            1 <= k <= total_steps ==> #[trigger] unit_trace(total_steps)[k] == UnitEvent::Advance(
                k as u64,
            ),
        forall|k: int|
            0 <= k < unit_trace(total_steps).len() && (#[trigger] unit_trace(total_steps)[k]) is Advance
                ==> 1 <= k <= total_steps,
{
    let t = unit_trace(total_steps);
    assert forall|k: int| 1 <= k <= total_steps implies #[trigger] t[k] == UnitEvent::Advance(k as u64) by {
        assert(t[k] == advances(total_steps as nat)[k - 1]);
    }
}

/// Driving a fresh unit by `step` until it reports `None` emits exactly its full trace.
pub fn run_unit(item: WorkItem) -> (r: (ItemProgress, Vec<UnitEvent>))
    ensures
        r.0.wf(),
        r.0.spec_status() == UnitStatus::Done,
        r.0.spec_item_id() == item.id,
        r.0.spec_completed_steps() == item.total_steps,
        r.1@ == unit_trace(item.total_steps),
{
    let mut p = ItemProgress::new(item);
    let mut out: Vec<UnitEvent> = Vec::new();
    loop
        invariant
            p.wf(),
            p.spec_item_id() == item.id,
            p.spec_total_steps() == item.total_steps,
            out@ == p.events(),
        ensures
            p.wf(),
            p.spec_item_id() == item.id,
            p.spec_total_steps() == item.total_steps,
            p.spec_status() == UnitStatus::Done,
            out@ == p.events(),
        decreases p.remaining(),
    {
        match p.step() {
            Some(ev) => out.push(ev),
            None => break,
        }
    }
    (p, out)
}

} // verus!
