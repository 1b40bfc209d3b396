//! Global in-flight concurrency counter.
//!
//! A single process-wide counter bounds the number of requests executing
//! past admission control. Entry succeeds only below the ceiling; a request
//! that cannot enter waits and retries rather than failing. The slot is
//! released exactly once on every exit path, whatever the outcome.

use vstd::prelude::*;

verus! {

/// Bounded counter of simultaneously executing requests.
pub struct InFlightCounter {
    active: u64,
    ceiling: u64,
}

impl InFlightCounter {
    /// Number of requests currently holding a slot.
    pub closed spec fn spec_active(self) -> u64 {
        self.active
    }

    /// The fixed maximum number of simultaneous requests.
    pub closed spec fn spec_ceiling(self) -> u64 {
        self.ceiling
    }

    /// Structural invariant: the count never exceeds the ceiling.
    pub open spec fn wf(self) -> bool {
        self.spec_active() <= self.spec_ceiling() && self.spec_ceiling() >= 1
    }

    /// Creates an idle counter with the given ceiling.
    pub fn new(ceiling: u64) -> (r: InFlightCounter)
        requires
            ceiling >= 1,
        ensures
            r.wf(),
            r.spec_active() == 0,
            r.spec_ceiling() == ceiling,
    {
        InFlightCounter { active: 0, ceiling }
    }

    /// Number of requests currently holding a slot.
    pub fn active(&self) -> (r: u64)
        ensures
            r == self.spec_active(),
    {
        self.active
    }

    /// The fixed maximum number of simultaneous requests.
    pub fn ceiling(&self) -> (r: u64)
        ensures
            r == self.spec_ceiling(),
    {
        self.ceiling
    }

    /// Takes a slot if one is free. Succeeds exactly when the count is
    /// below the ceiling; a caller that is refused must wait and retry.
    pub fn try_enter(&mut self) -> (entered: bool)
        requires
            old(self).wf(),
        ensures
            final(self).wf(),
            final(self).spec_ceiling() == old(self).spec_ceiling(),
            entered == (old(self).spec_active() < old(self).spec_ceiling()),
            entered ==> final(self).spec_active() == old(self).spec_active() + 1,
            !entered ==> final(self).spec_active() == old(self).spec_active(),
    {
        if self.active < self.ceiling {
            self.active = self.active + 1;
            true
        } else {
            false
        }
    }

    /// Releases one slot. Callers release exactly once per successful
    /// entry, on every exit path.
    pub fn exit(&mut self)
        requires
            old(self).wf(),
            old(self).spec_active() >= 1,
        ensures
            final(self).wf(),
            final(self).spec_ceiling() == old(self).spec_ceiling(),
            final(self).spec_active() == old(self).spec_active() - 1,
    {
        self.active = self.active - 1;
    }
}

/// One event at the concurrency limiter: a request trying to take a slot, or
/// a finished request giving its slot back.
pub enum SlotOp {
    Enter,
    Exit,
}

/// The counter state reached by a run of entry and exit attempts on a counter
/// that begins at zero: the in-flight count, the number of successful
/// entries, and the number of exits. An entry at the ceiling is refused
/// (the request keeps waiting) and an exit without a held slot cannot
/// occur, so neither moves the count.
pub open spec fn counter_run(ops: Seq<SlotOp>, ceiling: u64) -> (int, int, int)
    decreases ops.len(),
{
    if ops.len() == 0 {
        (0, 0, 0)
    } else {
        let (c, e, x) = counter_run(ops.drop_last(), ceiling);
        match ops.last() {
            SlotOp::Enter => if c < ceiling {
                (c + 1, e + 1, x)
            } else {
                (c, e, x)
            },
            SlotOp::Exit => if c > 0 {
                (c - 1, e, x + 1)
            } else {
                (c, e, x)
            },
        }
    }
}

/// The in-flight count never leaves the band from zero to the ceiling,
/// however the events interleave, and it always equals successful entries
/// minus exits: every increment has exactly one matching decrement, so a
/// fully drained run (as many exits as successful entries) ends at zero.
pub proof fn lemma_counter_bounded_and_balanced(ops: Seq<SlotOp>, ceiling: u64)
    ensures
        0 <= counter_run(ops, ceiling).0 <= ceiling,
        counter_run(ops, ceiling).0 == counter_run(ops, ceiling).1 - counter_run(ops, ceiling).2,
    decreases ops.len(),
{
    if ops.len() > 0 {
        lemma_counter_bounded_and_balanced(ops.drop_last(), ceiling);
    }
}

/// Drain: once every successful entry has been matched by an exit, the
/// counter is back at zero — no slot leaks.
pub proof fn lemma_counter_drains_to_zero(ops: Seq<SlotOp>, ceiling: u64)
    requires
        counter_run(ops, ceiling).1 == counter_run(ops, ceiling).2,
    ensures
        counter_run(ops, ceiling).0 == 0,
{
    lemma_counter_bounded_and_balanced(ops, ceiling);
}

} // verus!
