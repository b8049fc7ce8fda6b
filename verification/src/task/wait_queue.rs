//! Wait queues and completions.
//!
//! A wait queue is the FIFO of tasks blocked on it; waking takes tasks from
//! its front. A completion is a counter of completion tokens, or a
//! complete-all state that satisfies every wait until it is reinitialised.
//! Blocking itself belongs to the scheduler loop: the functions here decide
//! what a waiter does next from what it observed.
use vstd::prelude::*;

use super::TaskId;
use crate::time::{deadline_reached, deadline_reached_spec, MonotonicInstant};

verus! {

/// The counter value that marks a completion completed for all waiters.
pub const COMPLETION_ALL: usize = 0x3fff_ffff;

#[derive(Clone, Copy, Debug, PartialEq, Eq, Structural)]
pub enum WaitOutcome {
    Satisfied,
    TimedOut,
}

/// What a waiter does next.
#[derive(Clone, Copy, Debug, PartialEq, Eq, Structural)]
pub enum WaitStep {
    /// Stop waiting with this outcome.
    Finish(WaitOutcome),
    /// Block on the queue until woken, then decide again.
    Block,
}

/// The FIFO of tasks blocked on one wait channel.
pub struct WaitQueue {
    waiters: Vec<TaskId>,
}

impl WaitQueue {
    /// The blocked tasks, oldest first.
    pub closed spec fn spec_waiters(&self) -> Seq<TaskId> {
        self.waiters@
    }

    /// No task waits twice on one queue.
    pub open spec fn wf(&self) -> bool {
        self.spec_waiters().no_duplicates()
    }

    pub fn new() -> (queue: Self)
        ensures
            queue.wf(),
            queue.spec_waiters() == Seq::<TaskId>::empty(),
    {
        WaitQueue { waiters: Vec::new() }
    }

    /// Whether `task` is blocked on this queue.
    pub fn contains(&self, task: TaskId) -> (found: bool)
        ensures
            found == self.spec_waiters().contains(task),
    {
        let mut i: usize = 0;
        while i < self.waiters.len()
            invariant
                i <= self.waiters@.len(),
                forall|k: int| 0 <= k < i ==> self.waiters@[k] != task,
            decreases self.waiters@.len() - i,
        {
            if self.waiters[i] == task {
                return true;
            }
            i = i + 1;
        }
        false
    }

    /// Puts `task` at the back of the queue.
    pub fn enqueue(&mut self, task: TaskId)
        requires
            old(self).wf(),
            !old(self).spec_waiters().contains(task),
        ensures
            final(self).wf(),
            final(self).spec_waiters() == old(self).spec_waiters().push(task),
    {
        self.waiters.push(task);
    }

    /// Takes `task` off the queue wherever it stands (a timed-out waiter);
    /// returns whether it was there.
    pub fn remove(&mut self, task: TaskId) -> (removed: bool)
        requires
            old(self).wf(),
        ensures
            final(self).wf(),
            removed == old(self).spec_waiters().contains(task),
            removed ==> exists|i: int| 0 <= i < old(self).spec_waiters().len()
                && old(self).spec_waiters()[i] == task
                && final(self).spec_waiters() == old(self).spec_waiters().remove(i),
            !removed ==> final(self).spec_waiters() == old(self).spec_waiters(),
    {
        let mut i: usize = 0;
        while i < self.waiters.len()
            invariant
                i <= self.waiters@.len(),
                self.waiters@ == old(self).waiters@,
                old(self).wf(),
                forall|k: int| 0 <= k < i ==> self.waiters@[k] != task,
            decreases self.waiters@.len() - i,
        {
            if self.waiters[i] == task {
                let ghost before = self.waiters@;
                self.waiters.remove(i);
                proof {
                    assert forall|a: int, b: int| 0 <= a < b < self.waiters@.len()
                        implies self.waiters@[a] != self.waiters@[b] by {
                        let a0 = if a < i { a } else { a + 1 };
                        let b0 = if b < i { b } else { b + 1 };
                        assert(self.waiters@[a] == before[a0]);
                        assert(self.waiters@[b] == before[b0]);
                        assert(before[a0] != before[b0]);
                    }
                }
                return true;
            }
            i = i + 1;
        }
        false
    }

    /// Wakes up to `limit` tasks from the front of the queue and returns them
    /// in queue order.
    pub fn wake(&mut self, limit: usize) -> (woken: Vec<TaskId>)
        requires
            old(self).wf(),
        ensures
            final(self).wf(),
            woken@.len() == (if limit < old(self).spec_waiters().len() { limit as int } else { old(self).spec_waiters().len() as int }),
            woken@ == old(self).spec_waiters().take(woken@.len() as int),
            final(self).spec_waiters() == old(self).spec_waiters().skip(woken@.len() as int),
    {
        let count = if limit < self.waiters.len() { limit } else { self.waiters.len() };
        let mut woken: Vec<TaskId> = Vec::new();
        let mut rest: Vec<TaskId> = Vec::new();
        let mut i: usize = 0;
        while i < self.waiters.len()
            invariant
                count <= self.waiters@.len(),
                i <= self.waiters@.len(),
                self.waiters@ == old(self).waiters@,
                woken@ == self.waiters@.take(if i < count { i as int } else { count as int }),
                rest@ == (if i < count { Seq::<TaskId>::empty() } else { self.waiters@.subrange(count as int, i as int) }),
            decreases self.waiters@.len() - i,
        {
            if i < count {
                woken.push(self.waiters[i]);
                proof {
                    assert(woken@ =~= self.waiters@.take(i + 1));
                }
            } else {
                rest.push(self.waiters[i]);
                proof {
                    assert(rest@ =~= self.waiters@.subrange(count as int, i + 1));
                }
            }
            i = i + 1;
        }
        proof {
            assert(rest@ =~= old(self).waiters@.skip(count as int));
        }
        self.waiters = rest;
        woken
    }

    /// Wakes the oldest waiter; returns how many were woken (0 or 1).
    pub fn wake_one(&mut self) -> (count: usize)
        requires
            old(self).wf(),
        ensures
            final(self).wf(),
            count == (if old(self).spec_waiters().len() == 0 { 0int } else { 1int }),
            final(self).spec_waiters() == old(self).spec_waiters().skip(count as int),
    {
        let woken = self.wake(1);
        woken.len()
    }

    /// Wakes every waiter; returns how many were woken.
    pub fn wake_all(&mut self) -> (count: usize)
        requires
            old(self).wf(),
        ensures
            final(self).wf(),
            count == old(self).spec_waiters().len(),
            final(self).spec_waiters() == Seq::<TaskId>::empty(),
    {
        let length = self.waiters.len();
        let woken = self.wake(length);
        proof {
            assert(self.spec_waiters() =~= Seq::<TaskId>::empty());
        }
        woken.len()
    }

    pub fn waiter_count(&self) -> (count: usize)
        ensures
            count == self.spec_waiters().len(),
    {
        self.waiters.len()
    }

    /// `wait_until`: done once the condition holds, else block and look again.
    pub fn wait_until(&self, condition_holds: bool) -> (step: WaitStep)
        ensures
            step == (if condition_holds { WaitStep::Finish(WaitOutcome::Satisfied) } else { WaitStep::Block }),
    {
        if condition_holds {
            WaitStep::Finish(WaitOutcome::Satisfied)
        } else {
            WaitStep::Block
        }
    }

    /// `wait_until_deadline`: the condition wins over the deadline, also when
    /// both hold at once; a waiter whose timeout fired stops with `TimedOut`.
    pub fn wait_until_deadline(&self, condition_holds: bool, now: MonotonicInstant, deadline: MonotonicInstant,
        timeout_fired: bool) -> (step: WaitStep)
        ensures
            step == (if condition_holds {
                WaitStep::Finish(WaitOutcome::Satisfied)
            } else if timeout_fired || deadline_reached_spec(now.0, deadline.0) {
                WaitStep::Finish(WaitOutcome::TimedOut)
            } else {
                WaitStep::Block
            }),
    {
        if condition_holds {
            WaitStep::Finish(WaitOutcome::Satisfied)
        } else if timeout_fired || deadline_reached(now, deadline) {
            WaitStep::Finish(WaitOutcome::TimedOut)
        } else {
            WaitStep::Block
        }
    }
}

/// A completion: a count of tokens, or `COMPLETION_ALL` once completed for all.
pub struct Completion {
    done: usize,
    waiters: WaitQueue,
}

impl Completion {
    pub closed spec fn spec_done(&self) -> usize {
        self.done
    }

    pub closed spec fn spec_queue(&self) -> WaitQueue {
        self.waiters
    }

    pub open spec fn wf(&self) -> bool {
        &&& self.spec_done() <= COMPLETION_ALL
        &&& self.spec_queue().wf()
    }

    pub fn new() -> (completion: Self)
        ensures
            completion.wf(),
            completion.spec_done() == 0,
            completion.spec_queue().spec_waiters() == Seq::<TaskId>::empty(),
    {
        Completion { done: 0, waiters: WaitQueue::new() }
    }

    /// Takes one token if there is one; always succeeds once completed for all.
    pub fn try_wait(&mut self) -> (taken: bool)
        requires
            old(self).wf(),
        ensures
            final(self).wf(),
            final(self).spec_queue() == old(self).spec_queue(),
            taken == (old(self).spec_done() != 0),
            final(self).spec_done() == (if old(self).spec_done() == 0 || old(self).spec_done() == COMPLETION_ALL {
                old(self).spec_done() as int
            } else {
                old(self).spec_done() - 1
            }),
    {
        if self.done == 0 {
            return false;
        }
        if self.done == COMPLETION_ALL {
            return true;
        }
        self.done = self.done - 1;
        true
    }

    /// Adds one token and wakes one waiter. The counter may not reach the
    /// complete-all value: that is a token overflow.
    pub fn complete(&mut self) -> (woken: usize)
        requires
            old(self).wf(),
            old(self).spec_done() == COMPLETION_ALL || old(self).spec_done() + 1 < COMPLETION_ALL,
        ensures
            final(self).wf(),
            final(self).spec_done() == (if old(self).spec_done() == COMPLETION_ALL {
                COMPLETION_ALL as int
            } else {
                old(self).spec_done() + 1
            }),
            woken == (if old(self).spec_queue().spec_waiters().len() == 0 { 0int } else { 1int }),
            final(self).spec_queue().spec_waiters() == old(self).spec_queue().spec_waiters().skip(woken as int),
    {
        if self.done != COMPLETION_ALL {
            self.done = self.done + 1;
        }
        self.waiters.wake_one()
    }

    /// Completes for every present and future waiter and wakes them all.
    pub fn complete_all(&mut self) -> (woken: usize)
        requires
            old(self).wf(),
        ensures
            final(self).wf(),
            final(self).spec_done() == COMPLETION_ALL,
            woken == old(self).spec_queue().spec_waiters().len(),
            final(self).spec_queue().spec_waiters() == Seq::<TaskId>::empty(),
    {
        self.done = COMPLETION_ALL;
        self.waiters.wake_all()
    }

    /// Back to no tokens; only a completion nobody waits on may be
    /// reinitialised.
    pub fn reinit(&mut self)
        requires
            old(self).wf(),
            old(self).spec_queue().spec_waiters().len() == 0,
        ensures
            final(self).wf(),
            final(self).spec_done() == 0,
            final(self).spec_queue() == old(self).spec_queue(),
    {
        self.done = 0;
    }

    pub fn is_done(&self) -> (done: bool)
        ensures
            done == (self.spec_done() != 0),
    {
        self.done != 0
    }

    /// The queue that waiters block on.
    pub fn wait_queue(&mut self) -> (queue: &mut WaitQueue)
        ensures
            *queue == old(self).spec_queue(),
            final(self).spec_done() == old(self).spec_done(),
            final(self).spec_queue() == *final(queue),
    {
        &mut self.waiters
    }

    /// `wait`: take a token when one is there, else block and try again.
    pub fn wait(&mut self) -> (step: WaitStep)
        requires
            old(self).wf(),
        ensures
            final(self).wf(),
            final(self).spec_queue() == old(self).spec_queue(),
            step == (if old(self).spec_done() != 0 { WaitStep::Finish(WaitOutcome::Satisfied) } else { WaitStep::Block }),
            final(self).spec_done() == (if old(self).spec_done() == 0 || old(self).spec_done() == COMPLETION_ALL {
                old(self).spec_done() as int
            } else {
                old(self).spec_done() - 1
            }),
    {
        if self.try_wait() {
            WaitStep::Finish(WaitOutcome::Satisfied)
        } else {
            WaitStep::Block
        }
    }

    /// `wait_timeout`: a token wins; without one, a waiter whose deadline
    /// passed stops with `TimedOut`.
    pub fn wait_timeout(&mut self, timed_out: bool) -> (step: WaitStep)
        requires
            old(self).wf(),
        ensures
            final(self).wf(),
            final(self).spec_queue() == old(self).spec_queue(),
            step == (if old(self).spec_done() != 0 {
                WaitStep::Finish(WaitOutcome::Satisfied)
            } else if timed_out {
                WaitStep::Finish(WaitOutcome::TimedOut)
            } else {
                WaitStep::Block
            }),
            final(self).spec_done() == (if old(self).spec_done() == 0 || old(self).spec_done() == COMPLETION_ALL {
                old(self).spec_done() as int
            } else {
                old(self).spec_done() - 1
            }),
    {
        if self.try_wait() {
            WaitStep::Finish(WaitOutcome::Satisfied)
        } else if timed_out {
            WaitStep::Finish(WaitOutcome::TimedOut)
        } else {
            WaitStep::Block
        }
    }
}

/// One `complete` followed by one successful `try_wait` leaves the token count
/// as it was, and a completion completed for all stays so under any number of
/// waits.
pub proof fn lemma_complete_then_wait(before: usize)
    requires
        before == COMPLETION_ALL || before + 1 < COMPLETION_ALL,
    ensures
        ({
            let after_complete: int = if before == COMPLETION_ALL { COMPLETION_ALL as int } else { before + 1 };
            let after_wait: int = if after_complete == 0 || after_complete == COMPLETION_ALL {
                after_complete
            } else {
                after_complete - 1
            };
            after_complete != 0 && after_wait == before
        }),
{
}

} // verus!
