//! Per-CPU software timer queues.
//!
//! Each CPU owns a fixed table of timer slots and a deadline-ordered index
//! of the armed ones. A handle names a slot together with the generation
//! that armed it, so a stale handle never cancels a later timer that reused
//! the slot.
use vstd::prelude::*;

use crate::smp::CpuId;
use crate::time::{
    cycles_round_up_spec, deadline_after, deadline_reached, deadline_reached_spec, instant_is_before, is_after,
    MonotonicInstant, HALF_RANGE, NANOS_PER_SECOND,
};

verus! {

/// Timer slots per CPU.
pub const TIMERS_PER_CPU: usize = 128;
/// Callbacks run by one timer interrupt before the rest is deferred.
pub const MAX_CALLBACKS_PER_INTERRUPT: usize = 32;

#[derive(Clone, Copy, Debug, PartialEq, Eq, Structural)]
pub enum TimerError {
    /// Every slot of the CPU's queue is in use.
    Capacity,
}

/// Names one armed timer: the owning CPU, its slot and the arming generation.
#[derive(Clone, Copy, Debug, PartialEq, Eq, Structural)]
pub struct TimerHandle {
    pub owner: CpuId,
    pub slot: u16,
    pub generation: u64,
}

#[derive(Clone, Copy, Debug, PartialEq, Eq, Structural)]
pub enum TimerState {
    Free,
    Armed,
    Firing,
}

/// One slot of a timer queue. `C` is the callback the slot runs.
#[derive(Clone, Copy, Debug)]
pub struct TimerSlot<C> {
    pub state: TimerState,
    pub generation: u64,
    pub deadline: MonotonicInstant,
    pub callback: Option<C>,
    pub argument: usize,
}

/// A timer taken off the queue to run its callback.
#[derive(Clone, Copy, Debug)]
pub struct FiringTimer<C> {
    pub slot: usize,
    pub generation: u64,
    pub callback: C,
    pub argument: usize,
}

/// Outcome of a cancellation attempt.
#[derive(Clone, Copy, Debug, PartialEq, Eq, Structural)]
pub enum CancelResult {
    /// The timer was armed and is now removed; its callback never runs.
    Cancelled,
    /// The callback is running right now; retry until it completes.
    Firing,
    /// The handle no longer names an armed timer.
    Stale,
}

/// A CPU's timer slots and the deadline-ordered index of armed slots.
pub struct TimerQueue<C> {
    pub slots: Vec<TimerSlot<C>>,
    pub order: Vec<u16>,
    pub len: usize,
}

/// The generation a slot gets when it is armed again.
pub open spec fn next_generation(generation: u64) -> u64 {
    let next = vstd::wrapping::u64_specs::wrapping_add(generation, 1);
    if next < 1 { 1 } else { next }
}

impl<C: Copy> TimerQueue<C> {
    /// The armed slots, in deadline order.
    pub open spec fn queued(&self) -> Seq<u16> {
        self.order@.subrange(0, self.len as int)
    }

    pub open spec fn deadline_of(&self, slot: u16) -> u64 {
        self.slots@[slot as int].deadline.0
    }

    /// `after` is this queue's index with `slot` put in by deadline: every
    /// timer behind it is due later than `deadline`, and the timer just in
    /// front of it is not.
    pub open spec fn placed_by_deadline(&self, after: Seq<u16>, slot: u16, deadline: u64) -> bool {
        exists|p: int| #![trigger self.queued().insert(p, slot)]
            0 <= p <= self.len
            && after == self.queued().insert(p, slot)
            && (p == 0 || !is_after(self.deadline_of(self.queued()[p - 1]), deadline))
            && forall|k: int| p <= k < self.len ==> is_after(self.deadline_of(#[trigger] self.queued()[k]), deadline)
    }

    /// Well-formedness: the index lists exactly the armed slots, once each.
    pub open spec fn wf(&self) -> bool {
        &&& self.slots@.len() == TIMERS_PER_CPU
        &&& self.order@.len() == TIMERS_PER_CPU
        &&& self.len <= TIMERS_PER_CPU
        &&& self.queued().no_duplicates()
        &&& forall|i: int| 0 <= i < self.len ==> {
            &&& (#[trigger] self.order@[i]) < TIMERS_PER_CPU
            &&& self.slots@[self.order@[i] as int].state == TimerState::Armed
        }
        &&& forall|s: int| 0 <= s < TIMERS_PER_CPU && (#[trigger] self.slots@[s]).state == TimerState::Armed
            ==> self.queued().contains(s as u16)
        &&& forall|s: int| 0 <= s < TIMERS_PER_CPU && (#[trigger] self.slots@[s]).state != TimerState::Free
            ==> self.slots@[s].callback.is_some()
    }

    /// An empty queue: every slot free with generation zero.
    pub fn new() -> (queue: Self)
        ensures
            queue.wf(),
            queue.len == 0,
            forall|s: int| 0 <= s < TIMERS_PER_CPU ==> (#[trigger] queue.slots@[s]).state == TimerState::Free
                && queue.slots@[s].generation == 0,
    {
        let mut slots: Vec<TimerSlot<C>> = Vec::new();
        let mut order: Vec<u16> = Vec::new();
        let mut i: usize = 0;
        while i < TIMERS_PER_CPU
            invariant
                i <= TIMERS_PER_CPU,
                slots@.len() == i,
                order@.len() == i,
                forall|s: int| 0 <= s < i ==> (#[trigger] slots@[s]).state == TimerState::Free
                    && slots@[s].generation == 0,
            decreases TIMERS_PER_CPU - i,
        {
            slots.push(TimerSlot {
                state: TimerState::Free,
                generation: 0,
                deadline: MonotonicInstant(0),
                callback: None,
                argument: 0,
            });
            order.push(0);
            i = i + 1;
        }
        let queue = TimerQueue { slots, order, len: 0 };
        assert(queue.queued() =~= Seq::<u16>::empty());
        queue
    }

    /// The earliest armed deadline, if any timer is armed.
    pub fn earliest(&self) -> (deadline: Option<MonotonicInstant>)
        requires
            self.wf(),
        ensures
            deadline == (if self.len == 0 {
                None::<MonotonicInstant>
            } else {
                Some(self.slots@[self.order@[0] as int].deadline)
            }),
    {
        if self.len == 0 {
            None
        } else {
            Some(self.slots[self.order[0] as usize].deadline)
        }
    }

    /// Inserts an armed `slot` into the index after every timer whose
    /// deadline does not lie after `slot`'s, scanning from the back.
    fn insert_ordered(&mut self, slot: usize)
        requires
            old(self).slots@.len() == TIMERS_PER_CPU,
            old(self).order@.len() == TIMERS_PER_CPU,
            old(self).len < TIMERS_PER_CPU,
            slot < TIMERS_PER_CPU,
            forall|i: int| 0 <= i < old(self).len ==> (#[trigger] old(self).order@[i]) < TIMERS_PER_CPU,
        ensures
            final(self).slots == old(self).slots,
            final(self).order@.len() == TIMERS_PER_CPU,
            final(self).len == old(self).len + 1,
            exists|p: int| #![trigger old(self).queued().insert(p, slot as u16)]
                0 <= p <= old(self).len
                && final(self).queued() == old(self).queued().insert(p, slot as u16)
                && (p == 0 || !is_after(old(self).deadline_of(old(self).order@[p - 1]), old(self).slots@[slot as int].deadline.0))
                && forall|k: int| p <= k < old(self).len
                    ==> is_after(old(self).deadline_of(#[trigger] old(self).order@[k]), old(self).slots@[slot as int].deadline.0),
            old(self).placed_by_deadline(final(self).queued(), slot as u16, old(self).slots@[slot as int].deadline.0),
    {
        let deadline = self.slots[slot].deadline;
        let ghost old_queued = self.queued();
        let ghost old_order = self.order@;
        let mut position = self.len;
        while position != 0
            invariant
                position <= old(self).len < TIMERS_PER_CPU,
                self.slots == old(self).slots,
                self.slots@.len() == TIMERS_PER_CPU,
                self.len == old(self).len,
                self.order@.len() == TIMERS_PER_CPU,
                deadline == self.slots@[slot as int].deadline,
                old_order == old(self).order@,
                forall|i: int| 0 <= i < position ==> self.order@[i] == old_order[i],
                forall|i: int| position < i <= self.len ==> self.order@[i] == old_order[i - 1],
                forall|k: int| position <= k < self.len
                    ==> is_after(old(self).deadline_of(#[trigger] old_order[k]), deadline.0),
                forall|i: int| 0 <= i < old(self).len ==> (#[trigger] old_order[i]) < TIMERS_PER_CPU,
            ensures
                self.slots == old(self).slots,
                self.order@.len() == TIMERS_PER_CPU,
                forall|i: int| 0 <= i < position ==> self.order@[i] == old_order[i],
                forall|i: int| position < i <= self.len ==> self.order@[i] == old_order[i - 1],
                forall|k: int| position <= k < self.len
                    ==> is_after(old(self).deadline_of(#[trigger] old_order[k]), deadline.0),
                position == 0 || !is_after(old(self).deadline_of(old_order[position - 1]), deadline.0),
            decreases position,
        {
            assert(self.order@[position - 1] == old_order[position - 1]);
            assert(old_order[position - 1] < TIMERS_PER_CPU);
            let previous = self.order[position - 1] as usize;
            if !instant_is_before(deadline, self.slots[previous].deadline) {
                break;
            }
            let moved = self.order[position - 1];
            self.order.set(position, moved);
            position = position - 1;
        }
        self.order.set(position, slot as u16);
        self.len = self.len + 1;
        proof {
            let p = position as int;
            let expected = old_queued.insert(p, slot as u16);
            assert(self.queued() =~= expected);
            assert forall|k: int| p <= k < old(self).len implies is_after(
                old(self).deadline_of(#[trigger] old_queued[k]), deadline.0) by {
                assert(old_queued[k] == old_order[k]);
            }
            if p > 0 {
                assert(old_queued[p - 1] == old_order[p - 1]);
            }
        }
    }

    /// Arms a timer for `deadline` in the first free slot.
    pub fn arm(
        &mut self,
        owner: CpuId,
        deadline: MonotonicInstant,
        callback: C,
        argument: usize,
    ) -> (result: Result<TimerHandle, TimerError>)
        requires
            old(self).wf(),
        ensures
            final(self).wf(),
            match result {
                Err(TimerError::Capacity) => {
                    &&& forall|s: int| 0 <= s < TIMERS_PER_CPU ==> (#[trigger] old(self).slots@[s]).state != TimerState::Free
                    &&& final(self).slots@ == old(self).slots@
                    &&& final(self).queued() == old(self).queued()
                },
                Ok(handle) => {
                    let s = handle.slot as int;
                    &&& handle.owner == owner
                    &&& 0 <= s < TIMERS_PER_CPU
                    &&& old(self).slots@[s].state == TimerState::Free
                    &&& forall|t: int| 0 <= t < s ==> (#[trigger] old(self).slots@[t]).state != TimerState::Free
                    &&& handle.generation == next_generation(old(self).slots@[s].generation)
                    &&& final(self).slots@ == old(self).slots@.update(s, TimerSlot {
                        state: TimerState::Armed,
                        generation: handle.generation,
                        deadline,
                        callback: Some(callback),
                        argument,
                    })
                    &&& final(self).len == old(self).len + 1
                    &&& exists|p: int| 0 <= p <= old(self).len
                        && #[trigger] final(self).queued() == old(self).queued().insert(p, handle.slot)
                    &&& old(self).placed_by_deadline(final(self).queued(), handle.slot, deadline.0)
                },
            },
    {
        let mut slot: usize = 0;
        while slot < TIMERS_PER_CPU && self.slots[slot].state != TimerState::Free
            invariant
                slot <= TIMERS_PER_CPU,
                self.wf(),
                *self == *old(self),
                forall|t: int| 0 <= t < slot ==> (#[trigger] self.slots@[t]).state != TimerState::Free,
            decreases TIMERS_PER_CPU - slot,
        {
            slot = slot + 1;
        }
        if slot == TIMERS_PER_CPU {
            return Err(TimerError::Capacity);
        }
        proof {
            // A free slot exists, so fewer than all slots are indexed.
            self.lemma_len_below_capacity(slot as int);
        }
        let previous = self.slots[slot].generation;
        let bumped = previous.wrapping_add(1);
        let generation = if bumped < 1 { 1 } else { bumped };
        self.slots.set(slot, TimerSlot {
            state: TimerState::Armed,
            generation,
            deadline,
            callback: Some(callback),
            argument,
        });
        let ghost mid = *self;
        let ghost before = self.queued();
        self.insert_ordered(slot);
        proof {
            let p = choose|p: int| #![trigger before.insert(p, slot as u16)]
                0 <= p <= old(self).len && self.queued() == before.insert(p, slot as u16)
                && (p == 0 || true);
            assert(self.queued() == before.insert(p, slot as u16));
            before.insert_ensures(p, slot as u16);
            assert(before == old(self).queued());
            if before.contains(slot as u16) {
                let k = choose|k: int| 0 <= k < before.len() && before[k] == slot as u16;
                assert(old(self).order@[k] == slot as u16);
            }
            assert(!before.contains(slot as u16));
            assert forall|i: int, j: int| 0 <= i < j < self.queued().len()
                implies self.queued()[i] != self.queued()[j] by {
                if i < p && j < p {
                } else if i < p && j == p {
                } else if i < p && j > p {
                    assert(self.queued()[j] == before[j - 1]);
                } else if i == p {
                    assert(self.queued()[j] == before[j - 1]);
                } else {
                    assert(self.queued()[i] == before[i - 1]);
                    assert(self.queued()[j] == before[j - 1]);
                }
            }
            assert forall|i: int| 0 <= i < self.len implies {
                &&& (#[trigger] self.order@[i]) < TIMERS_PER_CPU
                &&& self.slots@[self.order@[i] as int].state == TimerState::Armed
            } by {
                assert(self.order@[i] == self.queued()[i]);
                if i < p {
                    assert(self.queued()[i] == before[i]);
                } else if i > p {
                    assert(self.queued()[i] == before[i - 1]);
                }
            }
            assert forall|s: int| 0 <= s < TIMERS_PER_CPU && (#[trigger] self.slots@[s]).state == TimerState::Armed
                implies self.queued().contains(s as u16) by {
                if s == slot as int {
                    assert(self.queued()[p] == slot as u16);
                } else {
                    assert(old(self).queued().contains(s as u16));
                    let k = choose|k: int| 0 <= k < before.len() && before[k] == s as u16;
                    if k < p {
                        assert(self.queued()[k] == s as u16);
                    } else {
                        assert(self.queued()[k + 1] == s as u16);
                    }
                }
            }
            let q = choose|q: int| #![trigger mid.queued().insert(q, slot as u16)]
                0 <= q <= mid.len
                && self.queued() == mid.queued().insert(q, slot as u16)
                && (q == 0 || !is_after(mid.deadline_of(mid.queued()[q - 1]), deadline.0))
                && forall|k: int| q <= k < mid.len ==> is_after(mid.deadline_of(#[trigger] mid.queued()[k]), deadline.0);
            assert(mid.queued() == before);
            assert forall|k: int| 0 <= k < before.len() implies old(self).deadline_of(#[trigger] before[k])
                == mid.deadline_of(before[k]) by {
                assert(before[k] != slot as u16);
            }
            assert(old(self).queued().insert(q, slot as u16) == self.queued());
            assert(old(self).placed_by_deadline(self.queued(), slot as u16, deadline.0));
        }
        Ok(TimerHandle { owner, slot: slot as u16, generation })
    }


    /// Where arming puts a timer in the deadline index: a timer due before
    /// every armed timer becomes the first (so it is the earliest deadline
    /// and fires first), one not due before the last armed timer goes to the
    /// back, and no timer behind the new one is due at or before it.
    pub proof fn lemma_placement_by_deadline(&self, after: Seq<u16>, slot: u16, deadline: u64)
        requires
            self.wf(),
            self.placed_by_deadline(after, slot, deadline),
        ensures
            after.len() == self.len + 1,
            (forall|k: int| 0 <= k < self.len ==> is_after(self.deadline_of(#[trigger] self.queued()[k]), deadline))
                ==> after[0] == slot,
            self.len > 0 && !is_after(self.deadline_of(self.queued()[self.len - 1]), deadline)
                ==> after == self.queued().push(slot),
            forall|i: int, j: int| #![trigger after[i], after[j]]
                0 <= i < j < after.len() && after[i] == slot && !self.queued().contains(slot)
                ==> is_after(self.deadline_of(after[j]), deadline),
    {
        let q = self.queued();
        let p = choose|p: int| #![trigger q.insert(p, slot)]
            0 <= p <= self.len
            && after == q.insert(p, slot)
            && (p == 0 || !is_after(self.deadline_of(q[p - 1]), deadline))
            && forall|k: int| p <= k < self.len ==> is_after(self.deadline_of(#[trigger] q[k]), deadline);
        assert(q.len() == self.len);
        q.insert_ensures(p, slot);
        if forall|k: int| 0 <= k < self.len ==> is_after(self.deadline_of(#[trigger] q[k]), deadline) {
            if p > 0 {
                assert(is_after(self.deadline_of(q[p - 1]), deadline));
            }
        }
        if self.len > 0 && !is_after(self.deadline_of(q[self.len - 1]), deadline) {
            if p < self.len {
                assert(is_after(self.deadline_of(q[self.len - 1]), deadline));
            }
            assert(after =~= q.push(slot));
        }
        assert forall|i: int, j: int| #![trigger after[i], after[j]]
            0 <= i < j < after.len() && after[i] == slot && !q.contains(slot)
            implies is_after(self.deadline_of(after[j]), deadline) by {
            if i != p {
                if i < p {
                    assert(after[i] == q[i]);
                } else {
                    assert(after[i] == q[i - 1]);
                }
            }
            assert(after[j] == q[j - 1]);
        }
    }

    /// Takes the earliest timer off the index when its deadline has been
    /// reached at `now`, marking its slot as firing.
    pub fn pop_due(&mut self, now: MonotonicInstant) -> (firing: Option<FiringTimer<C>>)
        requires
            old(self).wf(),
        ensures
            final(self).wf(),
            if old(self).len == 0 || !deadline_reached_spec(now.0, old(self).deadline_of(old(self).order@[0])) {
                &&& firing.is_none()
                &&& final(self).slots@ == old(self).slots@
                &&& final(self).queued() == old(self).queued()
            } else {
                let s = old(self).order@[0] as int;
                let slot = old(self).slots@[s];
                &&& firing == Some(FiringTimer {
                    slot: s as usize,
                    generation: slot.generation,
                    callback: slot.callback.unwrap(),
                    argument: slot.argument,
                })
                &&& final(self).slots@ == old(self).slots@.update(s, TimerSlot { state: TimerState::Firing, ..slot })
                &&& final(self).queued() == old(self).queued().drop_first()
            },
    {
        if self.len == 0 {
            return None;
        }
        let slot = self.order[0] as usize;
        if !deadline_reached(now, self.slots[slot].deadline) {
            return None;
        }
        let ghost before = self.queued();
        self.remove_order_position(0);
        let timer = self.slots[slot];
        let callback = match timer.callback {
            Some(callback) => callback,
            None => {
                proof {
                    assert(old(self).slots@[slot as int].state == TimerState::Armed);
                }
                return None;
            },
        };
        self.slots.set(slot, TimerSlot { state: TimerState::Firing, ..timer });
        proof {
            assert(before.remove(0) =~= before.drop_first());
            assert forall|i: int| 0 <= i < self.len implies {
                &&& (#[trigger] self.order@[i]) < TIMERS_PER_CPU
                &&& self.slots@[self.order@[i] as int].state == TimerState::Armed
            } by {
                assert(self.order@[i] == self.queued()[i]);
                assert(self.queued()[i] == before[i + 1]);
                assert(old(self).order@[i + 1] == before[i + 1]);
                assert(before[i + 1] != before[0]);
            }
            assert forall|t: int| 0 <= t < TIMERS_PER_CPU && (#[trigger] self.slots@[t]).state == TimerState::Armed
                implies self.queued().contains(t as u16) by {
                assert(t != slot as int);
                assert(before.contains(t as u16));
                let k = choose|k: int| 0 <= k < before.len() && before[k] == t as u16;
                assert(k != 0);
                assert(self.queued()[k - 1] == t as u16);
            }
        }
        Some(FiringTimer { slot, generation: timer.generation, callback, argument: timer.argument })
    }

    /// Frees the slot of a timer whose callback has returned.
    pub fn complete_firing(&mut self, firing: FiringTimer<C>)
        requires
            old(self).wf(),
            firing.slot < TIMERS_PER_CPU,
            old(self).slots@[firing.slot as int].state == TimerState::Firing,
            old(self).slots@[firing.slot as int].generation == firing.generation,
        ensures
            final(self).wf(),
            final(self).queued() == old(self).queued(),
            final(self).slots@ == old(self).slots@.update(firing.slot as int, TimerSlot {
                state: TimerState::Free,
                callback: None,
                argument: 0,
                ..old(self).slots@[firing.slot as int]
            }),
    {
        let timer = self.slots[firing.slot];
        self.slots.set(firing.slot, TimerSlot { state: TimerState::Free, callback: None, argument: 0, ..timer });
        proof {
            assert forall|i: int| 0 <= i < self.len implies {
                &&& (#[trigger] self.order@[i]) < TIMERS_PER_CPU
                &&& self.slots@[self.order@[i] as int].state == TimerState::Armed
            } by {
                assert(old(self).slots@[old(self).order@[i] as int].state == TimerState::Armed);
            }
        }
    }

    /// Cancels the timer named by `handle` if it is still armed.
    pub fn cancel(&mut self, handle: TimerHandle) -> (result: CancelResult)
        requires
            old(self).wf(),
        ensures
            final(self).wf(),
            ({
                let s = handle.slot as int;
                if s >= TIMERS_PER_CPU || old(self).slots@[s].generation != handle.generation
                    || old(self).slots@[s].state == TimerState::Free {
                    &&& result == CancelResult::Stale
                    &&& *final(self) == *old(self)
                } else if old(self).slots@[s].state == TimerState::Firing {
                    &&& result == CancelResult::Firing
                    &&& *final(self) == *old(self)
                } else {
                    &&& result == CancelResult::Cancelled
                    &&& final(self).slots@ == old(self).slots@.update(s, TimerSlot {
                        state: TimerState::Free,
                        callback: None,
                        argument: 0,
                        ..old(self).slots@[s]
                    })
                    &&& final(self).queued() == old(self).queued().remove_value(handle.slot)
                }
            }),
    {
        let slot = handle.slot as usize;
        if slot >= self.slots.len() {
            return CancelResult::Stale;
        }
        let timer = self.slots[slot];
        if timer.generation != handle.generation {
            return CancelResult::Stale;
        }
        match timer.state {
            TimerState::Free => CancelResult::Stale,
            TimerState::Firing => CancelResult::Firing,
            TimerState::Armed => {
                let ghost before = self.queued();
                let mut position: usize = 0;
                while position < self.len && self.order[position] != handle.slot
                    invariant
                        position <= self.len,
                        self.wf(),
                        *self == *old(self),
                        forall|i: int| 0 <= i < position ==> self.order@[i] != handle.slot,
                    decreases self.len - position,
                {
                    position = position + 1;
                }
                proof {
                    assert(before.contains(handle.slot));
                    if position == self.len {
                        let k = choose|k: int| 0 <= k < before.len() && before[k] == handle.slot;
                        assert(self.order@[k] == handle.slot);
                    }
                }
                if position == self.len {
                    return CancelResult::Stale;
                }
                self.remove_order_position(position);
                self.slots.set(slot, TimerSlot { state: TimerState::Free, callback: None, argument: 0, ..timer });
                proof {
                    assert(before[position as int] == handle.slot);
                    before.index_of_first_ensures(handle.slot);
                    assert forall|i: int| 0 <= i < position implies before[i] != handle.slot by {
                        assert(before[i] == self.order@[i] || true);
                    }
                    assert(before.index_of_first(handle.slot) == Some(position as int)) by {
                        match before.index_of_first(handle.slot) {
                            Some(f) => {
                                assert(f <= position);
                                if f < position {
                                    assert(old(self).order@[f] == before[f]);
                                }
                            },
                            None => {},
                        }
                    }
                    assert(before.remove_value(handle.slot) == before.remove(position as int));
                    assert forall|i: int| 0 <= i < self.len implies {
                        &&& (#[trigger] self.order@[i]) < TIMERS_PER_CPU
                        &&& self.slots@[self.order@[i] as int].state == TimerState::Armed
                    } by {
                        assert(self.order@[i] == self.queued()[i]);
                        if i < position {
                            assert(self.queued()[i] == before[i]);
                            assert(old(self).order@[i] == before[i]);
                        } else {
                            assert(self.queued()[i] == before[i + 1]);
                            assert(old(self).order@[i + 1] == before[i + 1]);
                            assert(before[i + 1] != before[position as int]);
                        }
                    }
                    assert forall|t: int| 0 <= t < TIMERS_PER_CPU && (#[trigger] self.slots@[t]).state == TimerState::Armed
                        implies self.queued().contains(t as u16) by {
                        assert(t != slot as int);
                        assert(before.contains(t as u16));
                        let k = choose|k: int| 0 <= k < before.len() && before[k] == t as u16;
                        assert(k != position as int);
                        if k < position {
                            assert(self.queued()[k] == t as u16);
                        } else {
                            assert(self.queued()[k - 1] == t as u16);
                        }
                    }
                }
                CancelResult::Cancelled
            },
        }
    }

    /// A free slot means the index holds fewer entries than there are slots.
    proof fn lemma_len_below_capacity(&self, free: int)
        requires
            self.wf(),
            0 <= free < TIMERS_PER_CPU,
            self.slots@[free].state == TimerState::Free,
        ensures
            self.len < TIMERS_PER_CPU,
    {
        let q = self.queued();
        let universe = Set::new(|s: u16| 0 <= s < TIMERS_PER_CPU && s != free as u16);
        assert(q.to_set().subset_of(universe)) by {
            assert forall|s: u16| q.to_set().contains(s) implies universe.contains(s) by {
                let k = choose|k: int| 0 <= k < q.len() && q[k] == s;
                assert(self.order@[k] == s);
            }
        }
        q.unique_seq_to_set();
        let full = Set::new(|s: u16| 0 <= s < TIMERS_PER_CPU);
        assert(full =~= Set::<u16>::new(|s: u16| 0 <= s < TIMERS_PER_CPU));
        lemma_u16_range_size(TIMERS_PER_CPU as u16);
        assert(universe =~= full.remove(free as u16));
        vstd::set_lib::lemma_len_subset(q.to_set(), universe);
    }

    /// Removes the index entry at `position`, shifting later entries down.
    fn remove_order_position(&mut self, position: usize)
        requires
            old(self).order@.len() == TIMERS_PER_CPU,
            old(self).len <= TIMERS_PER_CPU,
            position < old(self).len,
        ensures
            final(self).slots == old(self).slots,
            final(self).order@.len() == TIMERS_PER_CPU,
            final(self).len == old(self).len - 1,
            final(self).queued() == old(self).queued().remove(position as int),
    {
        let mut index = position;
        while index < self.len - 1
            invariant
                position <= index < self.len,
                self.len == old(self).len,
                self.len <= TIMERS_PER_CPU,
                self.slots == old(self).slots,
                self.order@.len() == TIMERS_PER_CPU,
                forall|i: int| 0 <= i < position ==> self.order@[i] == old(self).order@[i],
                forall|i: int| position <= i < index ==> self.order@[i] == old(self).order@[i + 1],
                forall|i: int| index <= i < self.len ==> self.order@[i] == old(self).order@[i],
            decreases self.len - index,
        {
            let next = self.order[index + 1];
            self.order.set(index, next);
            index = index + 1;
        }
        self.len = self.len - 1;
        self.order.set(self.len, 0);
        assert(self.queued() =~= old(self).queued().remove(position as int));
    }
}

/// There are exactly `n` values of `u16` below `n`.
proof fn lemma_u16_range_size(n: u16)
    ensures
        Set::new(|s: u16| 0 <= s < n).finite(),
        Set::new(|s: u16| 0 <= s < n).len() == n,
    decreases n,
{
    if n == 0 {
        assert(Set::new(|s: u16| 0 <= s < n) =~= Set::<u16>::empty());
    } else {
        lemma_u16_range_size((n - 1) as u16);
        assert(Set::new(|s: u16| 0 <= s < n) =~= Set::new(|s: u16| 0 <= s < (n - 1) as u16).insert((n - 1) as u16));
    }
}

/// Arms a timer on the calling CPU's queue; on success also returns the
/// earliest deadline, which the local clockevent must be reprogrammed for.
pub fn arm_at<C: Copy>(queue: &mut TimerQueue<C>, owner: CpuId, deadline: MonotonicInstant, callback: C, argument: usize)
    -> (result: Result<(TimerHandle, Option<MonotonicInstant>), TimerError>)
    requires
        old(queue).wf(),
    ensures
        final(queue).wf(),
        result is Err <==> forall|s: int| 0 <= s < TIMERS_PER_CPU ==> (#[trigger] old(queue).slots@[s]).state != TimerState::Free,
        result is Err ==> final(queue).slots@ == old(queue).slots@ && final(queue).queued() == old(queue).queued(),
        result matches Ok((handle, earliest)) ==> {
            &&& handle.owner == owner
            &&& final(queue).slots@[handle.slot as int].state == TimerState::Armed
            &&& final(queue).slots@[handle.slot as int].deadline == deadline
            &&& final(queue).slots@[handle.slot as int].generation == handle.generation
            &&& final(queue).slots@ == old(queue).slots@.update(handle.slot as int, TimerSlot {
                state: TimerState::Armed,
                generation: handle.generation,
                deadline,
                callback: Some(callback),
                argument,
            })
            &&& final(queue).queued().contains(handle.slot)
            &&& earliest == Some(final(queue).slots@[final(queue).order@[0] as int].deadline)
        },
{
    match queue.arm(owner, deadline, callback, argument) {
        Ok(handle) => {
            let earliest = queue.earliest();
            Ok((handle, earliest))
        },
        Err(error) => Err(error),
    }
}

/// Arms a timer `nanos` nanoseconds after `now`.
pub fn arm_after<C: Copy>(queue: &mut TimerQueue<C>, owner: CpuId, now: MonotonicInstant, nanos: u128, frequency: u64,
    callback: C, argument: usize) -> (result: Result<(TimerHandle, Option<MonotonicInstant>), TimerError>)
    requires
        old(queue).wf(),
        nanos * frequency + (NANOS_PER_SECOND - 1) <= u128::MAX,
        cycles_round_up_spec(nanos as int, frequency as int) < HALF_RANGE,
    ensures
        final(queue).wf(),
        result is Err <==> forall|s: int| 0 <= s < TIMERS_PER_CPU ==> (#[trigger] old(queue).slots@[s]).state != TimerState::Free,
        result matches Ok((handle, earliest)) ==> {
            &&& handle.owner == owner
            &&& final(queue).slots@[handle.slot as int].state == TimerState::Armed
            &&& final(queue).slots@[handle.slot as int].deadline.0 == vstd::wrapping::u64_specs::wrapping_add(now.0,
                cycles_round_up_spec(nanos as int, frequency as int) as u64)
            &&& final(queue).slots@[handle.slot as int].generation == handle.generation
            &&& final(queue).slots@ == old(queue).slots@.update(handle.slot as int, TimerSlot {
                state: TimerState::Armed,
                generation: handle.generation,
                deadline: final(queue).slots@[handle.slot as int].deadline,
                callback: Some(callback),
                argument,
            })
            &&& final(queue).queued().contains(handle.slot)
            &&& earliest == Some(final(queue).slots@[final(queue).order@[0] as int].deadline)
        },
{
    arm_at(queue, owner, deadline_after(now, nanos, frequency), callback, argument)
}

/// The outcome of one attempt of a synchronous cancellation.
#[derive(Clone, Copy, Debug, PartialEq, Eq, Structural)]
pub enum CancelSyncStep {
    /// Done: whether the timer was cancelled before it ran.
    Finished(bool),
    /// The callback is running: try again once it has finished.
    Retry,
}

/// One attempt of `cancel_sync`. When the timer was cancelled on the
/// calling CPU's own queue, the earliest remaining deadline is returned for
/// reprogramming the local clockevent.
pub fn cancel_sync<C: Copy>(queue: &mut TimerQueue<C>, handle: TimerHandle, current: CpuId)
    -> (outcome: (CancelSyncStep, Option<Option<MonotonicInstant>>))
    requires
        old(queue).wf(),
    ensures
        final(queue).wf(),
        ({
            let s = handle.slot as int;
            if s >= TIMERS_PER_CPU || old(queue).slots@[s].generation != handle.generation
                || old(queue).slots@[s].state == TimerState::Free {
                outcome == (CancelSyncStep::Finished(false), None::<Option<MonotonicInstant>>) && *final(queue) == *old(queue)
            } else if old(queue).slots@[s].state == TimerState::Firing {
                outcome == (CancelSyncStep::Retry, None::<Option<MonotonicInstant>>) && *final(queue) == *old(queue)
            } else {
                &&& outcome.0 == CancelSyncStep::Finished(true)
                &&& final(queue).slots@[s].state == TimerState::Free
                &&& (handle.owner == current) == outcome.1 is Some
            }
        }),
{
    let result = queue.cancel(handle);
    match result {
        CancelResult::Cancelled => {
            let reprogram = if handle.owner == current { Some(queue.earliest()) } else { None };
            (CancelSyncStep::Finished(true), reprogram)
        },
        CancelResult::Stale => (CancelSyncStep::Finished(false), None),
        CancelResult::Firing => (CancelSyncStep::Retry, None),
    }
}

/// Runs the callbacks of due timers at `now`, earliest first, at most
/// `MAX_CALLBACKS_PER_INTERRUPT` of them; returns the earliest deadline left.
pub fn handle_interrupt<C: Copy, F: Fn(C, usize)>(queue: &mut TimerQueue<C>, now: MonotonicInstant, run: &F)
    -> (earliest: Option<MonotonicInstant>)
    requires
        old(queue).wf(),
        forall|callback: C, argument: usize| #[trigger] call_requires(*run, (callback, argument)),
    ensures
        final(queue).wf(),
        earliest == (if final(queue).len == 0 {
            None::<MonotonicInstant>
        } else {
            Some(final(queue).slots@[final(queue).order@[0] as int].deadline)
        }),
        forall|s: int| 0 <= s < TIMERS_PER_CPU ==> #[trigger] final(queue).slots@[s].deadline == old(queue).slots@[s].deadline,
        exists|fired: int| {
            &&& 0 <= fired <= MAX_CALLBACKS_PER_INTERRUPT
            &&& fired <= old(queue).len
            &&& #[trigger] final(queue).queued() == old(queue).queued().skip(fired)
            &&& forall|i: int| 0 <= i < fired ==> deadline_reached_spec(now.0, old(queue).deadline_of(
                #[trigger] old(queue).queued()[i]))
            &&& forall|i: int| 0 <= i < fired ==> final(queue).slots@[#[trigger] old(queue).queued()[i] as int].state
                == TimerState::Free
            &&& forall|i: int| 0 <= i < fired ==> call_ensures(
                *run,
                (old(queue).slots@[#[trigger] old(queue).queued()[i] as int].callback.unwrap(),
                    old(queue).slots@[old(queue).queued()[i] as int].argument),
                (),
            )
            &&& fired == MAX_CALLBACKS_PER_INTERRUPT || final(queue).len == 0
                || !deadline_reached_spec(now.0, final(queue).deadline_of(final(queue).order@[0]))
        },
{
    let ghost initial = queue.queued();
    let ghost mut fired: int = 0;
    assert forall|i: int| 0 <= i < initial.len() implies (#[trigger] initial[i]) < TIMERS_PER_CPU by {
        assert(initial[i] == queue.order@[i]);
    }
    let mut round: usize = 0;
    let mut idle = false;
    while round < MAX_CALLBACKS_PER_INTERRUPT && !idle
        invariant
            queue.wf(),
            forall|callback: C, argument: usize| #[trigger] call_requires(*run, (callback, argument)),
            round <= MAX_CALLBACKS_PER_INTERRUPT,
            0 <= fired <= round,
            fired <= initial.len(),
            initial == old(queue).queued(),
            queue.queued() == initial.skip(fired),
            fired == round,
            forall|s: int| 0 <= s < TIMERS_PER_CPU ==> #[trigger] queue.slots@[s].deadline == old(queue).slots@[s].deadline,
            forall|i: int| 0 <= i < fired ==> deadline_reached_spec(now.0, old(queue).deadline_of(#[trigger] initial[i])),
            forall|i: int| 0 <= i < fired ==> queue.slots@[#[trigger] initial[i] as int].state == TimerState::Free,
            forall|i: int| 0 <= i < initial.len() ==> (#[trigger] initial[i]) < TIMERS_PER_CPU,
            forall|i: int| fired <= i < initial.len() ==> queue.slots@[#[trigger] initial[i] as int]
                == old(queue).slots@[initial[i] as int],
            forall|i: int| 0 <= i < fired ==> call_ensures(
                *run,
                (old(queue).slots@[#[trigger] initial[i] as int].callback.unwrap(),
                    old(queue).slots@[initial[i] as int].argument),
                (),
            ),
            initial.no_duplicates(),
            idle ==> queue.len == 0 || !deadline_reached_spec(now.0, queue.deadline_of(queue.order@[0])),
        decreases MAX_CALLBACKS_PER_INTERRUPT - round, if idle { 0int } else { 1int },
    {
        let ghost before_pop = *queue;
        match queue.pop_due(now) {
            None => {
                proof {
                    assert(queue.queued().len() == before_pop.queued().len());
                    if queue.len > 0 {
                        assert(queue.order@[0] == queue.queued()[0]);
                        assert(before_pop.order@[0] == before_pop.queued()[0]);
                    }
                }
                idle = true;
            },
            Some(firing) => {
                let ghost popped = *queue;
                proof {
                    assert(initial.skip(fired)[0] == initial[fired]);
                    assert(firing.slot == initial[fired]);
                }
                run(firing.callback, firing.argument);
                queue.complete_firing(firing);
                proof {
                    assert(before_pop.slots@[initial[fired] as int] == old(queue).slots@[initial[fired] as int]);
                    assert forall|i: int| fired + 1 <= i < initial.len() implies queue.slots@[
                        #[trigger] initial[i] as int] == old(queue).slots@[initial[i] as int] by {
                        assert(initial[i] != initial[fired]);
                    }
                    assert(initial.skip(fired).drop_first() =~= initial.skip(fired + 1));
                    assert forall|i: int| 0 <= i < fired implies queue.slots@[#[trigger] initial[i] as int].state
                        == TimerState::Free by {
                        assert(initial[i] != initial[fired]);
                    }
                    fired = fired + 1;
                }
                round = round + 1;
            },
        }
    }
    assert(queue.queued() == old(queue).queued().skip(fired));
    assert(fired == MAX_CALLBACKS_PER_INTERRUPT || queue.len == 0
        || !deadline_reached_spec(now.0, queue.deadline_of(queue.order@[0])));
    queue.earliest()
}

/// What a sleeping task does next.
#[derive(Clone, Copy, Debug, PartialEq, Eq, Structural)]
pub enum SleepStep {
    /// The deadline has passed: return.
    Done,
    /// A wake-up timer is armed: block until it fires, then cancel it.
    Wait(TimerHandle),
}

/// `sleep_until`: an elapsed deadline returns at once; otherwise a timer is
/// armed for it, whose callback `wake` with `argument` wakes the sleeper. It
/// needs a free timer slot for that; a full queue is left out by the
/// precondition.
pub fn sleep_until<C: Copy>(queue: &mut TimerQueue<C>, owner: CpuId, deadline: MonotonicInstant, now: MonotonicInstant,
    wake: C, argument: usize) -> (step: SleepStep)
    requires
        old(queue).wf(),
        !deadline_reached_spec(now.0, deadline.0) ==> exists|s: int| 0 <= s < TIMERS_PER_CPU
            && (#[trigger] old(queue).slots@[s]).state == TimerState::Free,
    ensures
        final(queue).wf(),
        deadline_reached_spec(now.0, deadline.0) ==> step == SleepStep::Done && *final(queue) == *old(queue),
        !deadline_reached_spec(now.0, deadline.0) ==> (step matches SleepStep::Wait(handle)
            && final(queue).slots@[handle.slot as int].state == TimerState::Armed
            && final(queue).slots@[handle.slot as int].deadline == deadline
            && final(queue).slots@ == old(queue).slots@.update(handle.slot as int, TimerSlot {
                state: TimerState::Armed,
                generation: handle.generation,
                deadline,
                callback: Some(wake),
                argument,
            })),
{
    if deadline_reached(now, deadline) {
        return SleepStep::Done;
    }
    match arm_at(queue, owner, deadline, wake, argument) {
        Ok((handle, _)) => SleepStep::Wait(handle),
        Err(_) => SleepStep::Done,
    }
}

/// `sleep`: a zero duration returns at once; otherwise as `sleep_until` the
/// instant `nanos` after `now`.
pub fn sleep<C: Copy>(queue: &mut TimerQueue<C>, owner: CpuId, now: MonotonicInstant, nanos: u128, frequency: u64, wake: C,
    argument: usize) -> (step: SleepStep)
    requires
        old(queue).wf(),
        nanos * frequency + (NANOS_PER_SECOND - 1) <= u128::MAX,
        cycles_round_up_spec(nanos as int, frequency as int) < HALF_RANGE,
        nanos != 0 && !deadline_reached_spec(now.0, vstd::wrapping::u64_specs::wrapping_add(now.0,
            cycles_round_up_spec(nanos as int, frequency as int) as u64)) ==> exists|s: int| 0 <= s < TIMERS_PER_CPU
            && (#[trigger] old(queue).slots@[s]).state == TimerState::Free,
    ensures
        final(queue).wf(),
        nanos == 0 ==> step == SleepStep::Done && *final(queue) == *old(queue),
        nanos != 0 ==> {
            let deadline = vstd::wrapping::u64_specs::wrapping_add(now.0,
                cycles_round_up_spec(nanos as int, frequency as int) as u64);
            &&& deadline_reached_spec(now.0, deadline) ==> step == SleepStep::Done && *final(queue) == *old(queue)
            &&& !deadline_reached_spec(now.0, deadline) ==> (step matches SleepStep::Wait(handle)
                && final(queue).slots@[handle.slot as int].state == TimerState::Armed
                && final(queue).slots@[handle.slot as int].deadline.0 == deadline
                && final(queue).slots@ == old(queue).slots@.update(handle.slot as int, TimerSlot {
                    state: TimerState::Armed,
                    generation: handle.generation,
                    deadline: final(queue).slots@[handle.slot as int].deadline,
                    callback: Some(wake),
                    argument,
                }))
        },
{
    if nanos == 0 {
        return SleepStep::Done;
    }
    let deadline = deadline_after(now, nanos, frequency);
    sleep_until(queue, owner, deadline, now, wake, argument)
}

} // verus!
