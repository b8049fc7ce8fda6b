//! TLB shootdown requests: which CPUs a flush must reach, how a range
//! flush is carried out locally, and the per-CPU inbox protocol by which an
//! initiator publishes a request and the targets acknowledge it.
use vstd::prelude::*;

use crate::smp::{CpuId, MAX_CPUS};

verus! {

pub const PAGE_SIZE: usize = 4096;
/// Range flushes longer than this many pages flush everything instead.
pub const RANGE_PAGE_FLUSH_LIMIT: usize = 32;
/// Requests one CPU's inbox can hold at once.
pub const TLB_RING_SLOTS: usize = 4;
/// The kernel's address-space id.
pub const KERNEL_ASID: u16 = 0;

pub const SLOT_FREE: u8 = 0;
pub const SLOT_PUBLISHING: u8 = 1;
pub const SLOT_READY: u8 = 2;

#[derive(Clone, Copy, Debug, PartialEq, Eq, Structural)]
pub enum TlbScope {
    /// Only the calling CPU.
    Local,
    /// Every CPU.
    AllCpus,
    /// One address space (the kernel's, for shootdowns).
    AddressSpace(u16),
}

#[derive(Clone, Copy, Debug, PartialEq, Eq, Structural)]
pub enum TlbFlush {
    All { scope: TlbScope },
    Page { scope: TlbScope, address: usize },
    /// The half-open range `start .. end`.
    Range { scope: TlbScope, start: usize, end: usize },
}

pub open spec fn flush_scope_spec(flush: TlbFlush) -> TlbScope {
    match flush {
        TlbFlush::All { scope } => scope,
        TlbFlush::Page { scope, .. } => scope,
        TlbFlush::Range { scope, .. } => scope,
    }
}

pub fn flush_scope(flush: TlbFlush) -> (scope: TlbScope)
    ensures
        scope == flush_scope_spec(flush),
{
    match flush {
        TlbFlush::All { scope } => scope,
        TlbFlush::Page { scope, .. } => scope,
        TlbFlush::Range { scope, .. } => scope,
    }
}

/// A shootdown must name the kernel's address space if any, and pages and
/// ranges must be page-aligned.
pub open spec fn flush_valid(flush: TlbFlush) -> bool {
    let scope_ok = match flush_scope_spec(flush) {
        TlbScope::AddressSpace(asid) => asid == KERNEL_ASID,
        _ => true,
    };
    &&& scope_ok
    &&& match flush {
        TlbFlush::All { .. } => true,
        TlbFlush::Page { address, .. } => address % PAGE_SIZE == 0,
        TlbFlush::Range { start, end, .. } => start % PAGE_SIZE == 0 && end % PAGE_SIZE == 0 && start <= end,
    }
}

pub fn validate_flush(flush: TlbFlush) -> (valid: bool)
    ensures
        valid == flush_valid(flush),
{
    let scope_ok = match flush_scope(flush) {
        TlbScope::AddressSpace(asid) => asid == KERNEL_ASID,
        _ => true,
    };
    scope_ok && match flush {
        TlbFlush::All { .. } => true,
        TlbFlush::Page { address, .. } => address % PAGE_SIZE == 0,
        TlbFlush::Range { start, end, .. } => start % PAGE_SIZE == 0 && end % PAGE_SIZE == 0 && start <= end,
    }
}

/// The remote CPUs a flush must reach: none for a local flush, every other
/// online CPU otherwise.
pub fn target_mask(flush: TlbFlush, online: usize, current_bit: usize) -> (targets: usize)
    requires
        flush_valid(flush),
    ensures
        targets == (if flush_scope_spec(flush) is Local { 0 } else { online & !current_bit }),
{
    match flush_scope(flush) {
        TlbScope::Local => 0,
        TlbScope::AllCpus => online & !current_bit,
        TlbScope::AddressSpace(_) => online & !current_bit,
    }
}

/// Every kind of flush (whole TLB, one page, a range) has exactly the scope
/// it was built with, so a range or page flush of every CPU or of an address
/// space reaches the other CPUs just as a whole-TLB flush of that scope does.
pub proof fn lemma_flush_keeps_its_scope(scope: TlbScope, address: usize, start: usize, end: usize)
    ensures
        flush_scope_spec(TlbFlush::All { scope }) == scope,
        flush_scope_spec(TlbFlush::Page { scope, address }) == scope,
        flush_scope_spec(TlbFlush::Range { scope, start, end }) == scope,
        flush_scope_spec(TlbFlush::Range { scope, start, end }) == flush_scope_spec(TlbFlush::All { scope }),
{
}

/// (kind, start, end) of a flush for diagnostics: 1 all, 2 page, 3 range.
pub fn describe_flush(flush: TlbFlush) -> (description: (u8, usize, usize))
    ensures
        description == (match flush {
            TlbFlush::All { .. } => (1u8, 0usize, 0usize),
            TlbFlush::Page { address, .. } => (2u8, address,
                if address + PAGE_SIZE > usize::MAX { usize::MAX } else { (address + PAGE_SIZE) as usize }),
            TlbFlush::Range { start, end, .. } => (3u8, start, end),
        }),
{
    match flush {
        TlbFlush::All { .. } => (1, 0, 0),
        TlbFlush::Page { address, .. } => (2, address, if address > usize::MAX - PAGE_SIZE { usize::MAX } else { address + PAGE_SIZE }),
        TlbFlush::Range { start, end, .. } => (3, start, end),
    }
}

pub fn flush_kind_name(kind: u8) -> (name: &'static str)
    ensures
        name@ == (if kind == 1 { "all"@ } else if kind == 2 { "page"@ } else if kind == 3 { "range"@ } else { "unknown"@ }),
{
    if kind == 1 {
        "all"
    } else if kind == 2 {
        "page"
    } else if kind == 3 {
        "range"
    } else {
        "unknown"
    }
}

/// The mask bit of `cpu`.
pub fn cpu_bit(cpu: CpuId) -> (bit: usize)
    requires
        cpu.0 < MAX_CPUS,
    ensures
        bit == 1usize << cpu.0,
{
    1usize << cpu.0
}

/// Whether `now` is at or past `deadline` on a wrapping counter.
pub fn deadline_reached(now: u64, deadline: u64) -> (reached: bool)
    ensures
        reached == (vstd::wrapping::u64_specs::wrapping_sub(now, deadline) < 0x8000_0000_0000_0000u64),
{
    now.wrapping_sub(deadline) < 0x8000_0000_0000_0000u64
}

/// How a CPU carries out a range flush locally.
#[derive(Clone, Copy, Debug, PartialEq, Eq, Structural)]
pub enum RangeFlushPlan {
    /// An empty range flushes nothing.
    Nothing,
    /// Too many pages: flush everything of the scope.
    Everything,
    /// Flush `count` pages one by one from `start`.
    Pages { start: usize, count: usize },
}

pub fn plan_range_flush(start: usize, end: usize) -> (plan: RangeFlushPlan)
    requires
        start <= end,
    ensures
        plan == (if start == end {
            RangeFlushPlan::Nothing
        } else if ((end - start) as int) / (PAGE_SIZE as int) > RANGE_PAGE_FLUSH_LIMIT {
            RangeFlushPlan::Everything
        } else {
            RangeFlushPlan::Pages { start, count: (((end - start) as int) / (PAGE_SIZE as int)) as usize }
        }),
{
    if start == end {
        return RangeFlushPlan::Nothing;
    }
    let pages = (end - start) / PAGE_SIZE;
    if pages > RANGE_PAGE_FLUSH_LIMIT {
        RangeFlushPlan::Everything
    } else {
        RangeFlushPlan::Pages { start, count: pages }
    }
}

/// A published shootdown request.
#[derive(Clone, Copy, Debug, PartialEq, Eq, Structural)]
pub struct TlbRequest {
    pub flush: TlbFlush,
    pub targets: usize,
    pub id: u64,
}

/// One inbox slot: free, being filled by an initiator, or holding a
/// request for its CPU; `acked` is set by that CPU once it flushed.
#[derive(Clone, Copy, Debug, PartialEq, Eq, Structural)]
pub struct TlbSlot {
    pub state: u8,
    pub acked: usize,
    pub request: Option<TlbRequest>,
}

/// Every CPU's inbox and the flush counters.
pub struct TlbInboxes {
    slots: Vec<TlbSlot>,
    remote_flushes: Vec<u64>,
    completed: u64,
    next_request_id: u64,
}

pub open spec fn slot_index(cpu: int, index: int) -> int {
    cpu * TLB_RING_SLOTS + index
}

proof fn lemma_slot_index(cpu: int, index: int)
    requires
        0 <= cpu < MAX_CPUS,
        0 <= index < TLB_RING_SLOTS,
    ensures
        0 <= slot_index(cpu, index) < MAX_CPUS * TLB_RING_SLOTS,
        forall|c: int, i: int| 0 <= c < MAX_CPUS && 0 <= i < TLB_RING_SLOTS && (c != cpu || i != index)
            ==> #[trigger] slot_index(c, i) != slot_index(cpu, index),
{
    assert(0 <= cpu * TLB_RING_SLOTS + index < MAX_CPUS * TLB_RING_SLOTS) by (nonlinear_arith)
        requires 0 <= cpu < MAX_CPUS, 0 <= index < TLB_RING_SLOTS;
    assert forall|c: int, i: int| 0 <= c < MAX_CPUS && 0 <= i < TLB_RING_SLOTS && (c != cpu || i != index)
        implies #[trigger] slot_index(c, i) != slot_index(cpu, index) by {
        if c < cpu {
            assert(c * TLB_RING_SLOTS + i < cpu * TLB_RING_SLOTS) by (nonlinear_arith) requires c < cpu, 0 <= i < TLB_RING_SLOTS;
        } else if c > cpu {
            assert(cpu * TLB_RING_SLOTS + index < c * TLB_RING_SLOTS) by (nonlinear_arith)
                requires cpu < c, 0 <= index < TLB_RING_SLOTS;
        }
    }
}

impl TlbInboxes {
    pub closed spec fn slot(&self, cpu: int, index: int) -> TlbSlot {
        self.slots@[slot_index(cpu, index)]
    }

    pub closed spec fn spec_remote_flushes(&self, cpu: int) -> u64 {
        self.remote_flushes@[cpu]
    }

    pub closed spec fn spec_completed(&self) -> u64 {
        self.completed
    }

    pub closed spec fn spec_last_request_id(&self) -> u64 {
        self.next_request_id
    }

    /// Ready slots hold a request that targets their CPU.
    pub closed spec fn wf(&self) -> bool {
        &&& self.slots@.len() == MAX_CPUS * TLB_RING_SLOTS
        &&& self.remote_flushes@.len() == MAX_CPUS
        &&& forall|c: int, i: int| 0 <= c < MAX_CPUS && 0 <= i < TLB_RING_SLOTS && #[trigger] self.slot(c, i).state == SLOT_READY
            ==> self.slot(c, i).request is Some && self.slot(c, i).request.unwrap().targets & (1usize << c as usize) != 0
    }

    /// Every slot free, nothing counted.
    pub fn new() -> (inboxes: TlbInboxes)
        ensures
            inboxes.wf(),
            inboxes.spec_completed() == 0,
            forall|c: int, i: int| 0 <= c < MAX_CPUS && 0 <= i < TLB_RING_SLOTS ==> #[trigger] inboxes.slot(c, i).state == SLOT_FREE,
            forall|c: int| 0 <= c < MAX_CPUS ==> #[trigger] inboxes.spec_remote_flushes(c) == 0,
    {
        let mut slots: Vec<TlbSlot> = Vec::new();
        let mut k: usize = 0;
        while k < MAX_CPUS * TLB_RING_SLOTS
            invariant
                k <= MAX_CPUS * TLB_RING_SLOTS,
                slots@.len() == k,
                forall|j: int| 0 <= j < k ==> #[trigger] slots@[j].state == SLOT_FREE,
            decreases MAX_CPUS * TLB_RING_SLOTS - k,
        {
            slots.push(TlbSlot { state: SLOT_FREE, acked: 0, request: None });
            k = k + 1;
        }
        let mut remote_flushes: Vec<u64> = Vec::new();
        let mut c: usize = 0;
        while c < MAX_CPUS
            invariant
                c <= MAX_CPUS,
                remote_flushes@.len() == c,
                forall|j: int| 0 <= j < c ==> #[trigger] remote_flushes@[j] == 0,
            decreases MAX_CPUS - c,
        {
            remote_flushes.push(0);
            c = c + 1;
        }
        let inboxes = TlbInboxes { slots, remote_flushes, completed: 0, next_request_id: 0 };
        proof {
            assert forall|c: int, i: int| 0 <= c < MAX_CPUS && 0 <= i < TLB_RING_SLOTS implies #[trigger] inboxes.slot(c, i).state == SLOT_FREE by {
                lemma_slot_index(c, i);
            }
        }
        inboxes
    }

    /// The next request id (never zero).
    pub fn next_request_id(&mut self) -> (id: u64)
        requires
            old(self).wf(),
        ensures
            final(self).wf(),
            id != 0 ==> id == vstd::wrapping::u64_specs::wrapping_add(old(self).spec_last_request_id(), 1),
            id == 0 ==> vstd::wrapping::u64_specs::wrapping_add(old(self).spec_last_request_id(), 1) == 0,
            forall|c: int, i: int| #[trigger] final(self).slot(c, i) == old(self).slot(c, i),
            final(self).spec_completed() == old(self).spec_completed(),
            forall|c: int| #[trigger] final(self).spec_remote_flushes(c) == old(self).spec_remote_flushes(c),
    {
        self.next_request_id = self.next_request_id.wrapping_add(1);
        proof {
            assert(self.slots@ == old(self).slots@);
            assert forall|c: int, i: int| #[trigger] self.slot(c, i) == old(self).slot(c, i) by {}
        }
        self.next_request_id
    }

    /// Claims the first free slot of `cpu`'s inbox for publishing; `None`
    /// when all are in flight (the initiator spins and retries).
    pub fn acquire_slot(&mut self, cpu: CpuId) -> (index: Option<u8>)
        requires
            old(self).wf(),
            cpu.0 < MAX_CPUS,
        ensures
            final(self).wf(),
            index is None ==> *final(self) == *old(self)
                && forall|i: int| 0 <= i < TLB_RING_SLOTS ==> #[trigger] old(self).slot(cpu.0 as int, i).state != SLOT_FREE,
            index matches Some(i) ==> i < TLB_RING_SLOTS
                && old(self).slot(cpu.0 as int, i as int).state == SLOT_FREE
                && (forall|j: int| 0 <= j < i ==> #[trigger] old(self).slot(cpu.0 as int, j).state != SLOT_FREE)
                && final(self).slot(cpu.0 as int, i as int) == (TlbSlot { state: SLOT_PUBLISHING, acked: 0,
                    ..old(self).slot(cpu.0 as int, i as int) })
                && forall|c: int, j: int| 0 <= c < MAX_CPUS && 0 <= j < TLB_RING_SLOTS && (c != cpu.0 || j != i)
                    ==> #[trigger] final(self).slot(c, j) == old(self).slot(c, j),
            final(self).spec_completed() == old(self).spec_completed(),
            forall|c: int| #[trigger] final(self).spec_remote_flushes(c) == old(self).spec_remote_flushes(c),
    {
        let mut index: usize = 0;
        while index < TLB_RING_SLOTS
            invariant
                index <= TLB_RING_SLOTS,
                self.wf(),
                *self == *old(self),
                cpu.0 < MAX_CPUS,
                forall|j: int| 0 <= j < index ==> #[trigger] old(self).slot(cpu.0 as int, j).state != SLOT_FREE,
            decreases TLB_RING_SLOTS - index,
        {
            proof {
                lemma_slot_index(cpu.0 as int, index as int);
            }
            let position = cpu.0 * TLB_RING_SLOTS + index;
            let slot = self.slots[position];
            if slot.state == SLOT_FREE {
                self.slots.set(position, TlbSlot { state: SLOT_PUBLISHING, acked: 0, ..slot });
                proof {
                    assert forall|c: int, j: int| 0 <= c < MAX_CPUS && 0 <= j < TLB_RING_SLOTS && (c != cpu.0 || j != index)
                        implies #[trigger] self.slot(c, j) == old(self).slot(c, j) by {
                        lemma_slot_index(c, j);
                    }
                    assert forall|c: int, i: int| 0 <= c < MAX_CPUS && 0 <= i < TLB_RING_SLOTS && #[trigger] self.slot(c, i).state == SLOT_READY
                        implies self.slot(c, i).request is Some && self.slot(c, i).request.unwrap().targets & (1usize << c as usize) != 0 by {
                        lemma_slot_index(c, i);
                    }
                }
                return Some(index as u8);
            }
            index = index + 1;
        }
        None
    }

    /// Publishes `request` in the slot that the initiator claimed.
    pub fn publish(&mut self, cpu: CpuId, index: u8, request: TlbRequest)
        requires
            old(self).wf(),
            cpu.0 < MAX_CPUS,
            index < TLB_RING_SLOTS,
            old(self).slot(cpu.0 as int, index as int).state == SLOT_PUBLISHING,
            old(self).slot(cpu.0 as int, index as int).acked == 0,
            request.targets & (1usize << cpu.0) != 0,
        ensures
            final(self).wf(),
            final(self).slot(cpu.0 as int, index as int) == (TlbSlot { state: SLOT_READY, acked: 0, request: Some(request) }),
            forall|c: int, j: int| 0 <= c < MAX_CPUS && 0 <= j < TLB_RING_SLOTS && (c != cpu.0 || j != index)
                ==> #[trigger] final(self).slot(c, j) == old(self).slot(c, j),
            final(self).spec_completed() == old(self).spec_completed(),
            forall|c: int| #[trigger] final(self).spec_remote_flushes(c) == old(self).spec_remote_flushes(c),
    {
        proof {
            lemma_slot_index(cpu.0 as int, index as int);
        }
        let position = cpu.0 * TLB_RING_SLOTS + index as usize;
        self.slots.set(position, TlbSlot { state: SLOT_READY, acked: 0, request: Some(request) });
        proof {
            assert forall|c: int, j: int| 0 <= c < MAX_CPUS && 0 <= j < TLB_RING_SLOTS && (c != cpu.0 || j != index)
                implies #[trigger] self.slot(c, j) == old(self).slot(c, j) by {
                lemma_slot_index(c, j);
            }
            assert forall|c: int, i: int| 0 <= c < MAX_CPUS && 0 <= i < TLB_RING_SLOTS && #[trigger] self.slot(c, i).state == SLOT_READY
                implies self.slot(c, i).request is Some && self.slot(c, i).request.unwrap().targets & (1usize << c as usize) != 0 by {
                lemma_slot_index(c, i);
            }
        }
    }

    /// The IPI handler of `cpu`: every ready request it has not yet
    /// acknowledged is acknowledged and counted, and its flush is returned
    /// to be carried out locally, in slot order.
    pub fn handle_shootdown_ipi(&mut self, cpu: CpuId) -> (flushes: Vec<TlbFlush>)
        requires
            old(self).wf(),
            cpu.0 < MAX_CPUS,
            old(self).spec_remote_flushes(cpu.0 as int) + TLB_RING_SLOTS <= u64::MAX,
        ensures
            final(self).wf(),
            flushes@.len() <= TLB_RING_SLOTS,
            final(self).spec_remote_flushes(cpu.0 as int) == old(self).spec_remote_flushes(cpu.0 as int) + flushes@.len(),
            forall|c: int| 0 <= c < MAX_CPUS && c != cpu.0 ==> #[trigger] final(self).spec_remote_flushes(c) == old(self).spec_remote_flushes(c),
            forall|i: int| 0 <= i < TLB_RING_SLOTS ==> {
                let before = old(self).slot(cpu.0 as int, i);
                let after = #[trigger] final(self).slot(cpu.0 as int, i);
                if before.state == SLOT_READY && before.acked & (1usize << cpu.0) == 0 {
                    after == TlbSlot { acked: before.acked | (1usize << cpu.0), ..before }
                } else {
                    after == before
                }
            },
            forall|c: int, j: int| 0 <= c < MAX_CPUS && c != cpu.0 && 0 <= j < TLB_RING_SLOTS
                ==> #[trigger] final(self).slot(c, j) == old(self).slot(c, j),
            final(self).spec_completed() == old(self).spec_completed(),
    {
        let bit = 1usize << cpu.0;
        let mut flushes: Vec<TlbFlush> = Vec::new();
        let mut index: usize = 0;
        while index < TLB_RING_SLOTS
            invariant
                index <= TLB_RING_SLOTS,
                self.wf(),
                cpu.0 < MAX_CPUS,
                bit == 1usize << cpu.0,
                flushes@.len() <= index,
                old(self).spec_remote_flushes(cpu.0 as int) + TLB_RING_SLOTS <= u64::MAX,
                self.spec_remote_flushes(cpu.0 as int) == old(self).spec_remote_flushes(cpu.0 as int) + flushes@.len(),
                forall|c: int| 0 <= c < MAX_CPUS && c != cpu.0 ==> #[trigger] self.spec_remote_flushes(c) == old(self).spec_remote_flushes(c),
                forall|i: int| 0 <= i < index ==> {
                    let before = old(self).slot(cpu.0 as int, i);
                    let after = #[trigger] self.slot(cpu.0 as int, i);
                    if before.state == SLOT_READY && before.acked & bit == 0 {
                        after == TlbSlot { acked: before.acked | bit, ..before }
                    } else {
                        after == before
                    }
                },
                forall|i: int| index <= i < TLB_RING_SLOTS ==> #[trigger] self.slot(cpu.0 as int, i) == old(self).slot(cpu.0 as int, i),
                forall|c: int, j: int| 0 <= c < MAX_CPUS && c != cpu.0 && 0 <= j < TLB_RING_SLOTS
                    ==> #[trigger] self.slot(c, j) == old(self).slot(c, j),
                self.spec_completed() == old(self).spec_completed(),
            decreases TLB_RING_SLOTS - index,
        {
            proof {
                lemma_slot_index(cpu.0 as int, index as int);
            }
            let position = cpu.0 * TLB_RING_SLOTS + index;
            let slot = self.slots[position];
            let ghost before_iteration = *self;
            proof {
                assert(self.slot(cpu.0 as int, index as int) == slot);
            }
            if slot.state == SLOT_READY && slot.acked & bit == 0 {
                let request = slot.request.unwrap();
                flushes.push(request.flush);
                let count = self.remote_flushes[cpu.0];
                self.remote_flushes.set(cpu.0, count + 1);
                self.slots.set(position, TlbSlot { acked: slot.acked | bit, ..slot });
                proof {
                    assert forall|c: int, j: int| 0 <= c < MAX_CPUS && 0 <= j < TLB_RING_SLOTS && (c != cpu.0 || j != index)
                        implies #[trigger] self.slot(c, j) == before_iteration.slot(c, j) by {
                        lemma_slot_index(c, j);
                    }
                    assert forall|c: int| 0 <= c < MAX_CPUS && c != cpu.0 implies #[trigger] self.spec_remote_flushes(c)
                        == before_iteration.spec_remote_flushes(c) by {}
                    assert forall|c: int, i: int| 0 <= c < MAX_CPUS && 0 <= i < TLB_RING_SLOTS && #[trigger] self.slot(c, i).state == SLOT_READY
                        implies self.slot(c, i).request is Some && self.slot(c, i).request.unwrap().targets & (1usize << c as usize) != 0 by {
                        lemma_slot_index(c, i);
                    }
                }
            }
            index = index + 1;
        }
        flushes
    }

    /// The targets of a pending request (its claimed slot per target CPU,
    /// `slots[c]`) that have acknowledged it.
    pub fn completed_mask(&self, targets: usize, slots: &[u8]) -> (completed: usize)
        requires
            self.wf(),
            slots@.len() == MAX_CPUS,
            forall|c: int| 0 <= c < MAX_CPUS ==> #[trigger] slots@[c] < TLB_RING_SLOTS,
        ensures
            forall|c: usize| c < MAX_CPUS ==> (#[trigger] (completed & (1usize << c)) != 0) == (targets & (1usize << c) != 0
                && self.slot(c as int, slots@[c as int] as int).acked != 0),
    {
        let mut completed: usize = 0;
        let mut c: usize = 0;
        proof {
            assert forall|k: usize| k < MAX_CPUS implies (#[trigger] (completed & (1usize << k))) == 0 by {
                assert(k < 8 ==> (0usize & (1usize << k)) == 0) by (bit_vector);
            }
        }
        while c < MAX_CPUS
            invariant
                c <= MAX_CPUS,
                self.wf(),
                slots@.len() == MAX_CPUS,
                forall|k: int| 0 <= k < MAX_CPUS ==> #[trigger] slots@[k] < TLB_RING_SLOTS,
                forall|k: usize| k < c ==> (#[trigger] (completed & (1usize << k)) != 0) == (targets & (1usize << k) != 0
                    && self.slot(k as int, slots@[k as int] as int).acked != 0),
                forall|k: usize| c <= k < MAX_CPUS ==> (#[trigger] (completed & (1usize << k))) == 0,
            decreases MAX_CPUS - c,
        {
            proof {
                lemma_slot_index(c as int, slots@[c as int] as int);
            }
            let position = c * TLB_RING_SLOTS + slots[c] as usize;
            let bit = 1usize << c;
            if targets & bit != 0 && self.slots[position].acked != 0 {
                let previous = completed;
                completed = completed | bit;
                proof {
                    assert forall|k: usize| k < MAX_CPUS && k != c implies ((completed & (1usize << k)) != 0)
                        == ((previous & (1usize << k)) != 0) by {
                        assert(k != c && k < 8 && c < 8 ==> ((previous | (1usize << c)) & (1usize << k)) == (previous & (1usize << k)))
                            by (bit_vector);
                    }
                    assert((completed & (1usize << c)) != 0) by (bit_vector) requires completed == previous | (1usize << c), c < 8;
                }
            }
            c = c + 1;
        }
        completed
    }

    /// Returns a finished request's slots to the free state.
    pub fn free_slot(&mut self, cpu: CpuId, index: u8)
        requires
            old(self).wf(),
            cpu.0 < MAX_CPUS,
            index < TLB_RING_SLOTS,
            old(self).slot(cpu.0 as int, index as int).state == SLOT_READY,
        ensures
            final(self).wf(),
            final(self).slot(cpu.0 as int, index as int) == (TlbSlot { state: SLOT_FREE, ..old(self).slot(cpu.0 as int, index as int) }),
            forall|c: int, j: int| 0 <= c < MAX_CPUS && 0 <= j < TLB_RING_SLOTS && (c != cpu.0 || j != index)
                ==> #[trigger] final(self).slot(c, j) == old(self).slot(c, j),
            final(self).spec_completed() == old(self).spec_completed(),
            forall|c: int| #[trigger] final(self).spec_remote_flushes(c) == old(self).spec_remote_flushes(c),
    {
        proof {
            lemma_slot_index(cpu.0 as int, index as int);
        }
        let position = cpu.0 * TLB_RING_SLOTS + index as usize;
        let slot = self.slots[position];
        self.slots.set(position, TlbSlot { state: SLOT_FREE, ..slot });
        proof {
            assert forall|c: int, j: int| 0 <= c < MAX_CPUS && 0 <= j < TLB_RING_SLOTS && (c != cpu.0 || j != index)
                implies #[trigger] self.slot(c, j) == old(self).slot(c, j) by {
                lemma_slot_index(c, j);
            }
            assert forall|c: int, i: int| 0 <= c < MAX_CPUS && 0 <= i < TLB_RING_SLOTS && #[trigger] self.slot(c, i).state == SLOT_READY
                implies self.slot(c, i).request is Some && self.slot(c, i).request.unwrap().targets & (1usize << c as usize) != 0 by {
                lemma_slot_index(c, i);
            }
        }
    }

    /// Counts one finished shootdown.
    pub fn record_completed(&mut self)
        requires
            old(self).wf(),
            old(self).spec_completed() < u64::MAX,
        ensures
            final(self).wf(),
            final(self).spec_completed() == old(self).spec_completed() + 1,
            forall|c: int, j: int| #[trigger] final(self).slot(c, j) == old(self).slot(c, j),
            forall|c: int| #[trigger] final(self).spec_remote_flushes(c) == old(self).spec_remote_flushes(c),
    {
        self.completed = self.completed + 1;
        proof {
            assert(self.slots@ == old(self).slots@);
            assert forall|c: int, i: int| #[trigger] self.slot(c, i) == old(self).slot(c, i) by {}
        }
    }
}

/// Shootdowns finished so far.
pub fn completed_shootdowns(inboxes: &TlbInboxes) -> (count: u64)
    ensures
        count == inboxes.spec_completed(),
{
    inboxes.completed
}

/// Requests from other CPUs that `cpu` has flushed.
pub fn remote_flush_count(inboxes: &TlbInboxes, cpu: CpuId) -> (count: u64)
    requires
        inboxes.wf(),
        cpu.0 < MAX_CPUS,
    ensures
        count == inboxes.spec_remote_flushes(cpu.0 as int),
{
    inboxes.remote_flushes[cpu.0]
}

} // verus!
