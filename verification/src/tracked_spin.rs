//! Per-CPU bookkeeping of held tracked spin locks: the nesting depth, the
//! lock-class keys of the innermost few for diagnostics, and the depth of
//! preemptible locks that keep the scheduler from switching the holder away.
use vstd::prelude::*;

use crate::smp::{CpuId, MAX_CPUS};

verus! {

/// How many of the innermost held locks keep their key for diagnostics.
pub const DIAGNOSTIC_DEPTH: usize = 4;

/// The diagnostic key of a lock class.
pub open spec fn class_key(rank: usize, order: usize) -> int {
    rank * 1024 + order
}

/// Held-lock records of every CPU.
pub struct HeldLocks {
    depth: Vec<usize>,
    keys: Vec<usize>,
    preemptible: Vec<usize>,
}

impl HeldLocks {
    pub closed spec fn spec_depth(&self, cpu: int) -> usize {
        self.depth@[cpu]
    }

    /// Key slot `index` (below `DIAGNOSTIC_DEPTH`) of `cpu`.
    pub closed spec fn spec_key(&self, cpu: int, index: int) -> usize {
        self.keys@[cpu * DIAGNOSTIC_DEPTH + index]
    }

    pub closed spec fn spec_preemptible(&self, cpu: int) -> usize {
        self.preemptible@[cpu]
    }

    pub closed spec fn wf(&self) -> bool {
        &&& self.depth@.len() == MAX_CPUS
        &&& self.keys@.len() == MAX_CPUS * DIAGNOSTIC_DEPTH
        &&& self.preemptible@.len() == MAX_CPUS
    }

    /// Every CPU holds nothing.
    pub fn new() -> (held: HeldLocks)
        ensures
            held.wf(),
            forall|c: int| 0 <= c < MAX_CPUS ==> #[trigger] held.spec_depth(c) == 0 && held.spec_preemptible(c) == 0,
            forall|c: int, i: int| 0 <= c < MAX_CPUS && 0 <= i < DIAGNOSTIC_DEPTH ==> #[trigger] held.spec_key(c, i) == 0,
    {
        let mut depth: Vec<usize> = Vec::new();
        let mut preemptible: Vec<usize> = Vec::new();
        let mut keys: Vec<usize> = Vec::new();
        let mut c: usize = 0;
        while c < MAX_CPUS
            invariant
                c <= MAX_CPUS,
                depth@.len() == c,
                preemptible@.len() == c,
                forall|k: int| 0 <= k < c ==> #[trigger] depth@[k] == 0 && preemptible@[k] == 0,
            decreases MAX_CPUS - c,
        {
            depth.push(0);
            preemptible.push(0);
            c = c + 1;
        }
        let mut k: usize = 0;
        while k < MAX_CPUS * DIAGNOSTIC_DEPTH
            invariant
                k <= MAX_CPUS * DIAGNOSTIC_DEPTH,
                keys@.len() == k,
                forall|j: int| 0 <= j < k ==> #[trigger] keys@[j] == 0,
            decreases MAX_CPUS * DIAGNOSTIC_DEPTH - k,
        {
            keys.push(0);
            k = k + 1;
        }
        let held = HeldLocks { depth, keys, preemptible };
        proof {
            assert forall|c: int, i: int| 0 <= c < MAX_CPUS && 0 <= i < DIAGNOSTIC_DEPTH implies #[trigger] held.spec_key(c, i) == 0 by {
                assert(0 <= c * DIAGNOSTIC_DEPTH + i < MAX_CPUS * DIAGNOSTIC_DEPTH) by (nonlinear_arith)
                    requires 0 <= c < MAX_CPUS, 0 <= i < DIAGNOSTIC_DEPTH;
            }
        }
        held
    }
}

proof fn lemma_key_index(cpu: int, index: int)
    requires
        0 <= cpu < MAX_CPUS,
        0 <= index < DIAGNOSTIC_DEPTH,
    ensures
        0 <= cpu * DIAGNOSTIC_DEPTH + index < MAX_CPUS * DIAGNOSTIC_DEPTH,
        forall|c: int, i: int| 0 <= c < MAX_CPUS && 0 <= i < DIAGNOSTIC_DEPTH && (c != cpu || i != index)
            ==> #[trigger] (c * DIAGNOSTIC_DEPTH + i) != cpu * DIAGNOSTIC_DEPTH + index,
{
    assert(0 <= cpu * DIAGNOSTIC_DEPTH + index < MAX_CPUS * DIAGNOSTIC_DEPTH) by (nonlinear_arith)
        requires 0 <= cpu < MAX_CPUS, 0 <= index < DIAGNOSTIC_DEPTH;
    assert forall|c: int, i: int| 0 <= c < MAX_CPUS && 0 <= i < DIAGNOSTIC_DEPTH && (c != cpu || i != index)
        implies #[trigger] (c * DIAGNOSTIC_DEPTH + i) != cpu * DIAGNOSTIC_DEPTH + index by {
        if c == cpu {
        } else if c < cpu {
            assert(c * DIAGNOSTIC_DEPTH + i < cpu * DIAGNOSTIC_DEPTH) by (nonlinear_arith) requires c < cpu, 0 <= i < DIAGNOSTIC_DEPTH;
        } else {
            assert(cpu * DIAGNOSTIC_DEPTH + index < c * DIAGNOSTIC_DEPTH) by (nonlinear_arith)
                requires cpu < c, 0 <= index < DIAGNOSTIC_DEPTH;
        }
    }
}

/// The nesting depth of `cpu` and the key of its innermost held lock (0
/// when nothing is held or the innermost lock is deeper than the diagnostic
/// record).
pub fn held_diagnostic(held: &HeldLocks, cpu: CpuId) -> (diagnostic: (usize, usize))
    requires
        held.wf(),
        cpu.0 < MAX_CPUS,
    ensures
        diagnostic.0 == held.spec_depth(cpu.0 as int),
        diagnostic.1 == (if 1 <= held.spec_depth(cpu.0 as int) <= DIAGNOSTIC_DEPTH {
            held.spec_key(cpu.0 as int, held.spec_depth(cpu.0 as int) - 1)
        } else {
            0
        }),
{
    let depth = held.depth[cpu.0];
    if depth >= 1 && depth - 1 < DIAGNOSTIC_DEPTH {
        proof {
            lemma_key_index(cpu.0 as int, depth - 1);
        }
        (depth, held.keys[cpu.0 * DIAGNOSTIC_DEPTH + (depth - 1)])
    } else {
        (depth, 0)
    }
}

/// A lock of class (`rank`, `order`) was taken on `cpu`: the depth grows and
/// the key is recorded while the record has room.
pub fn record_acquire(held: &mut HeldLocks, cpu: CpuId, rank: usize, order: usize)
    requires
        old(held).wf(),
        cpu.0 < MAX_CPUS,
        old(held).spec_depth(cpu.0 as int) < usize::MAX,
        class_key(rank, order) <= usize::MAX,
    ensures
        final(held).wf(),
        final(held).spec_depth(cpu.0 as int) == old(held).spec_depth(cpu.0 as int) + 1,
        forall|c: int| 0 <= c < MAX_CPUS && c != cpu.0 ==> #[trigger] final(held).spec_depth(c) == old(held).spec_depth(c),
        forall|c: int| 0 <= c < MAX_CPUS ==> #[trigger] final(held).spec_preemptible(c) == old(held).spec_preemptible(c),
        forall|c: int, i: int| 0 <= c < MAX_CPUS && 0 <= i < DIAGNOSTIC_DEPTH ==> #[trigger] final(held).spec_key(c, i) == (
            if c == cpu.0 && i == old(held).spec_depth(cpu.0 as int) { class_key(rank, order) } else { old(held).spec_key(c, i) as int }),
{
    let depth = held.depth[cpu.0];
    held.depth.set(cpu.0, depth + 1);
    if depth < DIAGNOSTIC_DEPTH {
        proof {
            lemma_key_index(cpu.0 as int, depth as int);
        }
        held.keys.set(cpu.0 * DIAGNOSTIC_DEPTH + depth, rank * 1024 + order);
    }
    proof {
        assert forall|c: int, i: int| 0 <= c < MAX_CPUS && 0 <= i < DIAGNOSTIC_DEPTH implies #[trigger] held.spec_key(c, i) == (
            if c == cpu.0 && i == depth { class_key(rank, order) } else { old(held).spec_key(c, i) as int }) by {
            lemma_key_index(c, i);
            if depth < DIAGNOSTIC_DEPTH {
                lemma_key_index(cpu.0 as int, depth as int);
            }
        }
    }
}

/// The innermost lock of `cpu` was released: its key is cleared and the
/// depth shrinks.
pub fn record_release(held: &mut HeldLocks, cpu: CpuId)
    requires
        old(held).wf(),
        cpu.0 < MAX_CPUS,
        old(held).spec_depth(cpu.0 as int) > 0,
    ensures
        final(held).wf(),
        final(held).spec_depth(cpu.0 as int) == old(held).spec_depth(cpu.0 as int) - 1,
        forall|c: int| 0 <= c < MAX_CPUS && c != cpu.0 ==> #[trigger] final(held).spec_depth(c) == old(held).spec_depth(c),
        forall|c: int| 0 <= c < MAX_CPUS ==> #[trigger] final(held).spec_preemptible(c) == old(held).spec_preemptible(c),
        forall|c: int, i: int| 0 <= c < MAX_CPUS && 0 <= i < DIAGNOSTIC_DEPTH ==> #[trigger] final(held).spec_key(c, i) == (
            if c == cpu.0 && i == old(held).spec_depth(cpu.0 as int) - 1 { 0 } else { old(held).spec_key(c, i) as int }),
{
    let depth = held.depth[cpu.0];
    held.depth.set(cpu.0, depth - 1);
    if depth <= DIAGNOSTIC_DEPTH {
        proof {
            lemma_key_index(cpu.0 as int, depth - 1);
        }
        held.keys.set(cpu.0 * DIAGNOSTIC_DEPTH + (depth - 1), 0);
    }
    proof {
        assert forall|c: int, i: int| 0 <= c < MAX_CPUS && 0 <= i < DIAGNOSTIC_DEPTH implies #[trigger] held.spec_key(c, i) == (
            if c == cpu.0 && i == depth - 1 { 0 } else { old(held).spec_key(c, i) as int }) by {
            lemma_key_index(c, i);
            if depth <= DIAGNOSTIC_DEPTH {
                lemma_key_index(cpu.0 as int, depth - 1);
            }
        }
    }
}

/// A preemptible tracked lock was taken on `cpu`.
pub fn record_preemptible_acquire(held: &mut HeldLocks, cpu: CpuId)
    requires
        old(held).wf(),
        cpu.0 < MAX_CPUS,
        old(held).spec_preemptible(cpu.0 as int) < usize::MAX,
    ensures
        final(held).wf(),
        final(held).spec_preemptible(cpu.0 as int) == old(held).spec_preemptible(cpu.0 as int) + 1,
        forall|c: int| 0 <= c < MAX_CPUS && c != cpu.0 ==> #[trigger] final(held).spec_preemptible(c) == old(held).spec_preemptible(c),
        forall|c: int| 0 <= c < MAX_CPUS ==> #[trigger] final(held).spec_depth(c) == old(held).spec_depth(c),
{
    let depth = held.preemptible[cpu.0];
    held.preemptible.set(cpu.0, depth + 1);
}

/// A preemptible tracked lock was released on `cpu`; the depth must be
/// positive: releasing a lock that is not held is a bug, ruled out by the
/// precondition.
pub fn record_preemptible_release(held: &mut HeldLocks, cpu: CpuId)
    requires
        old(held).wf(),
        cpu.0 < MAX_CPUS,
        old(held).spec_preemptible(cpu.0 as int) >= 1,
    ensures
        final(held).wf(),
        final(held).spec_preemptible(cpu.0 as int) == old(held).spec_preemptible(cpu.0 as int) - 1,
        forall|c: int| 0 <= c < MAX_CPUS && c != cpu.0 ==> #[trigger] final(held).spec_preemptible(c) == old(held).spec_preemptible(c),
        forall|c: int| 0 <= c < MAX_CPUS ==> #[trigger] final(held).spec_depth(c) == old(held).spec_depth(c),
{
    let depth = held.preemptible[cpu.0];
    held.preemptible.set(cpu.0, depth - 1);
}

/// How many preemptible tracked locks `cpu` holds.
pub fn preemptible_lock_depth(held: &HeldLocks, cpu: CpuId) -> (depth: usize)
    requires
        held.wf(),
        cpu.0 < MAX_CPUS,
    ensures
        depth == held.spec_preemptible(cpu.0 as int),
{
    held.preemptible[cpu.0]
}

} // verus!
