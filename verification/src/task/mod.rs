//! The kernel scheduler's bookkeeping: task identities, per-CPU run queues
//! and preemption/interrupt nesting counters.
use vstd::prelude::*;

use crate::smp::{
    is_online, is_scheduler_active, mark_current_scheduler_registered, online_spec, scheduler_active_spec, CpuId, CpuRegistry,
    CpuState, MAX_CPUS,
};

pub mod wait_queue;

use std::collections::VecDeque;

use wait_queue::WaitQueue;

verus! {

#[derive(Clone, Copy, Debug, PartialEq, Eq, Structural)]
pub struct TaskId(pub usize);

impl TaskId {
    pub open spec fn spec_raw(self) -> usize {
        self.0
    }

    pub fn raw(self) -> (raw: usize)
        ensures
            raw == self.spec_raw(),
    {
        self.0
    }

    pub fn from_raw(raw: usize) -> (id: TaskId)
        ensures
            id.spec_raw() == raw,
    {
        TaskId(raw)
    }
}

pub const MAX_TASKS: usize = 1024;
pub const DEFAULT_TIME_SLICE_TICKS: u32 = 4;

#[derive(Clone, Copy, Debug, PartialEq, Eq, Structural)]
pub enum TaskState {
    Runnable,
    Running(CpuId),
    SwitchingOut(CpuId),
    Blocked,
    Idle(CpuId),
    Exited,
}

#[derive(Clone, Copy, Debug, PartialEq, Eq, Structural)]
pub enum TaskKind {
    Idle(CpuId),
    KernelThread,
    SystemThread,
    UserThread,
}

impl TaskKind {
    pub fn is_idle(self) -> (idle: bool)
        ensures
            idle == (self is Idle),
    {
        matches!(self, TaskKind::Idle(_))
    }

    pub fn is_counted_kernel_thread(self) -> (counted: bool)
        ensures
            counted == (self is KernelThread),
    {
        matches!(self, TaskKind::KernelThread)
    }
}

/// What the scheduler keeps of a task.
#[derive(Clone, Copy, Debug, PartialEq, Eq, Structural)]
pub struct TaskRecord {
    pub kind: TaskKind,
    pub state: TaskState,
    /// The CPU a pinned task must run on.
    pub affinity: Option<CpuId>,
    /// The CPU whose run queue holds the task.
    pub queued_on: Option<CpuId>,
    pub has_run: bool,
}

/// One CPU's scheduling state.
pub struct CpuScheduler {
    pub current: Option<TaskId>,
    pub idle: Option<TaskId>,
    pub run_queue: VecDeque<TaskId>,
    pub context_switches: u64,
    pub preemptions: u64,
    pub irq_depth: usize,
    pub preempt_count: usize,
    pub need_resched: bool,
    pub timeslice_remaining: u32,
    /// Nesting depth of migration pins taken on this CPU.
    pub migration_depth: usize,
    /// The task the outermost pin holds here, with its affinity before the pin.
    pub migration_pinned: Option<(TaskId, Option<CpuId>)>,
}

impl CpuScheduler {
    pub fn new() -> (state: CpuScheduler)
        ensures
            state.current is None,
            state.idle is None,
            state.run_queue@ == Seq::<TaskId>::empty(),
            state.context_switches == 0,
            state.preemptions == 0,
            state.irq_depth == 0,
            state.preempt_count == 0,
            !state.need_resched,
            state.timeslice_remaining == DEFAULT_TIME_SLICE_TICKS,
            state.migration_depth == 0,
            state.migration_pinned is None,
    {
        CpuScheduler {
            current: None,
            idle: None,
            run_queue: VecDeque::new(),
            context_switches: 0,
            preemptions: 0,
            irq_depth: 0,
            preempt_count: 0,
            need_resched: false,
            timeslice_remaining: DEFAULT_TIME_SLICE_TICKS,
            migration_depth: 0,
            migration_pinned: None,
        }
    }
}

/// A task switch chosen by the scheduler: save `previous`, resume `next`.
#[derive(Clone, Copy, Debug, PartialEq, Eq, Structural)]
pub struct SwitchPlan {
    pub previous: TaskId,
    pub next: TaskId,
}

/// What becomes of the task that switched out.
#[derive(Clone, Copy, Debug, PartialEq, Eq, Structural)]
pub enum SwitchDisposition {
    /// It gave the CPU up and stays runnable.
    Yield,
    /// It waits on a wait queue.
    Block,
    /// It has exited.
    Exit,
}

/// The task table and the per-CPU run queues.
pub struct Scheduler {
    pub tasks: Vec<Option<TaskRecord>>,
    pub cpus: Vec<CpuScheduler>,
    pub discovered_cpus: usize,
    pub live_kernel_threads: usize,
}

impl Scheduler {
    pub open spec fn queue(&self, cpu: int) -> Seq<TaskId> {
        self.cpus@[cpu].run_queue@
    }

    pub open spec fn record(&self, id: int) -> TaskRecord {
        self.tasks@[id].unwrap()
    }

    pub open spec fn exists_task(&self, id: int) -> bool {
        0 <= id < self.tasks@.len() && self.tasks@[id] is Some
    }

    /// Every queued task is runnable and recorded on exactly the queue that
    /// holds it, once; a pinned task is only ever queued on its own CPU.
    pub open spec fn queues_wf(&self) -> bool {
        &&& forall|c: int, k: int| 0 <= c < MAX_CPUS && 0 <= k < self.queue(c).len() ==> {
            let id = (#[trigger] self.queue(c)[k]).0 as int;
            &&& self.exists_task(id)
            &&& self.record(id).state == TaskState::Runnable
            &&& self.record(id).queued_on == Some(CpuId(c as usize))
        }
        &&& forall|c: int| 0 <= c < MAX_CPUS ==> (#[trigger] self.queue(c)).no_duplicates()
        &&& forall|id: int| #[trigger] self.exists_task(id) && self.record(id).queued_on is Some ==> {
            let c = self.record(id).queued_on.unwrap().0 as int;
            &&& 0 <= c < MAX_CPUS
            &&& self.queue(c).contains(TaskId(id as usize))
        }
        &&& forall|id: int| #[trigger] self.exists_task(id) && self.record(id).queued_on is Some
            && self.record(id).affinity is Some ==> self.record(id).affinity == self.record(id).queued_on
    }

    /// Idle tasks are never runnable (so never queued).
    pub open spec fn idle_wf(&self) -> bool {
        forall|id: int| #[trigger] self.exists_task(id) && self.record(id).kind is Idle ==> self.record(id).state != TaskState::Runnable
    }

    pub open spec fn wf(&self) -> bool {
        &&& self.cpus@.len() == MAX_CPUS
        &&& 1 <= self.discovered_cpus <= MAX_CPUS
        &&& 1 <= self.tasks@.len() <= MAX_TASKS
        &&& self.queues_wf()
        &&& self.idle_wf()
    }

    /// A change that keeps the tasks and every run queue keeps the invariant.
    pub proof fn lemma_wf_frame(&self, old: &Scheduler)
        requires
            old.wf(),
            self.tasks@ == old.tasks@,
            self.cpus@.len() == old.cpus@.len(),
            self.discovered_cpus == old.discovered_cpus,
            forall|c: int| 0 <= c < MAX_CPUS ==> #[trigger] self.cpus@[c].run_queue@ == old.cpus@[c].run_queue@,
        ensures
            self.wf(),
    {
        assert forall|c: int| 0 <= c < MAX_CPUS implies #[trigger] self.queue(c) == old.queue(c) by {}
        assert forall|id: int| #[trigger] self.exists_task(id) implies old.exists_task(id) && self.record(id) == old.record(id) by {}
    }

    /// Changing the affinity of a task that sits in no run queue keeps the
    /// invariant.
    pub proof fn lemma_wf_affinity(&self, old: &Scheduler, task: int, affinity: Option<CpuId>)
        requires
            old.wf(),
            old.exists_task(task),
            old.record(task).queued_on is None,
            self.tasks@ == old.tasks@.update(task, Some(TaskRecord { affinity, ..old.record(task) })),
            self.cpus@.len() == old.cpus@.len(),
            self.discovered_cpus == old.discovered_cpus,
            forall|c: int| 0 <= c < MAX_CPUS ==> #[trigger] self.cpus@[c].run_queue@ == old.cpus@[c].run_queue@,
        ensures
            self.wf(),
    {
        assert forall|c: int| 0 <= c < MAX_CPUS implies #[trigger] self.queue(c) == old.queue(c) by {}
        assert forall|id: int| #[trigger] self.exists_task(id) implies old.exists_task(id)
            && self.record(id).state == old.record(id).state
            && self.record(id).queued_on == old.record(id).queued_on
            && self.record(id).kind == old.record(id).kind
            && (id != task ==> self.record(id) == old.record(id)) by {}
        assert forall|c: int, k: int| 0 <= c < MAX_CPUS && 0 <= k < self.queue(c).len() implies {
            let id = (#[trigger] self.queue(c)[k]).0 as int;
            &&& self.exists_task(id)
            &&& self.record(id).state == TaskState::Runnable
            &&& self.record(id).queued_on == Some(CpuId(c as usize))
        } by {
            assert(self.queue(c)[k] == old.queue(c)[k]);
            let id = old.queue(c)[k].0 as int;
            assert(old.exists_task(id));
            assert(id != task);
        }
    }

    /// The per-CPU states other than `cpu` are as they were, and so are the
    /// queue and the tasks of `cpu`.
    pub open spec fn counters_only(&self, old: &Scheduler, cpu: int) -> bool {
        &&& self.tasks@ == old.tasks@
        &&& self.discovered_cpus == old.discovered_cpus
        &&& self.live_kernel_threads == old.live_kernel_threads
        &&& self.cpus@.len() == old.cpus@.len()
        &&& forall|c: int| 0 <= c < self.cpus@.len() && c != cpu ==> #[trigger] self.cpus@[c] == old.cpus@[c]
        &&& self.cpus@[cpu].run_queue@ == old.cpus@[cpu].run_queue@
        &&& self.cpus@[cpu].current == old.cpus@[cpu].current
        &&& self.cpus@[cpu].idle == old.cpus@[cpu].idle
    }

    /// Everything of each CPU but its run queue is as it was.
    pub open spec fn cpu_fields_unchanged(&self, old: &Scheduler) -> bool {
        &&& self.cpus@.len() == old.cpus@.len()
        &&& forall|c: int| 0 <= c < old.cpus@.len() ==> (#[trigger] self.cpus@[c]).current == old.cpus@[c].current
            && self.cpus@[c].idle == old.cpus@[c].idle
            && self.cpus@[c].irq_depth == old.cpus@[c].irq_depth
            && self.cpus@[c].preempt_count == old.cpus@[c].preempt_count
            && self.cpus@[c].need_resched == old.cpus@[c].need_resched
            && self.cpus@[c].timeslice_remaining == old.cpus@[c].timeslice_remaining
            && self.cpus@[c].context_switches == old.cpus@[c].context_switches
            && self.cpus@[c].preemptions == old.cpus@[c].preemptions
    }

    /// The record of the idle task of secondary CPU `cpu` before it starts.
    pub open spec fn idle_record(cpu: CpuId) -> TaskRecord {
        TaskRecord {
            kind: TaskKind::Idle(cpu),
            state: TaskState::Idle(cpu),
            affinity: Some(cpu),
            queued_on: None,
            has_run: false,
        }
    }

    /// A scheduler for `discovered_cpus` CPUs: the boot task (id 0) runs as
    /// the boot CPU's idle task, and task `c` is the idle task of secondary
    /// CPU `c`.
    pub fn new(discovered_cpus: usize) -> (scheduler: Scheduler)
        requires
            1 <= discovered_cpus <= MAX_CPUS,
        ensures
            scheduler.wf(),
            scheduler.discovered_cpus == discovered_cpus,
            scheduler.tasks@.len() == discovered_cpus,
            scheduler.tasks@[0] == Some(TaskRecord {
                kind: TaskKind::Idle(CpuId(0)),
                state: TaskState::Running(CpuId(0)),
                affinity: Some(CpuId(0)),
                queued_on: None,
                has_run: true,
            }),
            forall|c: int| 0 < c < discovered_cpus ==> #[trigger] scheduler.tasks@[c] == Some(Scheduler::idle_record(CpuId(c as usize))),
            scheduler.cpus@[0].current == Some(TaskId(0)),
            scheduler.cpus@[0].idle == Some(TaskId(0)),
            forall|c: int| 0 < c < discovered_cpus ==> (#[trigger] scheduler.cpus@[c]).idle == Some(TaskId(c as usize)),
            forall|c: int| 0 <= c < MAX_CPUS ==> (#[trigger] scheduler.queue(c)).len() == 0,
            forall|c: int| 0 < c < MAX_CPUS ==> (#[trigger] scheduler.cpus@[c]).current is None,
            forall|c: int| 0 <= c < MAX_CPUS ==> (#[trigger] scheduler.cpus@[c]).irq_depth == 0
                && scheduler.cpus@[c].preempt_count == 0 && !scheduler.cpus@[c].need_resched
                && scheduler.cpus@[c].context_switches == 0 && scheduler.cpus@[c].preemptions == 0,
            scheduler.live_kernel_threads == 0,
    {
        let mut tasks: Vec<Option<TaskRecord>> = Vec::new();
        tasks.push(Some(TaskRecord {
            kind: TaskKind::Idle(CpuId(0)),
            state: TaskState::Running(CpuId(0)),
            affinity: Some(CpuId(0)),
            queued_on: None,
            has_run: true,
        }));
        let mut cpus: Vec<CpuScheduler> = Vec::new();
        let mut i: usize = 0;
        while i < MAX_CPUS
            invariant
                i <= MAX_CPUS,
                cpus@.len() == i,
                forall|c: int| 0 <= c < i ==> (#[trigger] cpus@[c]).run_queue@.len() == 0 && cpus@[c].current is None
                    && cpus@[c].idle is None && cpus@[c].irq_depth == 0 && cpus@[c].preempt_count == 0
                    && !cpus@[c].need_resched && cpus@[c].context_switches == 0 && cpus@[c].preemptions == 0,
            decreases MAX_CPUS - i,
        {
            cpus.push(CpuScheduler::new());
            i = i + 1;
        }
        cpus[0].current = Some(TaskId(0));
        cpus[0].idle = Some(TaskId(0));
        let mut logical: usize = 1;
        while logical < discovered_cpus
            invariant
                1 <= logical <= discovered_cpus <= MAX_CPUS,
                tasks@.len() == logical,
                tasks@[0] == Some(TaskRecord {
                    kind: TaskKind::Idle(CpuId(0)),
                    state: TaskState::Running(CpuId(0)),
                    affinity: Some(CpuId(0)),
                    queued_on: None,
                    has_run: true,
                }),
                forall|c: int| 0 < c < logical ==> #[trigger] tasks@[c] == Some(Scheduler::idle_record(CpuId(c as usize))),
                cpus@.len() == MAX_CPUS,
                cpus@[0].current == Some(TaskId(0)),
                cpus@[0].idle == Some(TaskId(0)),
                forall|c: int| 0 < c < logical ==> (#[trigger] cpus@[c]).idle == Some(TaskId(c as usize)),
                forall|c: int| logical <= c < MAX_CPUS ==> (#[trigger] cpus@[c]).idle is None,
                forall|c: int| 0 <= c < MAX_CPUS ==> (#[trigger] cpus@[c]).run_queue@.len() == 0
                    && cpus@[c].irq_depth == 0 && cpus@[c].preempt_count == 0
                    && !cpus@[c].need_resched && cpus@[c].context_switches == 0 && cpus@[c].preemptions == 0,
                forall|c: int| 0 < c < MAX_CPUS ==> (#[trigger] cpus@[c]).current is None,
            decreases discovered_cpus - logical,
        {
            let cpu = CpuId(logical);
            tasks.push(Some(TaskRecord {
                kind: TaskKind::Idle(cpu),
                state: TaskState::Idle(cpu),
                affinity: Some(cpu),
                queued_on: None,
                has_run: false,
            }));
            cpus[logical].idle = Some(TaskId(logical));
            logical = logical + 1;
        }
        let scheduler = Scheduler { tasks, cpus, discovered_cpus, live_kernel_threads: 0 };
        proof {
            assert forall|id: int| #[trigger] scheduler.exists_task(id) && scheduler.record(id).queued_on is Some implies false by {
                if id > 0 {
                    assert(scheduler.tasks@[id] == Some(Scheduler::idle_record(CpuId(id as usize))));
                }
            }
            assert forall|id: int| #[trigger] scheduler.exists_task(id) && scheduler.record(id).kind is Idle
                implies scheduler.record(id).state != TaskState::Runnable by {
                if id > 0 {
                    assert(scheduler.tasks@[id] == Some(Scheduler::idle_record(CpuId(id as usize))));
                }
            }
        }
        scheduler
    }

    /// Puts runnable task `id` at the back of `cpu`'s run queue.
    pub fn enqueue(&mut self, id: TaskId, cpu: CpuId)
        requires
            old(self).wf(),
            cpu.0 < MAX_CPUS,
            old(self).exists_task(id.0 as int),
            old(self).record(id.0 as int).state == TaskState::Runnable,
            old(self).record(id.0 as int).queued_on is None,
            old(self).record(id.0 as int).affinity is Some ==> old(self).record(id.0 as int).affinity == Some(cpu),
        ensures
            final(self).wf(),
            final(self).queue(cpu.0 as int) == old(self).queue(cpu.0 as int).push(id),
            forall|c: int| 0 <= c < MAX_CPUS && c != cpu.0 ==> #[trigger] final(self).queue(c) == old(self).queue(c),
            final(self).tasks@ == old(self).tasks@.update(id.0 as int,
                Some(TaskRecord { queued_on: Some(cpu), ..old(self).record(id.0 as int) })),
            final(self).discovered_cpus == old(self).discovered_cpus,
            final(self).live_kernel_threads == old(self).live_kernel_threads,
            final(self).cpu_fields_unchanged(&*old(self)),
    {
        let ghost before = *self;
        let record = self.tasks[id.0].unwrap();
        self.tasks.set(id.0, Some(TaskRecord { queued_on: Some(cpu), ..record }));
        self.cpus[cpu.0].run_queue.push_back(id);
        proof {
            assert(!before.queue(cpu.0 as int).contains(id)) by {
                if before.queue(cpu.0 as int).contains(id) {
                    let k = choose|k: int| 0 <= k < before.queue(cpu.0 as int).len() && before.queue(cpu.0 as int)[k] == id;
                    assert(before.queue(cpu.0 as int)[k] == id);
                }
            }
            assert(self.cpus@.len() == MAX_CPUS);
            assert(self.tasks@.len() <= MAX_TASKS);
            assert forall|c: int| 0 <= c < MAX_CPUS implies (#[trigger] self.queue(c)).no_duplicates() by {
                if c == cpu.0 {
                    assert forall|a: int, b: int| 0 <= a < b < self.queue(c).len() implies self.queue(c)[a] != self.queue(c)[b] by {
                        if b == before.queue(c).len() {
                            assert(before.queue(c)[a] != id);
                        }
                    }
                } else {
                    assert(self.queue(c) == before.queue(c));
                }
            }
            assert forall|c: int, k: int| 0 <= c < MAX_CPUS && 0 <= k < self.queue(c).len() implies {
                let t = (#[trigger] self.queue(c)[k]).0 as int;
                &&& self.exists_task(t)
                &&& self.record(t).state == TaskState::Runnable
                &&& self.record(t).queued_on == Some(CpuId(c as usize))
            } by {
                if c == cpu.0 && k == before.queue(c).len() {
                } else {
                    assert(self.queue(c)[k] == before.queue(c)[k]);
                }
            }
            assert forall|t: int| #[trigger] self.exists_task(t) && self.record(t).queued_on is Some implies {
                let c = self.record(t).queued_on.unwrap().0 as int;
                &&& 0 <= c < MAX_CPUS
                &&& self.queue(c).contains(TaskId(t as usize))
            } by {
                if t == id.0 {
                    assert(self.queue(cpu.0 as int)[before.queue(cpu.0 as int).len() as int] == id);
                } else {
                    assert(before.exists_task(t));
                    let c = self.record(t).queued_on.unwrap().0 as int;
                    let k = choose|k: int| 0 <= k < before.queue(c).len() && before.queue(c)[k] == TaskId(t as usize);
                    assert(self.queue(c)[k] == TaskId(t as usize));
                }
            }
            assert forall|t: int| #[trigger] self.exists_task(t) && self.record(t).queued_on is Some
                && self.record(t).affinity is Some implies self.record(t).affinity == self.record(t).queued_on by {
                if t != id.0 {
                    assert(before.exists_task(t));
                }
            }
            assert forall|t: int| #[trigger] self.exists_task(t) && self.record(t).kind is Idle implies self.record(t).state != TaskState::Runnable by {
                assert(before.exists_task(t));
            }
        }
    }

    /// Takes the task at `position` off `cpu`'s run queue.
    pub fn take_queued(&mut self, cpu: CpuId, position: usize) -> (id: TaskId)
        requires
            old(self).wf(),
            cpu.0 < MAX_CPUS,
            position < old(self).queue(cpu.0 as int).len(),
        ensures
            final(self).wf(),
            id == old(self).queue(cpu.0 as int)[position as int],
            old(self).exists_task(id.0 as int),
            old(self).record(id.0 as int).state == TaskState::Runnable,
            old(self).record(id.0 as int).queued_on == Some(cpu),
            old(self).record(id.0 as int).kind !is Idle,
            old(self).record(id.0 as int).affinity is Some ==> old(self).record(id.0 as int).affinity == Some(cpu),
            final(self).queue(cpu.0 as int) == old(self).queue(cpu.0 as int).remove(position as int),
            forall|c: int| 0 <= c < MAX_CPUS && c != cpu.0 ==> #[trigger] final(self).queue(c) == old(self).queue(c),
            final(self).tasks@ == old(self).tasks@.update(id.0 as int,
                Some(TaskRecord { queued_on: None, ..old(self).record(id.0 as int) })),
            final(self).discovered_cpus == old(self).discovered_cpus,
            final(self).live_kernel_threads == old(self).live_kernel_threads,
            final(self).cpu_fields_unchanged(&*old(self)),
    {
        let ghost before = *self;
        let id = self.cpus[cpu.0].run_queue.remove(position).unwrap();
        let record = self.tasks[id.0].unwrap();
        self.tasks.set(id.0, Some(TaskRecord { queued_on: None, ..record }));
        proof {
            let q = before.queue(cpu.0 as int);
            assert(q[position as int] == id);
            assert forall|c: int| 0 <= c < MAX_CPUS implies (#[trigger] self.queue(c)).no_duplicates() by {
                if c == cpu.0 {
                    assert forall|a: int, b: int| 0 <= a < b < self.queue(c).len() implies self.queue(c)[a] != self.queue(c)[b] by {
                        let a0 = if a < position { a } else { a + 1 };
                        let b0 = if b < position { b } else { b + 1 };
                        assert(self.queue(c)[a] == q[a0]);
                        assert(self.queue(c)[b] == q[b0]);
                    }
                } else {
                    assert(self.queue(c) == before.queue(c));
                }
            }
            assert forall|c: int, k: int| 0 <= c < MAX_CPUS && 0 <= k < self.queue(c).len() implies {
                let t = (#[trigger] self.queue(c)[k]).0 as int;
                &&& self.exists_task(t)
                &&& self.record(t).state == TaskState::Runnable
                &&& self.record(t).queued_on == Some(CpuId(c as usize))
            } by {
                if c == cpu.0 {
                    let k0 = if k < position { k } else { k + 1 };
                    assert(self.queue(c)[k] == q[k0]);
                    assert(q[k0] != q[position as int]);
                } else {
                    assert(self.queue(c)[k] == before.queue(c)[k]);
                    assert(before.queue(c)[k] != id);
                }
            }
            assert forall|t: int| #[trigger] self.exists_task(t) && self.record(t).queued_on is Some implies {
                let c = self.record(t).queued_on.unwrap().0 as int;
                &&& 0 <= c < MAX_CPUS
                &&& self.queue(c).contains(TaskId(t as usize))
            } by {
                assert(t != id.0);
                assert(before.exists_task(t));
                let c = self.record(t).queued_on.unwrap().0 as int;
                let k = choose|k: int| 0 <= k < before.queue(c).len() && before.queue(c)[k] == TaskId(t as usize);
                if c == cpu.0 {
                    assert(k != position);
                    let k1 = if k < position { k } else { k - 1 };
                    assert(self.queue(c)[k1] == TaskId(t as usize));
                } else {
                    assert(self.queue(c)[k] == TaskId(t as usize));
                }
            }
            assert forall|t: int| #[trigger] self.exists_task(t) && self.record(t).queued_on is Some
                && self.record(t).affinity is Some implies self.record(t).affinity == self.record(t).queued_on by {
                assert(t != id.0);
                assert(before.exists_task(t));
            }
            assert forall|t: int| #[trigger] self.exists_task(t) && self.record(t).kind is Idle implies self.record(t).state != TaskState::Runnable by {
                assert(before.exists_task(t));
            }
            assert(before.exists_task(id.0 as int));
        }
        id
    }

    /// The oldest task of `cpu`'s own run queue.
    pub fn dequeue_local(&mut self, cpu: CpuId) -> (id: Option<TaskId>)
        requires
            old(self).wf(),
            cpu.0 < MAX_CPUS,
        ensures
            final(self).wf(),
            old(self).queue(cpu.0 as int).len() == 0 ==> id is None && *final(self) == *old(self),
            old(self).queue(cpu.0 as int).len() > 0 ==> id == Some(old(self).queue(cpu.0 as int)[0])
                && final(self).queue(cpu.0 as int) == old(self).queue(cpu.0 as int).remove(0)
                && final(self).tasks@ == old(self).tasks@.update(id.unwrap().0 as int,
                    Some(TaskRecord { queued_on: None, ..old(self).record(id.unwrap().0 as int) }))
                && old(self).exists_task(id.unwrap().0 as int)
                && old(self).record(id.unwrap().0 as int).state == TaskState::Runnable
                && old(self).record(id.unwrap().0 as int).kind !is Idle
                && (old(self).record(id.unwrap().0 as int).affinity is Some
                    ==> old(self).record(id.unwrap().0 as int).affinity == Some(cpu)),
            forall|c: int| 0 <= c < MAX_CPUS && c != cpu.0 ==> #[trigger] final(self).queue(c) == old(self).queue(c),
            final(self).discovered_cpus == old(self).discovered_cpus,
            final(self).live_kernel_threads == old(self).live_kernel_threads,
            final(self).cpu_fields_unchanged(&*old(self)),
    {
        if self.cpus[cpu.0].run_queue.len() == 0 {
            return None;
        }
        Some(self.take_queued(cpu, 0))
    }

    /// Whether the queued task `id` may move to another CPU.
    pub open spec fn stealable(&self, id: TaskId) -> bool {
        self.record(id.0 as int).affinity is None
    }

    /// Whether CPU `donor` may give tasks to `cpu`.
    pub open spec fn donor_eligible(&self, registry: &CpuRegistry, cpu: CpuId, donor: int) -> bool {
        &&& 0 <= donor < self.discovered_cpus
        &&& donor != cpu.0
        &&& scheduler_active_spec(registry.states@[donor])
    }

    pub open spec fn has_stealable(&self, donor: int) -> bool {
        exists|j: int| 0 <= j < self.queue(donor).len() && #[trigger] self.stealable(self.queue(donor)[j])
    }

    /// `position` is the first stealable task of `donor`'s queue.
    pub open spec fn first_stealable(&self, donor: int, position: int) -> bool {
        &&& 0 <= position < self.queue(donor).len()
        &&& self.stealable(self.queue(donor)[position])
        &&& forall|j: int| 0 <= j < position ==> !(#[trigger] self.stealable(self.queue(donor)[j]))
    }

    /// Takes the first unpinned task from the first other active CPU that
    /// has one, in CPU order.
    pub fn steal_runnable(&mut self, registry: &CpuRegistry, cpu: CpuId) -> (id: Option<TaskId>)
        requires
            old(self).wf(),
            registry.wf(),
            cpu.0 < MAX_CPUS,
        ensures
            final(self).wf(),
            id is None ==> *final(self) == *old(self)
                && forall|d: int| #[trigger] old(self).donor_eligible(registry, cpu, d) ==> !old(self).has_stealable(d),
            id is Some ==> exists|d: int, p: int| {
                &&& old(self).donor_eligible(registry, cpu, d)
                &&& #[trigger] old(self).first_stealable(d, p)
                &&& forall|e: int| 0 <= e < d && old(self).donor_eligible(registry, cpu, e) ==> !(#[trigger] old(self).has_stealable(e))
                &&& id == Some(old(self).queue(d)[p])
                &&& final(self).queue(d) == old(self).queue(d).remove(p)
                &&& forall|c: int| 0 <= c < MAX_CPUS && c != d ==> #[trigger] final(self).queue(c) == old(self).queue(c)
            },
            id matches Some(stolen) ==> final(self).tasks@ == old(self).tasks@.update(stolen.0 as int,
                Some(TaskRecord { queued_on: None, ..old(self).record(stolen.0 as int) }))
                && old(self).exists_task(stolen.0 as int)
                && old(self).record(stolen.0 as int).state == TaskState::Runnable
                && old(self).record(stolen.0 as int).kind !is Idle
                && old(self).record(stolen.0 as int).affinity is None,
            final(self).discovered_cpus == old(self).discovered_cpus,
            final(self).live_kernel_threads == old(self).live_kernel_threads,
            final(self).cpu_fields_unchanged(&*old(self)),
    {
        let ghost before = *self;
        let mut donor: usize = 0;
        while donor < self.discovered_cpus
            invariant
                self.wf(),
                registry.wf(),
                cpu.0 < MAX_CPUS,
                *self == before,
                before == *old(self),
                donor <= self.discovered_cpus,
                forall|d: int| 0 <= d < donor && #[trigger] before.donor_eligible(registry, cpu, d) ==> !before.has_stealable(d),
            decreases self.discovered_cpus - donor,
        {
            if donor != cpu.0 && is_scheduler_active(registry, CpuId(donor)) {
                let mut position: usize = 0;
                while position < self.cpus[donor].run_queue.len()
                    invariant
                        self.wf(),
                        *self == before,
                        before == *old(self),
                        donor < self.discovered_cpus <= MAX_CPUS,
                        registry.wf(),
                        cpu.0 < MAX_CPUS,
                        before.donor_eligible(registry, cpu, donor as int),
                        forall|d: int| 0 <= d < donor && #[trigger] before.donor_eligible(registry, cpu, d) ==> !before.has_stealable(d),
                        position <= self.queue(donor as int).len(),
                        forall|j: int| 0 <= j < position ==> !(#[trigger] before.stealable(before.queue(donor as int)[j])),
                    decreases self.queue(donor as int).len() - position,
                {
                    let candidate = self.cpus[donor].run_queue[position];
                    proof {
                        assert(self.queue(donor as int)[position as int] == candidate);
                    }
                    if self.tasks[candidate.0].unwrap().affinity.is_none() {
                        let ghost d = donor as int;
                        let ghost p = position as int;
                        assert(before.first_stealable(d, p));
                        let id = self.take_queued(CpuId(donor), position);
                        assert forall|e: int| 0 <= e < d && before.donor_eligible(registry, cpu, e) implies !(#[trigger] before.has_stealable(e)) by {}
                        assert({
                            &&& before.donor_eligible(registry, cpu, d)
                            &&& before.first_stealable(d, p)
                            &&& forall|e: int| 0 <= e < d && before.donor_eligible(registry, cpu, e) ==> !(#[trigger] before.has_stealable(e))
                            &&& Some(id) == Some(before.queue(d)[p])
                            &&& self.queue(d) == before.queue(d).remove(p)
                            &&& forall|c: int| 0 <= c < MAX_CPUS && c != d ==> #[trigger] self.queue(c) == before.queue(c)
                        });
                        return Some(id);
                    }
                    position = position + 1;
                }
                proof {
                    assert(!before.has_stealable(donor as int));
                }
            }
            donor = donor + 1;
        }
        None
    }

    /// The next task for `cpu`: its own oldest task, else a stolen one.
    pub fn dequeue_next(&mut self, registry: &CpuRegistry, cpu: CpuId) -> (id: Option<TaskId>)
        requires
            old(self).wf(),
            registry.wf(),
            cpu.0 < MAX_CPUS,
        ensures
            final(self).wf(),
            old(self).queue(cpu.0 as int).len() > 0 ==> id == Some(old(self).queue(cpu.0 as int)[0])
                && final(self).queue(cpu.0 as int) == old(self).queue(cpu.0 as int).remove(0),
            id is None ==> *final(self) == *old(self) && old(self).queue(cpu.0 as int).len() == 0
                && forall|d: int| #[trigger] old(self).donor_eligible(registry, cpu, d) ==> !old(self).has_stealable(d),
            old(self).queue(cpu.0 as int).len() == 0 && (forall|d: int| #[trigger] old(self).donor_eligible(registry, cpu, d)
                ==> !old(self).has_stealable(d)) ==> id is None,
            id matches Some(next) ==> old(self).exists_task(next.0 as int)
                && old(self).record(next.0 as int).state == TaskState::Runnable
                && old(self).record(next.0 as int).kind !is Idle
                && (old(self).record(next.0 as int).affinity is Some ==> old(self).record(next.0 as int).affinity == Some(cpu))
                && final(self).tasks@ == old(self).tasks@.update(next.0 as int,
                    Some(TaskRecord { queued_on: None, ..old(self).record(next.0 as int) })),
            final(self).discovered_cpus == old(self).discovered_cpus,
            final(self).live_kernel_threads == old(self).live_kernel_threads,
            final(self).cpu_fields_unchanged(&*old(self)),
    {
        let ghost before = *self;
        match self.dequeue_local(cpu) {
            Some(id) => {
                proof {
                    assert(before.queue(cpu.0 as int)[0] == id);
                }
                Some(id)
            },
            None => {
                let stolen = self.steal_runnable(registry, cpu);
                proof {
                    if let Some(id) = stolen {
                        let (d, p) = choose|d: int, p: int| {
                            &&& before.donor_eligible(registry, cpu, d)
                            &&& #[trigger] before.first_stealable(d, p)
                            &&& forall|e: int| 0 <= e < d && before.donor_eligible(registry, cpu, e) ==> !(#[trigger] before.has_stealable(e))
                            &&& stolen == Some(before.queue(d)[p])
                            &&& self.queue(d) == before.queue(d).remove(p)
                            &&& forall|c: int| 0 <= c < MAX_CPUS && c != d ==> #[trigger] self.queue(c) == before.queue(c)
                        };
                        assert(before.queue(d)[p] == id);
                        assert(before.has_stealable(d)) by {
                            assert(before.stealable(before.queue(d)[p]));
                        }
                    }
                }
                stolen
            },
        }
    }

    /// Enters an interrupt handler on `cpu`.
    pub fn irq_enter(&mut self, cpu: CpuId)
        requires
            cpu.0 < MAX_CPUS,
            old(self).cpus@.len() == MAX_CPUS,
            old(self).cpus@[cpu.0 as int].irq_depth < usize::MAX,
        ensures
            final(self).counters_only(&*old(self), cpu.0 as int),
            final(self).cpus@[cpu.0 as int] == (CpuScheduler {
                irq_depth: (old(self).cpus@[cpu.0 as int].irq_depth + 1) as usize, ..old(self).cpus@[cpu.0 as int] }),
    {
        self.cpus[cpu.0].irq_depth = self.cpus[cpu.0].irq_depth + 1;
    }

    /// Leaves an interrupt handler; returns whether the CPU should now
    /// preempt (outermost exit, preemption enabled, reschedule requested).
    pub fn irq_exit(&mut self, cpu: CpuId) -> (preempt: bool)
        requires
            cpu.0 < MAX_CPUS,
            old(self).cpus@.len() == MAX_CPUS,
            old(self).cpus@[cpu.0 as int].irq_depth > 0,
        ensures
            final(self).counters_only(&*old(self), cpu.0 as int),
            final(self).cpus@[cpu.0 as int] == (CpuScheduler {
                irq_depth: (old(self).cpus@[cpu.0 as int].irq_depth - 1) as usize, ..old(self).cpus@[cpu.0 as int] }),
            preempt == (final(self).cpus@[cpu.0 as int].irq_depth == 0 && old(self).cpus@[cpu.0 as int].preempt_count == 0
                && old(self).cpus@[cpu.0 as int].need_resched),
    {
        self.cpus[cpu.0].irq_depth = self.cpus[cpu.0].irq_depth - 1;
        self.cpus[cpu.0].irq_depth == 0 && self.cpus[cpu.0].preempt_count == 0 && self.cpus[cpu.0].need_resched
    }

    /// Charges `ticks` timer ticks to the task running on `cpu`: the idle task
    /// is not charged; a task that used up its time slice must reschedule.
    pub fn timer_ticks(&mut self, cpu: CpuId, ticks: u64)
        requires
            old(self).wf(),
            cpu.0 < MAX_CPUS,
            old(self).cpus@[cpu.0 as int].current is Some,
            old(self).exists_task(old(self).cpus@[cpu.0 as int].current.unwrap().0 as int),
        ensures
            final(self).counters_only(&*old(self), cpu.0 as int),
            final(self).wf(),
            ({
                let before = old(self).cpus@[cpu.0 as int];
                let after = final(self).cpus@[cpu.0 as int];
                let idle = old(self).record(before.current.unwrap().0 as int).kind is Idle;
                let elapsed: int = if ticks > u32::MAX { u32::MAX as int } else { ticks as int };
                &&& after.irq_depth == before.irq_depth
                &&& after.preempt_count == before.preempt_count
                &&& after.context_switches == before.context_switches
                &&& after.preemptions == before.preemptions
                &&& if ticks == 0 || idle {
                    after.timeslice_remaining == before.timeslice_remaining && after.need_resched == before.need_resched
                } else if elapsed < before.timeslice_remaining {
                    after.timeslice_remaining == before.timeslice_remaining - elapsed && after.need_resched == before.need_resched
                } else {
                    after.timeslice_remaining == 0 && after.need_resched
                }
            }),
    {
        if ticks == 0 {
            return;
        }
        let current = self.cpus[cpu.0].current.unwrap();
        if self.tasks[current.0].unwrap().kind.is_idle() {
            return;
        }
        let ghost before = *self;
        let elapsed: u32 = if ticks > u32::MAX as u64 { u32::MAX } else { ticks as u32 };
        if elapsed < self.cpus[cpu.0].timeslice_remaining {
            self.cpus[cpu.0].timeslice_remaining = self.cpus[cpu.0].timeslice_remaining - elapsed;
        } else {
            self.cpus[cpu.0].timeslice_remaining = 0;
            self.cpus[cpu.0].need_resched = true;
        }
        proof {
            self.lemma_wf_frame(&before);
        }
    }

    /// Asks `cpu` to reschedule, when it is scheduler-active.
    pub fn request_reschedule(&mut self, registry: &CpuRegistry, cpu: CpuId)
        requires
            registry.wf(),
            cpu.0 < MAX_CPUS,
            old(self).cpus@.len() == MAX_CPUS,
        ensures
            final(self).counters_only(&*old(self), cpu.0 as int),
            final(self).cpus@[cpu.0 as int] == (if scheduler_active_spec(registry.states@[cpu.0 as int]) {
                CpuScheduler { need_resched: true, ..old(self).cpus@[cpu.0 as int] }
            } else {
                old(self).cpus@[cpu.0 as int]
            }),
    {
        if is_scheduler_active(registry, cpu) {
            self.cpus[cpu.0].need_resched = true;
        }
    }

    /// Disables preemption on `cpu` (nesting).
    pub fn preempt_disable(&mut self, cpu: CpuId)
        requires
            cpu.0 < MAX_CPUS,
            old(self).cpus@.len() == MAX_CPUS,
            old(self).cpus@[cpu.0 as int].preempt_count < usize::MAX,
        ensures
            final(self).counters_only(&*old(self), cpu.0 as int),
            final(self).cpus@[cpu.0 as int] == (CpuScheduler {
                preempt_count: (old(self).cpus@[cpu.0 as int].preempt_count + 1) as usize, ..old(self).cpus@[cpu.0 as int] }),
    {
        self.cpus[cpu.0].preempt_count = self.cpus[cpu.0].preempt_count + 1;
    }

    /// Re-enables preemption; returns whether the CPU should now reschedule
    /// (outermost enable, outside interrupts, reschedule requested).
    pub fn preempt_enable(&mut self, cpu: CpuId) -> (schedule: bool)
        requires
            cpu.0 < MAX_CPUS,
            old(self).cpus@.len() == MAX_CPUS,
            old(self).cpus@[cpu.0 as int].preempt_count > 0,
        ensures
            final(self).counters_only(&*old(self), cpu.0 as int),
            final(self).cpus@[cpu.0 as int] == (CpuScheduler {
                preempt_count: (old(self).cpus@[cpu.0 as int].preempt_count - 1) as usize, ..old(self).cpus@[cpu.0 as int] }),
            schedule == (final(self).cpus@[cpu.0 as int].preempt_count == 0 && old(self).cpus@[cpu.0 as int].irq_depth == 0
                && old(self).cpus@[cpu.0 as int].need_resched),
    {
        self.cpus[cpu.0].preempt_count = self.cpus[cpu.0].preempt_count - 1;
        self.cpus[cpu.0].preempt_count == 0 && self.cpus[cpu.0].irq_depth == 0 && self.cpus[cpu.0].need_resched
    }

    /// Makes `id` the running task of `cpu` with a fresh time slice.
    pub fn activate_next(&mut self, id: TaskId, cpu: CpuId)
        requires
            old(self).wf(),
            cpu.0 < MAX_CPUS,
            old(self).exists_task(id.0 as int),
            old(self).record(id.0 as int).queued_on is None,
            match old(self).record(id.0 as int).kind {
                TaskKind::Idle(owner) => owner == cpu && old(self).record(id.0 as int).state == TaskState::Idle(cpu),
                _ => old(self).record(id.0 as int).state == TaskState::Runnable
                    && (old(self).record(id.0 as int).affinity is Some ==> old(self).record(id.0 as int).affinity == Some(cpu)),
            },
        ensures
            final(self).wf(),
            final(self).tasks@ == old(self).tasks@.update(id.0 as int, Some(TaskRecord {
                state: TaskState::Running(cpu),
                has_run: if old(self).record(id.0 as int).kind is Idle { old(self).record(id.0 as int).has_run } else { true },
                ..old(self).record(id.0 as int)
            })),
            final(self).discovered_cpus == old(self).discovered_cpus,
            final(self).live_kernel_threads == old(self).live_kernel_threads,
            final(self).cpus@.len() == MAX_CPUS,
            forall|c: int| 0 <= c < MAX_CPUS && c != cpu.0 ==> #[trigger] final(self).cpus@[c] == old(self).cpus@[c],
            final(self).cpus@[cpu.0 as int] == (CpuScheduler {
                timeslice_remaining: DEFAULT_TIME_SLICE_TICKS,
                need_resched: false,
                ..old(self).cpus@[cpu.0 as int]
            }),
    {
        let ghost before = *self;
        let record = self.tasks[id.0].unwrap();
        let has_run = if record.kind.is_idle() { record.has_run } else { true };
        self.tasks.set(id.0, Some(TaskRecord { state: TaskState::Running(cpu), has_run, ..record }));
        self.cpus[cpu.0].timeslice_remaining = DEFAULT_TIME_SLICE_TICKS;
        self.cpus[cpu.0].need_resched = false;
        proof {
            assert forall|c: int| 0 <= c < MAX_CPUS implies #[trigger] self.queue(c) == before.queue(c) by {}
            assert forall|c: int, k: int| 0 <= c < MAX_CPUS && 0 <= k < self.queue(c).len() implies {
                let t = (#[trigger] self.queue(c)[k]).0 as int;
                &&& self.exists_task(t)
                &&& self.record(t).state == TaskState::Runnable
                &&& self.record(t).queued_on == Some(CpuId(c as usize))
            } by {
                assert(self.queue(c)[k] == before.queue(c)[k]);
                assert(before.queue(c)[k].0 != id.0);
            }
            assert forall|t: int| #[trigger] self.exists_task(t) && self.record(t).queued_on is Some implies {
                let c = self.record(t).queued_on.unwrap().0 as int;
                &&& 0 <= c < MAX_CPUS
                &&& self.queue(c).contains(TaskId(t as usize))
            } by {
                assert(before.exists_task(t));
            }
            assert forall|t: int| #[trigger] self.exists_task(t) && self.record(t).queued_on is Some
                && self.record(t).affinity is Some implies self.record(t).affinity == self.record(t).queued_on by {
                assert(before.exists_task(t));
            }
            assert forall|t: int| #[trigger] self.exists_task(t) && self.record(t).kind is Idle implies self.record(t).state != TaskState::Runnable by {
                assert(before.exists_task(t));
            }
        }
    }

    /// Plans a voluntary switch on `cpu`: the next queued or stolen task
    /// replaces the running one, which is marked as switching out. With no
    /// other task the running one keeps the CPU with a fresh time slice.
    pub fn prepare_yield(&mut self, registry: &CpuRegistry, cpu: CpuId) -> (plan: Option<SwitchPlan>)
        requires
            old(self).wf(),
            registry.wf(),
            cpu.0 < MAX_CPUS,
            scheduler_active_spec(registry.states@[cpu.0 as int]),
            old(self).cpus@[cpu.0 as int].current is Some,
            old(self).exists_task(old(self).cpus@[cpu.0 as int].current.unwrap().0 as int),
            old(self).record(old(self).cpus@[cpu.0 as int].current.unwrap().0 as int).state == TaskState::Running(cpu),
            old(self).cpus@[cpu.0 as int].context_switches < u64::MAX,
        ensures
            final(self).wf(),
            final(self).discovered_cpus == old(self).discovered_cpus,
            final(self).live_kernel_threads == old(self).live_kernel_threads,
            plan is None ==> old(self).queue(cpu.0 as int).len() == 0
                && forall|d: int| #[trigger] old(self).donor_eligible(registry, cpu, d) ==> !old(self).has_stealable(d),
            plan is None ==> final(self).tasks@ == old(self).tasks@
                && final(self).cpus@[cpu.0 as int] == (CpuScheduler {
                    need_resched: false, timeslice_remaining: DEFAULT_TIME_SLICE_TICKS, ..old(self).cpus@[cpu.0 as int] }),
            plan matches Some(switch) ==> {
                &&& switch.previous == old(self).cpus@[cpu.0 as int].current.unwrap()
                &&& switch.previous != switch.next
                &&& old(self).queue(cpu.0 as int).len() > 0 ==> switch.next == old(self).queue(cpu.0 as int)[0]
                &&& final(self).record(switch.previous.0 as int).state == TaskState::SwitchingOut(cpu)
                &&& final(self).record(switch.next.0 as int).state == TaskState::Running(cpu)
                &&& final(self).record(switch.next.0 as int).queued_on is None
                &&& final(self).cpus@[cpu.0 as int].context_switches == old(self).cpus@[cpu.0 as int].context_switches + 1
                &&& final(self).cpus@[cpu.0 as int].timeslice_remaining == DEFAULT_TIME_SLICE_TICKS
                &&& !final(self).cpus@[cpu.0 as int].need_resched
            },
    {
        let previous = self.cpus[cpu.0].current.unwrap();
        let next = match self.dequeue_next(registry, cpu) {
            Some(next) => next,
            None => {
                let ghost unchanged = *self;
                self.cpus[cpu.0].need_resched = false;
                self.cpus[cpu.0].timeslice_remaining = DEFAULT_TIME_SLICE_TICKS;
                proof {
                    self.lemma_wf_frame(&unchanged);
                }
                return None;
            },
        };
        self.switch_out(previous, next, cpu);
        Some(SwitchPlan { previous, next })
    }

    /// Hands `cpu` from its running task, which is not an idle task, to the
    /// next queued or stolen task, else to the CPU's idle task; the running
    /// task is marked as switching out.
    fn switch_away(&mut self, registry: &CpuRegistry, cpu: CpuId) -> (plan: SwitchPlan)
        requires
            old(self).wf(),
            registry.wf(),
            cpu.0 < MAX_CPUS,
            old(self).cpus@[cpu.0 as int].current is Some,
            old(self).exists_task(old(self).cpus@[cpu.0 as int].current.unwrap().0 as int),
            old(self).record(old(self).cpus@[cpu.0 as int].current.unwrap().0 as int).state == TaskState::Running(cpu),
            old(self).record(old(self).cpus@[cpu.0 as int].current.unwrap().0 as int).kind !is Idle,
            old(self).cpus@[cpu.0 as int].idle is Some,
            old(self).exists_task(old(self).cpus@[cpu.0 as int].idle.unwrap().0 as int),
            old(self).record(old(self).cpus@[cpu.0 as int].idle.unwrap().0 as int).kind == TaskKind::Idle(cpu),
            old(self).record(old(self).cpus@[cpu.0 as int].idle.unwrap().0 as int).state == TaskState::Idle(cpu),
            old(self).cpus@[cpu.0 as int].context_switches < u64::MAX,
        ensures
            final(self).wf(),
            final(self).discovered_cpus == old(self).discovered_cpus,
            final(self).live_kernel_threads == old(self).live_kernel_threads,
            plan.previous == old(self).cpus@[cpu.0 as int].current.unwrap(),
            plan.previous != plan.next,
            old(self).queue(cpu.0 as int).len() > 0 ==> plan.next == old(self).queue(cpu.0 as int)[0],
            old(self).queue(cpu.0 as int).len() == 0 && (forall|d: int| #[trigger] old(self).donor_eligible(registry, cpu, d)
                ==> !old(self).has_stealable(d)) ==> plan.next == old(self).cpus@[cpu.0 as int].idle.unwrap(),
            final(self).record(plan.previous.0 as int).state == TaskState::SwitchingOut(cpu),
            final(self).record(plan.previous.0 as int).queued_on is None,
            final(self).record(plan.next.0 as int).state == TaskState::Running(cpu),
            final(self).cpus@[cpu.0 as int].context_switches == old(self).cpus@[cpu.0 as int].context_switches + 1,
    {
        let previous = self.cpus[cpu.0].current.unwrap();
        let idle = self.cpus[cpu.0].idle.unwrap();
        proof {
            if self.record(previous.0 as int).queued_on is Some {
                let c = self.record(previous.0 as int).queued_on.unwrap().0 as int;
                let k = choose|k: int| 0 <= k < self.queue(c).len() && self.queue(c)[k] == previous;
                assert(self.queue(c)[k] == previous);
            }
            if self.record(idle.0 as int).queued_on is Some {
                let c = self.record(idle.0 as int).queued_on.unwrap().0 as int;
                let k = choose|k: int| 0 <= k < self.queue(c).len() && self.queue(c)[k] == idle;
                assert(self.queue(c)[k] == idle);
            }
        }
        match self.dequeue_next(registry, cpu) {
            Some(next) => {
                self.switch_out(previous, next, cpu);
                SwitchPlan { previous, next }
            },
            None => {
                self.set_task_state(previous, TaskState::SwitchingOut(cpu));
                self.activate_next(idle, cpu);
                let ghost activated = *self;
                self.cpus[cpu.0].context_switches = self.cpus[cpu.0].context_switches + 1;
                proof {
                    self.lemma_wf_frame(&activated);
                }
                SwitchPlan { previous, next: idle }
            },
        }
    }

    /// Plans blocking the running task of `cpu` on `queue`: the task joins
    /// the back of the queue and is marked as switching out; the next queued
    /// or stolen task takes the CPU, else the CPU's idle task. Only a task
    /// outside interrupts, with preemption enabled, that is not an idle task
    /// and waits on no other queue may block.
    pub fn prepare_block(&mut self, registry: &CpuRegistry, cpu: CpuId, queue: &mut WaitQueue) -> (plan: SwitchPlan)
        requires
            old(self).wf(),
            registry.wf(),
            cpu.0 < MAX_CPUS,
            old(self).cpus@[cpu.0 as int].irq_depth == 0,
            old(self).cpus@[cpu.0 as int].preempt_count == 0,
            old(self).cpus@[cpu.0 as int].current is Some,
            old(self).exists_task(old(self).cpus@[cpu.0 as int].current.unwrap().0 as int),
            old(self).record(old(self).cpus@[cpu.0 as int].current.unwrap().0 as int).state == TaskState::Running(cpu),
            old(self).record(old(self).cpus@[cpu.0 as int].current.unwrap().0 as int).kind !is Idle,
            old(self).cpus@[cpu.0 as int].idle is Some,
            old(self).exists_task(old(self).cpus@[cpu.0 as int].idle.unwrap().0 as int),
            old(self).record(old(self).cpus@[cpu.0 as int].idle.unwrap().0 as int).kind == TaskKind::Idle(cpu),
            old(self).record(old(self).cpus@[cpu.0 as int].idle.unwrap().0 as int).state == TaskState::Idle(cpu),
            old(self).cpus@[cpu.0 as int].context_switches < u64::MAX,
            old(queue).wf(),
            !old(queue).spec_waiters().contains(old(self).cpus@[cpu.0 as int].current.unwrap()),
        ensures
            final(self).wf(),
            final(self).discovered_cpus == old(self).discovered_cpus,
            final(self).live_kernel_threads == old(self).live_kernel_threads,
            final(queue).wf(),
            final(queue).spec_waiters() == old(queue).spec_waiters().push(plan.previous),
            plan.previous == old(self).cpus@[cpu.0 as int].current.unwrap(),
            plan.previous != plan.next,
            old(self).queue(cpu.0 as int).len() > 0 ==> plan.next == old(self).queue(cpu.0 as int)[0],
            old(self).queue(cpu.0 as int).len() == 0 && (forall|d: int| #[trigger] old(self).donor_eligible(registry, cpu, d)
                ==> !old(self).has_stealable(d)) ==> plan.next == old(self).cpus@[cpu.0 as int].idle.unwrap(),
            final(self).record(plan.previous.0 as int).state == TaskState::SwitchingOut(cpu),
            final(self).record(plan.previous.0 as int).queued_on is None,
            final(self).record(plan.next.0 as int).state == TaskState::Running(cpu),
            final(self).cpus@[cpu.0 as int].context_switches == old(self).cpus@[cpu.0 as int].context_switches + 1,
    {
        let previous = self.cpus[cpu.0].current.unwrap();
        queue.enqueue(previous);
        self.switch_away(registry, cpu)
    }

    /// Plans the exit of the running task of `cpu`, which is not an idle
    /// task: it is marked as switching out and the next queued or stolen
    /// task takes the CPU, else the CPU's idle task.
    pub fn prepare_exit(&mut self, registry: &CpuRegistry, cpu: CpuId) -> (plan: SwitchPlan)
        requires
            old(self).wf(),
            registry.wf(),
            cpu.0 < MAX_CPUS,
            old(self).cpus@[cpu.0 as int].current is Some,
            old(self).exists_task(old(self).cpus@[cpu.0 as int].current.unwrap().0 as int),
            old(self).record(old(self).cpus@[cpu.0 as int].current.unwrap().0 as int).state == TaskState::Running(cpu),
            old(self).record(old(self).cpus@[cpu.0 as int].current.unwrap().0 as int).kind !is Idle,
            old(self).cpus@[cpu.0 as int].idle is Some,
            old(self).exists_task(old(self).cpus@[cpu.0 as int].idle.unwrap().0 as int),
            old(self).record(old(self).cpus@[cpu.0 as int].idle.unwrap().0 as int).kind == TaskKind::Idle(cpu),
            old(self).record(old(self).cpus@[cpu.0 as int].idle.unwrap().0 as int).state == TaskState::Idle(cpu),
            old(self).cpus@[cpu.0 as int].context_switches < u64::MAX,
        ensures
            final(self).wf(),
            final(self).discovered_cpus == old(self).discovered_cpus,
            final(self).live_kernel_threads == old(self).live_kernel_threads,
            plan.previous == old(self).cpus@[cpu.0 as int].current.unwrap(),
            plan.previous != plan.next,
            old(self).queue(cpu.0 as int).len() > 0 ==> plan.next == old(self).queue(cpu.0 as int)[0],
            old(self).queue(cpu.0 as int).len() == 0 && (forall|d: int| #[trigger] old(self).donor_eligible(registry, cpu, d)
                ==> !old(self).has_stealable(d)) ==> plan.next == old(self).cpus@[cpu.0 as int].idle.unwrap(),
            final(self).record(plan.previous.0 as int).state == TaskState::SwitchingOut(cpu),
            final(self).record(plan.previous.0 as int).queued_on is None,
            final(self).record(plan.next.0 as int).state == TaskState::Running(cpu),
            final(self).cpus@[cpu.0 as int].context_switches == old(self).cpus@[cpu.0 as int].context_switches + 1,
    {
        self.switch_away(registry, cpu)
    }

    /// Plans an involuntary switch on `cpu`: only outside interrupts, with
    /// preemption enabled and a reschedule requested.
    pub fn prepare_preempt(&mut self, registry: &CpuRegistry, cpu: CpuId) -> (plan: Option<SwitchPlan>)
        requires
            old(self).wf(),
            registry.wf(),
            cpu.0 < MAX_CPUS,
            scheduler_active_spec(registry.states@[cpu.0 as int]),
            old(self).cpus@[cpu.0 as int].current is Some,
            old(self).exists_task(old(self).cpus@[cpu.0 as int].current.unwrap().0 as int),
            old(self).record(old(self).cpus@[cpu.0 as int].current.unwrap().0 as int).state == TaskState::Running(cpu),
            old(self).cpus@[cpu.0 as int].context_switches < u64::MAX,
            old(self).cpus@[cpu.0 as int].preemptions < u64::MAX,
        ensures
            final(self).wf(),
            final(self).discovered_cpus == old(self).discovered_cpus,
            final(self).live_kernel_threads == old(self).live_kernel_threads,
            old(self).cpus@[cpu.0 as int].irq_depth != 0 || old(self).cpus@[cpu.0 as int].preempt_count != 0
                || !old(self).cpus@[cpu.0 as int].need_resched ==> plan is None && *final(self) == *old(self),
            old(self).cpus@[cpu.0 as int].irq_depth == 0 && old(self).cpus@[cpu.0 as int].preempt_count == 0
                && old(self).cpus@[cpu.0 as int].need_resched ==> {
                &&& plan is Some <==> (old(self).queue(cpu.0 as int).len() > 0
                    || exists|d: int| #[trigger] old(self).donor_eligible(registry, cpu, d) && old(self).has_stealable(d))
                &&& plan is None ==> final(self).tasks@ == old(self).tasks@
                    && final(self).discovered_cpus == old(self).discovered_cpus
                    && final(self).cpus@ == old(self).cpus@.update(cpu.0 as int, CpuScheduler {
                        need_resched: false,
                        timeslice_remaining: DEFAULT_TIME_SLICE_TICKS,
                        ..old(self).cpus@[cpu.0 as int]
                    })
            },
            plan matches Some(switch) ==> {
                &&& switch.previous == old(self).cpus@[cpu.0 as int].current.unwrap()
                &&& switch.previous != switch.next
                &&& old(self).queue(cpu.0 as int).len() > 0 ==> switch.next == old(self).queue(cpu.0 as int)[0]
                &&& final(self).record(switch.previous.0 as int).state == TaskState::SwitchingOut(cpu)
                &&& final(self).record(switch.next.0 as int).state == TaskState::Running(cpu)
                &&& final(self).cpus@[cpu.0 as int].context_switches == old(self).cpus@[cpu.0 as int].context_switches + 1
                &&& final(self).cpus@[cpu.0 as int].preemptions == old(self).cpus@[cpu.0 as int].preemptions + 1
            },
    {
        if self.cpus[cpu.0].irq_depth != 0 || self.cpus[cpu.0].preempt_count != 0 {
            return None;
        }
        if !self.cpus[cpu.0].need_resched {
            return None;
        }
        let previous = self.cpus[cpu.0].current.unwrap();
        let next = match self.dequeue_next(registry, cpu) {
            Some(next) => next,
            None => {
                let ghost unchanged = *self;
                self.cpus[cpu.0].need_resched = false;
                self.cpus[cpu.0].timeslice_remaining = DEFAULT_TIME_SLICE_TICKS;
                proof {
                    self.lemma_wf_frame(&unchanged);
                }
                return None;
            },
        };
        self.switch_out(previous, next, cpu);
        let ghost switched = *self;
        self.cpus[cpu.0].preemptions = self.cpus[cpu.0].preemptions + 1;
        proof {
            self.lemma_wf_frame(&switched);
        }
        Some(SwitchPlan { previous, next })
    }

    /// Marks `previous` as switching out and `next` as running on `cpu`.
    fn switch_out(&mut self, previous: TaskId, next: TaskId, cpu: CpuId)
        requires
            old(self).wf(),
            cpu.0 < MAX_CPUS,
            old(self).exists_task(previous.0 as int),
            old(self).record(previous.0 as int).state == TaskState::Running(cpu),
            old(self).record(previous.0 as int).queued_on is None,
            old(self).exists_task(next.0 as int),
            old(self).record(next.0 as int).state == TaskState::Runnable,
            old(self).record(next.0 as int).queued_on is None,
            old(self).record(next.0 as int).kind !is Idle,
            old(self).record(next.0 as int).affinity is Some ==> old(self).record(next.0 as int).affinity == Some(cpu),
            old(self).cpus@[cpu.0 as int].context_switches < u64::MAX,
        ensures
            final(self).wf(),
            previous != next,
            final(self).discovered_cpus == old(self).discovered_cpus,
            final(self).live_kernel_threads == old(self).live_kernel_threads,
            final(self).exists_task(previous.0 as int),
            final(self).record(previous.0 as int).state == TaskState::SwitchingOut(cpu),
            final(self).record(previous.0 as int).queued_on is None,
            final(self).record(next.0 as int).state == TaskState::Running(cpu),
            final(self).record(next.0 as int).queued_on is None,
            final(self).cpus@[cpu.0 as int] == (CpuScheduler {
                context_switches: (old(self).cpus@[cpu.0 as int].context_switches + 1) as u64,
                timeslice_remaining: DEFAULT_TIME_SLICE_TICKS,
                need_resched: false,
                ..old(self).cpus@[cpu.0 as int]
            }),
            forall|c: int| 0 <= c < MAX_CPUS && c != cpu.0 ==> #[trigger] final(self).cpus@[c] == old(self).cpus@[c],
    {
        let ghost before = *self;
        let record = self.tasks[previous.0].unwrap();
        self.tasks.set(previous.0, Some(TaskRecord { state: TaskState::SwitchingOut(cpu), ..record }));
        proof {
            assert forall|c: int| 0 <= c < MAX_CPUS implies #[trigger] self.queue(c) == before.queue(c) by {}
            assert forall|c: int, k: int| 0 <= c < MAX_CPUS && 0 <= k < self.queue(c).len() implies {
                let t = (#[trigger] self.queue(c)[k]).0 as int;
                &&& self.exists_task(t)
                &&& self.record(t).state == TaskState::Runnable
                &&& self.record(t).queued_on == Some(CpuId(c as usize))
            } by {
                assert(self.queue(c)[k] == before.queue(c)[k]);
                assert(before.queue(c)[k].0 != previous.0);
            }
            assert forall|t: int| #[trigger] self.exists_task(t) && self.record(t).queued_on is Some implies {
                let c = self.record(t).queued_on.unwrap().0 as int;
                &&& 0 <= c < MAX_CPUS
                &&& self.queue(c).contains(TaskId(t as usize))
            } by {
                assert(before.exists_task(t));
            }
            assert forall|t: int| #[trigger] self.exists_task(t) && self.record(t).queued_on is Some
                && self.record(t).affinity is Some implies self.record(t).affinity == self.record(t).queued_on by {
                assert(before.exists_task(t));
            }
            assert forall|t: int| #[trigger] self.exists_task(t) && self.record(t).kind is Idle implies self.record(t).state != TaskState::Runnable by {
                assert(before.exists_task(t));
            }
        }
        self.activate_next(next, cpu);
        let ghost activated = *self;
        self.cpus[cpu.0].context_switches = self.cpus[cpu.0].context_switches + 1;
        proof {
            self.lemma_wf_frame(&activated);
        }
    }

    /// Gives task `id`, which is on no run queue, the state `state`.
    fn set_task_state(&mut self, id: TaskId, state: TaskState)
        requires
            old(self).wf(),
            old(self).exists_task(id.0 as int),
            old(self).record(id.0 as int).queued_on is None,
            old(self).record(id.0 as int).kind is Idle ==> state != TaskState::Runnable,
        ensures
            final(self).wf(),
            final(self).tasks@ == old(self).tasks@.update(id.0 as int, Some(TaskRecord { state, ..old(self).record(id.0 as int) })),
            final(self).cpus@ == old(self).cpus@,
            final(self).discovered_cpus == old(self).discovered_cpus,
            final(self).live_kernel_threads == old(self).live_kernel_threads,
    {
        let ghost before = *self;
        let record = self.tasks[id.0].unwrap();
        self.tasks.set(id.0, Some(TaskRecord { state, ..record }));
        proof {
            assert forall|c: int| 0 <= c < MAX_CPUS implies #[trigger] self.queue(c) == before.queue(c) by {}
            assert forall|c: int, k: int| 0 <= c < MAX_CPUS && 0 <= k < self.queue(c).len() implies {
                let t = (#[trigger] self.queue(c)[k]).0 as int;
                &&& self.exists_task(t)
                &&& self.record(t).state == TaskState::Runnable
                &&& self.record(t).queued_on == Some(CpuId(c as usize))
            } by {
                assert(self.queue(c)[k] == before.queue(c)[k]);
                assert(before.queue(c)[k].0 != id.0);
            }
            assert forall|t: int| #[trigger] self.exists_task(t) && self.record(t).queued_on is Some implies {
                let c = self.record(t).queued_on.unwrap().0 as int;
                &&& 0 <= c < MAX_CPUS
                &&& self.queue(c).contains(TaskId(t as usize))
            } by {
                assert(before.exists_task(t));
            }
            assert forall|t: int| #[trigger] self.exists_task(t) && self.record(t).queued_on is Some
                && self.record(t).affinity is Some implies self.record(t).affinity == self.record(t).queued_on by {
                assert(before.exists_task(t));
            }
            assert forall|t: int| #[trigger] self.exists_task(t) && self.record(t).kind is Idle implies self.record(t).state != TaskState::Runnable by {
                assert(before.exists_task(t));
            }
        }
    }

    /// Frees the slot of task `id`, which is on no run queue.
    fn remove_task(&mut self, id: TaskId)
        requires
            old(self).wf(),
            old(self).exists_task(id.0 as int),
            old(self).record(id.0 as int).queued_on is None,
        ensures
            final(self).wf(),
            final(self).tasks@ == old(self).tasks@.update(id.0 as int, None),
            final(self).cpus@ == old(self).cpus@,
            final(self).discovered_cpus == old(self).discovered_cpus,
            final(self).live_kernel_threads == old(self).live_kernel_threads,
    {
        let ghost before = *self;
        self.tasks.set(id.0, None);
        proof {
            assert forall|c: int| 0 <= c < MAX_CPUS implies #[trigger] self.queue(c) == before.queue(c) by {}
            assert forall|c: int, k: int| 0 <= c < MAX_CPUS && 0 <= k < self.queue(c).len() implies {
                let t = (#[trigger] self.queue(c)[k]).0 as int;
                &&& self.exists_task(t)
                &&& self.record(t).state == TaskState::Runnable
                &&& self.record(t).queued_on == Some(CpuId(c as usize))
            } by {
                assert(self.queue(c)[k] == before.queue(c)[k]);
                let t = before.queue(c)[k].0 as int;
                assert(before.record(t).queued_on == Some(CpuId(c as usize)));
                assert(t != id.0);
            }
            assert forall|t: int| #[trigger] self.exists_task(t) && self.record(t).queued_on is Some implies {
                let c = self.record(t).queued_on.unwrap().0 as int;
                &&& 0 <= c < MAX_CPUS
                &&& self.queue(c).contains(TaskId(t as usize))
            } by {
                assert(before.exists_task(t));
            }
            assert forall|t: int| #[trigger] self.exists_task(t) && self.record(t).queued_on is Some
                && self.record(t).affinity is Some implies self.record(t).affinity == self.record(t).queued_on by {
                assert(before.exists_task(t));
            }
            assert forall|t: int| #[trigger] self.exists_task(t) && self.record(t).kind is Idle implies self.record(t).state != TaskState::Runnable by {
                assert(before.exists_task(t));
            }
        }
    }

    /// Commits a planned switch on `cpu` once the stacks were switched:
    /// `next` becomes the current task, and `previous` goes back on the run
    /// queue (a yield; an idle task just idles), blocks (unless a wake-up
    /// arrived while it was switching out: then it is queued again and a
    /// reschedule requested), or is retired (an exit). Returns whether a
    /// task was retired.
    pub fn complete_switch(&mut self, cpu: CpuId, plan: SwitchPlan, disposition: SwitchDisposition,
        wake_after_switch: bool) -> (retired: bool)
        requires
            old(self).wf(),
            cpu.0 < MAX_CPUS,
            plan.previous != plan.next,
            old(self).exists_task(plan.previous.0 as int),
            old(self).record(plan.previous.0 as int).state == TaskState::SwitchingOut(cpu),
            old(self).record(plan.previous.0 as int).queued_on is None,
            old(self).record(plan.previous.0 as int).affinity is Some ==> old(self).record(plan.previous.0 as int).affinity
                == Some(cpu),
            !(disposition is Yield) ==> old(self).record(plan.previous.0 as int).kind !is Idle,
            disposition is Exit && old(self).record(plan.previous.0 as int).kind is KernelThread
                ==> old(self).live_kernel_threads > 0,
        ensures
            final(self).wf(),
            final(self).discovered_cpus == old(self).discovered_cpus,
            final(self).cpus@[cpu.0 as int].current == Some(plan.next),
            forall|c: int| 0 <= c < MAX_CPUS && c != cpu.0 ==> #[trigger] final(self).queue(c) == old(self).queue(c)
                && final(self).cpus@[c].current == old(self).cpus@[c].current,
            retired == disposition is Exit,
            ({
                let previous = plan.previous.0 as int;
                let record = old(self).record(previous);
                let requeued = TaskRecord { state: TaskState::Runnable, queued_on: Some(cpu), ..record };
                match disposition {
                    SwitchDisposition::Yield => if record.kind is Idle {
                        &&& final(self).tasks@ == old(self).tasks@.update(previous, Some(TaskRecord {
                            state: TaskState::Idle(cpu), ..record }))
                        &&& final(self).queue(cpu.0 as int) == old(self).queue(cpu.0 as int)
                    } else {
                        &&& final(self).tasks@ == old(self).tasks@.update(previous, Some(requeued))
                        &&& final(self).queue(cpu.0 as int) == old(self).queue(cpu.0 as int).push(plan.previous)
                    },
                    SwitchDisposition::Block => if wake_after_switch {
                        &&& final(self).tasks@ == old(self).tasks@.update(previous, Some(requeued))
                        &&& final(self).queue(cpu.0 as int) == old(self).queue(cpu.0 as int).push(plan.previous)
                        &&& final(self).cpus@[cpu.0 as int].need_resched
                    } else {
                        &&& final(self).tasks@ == old(self).tasks@.update(previous, Some(TaskRecord {
                            state: TaskState::Blocked, ..record }))
                        &&& final(self).queue(cpu.0 as int) == old(self).queue(cpu.0 as int)
                    },
                    SwitchDisposition::Exit => {
                        &&& final(self).tasks@ == old(self).tasks@.update(previous, None)
                        &&& final(self).queue(cpu.0 as int) == old(self).queue(cpu.0 as int)
                        &&& final(self).live_kernel_threads == if record.kind is KernelThread {
                            (old(self).live_kernel_threads - 1) as usize
                        } else {
                            old(self).live_kernel_threads
                        }
                    },
                }
            }),
            !(disposition is Exit) ==> final(self).live_kernel_threads == old(self).live_kernel_threads,
    {
        let previous = plan.previous;
        let record = self.tasks[previous.0].unwrap();
        let mut retired = false;
        match disposition {
            SwitchDisposition::Yield => {
                if record.kind.is_idle() {
                    self.set_task_state(previous, TaskState::Idle(cpu));
                    proof {
                        assert forall|c: int| 0 <= c < MAX_CPUS && c != cpu.0 implies #[trigger] self.queue(c) == old(self).queue(c)
                            && self.cpus@[c].current == old(self).cpus@[c].current by {}
                    }
                } else {
                    self.set_task_state(previous, TaskState::Runnable);
                    self.enqueue(previous, cpu);
                    proof {
                        assert forall|c: int| 0 <= c < MAX_CPUS && c != cpu.0 implies #[trigger] self.queue(c) == old(self).queue(c)
                            && self.cpus@[c].current == old(self).cpus@[c].current by {}
                    }
                }
            },
            SwitchDisposition::Block => {
                if wake_after_switch {
                    self.set_task_state(previous, TaskState::Runnable);
                    self.enqueue(previous, cpu);
                    let ghost queued = *self;
                    proof {
                        assert forall|c: int| 0 <= c < MAX_CPUS && c != cpu.0 implies #[trigger] queued.queue(c) == old(self).queue(c)
                            && queued.cpus@[c].current == old(self).cpus@[c].current by {}
                    }
                    self.cpus[cpu.0].need_resched = true;
                    proof {
                        self.lemma_wf_frame(&queued);
                        assert forall|c: int| 0 <= c < MAX_CPUS && c != cpu.0 implies #[trigger] self.queue(c) == old(self).queue(c)
                            && self.cpus@[c].current == old(self).cpus@[c].current by {
                            assert(self.cpus@[c] == queued.cpus@[c]);
                            assert(queued.queue(c) == old(self).queue(c));
                        }
                    }
                } else {
                    self.set_task_state(previous, TaskState::Blocked);
                    proof {
                        assert forall|c: int| 0 <= c < MAX_CPUS && c != cpu.0 implies #[trigger] self.queue(c) == old(self).queue(c)
                            && self.cpus@[c].current == old(self).cpus@[c].current by {}
                    }
                }
            },
            SwitchDisposition::Exit => {
                self.remove_task(previous);
                let ghost removed = *self;
                if record.kind.is_counted_kernel_thread() {
                    self.live_kernel_threads = self.live_kernel_threads - 1;
                }
                retired = true;
                proof {
                    self.lemma_wf_frame(&removed);
                    assert forall|c: int| 0 <= c < MAX_CPUS && c != cpu.0 implies #[trigger] self.queue(c) == old(self).queue(c)
                        && self.cpus@[c].current == old(self).cpus@[c].current by {}
                }
            },
        }
        let ghost committed = *self;
        assert(forall|c: int| 0 <= c < MAX_CPUS && c != cpu.0 ==> #[trigger] committed.queue(c) == old(self).queue(c)
            && committed.cpus@[c].current == old(self).cpus@[c].current);
        self.cpus[cpu.0].current = Some(plan.next);
        proof {
            self.lemma_wf_frame(&committed);
            assert(self.queue(cpu.0 as int) == committed.queue(cpu.0 as int));
            assert forall|c: int| 0 <= c < MAX_CPUS && c != cpu.0 implies #[trigger] self.queue(c) == old(self).queue(c)
                && self.cpus@[c].current == old(self).cpus@[c].current by {
                assert(self.cpus@[c] == committed.cpus@[c]);
                assert(committed.queue(c) == old(self).queue(c));
            }
        }
        retired
    }

    pub open spec fn has_free_slot(&self) -> bool {
        exists|i: int| 1 <= i < self.tasks@.len() && #[trigger] self.tasks@[i] is None
    }

    /// The first free task slot after the boot task, else a new slot at the
    /// end of the table (which must not be full).
    pub fn allocate_task_id(&self) -> (id: TaskId)
        requires
            self.wf(),
            self.has_free_slot() || self.tasks@.len() < MAX_TASKS,
        ensures
            self.has_free_slot() ==> 1 <= id.0 < self.tasks@.len() && self.tasks@[id.0 as int] is None
                && forall|j: int| 1 <= j < id.0 ==> #[trigger] self.tasks@[j] is Some,
            !self.has_free_slot() ==> id.0 == self.tasks@.len(),
    {
        let mut index: usize = 1;
        while index < self.tasks.len()
            invariant
                1 <= index,
                index <= self.tasks@.len() || self.tasks@.len() == 0,
                forall|j: int| 1 <= j < index ==> #[trigger] self.tasks@[j] is Some,
            decreases self.tasks@.len() - index,
        {
            if self.tasks[index].is_none() {
                return TaskId(index);
            }
            index = index + 1;
        }
        TaskId(self.tasks.len())
    }

    /// The active discovered CPU with the shortest run queue (the lowest
    /// numbered among equals).
    pub fn choose_target_cpu(&self, registry: &CpuRegistry) -> (cpu: CpuId)
        requires
            self.wf(),
            registry.wf(),
            exists|c: int| 0 <= c < self.discovered_cpus && #[trigger] scheduler_active_spec(registry.states@[c]),
        ensures
            cpu.0 < self.discovered_cpus,
            scheduler_active_spec(registry.states@[cpu.0 as int]),
            forall|d: int| 0 <= d < self.discovered_cpus && #[trigger] scheduler_active_spec(registry.states@[d])
                ==> self.queue(cpu.0 as int).len() <= self.queue(d).len(),
            forall|d: int| 0 <= d < cpu.0 && #[trigger] scheduler_active_spec(registry.states@[d])
                ==> self.queue(cpu.0 as int).len() < self.queue(d).len(),
    {
        let mut best: Option<CpuId> = None;
        let mut index: usize = 0;
        while index < self.discovered_cpus
            invariant
                self.wf(),
                registry.wf(),
                index <= self.discovered_cpus,
                best matches Some(b) ==> b.0 < index && scheduler_active_spec(registry.states@[b.0 as int])
                    && (forall|d: int| 0 <= d < index && #[trigger] scheduler_active_spec(registry.states@[d])
                        ==> self.queue(b.0 as int).len() <= self.queue(d).len())
                    && (forall|d: int| 0 <= d < b.0 && #[trigger] scheduler_active_spec(registry.states@[d])
                        ==> self.queue(b.0 as int).len() < self.queue(d).len()),
                best is None ==> forall|d: int| 0 <= d < index ==> !(#[trigger] scheduler_active_spec(registry.states@[d])),
            decreases self.discovered_cpus - index,
        {
            let cpu = CpuId(index);
            if is_scheduler_active(registry, cpu) {
                match best {
                    None => {
                        best = Some(cpu);
                    },
                    Some(current) => {
                        if self.cpus[index].run_queue.len() < self.cpus[current.0].run_queue.len() {
                            best = Some(cpu);
                        }
                    },
                }
            }
            index = index + 1;
        }
        best.unwrap()
    }

    /// Creates a runnable kernel or system thread and queues it: on its
    /// pinned CPU, else on the hinted CPU, else on the least loaded active
    /// CPU. Returns the task and the CPU that queued it.
    pub fn spawn(&mut self, registry: &CpuRegistry, kind: TaskKind, affinity: Option<CpuId>, queue_hint: Option<CpuId>,
        request_reschedule: bool) -> (spawned: (TaskId, CpuId))
        requires
            old(self).wf(),
            registry.wf(),
            kind is KernelThread || kind is SystemThread,
            old(self).has_free_slot() || old(self).tasks@.len() < MAX_TASKS,
            kind is KernelThread ==> old(self).live_kernel_threads < usize::MAX,
            match (if affinity is Some { affinity } else { queue_hint }) {
                Some(cpu) => cpu.0 < old(self).discovered_cpus && online_spec(registry.states@[cpu.0 as int])
                    && scheduler_active_spec(registry.states@[cpu.0 as int]),
                None => exists|c: int| 0 <= c < old(self).discovered_cpus && #[trigger] scheduler_active_spec(registry.states@[c]),
            },
        ensures
            final(self).wf(),
            spawned.1.0 < old(self).discovered_cpus,
            scheduler_active_spec(registry.states@[spawned.1.0 as int]),
            affinity is Some ==> spawned.1 == affinity.unwrap(),
            affinity is None && queue_hint is Some ==> spawned.1 == queue_hint.unwrap(),
            spawned.0.0 >= 1,
            old(self).has_free_slot() ==> spawned.0.0 < old(self).tasks@.len() && old(self).tasks@[spawned.0.0 as int] is None,
            !old(self).has_free_slot() ==> spawned.0.0 == old(self).tasks@.len(),
            final(self).exists_task(spawned.0.0 as int),
            final(self).record(spawned.0.0 as int) == (TaskRecord {
                kind, state: TaskState::Runnable, affinity, queued_on: Some(spawned.1), has_run: false }),
            final(self).queue(spawned.1.0 as int) == old(self).queue(spawned.1.0 as int).push(spawned.0),
            forall|c: int| 0 <= c < MAX_CPUS && c != spawned.1.0 ==> #[trigger] final(self).queue(c) == old(self).queue(c),
            final(self).cpus@[spawned.1.0 as int].need_resched == (request_reschedule || old(self).cpus@[spawned.1.0 as int].need_resched),
            final(self).live_kernel_threads == old(self).live_kernel_threads + (if kind is KernelThread { 1int } else { 0int }),
            final(self).discovered_cpus == old(self).discovered_cpus,
    {
        let target = match affinity {
            Some(cpu) => cpu,
            None => match queue_hint {
                Some(cpu) => cpu,
                None => self.choose_target_cpu(registry),
            },
        };
        let id = self.allocate_task_id();
        let ghost before = *self;
        let record = TaskRecord { kind, state: TaskState::Runnable, affinity, queued_on: None, has_run: false };
        if id.0 == self.tasks.len() {
            self.tasks.push(Some(record));
        } else {
            self.tasks.set(id.0, Some(record));
        }
        proof {
            assert forall|c: int| 0 <= c < MAX_CPUS implies #[trigger] self.queue(c) == before.queue(c) by {}
            assert forall|c: int, k: int| 0 <= c < MAX_CPUS && 0 <= k < self.queue(c).len() implies {
                let t = (#[trigger] self.queue(c)[k]).0 as int;
                &&& self.exists_task(t)
                &&& self.record(t).state == TaskState::Runnable
                &&& self.record(t).queued_on == Some(CpuId(c as usize))
            } by {
                let t = before.queue(c)[k].0 as int;
                assert(before.exists_task(t));
                assert(t != id.0);
            }
            assert forall|t: int| #[trigger] self.exists_task(t) && self.record(t).queued_on is Some implies {
                let c = self.record(t).queued_on.unwrap().0 as int;
                &&& 0 <= c < MAX_CPUS
                &&& self.queue(c).contains(TaskId(t as usize))
            } by {
                assert(t != id.0);
                assert(before.exists_task(t));
            }
            assert forall|t: int| #[trigger] self.exists_task(t) && self.record(t).queued_on is Some
                && self.record(t).affinity is Some implies self.record(t).affinity == self.record(t).queued_on by {
                assert(t != id.0);
                assert(before.exists_task(t));
            }
            assert forall|t: int| #[trigger] self.exists_task(t) && self.record(t).kind is Idle
                implies self.record(t).state != TaskState::Runnable by {
                if t != id.0 {
                    assert(before.exists_task(t));
                }
            }
            assert(self.exists_task(id.0 as int));
        }
        self.enqueue(id, target);
        let ghost enqueued = *self;
        if request_reschedule {
            let ghost queued = *self;
            self.cpus[target.0].need_resched = true;
            proof {
                self.lemma_wf_frame(&queued);
            }
        }
        if kind.is_counted_kernel_thread() {
            let ghost counted = *self;
            self.live_kernel_threads = self.live_kernel_threads + 1;
            proof {
                self.lemma_wf_frame(&counted);
            }
        }
        proof {
            assert forall|c: int| 0 <= c < MAX_CPUS && c != target.0 implies #[trigger] self.queue(c) == old(self).queue(c) by {
                assert(self.queue(c) == enqueued.queue(c));
            }
        }
        (id, target)
    }

    /// Secondary CPU `cpu` starts running its idle task.
    pub fn register_secondary(&mut self, registry: &CpuRegistry, cpu: CpuId)
        requires
            old(self).wf(),
            registry.wf(),
            cpu.0 != 0,
            cpu.0 < old(self).discovered_cpus,
            registry.states@[cpu.0 as int] == CpuState::Starting,
            old(self).cpus@[cpu.0 as int].current is None,
            old(self).cpus@[cpu.0 as int].idle is Some,
            old(self).exists_task(old(self).cpus@[cpu.0 as int].idle.unwrap().0 as int),
            old(self).record(old(self).cpus@[cpu.0 as int].idle.unwrap().0 as int).state == TaskState::Idle(cpu),
        ensures
            final(self).wf(),
            ({
                let idle = old(self).cpus@[cpu.0 as int].idle.unwrap();
                &&& final(self).cpus@[cpu.0 as int] == (CpuScheduler { current: Some(idle), ..old(self).cpus@[cpu.0 as int] })
                &&& final(self).tasks@ == old(self).tasks@.update(idle.0 as int, Some(TaskRecord {
                    state: TaskState::Running(cpu), has_run: true, ..old(self).record(idle.0 as int) }))
            }),
            forall|c: int| 0 <= c < MAX_CPUS && c != cpu.0 ==> #[trigger] final(self).cpus@[c] == old(self).cpus@[c],
            final(self).discovered_cpus == old(self).discovered_cpus,
            final(self).live_kernel_threads == old(self).live_kernel_threads,
    {
        let ghost before = *self;
        let idle = self.cpus[cpu.0].idle.unwrap();
        let record = self.tasks[idle.0].unwrap();
        self.tasks.set(idle.0, Some(TaskRecord { state: TaskState::Running(cpu), has_run: true, ..record }));
        self.cpus[cpu.0].current = Some(idle);
        proof {
            assert forall|c: int| 0 <= c < MAX_CPUS implies #[trigger] self.queue(c) == before.queue(c) by {}
            assert forall|c: int, k: int| 0 <= c < MAX_CPUS && 0 <= k < self.queue(c).len() implies {
                let t = (#[trigger] self.queue(c)[k]).0 as int;
                &&& self.exists_task(t)
                &&& self.record(t).state == TaskState::Runnable
                &&& self.record(t).queued_on == Some(CpuId(c as usize))
            } by {
                assert(self.queue(c)[k] == before.queue(c)[k]);
                assert(before.queue(c)[k].0 != idle.0);
            }
            assert forall|t: int| #[trigger] self.exists_task(t) && self.record(t).queued_on is Some implies {
                let c = self.record(t).queued_on.unwrap().0 as int;
                &&& 0 <= c < MAX_CPUS
                &&& self.queue(c).contains(TaskId(t as usize))
            } by {
                assert(before.exists_task(t));
            }
            assert forall|t: int| #[trigger] self.exists_task(t) && self.record(t).queued_on is Some
                && self.record(t).affinity is Some implies self.record(t).affinity == self.record(t).queued_on by {
                assert(before.exists_task(t));
            }
            assert forall|t: int| #[trigger] self.exists_task(t) && self.record(t).kind is Idle
                implies self.record(t).state != TaskState::Runnable by {
                assert(before.exists_task(t));
            }
        }
    }
}

// ---------------------------------------------------------------------------
// The per-CPU entry points: each acts on the calling CPU's state.

/// Interrupt entry on `cpu`; an offline CPU is not tracked.
pub fn irq_enter(scheduler: &mut Scheduler, registry: &CpuRegistry, cpu: CpuId)
    requires
        old(scheduler).wf(),
        registry.wf(),
        cpu.0 < MAX_CPUS,
        online_spec(registry.states@[cpu.0 as int]) ==> old(scheduler).cpus@[cpu.0 as int].irq_depth < usize::MAX,
    ensures
        final(scheduler).wf(),
        final(scheduler).counters_only(&*old(scheduler), cpu.0 as int),
        final(scheduler).cpus@[cpu.0 as int] == (if online_spec(registry.states@[cpu.0 as int]) {
            CpuScheduler { irq_depth: (old(scheduler).cpus@[cpu.0 as int].irq_depth + 1) as usize, ..old(scheduler).cpus@[cpu.0 as int] }
        } else {
            old(scheduler).cpus@[cpu.0 as int]
        }),
{
    if !is_online(registry, cpu) {
        return;
    }
    let ghost before = *scheduler;
    scheduler.irq_enter(cpu);
    proof {
        scheduler.lemma_wf_frame(&before);
    }
}

/// Interrupt exit on `cpu`; returns whether the CPU must now preempt the
/// running task.
pub fn irq_exit(scheduler: &mut Scheduler, registry: &CpuRegistry, cpu: CpuId) -> (preempt: bool)
    requires
        old(scheduler).wf(),
        registry.wf(),
        cpu.0 < MAX_CPUS,
        online_spec(registry.states@[cpu.0 as int]) ==> old(scheduler).cpus@[cpu.0 as int].irq_depth > 0,
    ensures
        final(scheduler).wf(),
        final(scheduler).counters_only(&*old(scheduler), cpu.0 as int),
        !online_spec(registry.states@[cpu.0 as int]) ==> !preempt && *final(scheduler) == *old(scheduler),
        online_spec(registry.states@[cpu.0 as int]) ==> final(scheduler).cpus@[cpu.0 as int] == (CpuScheduler {
            irq_depth: (old(scheduler).cpus@[cpu.0 as int].irq_depth - 1) as usize, ..old(scheduler).cpus@[cpu.0 as int] })
            && preempt == (old(scheduler).cpus@[cpu.0 as int].irq_depth == 1 && old(scheduler).cpus@[cpu.0 as int].preempt_count == 0
                && old(scheduler).cpus@[cpu.0 as int].need_resched),
{
    if !is_online(registry, cpu) {
        return false;
    }
    let ghost before = *scheduler;
    let preempt = scheduler.irq_exit(cpu);
    proof {
        scheduler.lemma_wf_frame(&before);
    }
    preempt
}

/// Charges timer ticks to the task running on `cpu`.
pub fn on_timer_ticks(scheduler: &mut Scheduler, cpu: CpuId, ticks: u64)
    requires
        old(scheduler).wf(),
        cpu.0 < MAX_CPUS,
        ticks > 0 ==> old(scheduler).cpus@[cpu.0 as int].current is Some
            && old(scheduler).exists_task(old(scheduler).cpus@[cpu.0 as int].current.unwrap().0 as int),
    ensures
        final(scheduler).wf(),
        final(scheduler).counters_only(&*old(scheduler), cpu.0 as int),
        ticks == 0 ==> *final(scheduler) == *old(scheduler),
        ticks > 0 ==> ({
            let before = old(scheduler).cpus@[cpu.0 as int];
            let after = final(scheduler).cpus@[cpu.0 as int];
            let idle = old(scheduler).record(before.current.unwrap().0 as int).kind is Idle;
            let elapsed: int = if ticks > u32::MAX { u32::MAX as int } else { ticks as int };
            &&& after.irq_depth == before.irq_depth
            &&& after.preempt_count == before.preempt_count
            &&& if idle {
                after.timeslice_remaining == before.timeslice_remaining && after.need_resched == before.need_resched
            } else if elapsed < before.timeslice_remaining {
                after.timeslice_remaining == before.timeslice_remaining - elapsed && after.need_resched == before.need_resched
            } else {
                after.timeslice_remaining == 0 && after.need_resched
            }
        }),
{
    if ticks == 0 {
        return;
    }
    scheduler.timer_ticks(cpu, ticks);
}

/// Requests a reschedule of `cpu` itself.
pub fn request_reschedule_local(scheduler: &mut Scheduler, registry: &CpuRegistry, cpu: CpuId)
    requires
        old(scheduler).wf(),
        registry.wf(),
        cpu.0 < MAX_CPUS,
    ensures
        final(scheduler).wf(),
        final(scheduler).counters_only(&*old(scheduler), cpu.0 as int),
        final(scheduler).cpus@[cpu.0 as int] == (if scheduler_active_spec(registry.states@[cpu.0 as int]) {
            CpuScheduler { need_resched: true, ..old(scheduler).cpus@[cpu.0 as int] }
        } else {
            old(scheduler).cpus@[cpu.0 as int]
        }),
{
    let ghost before = *scheduler;
    scheduler.request_reschedule(registry, cpu);
    proof {
        scheduler.lemma_wf_frame(&before);
    }
}

/// Disables preemption on `cpu`.
pub fn preempt_disable(scheduler: &mut Scheduler, cpu: CpuId)
    requires
        old(scheduler).wf(),
        cpu.0 < MAX_CPUS,
        old(scheduler).cpus@[cpu.0 as int].preempt_count < usize::MAX,
    ensures
        final(scheduler).wf(),
        final(scheduler).counters_only(&*old(scheduler), cpu.0 as int),
        final(scheduler).cpus@[cpu.0 as int] == (CpuScheduler {
            preempt_count: (old(scheduler).cpus@[cpu.0 as int].preempt_count + 1) as usize, ..old(scheduler).cpus@[cpu.0 as int] }),
{
    let ghost before = *scheduler;
    scheduler.preempt_disable(cpu);
    proof {
        scheduler.lemma_wf_frame(&before);
    }
}

/// Re-enables preemption on `cpu`; returns whether the task must now
/// reschedule: outermost enable, in task context, with interrupts on and a
/// reschedule pending.
pub fn preempt_enable(scheduler: &mut Scheduler, cpu: CpuId, interrupts_enabled: bool) -> (schedule: bool)
    requires
        old(scheduler).wf(),
        cpu.0 < MAX_CPUS,
        old(scheduler).cpus@[cpu.0 as int].preempt_count > 0,
    ensures
        final(scheduler).wf(),
        final(scheduler).counters_only(&*old(scheduler), cpu.0 as int),
        final(scheduler).cpus@[cpu.0 as int] == (CpuScheduler {
            preempt_count: (old(scheduler).cpus@[cpu.0 as int].preempt_count - 1) as usize, ..old(scheduler).cpus@[cpu.0 as int] }),
        schedule == (old(scheduler).cpus@[cpu.0 as int].preempt_count == 1 && old(scheduler).cpus@[cpu.0 as int].irq_depth == 0
            && old(scheduler).cpus@[cpu.0 as int].need_resched && interrupts_enabled),
{
    let ghost before = *scheduler;
    let schedule = scheduler.preempt_enable(cpu);
    proof {
        scheduler.lemma_wf_frame(&before);
    }
    schedule && scheduler.cpus[cpu.0].irq_depth == 0 && interrupts_enabled
}

pub fn preempt_count(scheduler: &Scheduler, cpu: CpuId) -> (count: usize)
    requires
        scheduler.wf(),
        cpu.0 < MAX_CPUS,
    ensures
        count == scheduler.cpus@[cpu.0 as int].preempt_count,
{
    scheduler.cpus[cpu.0].preempt_count
}

pub fn irq_depth(scheduler: &Scheduler, cpu: CpuId) -> (depth: usize)
    requires
        scheduler.wf(),
        cpu.0 < MAX_CPUS,
    ensures
        depth == scheduler.cpus@[cpu.0 as int].irq_depth,
{
    scheduler.cpus[cpu.0].irq_depth
}

/// Secondary CPU `cpu` registers with the scheduler and moves to the
/// scheduler-registered lifecycle state.
pub fn register_secondary_cpu(scheduler: &mut Scheduler, registry: &mut CpuRegistry, cpu: CpuId)
    requires
        old(scheduler).wf(),
        old(registry).wf(),
        cpu.0 != 0,
        cpu.0 < old(scheduler).discovered_cpus,
        old(registry).states@[cpu.0 as int] == CpuState::Starting,
        old(scheduler).cpus@[cpu.0 as int].current is None,
        old(scheduler).cpus@[cpu.0 as int].idle is Some,
        old(scheduler).exists_task(old(scheduler).cpus@[cpu.0 as int].idle.unwrap().0 as int),
        old(scheduler).record(old(scheduler).cpus@[cpu.0 as int].idle.unwrap().0 as int).state == TaskState::Idle(cpu),
    ensures
        final(scheduler).wf(),
        final(registry).wf(),
        final(scheduler).cpus@[cpu.0 as int].current == old(scheduler).cpus@[cpu.0 as int].idle,
        final(registry).states@ == old(registry).states@.update(cpu.0 as int, CpuState::SchedulerRegistered),
{
    scheduler.register_secondary(registry, cpu);
    let _ = mark_current_scheduler_registered(registry, cpu);
}

/// Spawns an unpinned kernel thread on the least loaded active CPU.
pub fn spawn_kernel_thread(scheduler: &mut Scheduler, registry: &CpuRegistry) -> (id: TaskId)
    requires
        old(scheduler).wf(),
        registry.wf(),
        old(scheduler).has_free_slot() || old(scheduler).tasks@.len() < MAX_TASKS,
        old(scheduler).live_kernel_threads < usize::MAX,
        exists|c: int| 0 <= c < old(scheduler).discovered_cpus && #[trigger] scheduler_active_spec(registry.states@[c]),
    ensures
        final(scheduler).wf(),
        final(scheduler).exists_task(id.0 as int),
        final(scheduler).record(id.0 as int).kind == TaskKind::KernelThread,
        final(scheduler).record(id.0 as int).state == TaskState::Runnable,
        final(scheduler).record(id.0 as int).affinity is None,
        final(scheduler).live_kernel_threads == old(scheduler).live_kernel_threads + 1,
{
    scheduler.spawn(registry, TaskKind::KernelThread, None, None, false).0
}

/// Preemption disabled on a CPU until the guard is released.
pub struct PreemptGuard {
    cpu: CpuId,
}

impl PreemptGuard {
    pub closed spec fn spec_cpu(&self) -> CpuId {
        self.cpu
    }

    pub fn new(scheduler: &mut Scheduler, cpu: CpuId) -> (guard: PreemptGuard)
        requires
            old(scheduler).wf(),
            cpu.0 < MAX_CPUS,
            old(scheduler).cpus@[cpu.0 as int].preempt_count < usize::MAX,
        ensures
            final(scheduler).wf(),
            guard.spec_cpu() == cpu,
            final(scheduler).counters_only(&*old(scheduler), cpu.0 as int),
            final(scheduler).cpus@[cpu.0 as int].preempt_count == old(scheduler).cpus@[cpu.0 as int].preempt_count + 1,
    {
        preempt_disable(scheduler, cpu);
        PreemptGuard { cpu }
    }

    /// Re-enables preemption; returns whether the task must reschedule now.
    pub fn release(self, scheduler: &mut Scheduler, interrupts_enabled: bool) -> (schedule: bool)
        requires
            old(scheduler).wf(),
            self.spec_cpu().0 < MAX_CPUS,
            old(scheduler).cpus@[self.spec_cpu().0 as int].preempt_count > 0,
        ensures
            final(scheduler).wf(),
            final(scheduler).counters_only(&*old(scheduler), self.spec_cpu().0 as int),
            final(scheduler).cpus@[self.spec_cpu().0 as int].preempt_count == old(scheduler).cpus@[self.spec_cpu().0 as int].preempt_count - 1,
    {
        preempt_enable(scheduler, self.cpu, interrupts_enabled)
    }
}

/// Migration disabled: the task that takes the outermost pin on a CPU gets
/// that CPU as its affinity, so no other CPU takes it, until the last pin
/// is released. The holder stays preemptible and interruptible.
pub struct MigrationGuard {
    cpu: CpuId,
}

impl MigrationGuard {
    pub closed spec fn spec_cpu(&self) -> CpuId {
        self.cpu
    }

    pub fn new(scheduler: &mut Scheduler, cpu: CpuId) -> (guard: MigrationGuard)
        requires
            old(scheduler).wf(),
            cpu.0 < MAX_CPUS,
            old(scheduler).cpus@[cpu.0 as int].migration_depth < usize::MAX,
            old(scheduler).cpus@[cpu.0 as int].migration_depth == 0 ==> {
                &&& old(scheduler).cpus@[cpu.0 as int].current matches Some(task)
                &&& old(scheduler).exists_task(task.0 as int)
                &&& old(scheduler).record(task.0 as int).queued_on is None
            },
        ensures
            final(scheduler).wf(),
            guard.spec_cpu() == cpu,
            final(scheduler).discovered_cpus == old(scheduler).discovered_cpus,
            final(scheduler).live_kernel_threads == old(scheduler).live_kernel_threads,
            forall|c: int| 0 <= c < MAX_CPUS && c != cpu.0 ==> #[trigger] final(scheduler).cpus@[c] == old(scheduler).cpus@[c],
            old(scheduler).cpus@[cpu.0 as int].migration_depth > 0 ==> {
                &&& final(scheduler).tasks@ == old(scheduler).tasks@
                &&& final(scheduler).cpus@[cpu.0 as int] == (CpuScheduler {
                    migration_depth: (old(scheduler).cpus@[cpu.0 as int].migration_depth + 1) as usize,
                    ..old(scheduler).cpus@[cpu.0 as int]
                })
            },
            old(scheduler).cpus@[cpu.0 as int].migration_depth == 0 ==> {
                let task = old(scheduler).cpus@[cpu.0 as int].current.unwrap();
                let record = old(scheduler).record(task.0 as int);
                &&& final(scheduler).tasks@ == old(scheduler).tasks@.update(task.0 as int,
                    Some(TaskRecord { affinity: Some(cpu), ..record }))
                &&& final(scheduler).cpus@[cpu.0 as int] == (CpuScheduler {
                    migration_depth: 1,
                    migration_pinned: Some((task, record.affinity)),
                    ..old(scheduler).cpus@[cpu.0 as int]
                })
            },
    {
        let ghost before = *scheduler;
        if scheduler.cpus[cpu.0].migration_depth == 0 {
            let task = scheduler.cpus[cpu.0].current.unwrap();
            let record = scheduler.tasks[task.0].unwrap();
            scheduler.tasks.set(task.0, Some(TaskRecord { affinity: Some(cpu), ..record }));
            scheduler.cpus[cpu.0].migration_pinned = Some((task, record.affinity));
            proof {
                scheduler.lemma_wf_affinity(&before, task.0 as int, Some(cpu));
            }
        }
        let ghost pinned = *scheduler;
        scheduler.cpus[cpu.0].migration_depth = scheduler.cpus[cpu.0].migration_depth + 1;
        proof {
            scheduler.lemma_wf_frame(&pinned);
        }
        MigrationGuard { cpu }
    }

    /// Drops one pin; the last one gives the pinned task its affinity back.
    pub fn release(self, scheduler: &mut Scheduler)
        requires
            old(scheduler).wf(),
            self.spec_cpu().0 < MAX_CPUS,
            old(scheduler).cpus@[self.spec_cpu().0 as int].migration_depth > 0,
            old(scheduler).cpus@[self.spec_cpu().0 as int].migration_depth == 1 ==> {
                &&& old(scheduler).cpus@[self.spec_cpu().0 as int].migration_pinned matches Some((task, _))
                &&& old(scheduler).exists_task(task.0 as int)
                &&& old(scheduler).record(task.0 as int).queued_on is None
            },
        ensures
            final(scheduler).wf(),
            final(scheduler).discovered_cpus == old(scheduler).discovered_cpus,
            final(scheduler).live_kernel_threads == old(scheduler).live_kernel_threads,
            forall|c: int| 0 <= c < MAX_CPUS && c != self.spec_cpu().0 ==> #[trigger] final(scheduler).cpus@[c] == old(scheduler).cpus@[c],
            old(scheduler).cpus@[self.spec_cpu().0 as int].migration_depth > 1 ==> {
                &&& final(scheduler).tasks@ == old(scheduler).tasks@
                &&& final(scheduler).cpus@[self.spec_cpu().0 as int] == (CpuScheduler {
                    migration_depth: (old(scheduler).cpus@[self.spec_cpu().0 as int].migration_depth - 1) as usize,
                    ..old(scheduler).cpus@[self.spec_cpu().0 as int]
                })
            },
            old(scheduler).cpus@[self.spec_cpu().0 as int].migration_depth == 1 ==> {
                let (task, affinity) = old(scheduler).cpus@[self.spec_cpu().0 as int].migration_pinned.unwrap();
                &&& final(scheduler).tasks@ == old(scheduler).tasks@.update(task.0 as int,
                    Some(TaskRecord { affinity, ..old(scheduler).record(task.0 as int) }))
                &&& final(scheduler).cpus@[self.spec_cpu().0 as int] == (CpuScheduler {
                    migration_depth: 0,
                    migration_pinned: None,
                    ..old(scheduler).cpus@[self.spec_cpu().0 as int]
                })
            },
    {
        let ghost before = *scheduler;
        let cpu = self.cpu;
        if scheduler.cpus[cpu.0].migration_depth == 1 {
            let (task, affinity) = scheduler.cpus[cpu.0].migration_pinned.unwrap();
            let record = scheduler.tasks[task.0].unwrap();
            scheduler.tasks.set(task.0, Some(TaskRecord { affinity, ..record }));
            scheduler.cpus[cpu.0].migration_pinned = None;
            proof {
                scheduler.lemma_wf_affinity(&before, task.0 as int, affinity);
            }
        }
        let ghost unpinned = *scheduler;
        scheduler.cpus[cpu.0].migration_depth = scheduler.cpus[cpu.0].migration_depth - 1;
        proof {
            scheduler.lemma_wf_frame(&unpinned);
        }
    }
}

/// Disabling and re-enabling preemption, or entering and leaving an
/// interrupt, restores the per-CPU state exactly.
pub proof fn lemma_nesting_round_trip(before: CpuScheduler, disabled: CpuScheduler, after: CpuScheduler)
    requires
        disabled == (CpuScheduler { preempt_count: (before.preempt_count + 1) as usize, ..before }),
        after == (CpuScheduler { preempt_count: (disabled.preempt_count - 1) as usize, ..disabled }),
        before.preempt_count < usize::MAX,
    ensures
        after == before,
{
}

} // verus!