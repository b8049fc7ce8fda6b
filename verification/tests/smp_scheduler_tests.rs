use kernel::smp::{
    assert_bringup_complete, broadcast_ipi_except_current, cpu_state, discovered_cpu_count, expected_cpu_mask,
    hardware_id, ipi_ready_cpu_mask, is_ipi_ready, is_online, is_scheduler_active, mark_boot_scheduler_registered,
    mark_cpu_start_failed, mark_cpu_starting, mark_current_ipi_ready, mark_current_scheduler_active,
    mark_current_scheduler_registered, online_cpu_count, online_cpu_mask, present_cpu_mask, scheduler_active_cpu_count,
    scheduler_active_cpu_mask, CpuFilter, CpuId, CpuRegistry, CpuState, TopologyError, MAX_CPUS,
};
use kernel::task::{
    irq_depth, irq_enter, irq_exit, on_timer_ticks, preempt_count, preempt_disable, preempt_enable,
    register_secondary_cpu, request_reschedule_local, spawn_kernel_thread, MigrationGuard, PreemptGuard, Scheduler,
    SwitchDisposition, TaskId, TaskKind, TaskState, DEFAULT_TIME_SLICE_TICKS,
};
use kernel::task::wait_queue::WaitQueue;

fn bring_up_boot(registry: &mut CpuRegistry) {
    mark_boot_scheduler_registered(registry).expect("registered");
    mark_current_scheduler_active(registry, CpuId(0)).expect("active");
    mark_current_ipi_ready(registry, CpuId(0)).expect("ipi");
}

#[test]
fn topology_discovery() {
    let registry = CpuRegistry::discover(7, &[3, 7, 5]).expect("discover");
    assert_eq!(registry.hardware_ids, vec![7, 3, 5]);
    assert_eq!(discovered_cpu_count(&registry), 3);
    assert_eq!(hardware_id(&registry, CpuId(1)), 3);
    assert_eq!(present_cpu_mask(&registry), 0b111);
    assert_eq!(online_cpu_mask(&registry), 0);
    assert_eq!(cpu_state(&registry, CpuId(2)), CpuState::Present);
    assert_eq!(cpu_state(&registry, CpuId(5)), CpuState::Absent);
    assert_eq!(registry.count_state(CpuFilter::Present), 3);
    assert_eq!(CpuRegistry::discover(1, &[2, 2]).err(), Some(TopologyError::DuplicateHardwareId(2)));
    let too_many: Vec<usize> = (0..(MAX_CPUS + 1)).collect();
    assert_eq!(CpuRegistry::discover(0, &too_many).err(), Some(TopologyError::TooManyCpus));
}

#[test]
fn cpu_lifecycle_transitions() {
    let mut registry = CpuRegistry::discover(0, &[0, 1, 2]).expect("discover");
    bring_up_boot(&mut registry);
    assert_eq!(mark_boot_scheduler_registered(&mut registry), Err(CpuState::IpiReady));
    mark_cpu_starting(&mut registry, CpuId(1)).expect("starting");
    assert_eq!(mark_cpu_starting(&mut registry, CpuId(1)), Err(CpuState::Starting));
    mark_current_scheduler_registered(&mut registry, CpuId(1)).expect("registered");
    assert!(is_online(&registry, CpuId(1)));
    assert!(!is_scheduler_active(&registry, CpuId(1)));
    mark_current_scheduler_active(&mut registry, CpuId(1)).expect("active");
    assert!(is_scheduler_active(&registry, CpuId(1)));
    assert!(!is_ipi_ready(&registry, CpuId(1)));
    mark_current_ipi_ready(&mut registry, CpuId(1)).expect("ipi");
    mark_cpu_starting(&mut registry, CpuId(2)).expect("starting 2");
    mark_cpu_start_failed(&mut registry, CpuId(2)).expect("failed 2");
    assert_eq!(cpu_state(&registry, CpuId(2)), CpuState::Failed);
    assert!(!assert_bringup_complete(&registry));
    assert_eq!(online_cpu_count(&registry), 2);
    assert_eq!(scheduler_active_cpu_count(&registry), 2);
    assert_eq!(scheduler_active_cpu_mask(&registry), 0b11);
    assert_eq!(ipi_ready_cpu_mask(&registry), 0b11);
    assert_eq!(broadcast_ipi_except_current(&registry, CpuId(0)), 0b10);
    assert_eq!(expected_cpu_mask(3), 0b111);
    assert_eq!(expected_cpu_mask(0), 0);
    assert_eq!(CpuState::IpiReady.name(), "ipi-ready");
    assert_eq!(CpuState::from_raw(CpuState::Active.raw()), CpuState::Active);
}

#[test]
fn every_cpu_ready_completes_bringup() {
    let mut registry = CpuRegistry::discover(0, &[]).expect("single cpu");
    bring_up_boot(&mut registry);
    assert!(assert_bringup_complete(&registry));
}

#[test]
fn yield_rotates_tasks_round_robin() {
    let mut registry = CpuRegistry::discover(0, &[0]).expect("discover");
    bring_up_boot(&mut registry);
    let mut scheduler = Scheduler::new(1);
    let a = spawn_kernel_thread(&mut scheduler, &registry);
    let b = spawn_kernel_thread(&mut scheduler, &registry);
    assert_eq!(a, TaskId(1));
    assert_eq!(b, TaskId(2));
    assert_eq!(scheduler.live_kernel_threads, 2);
    assert_eq!(scheduler.cpus[0].run_queue, vec![a, b]);

    let cpu = CpuId(0);
    let plan = scheduler.prepare_yield(&registry, cpu).expect("switch to a");
    assert_eq!((plan.previous, plan.next), (TaskId(0), a));
    assert!(!scheduler.complete_switch(cpu, plan, SwitchDisposition::Yield, false));
    assert_eq!(scheduler.cpus[0].current, Some(a));
    assert_eq!(scheduler.tasks[0].unwrap().state, TaskState::Idle(cpu));
    assert_eq!(scheduler.cpus[0].run_queue, vec![b]);

    let plan = scheduler.prepare_yield(&registry, cpu).expect("switch to b");
    assert_eq!((plan.previous, plan.next), (a, b));
    scheduler.complete_switch(cpu, plan, SwitchDisposition::Yield, false);
    assert_eq!(scheduler.cpus[0].run_queue, vec![a]);
    assert_eq!(scheduler.cpus[0].context_switches, 2);

    let plan = scheduler.prepare_yield(&registry, cpu).expect("back to a");
    assert_eq!(plan.next, a);
    assert!(scheduler.complete_switch(cpu, plan, SwitchDisposition::Exit, false));
    assert_eq!(scheduler.tasks[2], None);
    assert_eq!(scheduler.live_kernel_threads, 1);
    assert!(scheduler.prepare_yield(&registry, cpu).is_none());
    assert_eq!(scheduler.cpus[0].timeslice_remaining, DEFAULT_TIME_SLICE_TICKS);
}

#[test]
fn blocked_task_waits_unless_woken_while_switching() {
    let mut registry = CpuRegistry::discover(0, &[0]).expect("discover");
    bring_up_boot(&mut registry);
    let mut scheduler = Scheduler::new(1);
    let cpu = CpuId(0);
    let a = spawn_kernel_thread(&mut scheduler, &registry);
    let b = spawn_kernel_thread(&mut scheduler, &registry);
    let plan = scheduler.prepare_yield(&registry, cpu).expect("to a");
    scheduler.complete_switch(cpu, plan, SwitchDisposition::Yield, false);
    let plan = scheduler.prepare_yield(&registry, cpu).expect("to b");
    scheduler.complete_switch(cpu, plan, SwitchDisposition::Block, false);
    assert_eq!(scheduler.tasks[a.0].unwrap().state, TaskState::Blocked);
    assert!(scheduler.cpus[0].run_queue.is_empty());
    let plan = scheduler.prepare_yield(&registry, cpu);
    assert!(plan.is_none());
    let _ = b;

    let c = spawn_kernel_thread(&mut scheduler, &registry);
    let plan = scheduler.prepare_yield(&registry, cpu).expect("to c");
    assert_eq!(plan.next, c);
    scheduler.complete_switch(cpu, plan, SwitchDisposition::Block, true);
    assert_eq!(scheduler.cpus[0].run_queue, vec![b]);
    assert!(scheduler.cpus[0].need_resched);
}

#[test]
fn secondary_cpu_steals_unpinned_work() {
    let mut registry = CpuRegistry::discover(0, &[0, 1]).expect("discover");
    bring_up_boot(&mut registry);
    let mut scheduler = Scheduler::new(2);
    mark_cpu_starting(&mut registry, CpuId(1)).expect("starting");
    register_secondary_cpu(&mut scheduler, &mut registry, CpuId(1));
    assert_eq!(scheduler.cpus[1].current, Some(TaskId(1)));
    mark_current_scheduler_active(&mut registry, CpuId(1)).expect("active");
    let (task, queued_on) = scheduler.spawn(&registry, TaskKind::SystemThread, None, Some(CpuId(0)), false);
    assert_eq!(queued_on, CpuId(0));
    assert_eq!(scheduler.steal_runnable(&registry, CpuId(1)), Some(task));
    assert!(scheduler.cpus[0].run_queue.is_empty());
    let (pinned, _) = scheduler.spawn(&registry, TaskKind::KernelThread, Some(CpuId(0)), None, false);
    assert_eq!(scheduler.steal_runnable(&registry, CpuId(1)), None);
    assert_eq!(scheduler.dequeue_next(&registry, CpuId(0)), Some(pinned));
}

#[test]
fn interrupt_and_preemption_nesting() {
    let mut registry = CpuRegistry::discover(0, &[0]).expect("discover");
    bring_up_boot(&mut registry);
    let mut scheduler = Scheduler::new(1);
    let cpu = CpuId(0);
    irq_enter(&mut scheduler, &registry, cpu);
    irq_enter(&mut scheduler, &registry, cpu);
    assert_eq!(irq_depth(&scheduler, cpu), 2);
    assert!(!irq_exit(&mut scheduler, &registry, cpu));
    request_reschedule_local(&mut scheduler, &registry, cpu);
    assert!(irq_exit(&mut scheduler, &registry, cpu));
    assert_eq!(irq_depth(&scheduler, cpu), 0);
    preempt_disable(&mut scheduler, cpu);
    let guard = PreemptGuard::new(&mut scheduler, cpu);
    assert_eq!(preempt_count(&scheduler, cpu), 2);
    assert!(!guard.release(&mut scheduler, true));
    assert!(preempt_enable(&mut scheduler, cpu, true));
    let pinned = scheduler.cpus[0].current.expect("a task runs");
    let migration = MigrationGuard::new(&mut scheduler, cpu);
    assert_eq!(preempt_count(&scheduler, cpu), 0);
    assert_eq!(scheduler.cpus[0].migration_depth, 1);
    assert_eq!(scheduler.tasks[pinned.raw()].unwrap().affinity, Some(cpu));
    let nested = MigrationGuard::new(&mut scheduler, cpu);
    assert_eq!(scheduler.cpus[0].migration_depth, 2);
    nested.release(&mut scheduler);
    assert_eq!(scheduler.tasks[pinned.raw()].unwrap().affinity, Some(cpu));
    migration.release(&mut scheduler);
    assert_eq!(scheduler.cpus[0].migration_depth, 0);
    assert_eq!(preempt_count(&scheduler, cpu), 0);
    on_timer_ticks(&mut scheduler, cpu, DEFAULT_TIME_SLICE_TICKS as u64);
    assert_eq!(scheduler.cpus[0].timeslice_remaining, DEFAULT_TIME_SLICE_TICKS);
}

#[test]
fn running_task_uses_up_its_time_slice() {
    let mut registry = CpuRegistry::discover(0, &[0]).expect("discover");
    bring_up_boot(&mut registry);
    let mut scheduler = Scheduler::new(1);
    let cpu = CpuId(0);
    spawn_kernel_thread(&mut scheduler, &registry);
    let plan = scheduler.prepare_yield(&registry, cpu).expect("switch");
    scheduler.complete_switch(cpu, plan, SwitchDisposition::Yield, false);
    on_timer_ticks(&mut scheduler, cpu, 1);
    assert_eq!(scheduler.cpus[0].timeslice_remaining, DEFAULT_TIME_SLICE_TICKS - 1);
    assert!(!scheduler.cpus[0].need_resched);
    on_timer_ticks(&mut scheduler, cpu, 100);
    assert_eq!(scheduler.cpus[0].timeslice_remaining, 0);
    assert!(scheduler.cpus[0].need_resched);
    let plan = scheduler.prepare_preempt(&registry, cpu);
    assert!(plan.is_none());
    assert!(!scheduler.cpus[0].need_resched);
    assert_eq!(scheduler.cpus[0].timeslice_remaining, DEFAULT_TIME_SLICE_TICKS);
}

#[test]
fn blocking_joins_the_queue_and_falls_back_to_idle() {
    let mut registry = CpuRegistry::discover(0, &[0]).expect("discover");
    bring_up_boot(&mut registry);
    let mut scheduler = Scheduler::new(1);
    let cpu = CpuId(0);
    let a = spawn_kernel_thread(&mut scheduler, &registry);
    let b = spawn_kernel_thread(&mut scheduler, &registry);
    let plan = scheduler.prepare_yield(&registry, cpu).expect("to a");
    scheduler.complete_switch(cpu, plan, SwitchDisposition::Yield, false);

    let mut queue = WaitQueue::new();
    let plan = scheduler.prepare_block(&registry, cpu, &mut queue);
    assert_eq!((plan.previous, plan.next), (a, b));
    assert_eq!(scheduler.tasks[a.0].unwrap().state, TaskState::SwitchingOut(cpu));
    assert!(queue.contains(a));
    scheduler.complete_switch(cpu, plan, SwitchDisposition::Block, false);
    assert_eq!(scheduler.tasks[a.0].unwrap().state, TaskState::Blocked);

    let plan = scheduler.prepare_block(&registry, cpu, &mut queue);
    assert_eq!((plan.previous, plan.next), (b, TaskId(0)));
    assert_eq!(scheduler.tasks[0].unwrap().state, TaskState::Running(cpu));
    scheduler.complete_switch(cpu, plan, SwitchDisposition::Block, false);
    assert_eq!(scheduler.cpus[0].current, Some(TaskId(0)));
    assert_eq!(queue.waiter_count(), 2);
    assert_eq!(scheduler.cpus[0].context_switches, 3);
}

#[test]
fn an_exiting_task_hands_over_to_idle() {
    let mut registry = CpuRegistry::discover(0, &[0]).expect("discover");
    bring_up_boot(&mut registry);
    let mut scheduler = Scheduler::new(1);
    let cpu = CpuId(0);
    let a = spawn_kernel_thread(&mut scheduler, &registry);
    let plan = scheduler.prepare_yield(&registry, cpu).expect("to a");
    scheduler.complete_switch(cpu, plan, SwitchDisposition::Yield, false);
    let plan = scheduler.prepare_exit(&registry, cpu);
    assert_eq!((plan.previous, plan.next), (a, TaskId(0)));
    assert!(scheduler.complete_switch(cpu, plan, SwitchDisposition::Exit, false));
    assert_eq!(scheduler.tasks[a.0], None);
    assert_eq!(scheduler.live_kernel_threads, 0);
    assert_eq!(scheduler.cpus[0].current, Some(TaskId(0)));
}
