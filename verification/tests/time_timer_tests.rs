use std::cell::RefCell;

use kernel::smp::CpuId;
use kernel::task::wait_queue::{Completion, WaitOutcome, WaitQueue, WaitStep, COMPLETION_ALL};
use kernel::task::TaskId;
use kernel::time::{
    cycles_to_nanoseconds, deadline_after, deadline_reached, duration_to_cycles_round_up, earlier_deadline,
    instant_is_after, instant_is_before, minimum_clockevent_delta_cycles, tick_period_for, ClockeventAction,
    ClockeventState, MonotonicInstant,
};
use kernel::timer::{
    arm_after, arm_at, cancel_sync, handle_interrupt, sleep, sleep_until, CancelResult, CancelSyncStep, SleepStep,
    TimerQueue, TimerState, TIMERS_PER_CPU,
};

fn at(cycles: u64) -> MonotonicInstant {
    MonotonicInstant::from_cycles(cycles)
}

#[test]
fn instants_compare_across_wraparound() {
    assert!(instant_is_after(at(10), at(5)));
    assert!(!instant_is_after(at(5), at(10)));
    assert!(instant_is_after(at(3), at(u64::MAX - 2)));
    assert!(instant_is_before(at(u64::MAX - 2), at(3)));
    assert!(deadline_reached(at(10), at(10)));
    assert!(!deadline_reached(at(9), at(10)));
    assert_eq!(earlier_deadline(at(7), at(4)).cycles(), 4);
    assert_eq!(earlier_deadline(at(u64::MAX), at(1)).cycles(), u64::MAX);
    assert_eq!(at(u64::MAX).wrapping_add_cycles(2).cycles(), 1);
}

#[test]
fn cycle_and_duration_conversions() {
    assert_eq!(cycles_to_nanoseconds(10_000_000, 10_000_000), 1_000_000_000);
    assert_eq!(cycles_to_nanoseconds(1, 3), 333_333_333);
    assert_eq!(duration_to_cycles_round_up(1, 10_000_000), 1);
    assert_eq!(duration_to_cycles_round_up(1_000_000_000, 10_000_000), 10_000_000);
    assert_eq!(duration_to_cycles_round_up(0, 10_000_000), 0);
    assert_eq!(minimum_clockevent_delta_cycles(10_000_000), 10);
    assert_eq!(minimum_clockevent_delta_cycles(1), 1);
    assert_eq!(tick_period_for(10_000_000), Some(100_000));
    assert_eq!(tick_period_for(99), None);
    assert_eq!(deadline_after(at(100), 1_000, 10_000_000).cycles(), 110);
    assert_eq!(at(110).duration_since(at(100), 10_000_000), 1_000);
}

#[test]
fn scheduler_tick_accounting() {
    let mut state = ClockeventState::new();
    state.arm_scheduler_tick(at(1_000), 100);
    assert_eq!(state.next_scheduler_deadline, 1_100);
    let early = state.begin_timer_interrupt(at(1_050), 100);
    assert_eq!(early.elapsed_ticks(), 0);
    let late = state.begin_timer_interrupt(at(1_350), 100);
    assert_eq!(late.elapsed_ticks(), 3);
    assert_eq!(late.now().cycles(), 1_350);
    assert_eq!(state.timer_ticks, 3);
    assert_eq!(state.next_scheduler_deadline, 1_400);
}

#[test]
fn reprogram_chooses_the_earlier_safe_deadline() {
    let mut state = ClockeventState::new();
    assert_eq!(state.plan_reprogram(Some(at(5)), at(0), 10), ClockeventAction::Untouched);
    state.arm_scheduler_tick(at(0), 1_000);
    assert_eq!(state.plan_reprogram(Some(at(500)), at(0), 10), ClockeventAction::Program(at(500)));
    assert_eq!(state.plan_reprogram(Some(at(5_000)), at(0), 10), ClockeventAction::Program(at(1_000)));
    assert_eq!(state.plan_reprogram(Some(at(3)), at(0), 10), ClockeventAction::Program(at(10)));
    assert!(state.enter_idle());
    assert_eq!(state.tickless_idle_entries, 1);
    assert!(!state.tick_active);
    assert_eq!(state.plan_reprogram(None, at(0), 10), ClockeventAction::Shutdown);
    state.record_action(ClockeventAction::Program(at(77)));
    assert_eq!(state.programmed_deadline, 77);
    state.record_action(ClockeventAction::Shutdown);
    assert_eq!(state.programmed_deadline, 0);
    assert!(state.leave_idle(at(2_000), 1_000, true));
    assert!(state.tick_active);
    state.reset();
    assert!(!state.running);
}

#[test]
fn timers_fire_in_deadline_order() {
    let mut queue: TimerQueue<u32> = TimerQueue::new();
    let cpu = CpuId::boot();
    arm_at(&mut queue, cpu, at(300), 3, 0).expect("third");
    let (_, earliest) = arm_at(&mut queue, cpu, at(100), 1, 0).expect("first");
    assert_eq!(earliest, Some(at(100)));
    arm_at(&mut queue, cpu, at(200), 2, 0).expect("second");
    let fired = RefCell::new(Vec::new());
    let run = |callback: u32, _argument: usize| fired.borrow_mut().push(callback);
    let left = handle_interrupt(&mut queue, at(250), &run);
    assert_eq!(*fired.borrow(), vec![1, 2]);
    assert_eq!(left, Some(at(300)));
    let left = handle_interrupt(&mut queue, at(300), &run);
    assert_eq!(*fired.borrow(), vec![1, 2, 3]);
    assert_eq!(left, None);
}

#[test]
fn cancelled_timer_never_runs_and_stale_handles_are_refused() {
    let mut queue: TimerQueue<u32> = TimerQueue::new();
    let cpu = CpuId::boot();
    let (handle, _) = arm_at(&mut queue, cpu, at(100), 9, 0).expect("arm");
    assert_eq!(cancel_sync(&mut queue, handle, cpu), (CancelSyncStep::Finished(true), Some(None)));
    assert_eq!(queue.cancel(handle), CancelResult::Stale);
    let fired = RefCell::new(0);
    let run = |_callback: u32, _argument: usize| *fired.borrow_mut() += 1;
    handle_interrupt(&mut queue, at(1_000), &run);
    assert_eq!(*fired.borrow(), 0);
    let (again, _) = arm_at(&mut queue, cpu, at(100), 9, 0).expect("rearm");
    assert_eq!(again.slot, handle.slot);
    assert_ne!(again.generation, handle.generation);
    assert_eq!(queue.cancel(handle), CancelResult::Stale);
    let other = CpuId::new(1).expect("cpu 1");
    assert_eq!(cancel_sync(&mut queue, again, other), (CancelSyncStep::Finished(true), None));
}

#[test]
fn firing_timer_asks_cancel_to_retry() {
    let mut queue: TimerQueue<u32> = TimerQueue::new();
    let cpu = CpuId::boot();
    let (handle, _) = arm_at(&mut queue, cpu, at(10), 1, 0).expect("arm");
    let firing = queue.pop_due(at(20)).expect("due");
    assert_eq!(queue.slots[firing.slot].state, TimerState::Firing);
    assert_eq!(cancel_sync(&mut queue, handle, cpu), (CancelSyncStep::Retry, None));
    queue.complete_firing(firing);
    assert_eq!(cancel_sync(&mut queue, handle, cpu), (CancelSyncStep::Finished(false), None));
}

#[test]
fn slots_are_reclaimed_and_capacity_is_bounded() {
    let mut queue: TimerQueue<u32> = TimerQueue::new();
    let cpu = CpuId::boot();
    for i in 0..TIMERS_PER_CPU {
        arm_at(&mut queue, cpu, at(1_000 + i as u64), 0, i).expect("fill");
    }
    assert!(arm_at(&mut queue, cpu, at(5), 0, 0).is_err());
    let run = |_callback: u32, _argument: usize| {};
    let mut rounds = 0;
    while queue.len > 0 {
        handle_interrupt(&mut queue, at(10_000), &run);
        rounds += 1;
    }
    assert_eq!(rounds, 4);
    assert!(arm_at(&mut queue, cpu, at(5), 0, 0).is_ok());
}

#[test]
fn sleeps() {
    let mut queue: TimerQueue<u32> = TimerQueue::new();
    let cpu = CpuId::boot();
    assert_eq!(sleep(&mut queue, cpu, at(100), 0, 10_000_000, 1, 0), SleepStep::Done);
    assert_eq!(sleep_until(&mut queue, cpu, at(50), at(100), 1, 0), SleepStep::Done);
    match sleep(&mut queue, cpu, at(100), 2_000, 10_000_000, 1, 0) {
        SleepStep::Wait(handle) => {
            assert_eq!(queue.slots[handle.slot as usize].deadline, at(120));
        }
        SleepStep::Done => panic!("a future deadline must wait"),
    }
    let (handle, _) = arm_after(&mut queue, cpu, at(0), 1_000_000_000, 10_000_000, 7, 99).expect("long");
    assert_eq!(queue.slots[handle.slot as usize].deadline, at(10_000_000));
    assert_eq!(queue.slots[handle.slot as usize].callback, Some(7));
    assert_eq!(queue.slots[handle.slot as usize].argument, 99);
    assert_eq!(cancel_sync(&mut queue, handle, cpu).0, CancelSyncStep::Finished(true));
    assert_eq!(cancel_sync(&mut queue, handle, cpu).0, CancelSyncStep::Finished(false));
    let mut full: TimerQueue<u32> = TimerQueue::new();
    while arm_at(&mut full, cpu, at(1_000), 1, 0).is_ok() {}
    assert_eq!(sleep(&mut full, cpu, at(100), 0, 10_000_000, 1, 0), SleepStep::Done);
    assert_eq!(sleep_until(&mut full, cpu, at(50), at(100), 1, 0), SleepStep::Done);
}

#[test]
fn wait_queue_is_fifo() {
    let mut queue = WaitQueue::new();
    queue.enqueue(TaskId(3));
    queue.enqueue(TaskId(1));
    assert!(queue.contains(TaskId(3)));
    queue.enqueue(TaskId(2));
    assert_eq!(queue.waiter_count(), 3);
    assert!(queue.contains(TaskId(1)));
    assert!(queue.remove(TaskId(1)));
    assert!(!queue.remove(TaskId(1)));
    assert_eq!(queue.wake(1), vec![TaskId(3)]);
    assert_eq!(queue.wake_all(), 1);
    assert_eq!(queue.wake_one(), 0);
    assert_eq!(queue.wait_until(true), WaitStep::Finish(WaitOutcome::Satisfied));
    assert_eq!(queue.wait_until(false), WaitStep::Block);
    assert_eq!(queue.wait_until_deadline(false, at(10), at(5), false), WaitStep::Finish(WaitOutcome::TimedOut));
    assert_eq!(queue.wait_until_deadline(true, at(10), at(5), true), WaitStep::Finish(WaitOutcome::Satisfied));
    assert_eq!(queue.wait_until_deadline(false, at(1), at(5), false), WaitStep::Block);
    assert_eq!(queue.wait_until_deadline(false, at(1), at(5), true), WaitStep::Finish(WaitOutcome::TimedOut));
}

#[test]
fn completion_tokens() {
    let mut completion = Completion::new();
    assert!(!completion.try_wait());
    assert_eq!(completion.wait(), WaitStep::Block);
    completion.wait_queue().enqueue(TaskId(4));
    assert_eq!(completion.complete(), 1);
    assert!(completion.is_done());
    assert_eq!(completion.wait(), WaitStep::Finish(WaitOutcome::Satisfied));
    assert!(!completion.is_done());
    assert_eq!(completion.wait_timeout(true), WaitStep::Finish(WaitOutcome::TimedOut));
    completion.complete();
    completion.complete();
    assert!(completion.try_wait());
    assert!(completion.try_wait());
    assert!(!completion.try_wait());
    completion.wait_queue().enqueue(TaskId(5));
    completion.wait_queue().enqueue(TaskId(6));
    assert_eq!(completion.complete_all(), 2);
    for _ in 0..5 {
        assert!(completion.try_wait());
    }
    assert_eq!(COMPLETION_ALL, 0x3fff_ffff);
    completion.reinit();
    assert!(!completion.is_done());
}
