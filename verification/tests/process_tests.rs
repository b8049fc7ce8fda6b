use kernel::process::{Process, ProcessError, ProcessId, ProcessTable, ThreadId, VirtRange};
use kernel::syscall::errno::Errno;
use kernel::signal::KernelSigAction;
use kernel::task::wait_queue::{WaitOutcome, WaitStep};

const USER: VirtRange = VirtRange { start: 0x1000, end: 0x40_0000_0000 };
const STACK: VirtRange = VirtRange { start: 0x3f_0000_0000, end: 0x3f_0001_0000 };

#[test]
fn a_new_process_leads_its_own_group_and_session() {
    let process = Process::create(ProcessId(7));
    assert_eq!(process.id(), ProcessId(7));
    assert_eq!(process.process_group(), 7);
    assert_eq!(process.session(), 7);
    assert_eq!(process.parent_id(), None);
    assert_eq!(process.thread_count(), 0);
    assert!(!process.has_child(-1));
    assert_eq!(process.credentials().real_uid(), 0);
    assert_eq!(process.fs().cwd_path(), "/");
}

#[test]
fn a_forked_child_inherits_group_session_and_signal_state() {
    let mut parent = Process::create(ProcessId(10));
    parent.set_process_group(3);
    let mut child = parent.fork_child(ProcessId(11), false).expect("fork");
    assert_eq!(child.parent_id(), Some(ProcessId(10)));
    assert_eq!(child.process_group(), 3);
    assert_eq!(child.session(), 10);
    assert!(parent.has_child(11));
    assert!(parent.has_child(-1));
    assert!(!parent.has_child(12));
    assert_eq!(child.setsid(), 11);
    assert_eq!(child.process_group(), 11);
    assert_eq!(child.session(), 11);
    assert_eq!(child.signals().blocked(), parent.signals().blocked());
    assert_eq!(child.signals().action(64), Some(KernelSigAction::default()));
}

#[test]
fn zombies_are_reaped_once_with_their_status() {
    let mut parent = Process::create(ProcessId(1));
    let _first = parent.fork_child(ProcessId(2), false).expect("fork");
    let _second = parent.fork_child(ProcessId(3), false).expect("fork");
    assert_eq!(parent.mark_child_zombie(ProcessId(9), 0), Err(ProcessError::ThreadNotFound));
    assert_eq!(parent.wait_zombie_child(-1), Ok(None));
    assert_eq!(parent.mark_child_zombie(ProcessId(3), 42), Ok(()));
    assert!(parent.has_zombie_child(3));
    assert!(!parent.has_zombie_child(2));
    assert!(parent.has_child(2));
    assert_eq!(parent.wait_zombie_child(2), Ok(None));
    assert_eq!(parent.wait_zombie_child(3), Ok(Some((ProcessId(3), 42))));
    assert_eq!(parent.wait_zombie_child(3), Ok(None));
    assert!(!parent.has_child(3));
    assert_eq!(parent.mark_child_zombie(ProcessId(2), 1), Ok(()));
    assert_eq!(parent.wait_zombie_child(-1), Ok(Some((ProcessId(2), 1))));
    assert!(!parent.has_child(-1));
}

#[test]
fn thread_groups_need_a_leader_first() {
    let mut process = Process::create(ProcessId(5));
    assert_eq!(process.create_thread(0x2000, STACK, USER, ThreadId(6)), Err(ProcessError::ThreadNotReady));
    assert_eq!(process.create_initial_thread(0, STACK, USER), Err(ProcessError::InvalidUserContext));
    let empty = VirtRange { start: 0x5000, end: 0x5000 };
    assert_eq!(process.create_initial_thread(0x2000, empty, USER), Err(ProcessError::InvalidUserContext));
    assert_eq!(process.create_initial_thread(0x2000, STACK, USER), Ok(ThreadId(5)));
    assert_eq!(process.create_initial_thread(0x2000, STACK, USER), Err(ProcessError::AlreadyHasLeader));
    assert_eq!(process.create_thread(0x2000, STACK, USER, ThreadId(6)), Ok(ThreadId(6)));
    assert_eq!(process.thread_count(), 2);
    assert_eq!(process.wait_until_single_thread(), WaitStep::Block);
    assert_eq!(process.detach_thread(ThreadId(9)), Err(ProcessError::ThreadNotFound));
    assert_eq!(process.detach_thread(ThreadId(5)), Ok(false));
    assert_eq!(process.wait_until_single_thread(), WaitStep::Finish(WaitOutcome::Satisfied));
    assert_eq!(process.create_thread(0x2000, STACK, USER, ThreadId(7)), Err(ProcessError::ThreadNotReady));
    assert_eq!(process.detach_thread(ThreadId(6)), Ok(true));
    assert_eq!(process.thread_count(), 0);
}

#[test]
fn vfork_parents_wait_until_released() {
    let mut parent = Process::create(ProcessId(20));
    let mut child = parent.fork_child(ProcessId(21), true).expect("vfork");
    assert_eq!(child.wait_vfork_done(), WaitStep::Block);
    child.complete_vfork();
    assert_eq!(child.wait_vfork_done(), WaitStep::Finish(WaitOutcome::Satisfied));
    assert_eq!(child.complete_vfork(), 0);
    assert_eq!(parent.wait_vfork_done(), WaitStep::Finish(WaitOutcome::Satisfied));
}

#[test]
fn signals_reach_registered_processes_only() {
    let mut table = ProcessTable::new();
    assert_eq!(table.create(), Some(ProcessId(1)));
    assert_eq!(table.create(), Some(ProcessId(2)));
    assert_eq!(table.process_ids(), vec![ProcessId(1), ProcessId(2)]);
    assert_eq!(table.send_signal(ProcessId(2), 0), Err(Errno::Einval));
    assert_eq!(table.send_signal(ProcessId(2), 64), Err(Errno::Einval));
    assert_eq!(table.send_signal(ProcessId(9), 15), Err(Errno::Esrch));
    assert_eq!(table.send_signal(ProcessId(2), 15), Ok(()));
    assert_eq!(table.lookup_process(ProcessId(2)).expect("pid 2").signals().pending(), 1 << 14);
    assert_eq!(table.lookup_process(ProcessId(1)).expect("pid 1").signals().pending(), 0);
    let removed = table.unregister_process(ProcessId(1)).expect("pid 1");
    assert_eq!(removed.id(), ProcessId(1));
    assert!(table.lookup_process(ProcessId(1)).is_none());
    assert!(table.unregister_process(ProcessId(1)).is_none());
    assert_eq!(table.allocate_process_id(), Some(ProcessId(3)));
    assert_eq!(table.process_ids(), vec![ProcessId(2)]);
}
