use kernel::pipe::{pipe_status_flags, PipeError, PipeState, ReadStep, WriteStep, O_CLOEXEC, O_NONBLOCK, PIPE_CAPACITY, POLL_ERR, POLL_HUP, POLL_IN, POLL_OUT};
use kernel::process::{Credentials, FsContext, ProcessId, SignalState, ThreadId};
use kernel::signal::{
    send_signal_to_foreground_group, send_signal_to_process_group, signal_bit, unblockable_mask, update_mask,
    validate_signal, KernelSigAction, SignalTarget, SIGKILL, SIGTERM, SIG_BLOCK, SIG_IGN, SIG_SETMASK, SIG_UNBLOCK,
};
use kernel::syscall::errno::Errno;

#[test]
fn signal_bits_and_masks() {
    assert_eq!(signal_bit(SIGTERM), Some(1_u64 << 14));
    assert_eq!(signal_bit(1), Some(1));
    assert_eq!(signal_bit(63), Some(1_u64 << 62));
    assert_eq!(signal_bit(0), None);
    assert_eq!(signal_bit(64), None);
    assert_eq!(update_mask(0, SIG_BLOCK, Some(1_u64 << (SIGTERM - 1))).expect("signal mask update failed"), 1_u64 << (SIGTERM - 1));
    assert_eq!(unblockable_mask(), 0x500);
    assert_eq!(update_mask(0, SIG_SETMASK, Some(u64::MAX)), Ok(!0x500_u64));
    assert_eq!(update_mask(0b1110, SIG_UNBLOCK, Some(0b0100)), Ok(0b1010));
    assert_eq!(update_mask(7, 9, Some(1)), Err(Errno::Einval));
    assert_eq!(update_mask(7, 9, None), Ok(7));
    assert_eq!(validate_signal(SIGKILL), Ok(()));
    assert_eq!(validate_signal(0), Err(Errno::Einval));
    assert_eq!(validate_signal(65), Err(Errno::Einval));
    let _ = ProcessId::from_raw_for_kernel(0);
    assert_eq!(ProcessId(7).get(), 7);
    assert_eq!(ThreadId(9).get(), 9);
}

#[test]
fn pending_signals_are_taken_lowest_first() {
    let mut state = SignalState::new();
    assert_eq!(state.pending(), 0);
    state.add_pending(SIGTERM).expect("term");
    state.add_pending(2).expect("int");
    assert_eq!(state.add_pending(0), Err(Errno::Einval));
    assert_eq!(state.pending(), (1 << 14) | (1 << 1));
    assert_eq!(state.take_unblocked(1 << 1), Some(SIGTERM));
    assert_eq!(state.take_unblocked(1 << 1), None);
    assert_eq!(state.take_matching_unblocked(1 << 1, 0), Some(2));
    assert_eq!(state.pending(), 0);
    state.set_blocked(u64::MAX);
    assert_eq!(state.blocked(), u64::MAX);
}

#[test]
fn signal_actions_copy_and_exec_reset() {
    let mut parent = SignalState::new();
    let handler = KernelSigAction { handler: 0x4000, flags: 4, restorer: 0x5000, mask: 2 };
    let ignore = KernelSigAction { handler: SIG_IGN, flags: 0, restorer: 0, mask: 0 };
    parent.set_action(SIGTERM, handler).expect("set term");
    parent.set_action(2, ignore).expect("set int");
    assert_eq!(parent.set_action(0, handler), Err(Errno::Einval));
    assert_eq!(parent.action(SIGTERM), Some(handler));
    assert_eq!(parent.action(99), None);
    let mut child = SignalState::new();
    child.copy_actions_from(&parent);
    assert_eq!(child.action(SIGTERM), Some(handler));
    child.reset_actions_for_exec();
    assert_eq!(child.action(SIGTERM), Some(KernelSigAction::default()));
    assert_eq!(child.action(2), Some(ignore));
}

#[test]
fn group_signals_reach_matching_processes() {
    let mut targets = vec![
        SignalTarget { process_group: 10, session: 1, signals: SignalState::new() },
        SignalTarget { process_group: 11, session: 1, signals: SignalState::new() },
        SignalTarget { process_group: 10, session: 2, signals: SignalState::new() },
    ];
    assert_eq!(send_signal_to_process_group(&mut targets, 10, SIGTERM), 2);
    assert_eq!(targets[0].signals.pending(), 1 << 14);
    assert_eq!(targets[1].signals.pending(), 0);
    assert_eq!(targets[2].signals.pending(), 1 << 14);
    assert_eq!(send_signal_to_foreground_group(&mut targets, 10, 2, 2), 1);
    assert_eq!(targets[2].signals.pending(), (1 << 14) | (1 << 1));
    assert_eq!(send_signal_to_process_group(&mut targets, 10, 0), 0);
}

#[test]
fn credentials_and_fs_context() {
    let credentials = Credentials::bootstrap();
    assert_eq!(credentials.real_uid(), 0);
    assert_eq!(credentials.effective_uid(), 0);
    assert_eq!(credentials.real_gid(), 0);
    assert_eq!(credentials.effective_gid(), 0);
    let mut fs = FsContext::bootstrap();
    assert_eq!(fs.root_path(), "/");
    assert_eq!(fs.cwd_path(), "/");
    fs.set_cwd("/tmp").expect("cwd");
    assert_eq!(fs.cwd_path(), "/tmp");
    let mut other = FsContext::bootstrap();
    other.copy_from(&fs).expect("copy");
    assert_eq!(other.cwd_path(), "/tmp");
}

fn read_all(pipe: &mut PipeState, capacity: usize) -> Vec<u8> {
    match pipe.read(capacity) {
        ReadStep::Data(bytes) => bytes,
        other => panic!("expected data, got {:?}", other),
    }
}

#[test]
fn pipe_is_first_in_first_out() {
    let mut pipe = PipeState::new();
    assert_eq!(pipe.write(b"pipe-ok"), WriteStep::Written(7));
    assert_eq!(read_all(&mut pipe, 8), b"pipe-ok".to_vec());
    pipe.close_writer();
    assert!(matches!(pipe.read(1), ReadStep::EndOfFile));
}

#[test]
fn pipe_exit_of_one_owner_keeps_other_writers() {
    let mut pipe = PipeState::new();
    pipe.writers = 2;
    pipe.close_writer();
    assert!(matches!(pipe.read(1), ReadStep::Empty));
    pipe.exit_writer();
    assert!(matches!(pipe.read(1), ReadStep::EndOfFile));
    assert_eq!(pipe.reader_poll(POLL_IN | POLL_HUP), POLL_IN | POLL_HUP);
}

#[test]
fn pipe_fills_wraps_and_breaks() {
    let mut pipe = PipeState::new();
    let big = vec![7_u8; PIPE_CAPACITY + 10];
    assert_eq!(pipe.write(&big), WriteStep::Written(PIPE_CAPACITY));
    assert_eq!(pipe.write(b"x"), WriteStep::Full);
    assert_eq!(pipe.writer_poll(POLL_OUT), 0);
    assert_eq!(read_all(&mut pipe, 100).len(), 100);
    assert_eq!(pipe.write(&[1, 2, 3]), WriteStep::Written(3));
    let rest = read_all(&mut pipe, PIPE_CAPACITY);
    assert_eq!(rest.len(), PIPE_CAPACITY - 100 + 3);
    assert_eq!(&rest[rest.len() - 3..], &[1, 2, 3]);
    assert_eq!(pipe.writer_poll(POLL_OUT), POLL_OUT);
    pipe.close_reader();
    assert_eq!(pipe.write(b"y"), WriteStep::Broken);
    assert_eq!(pipe.writer_poll(POLL_OUT), POLL_ERR);
    pipe.close_reader();
    assert_eq!(pipe.readers, 0);
}

#[test]
fn pipe2_flags() {
    assert_eq!(pipe_status_flags(0), Ok(0));
    assert_eq!(pipe_status_flags(O_NONBLOCK | O_CLOEXEC), Ok(O_NONBLOCK));
    assert_eq!(pipe_status_flags(O_CLOEXEC), Ok(0));
    assert_eq!(pipe_status_flags(1), Err(PipeError::InvalidFlags));
}
