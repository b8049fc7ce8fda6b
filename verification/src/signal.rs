//! Signal numbers, signal-mask updates and signal actions.
use vstd::prelude::*;

use crate::process::SignalState;
use crate::syscall::errno::Errno;

verus! {

pub const SIGINT: u32 = 2;
pub const SIGKILL: u32 = 9;
pub const SIGSEGV: u32 = 11;
pub const SIGPIPE: u32 = 13;
pub const SIGTERM: u32 = 15;
pub const SIGCHLD: u32 = 17;

pub const SIG_BLOCK: usize = 0;
pub const SIG_UNBLOCK: usize = 1;
pub const SIG_SETMASK: usize = 2;

/// The handler value that ignores a signal.
pub const SIG_IGN: usize = 1;

/// The kernel's record of a `sigaction`.
#[derive(Clone, Copy, Debug, PartialEq, Eq, Structural)]
pub struct KernelSigAction {
    pub handler: usize,
    pub flags: usize,
    pub restorer: usize,
    pub mask: u64,
}

impl KernelSigAction {
    pub open spec fn default_spec() -> KernelSigAction {
        KernelSigAction { handler: 0, flags: 0, restorer: 0, mask: 0 }
    }

    /// The default action: no handler, no flags, nothing masked.
    pub fn default() -> (action: KernelSigAction)
        ensures
            action == KernelSigAction::default_spec(),
    {
        KernelSigAction { handler: 0, flags: 0, restorer: 0, mask: 0 }
    }
}

/// The mask bit of `signal`, for signals 1 to 63.
pub open spec fn signal_bit_spec(signal: u32) -> Option<u64> {
    if signal == 0 || signal >= 64 {
        None
    } else {
        Some(1u64 << ((signal - 1) as u64))
    }
}

pub fn signal_bit(signal: u32) -> (bit: Option<u64>)
    ensures
        bit == signal_bit_spec(signal),
{
    if signal == 0 || signal >= 64 {
        None
    } else {
        Some(1u64 << ((signal - 1) as u64))
    }
}

/// The signals that no mask may block: SIGKILL and SIGSEGV.
pub fn unblockable_mask() -> (mask: u64)
    ensures
        mask == 0x500u64,
{
    proof {
        assert((1u64 << 8u64) | (1u64 << 10u64) == 0x500u64) by (bit_vector);
    }
    (1u64 << ((SIGKILL - 1) as u64)) | (1u64 << ((SIGSEGV - 1) as u64))
}

pub fn validate_signal(signal: u32) -> (result: Result<(), Errno>)
    ensures
        result is Ok <==> signal_bit_spec(signal) is Some,
        result matches Err(error) ==> error == Errno::Einval,
{
    if signal_bit(signal).is_some() {
        Ok(())
    } else {
        Err(Errno::Einval)
    }
}

/// The signal mask after a `sigprocmask`-style update: without a new set
/// the mask stays; `how` blocks, unblocks or replaces; the unblockable
/// signals are never kept blocked.
pub open spec fn update_mask_spec(current: u64, how: usize, input: Option<u64>) -> Result<u64, Errno> {
    match input {
        None => Ok(current),
        Some(set) => if how == SIG_BLOCK {
            Ok((current | set) & !0x500u64)
        } else if how == SIG_UNBLOCK {
            Ok((current & !set) & !0x500u64)
        } else if how == SIG_SETMASK {
            Ok(set & !0x500u64)
        } else {
            Err(Errno::Einval)
        },
    }
}

pub fn update_mask(current: u64, how: usize, input: Option<u64>) -> (result: Result<u64, Errno>)
    ensures
        result == update_mask_spec(current, how, input),
{
    let set = match input {
        Some(set) => set,
        None => {
            return Ok(current);
        },
    };
    let next = if how == SIG_BLOCK {
        current | set
    } else if how == SIG_UNBLOCK {
        current & !set
    } else if how == SIG_SETMASK {
        set
    } else {
        return Err(Errno::Einval);
    };
    Ok(next & !unblockable_mask())
}

/// What `sigprocmask` does to each signal, bit `i` standing for signal
/// `i + 1`: blocking keeps every blocked signal and adds the set, unblocking
/// clears the set's signals and keeps the rest, replacing blocks exactly the
/// set; SIGKILL (bit 8) and SIGSEGV (bit 10) end up unblocked whatever is
/// asked. Without a set the mask is unchanged; any other `how` is refused.
pub proof fn lemma_mask_update_per_signal(current: u64, how: usize, set: u64, i: u64)
    requires
        i < 64,
    ensures
        update_mask_spec(current, how, None) == Ok::<u64, Errno>(current),
        how != SIG_BLOCK && how != SIG_UNBLOCK && how != SIG_SETMASK ==> update_mask_spec(current, how, Some(set))
            == Err::<u64, Errno>(Errno::Einval),
        how == SIG_BLOCK || how == SIG_UNBLOCK || how == SIG_SETMASK ==> update_mask_spec(current, how, Some(set)) is Ok,
        ({
            let bit = 1u64 << i;
            let kept = i != 8 && i != 10;
            let next = update_mask_spec(current, how, Some(set))->Ok_0;
            &&& how == SIG_BLOCK ==> ((next & bit != 0) <==> kept && (current & bit != 0 || set & bit != 0))
            &&& how == SIG_UNBLOCK ==> ((next & bit != 0) <==> kept && current & bit != 0 && set & bit == 0)
            &&& how == SIG_SETMASK ==> ((next & bit != 0) <==> kept && set & bit != 0)
        }),
{
    let bit = 1u64 << i;
    assert(((current | set) & !0x500u64) & (1u64 << i) != 0 <==> (i != 8 && i != 10) && (current & (1u64 << i) != 0
        || set & (1u64 << i) != 0)) by (bit_vector)
        requires
            i < 64,
    ;
    assert(((current & !set) & !0x500u64) & (1u64 << i) != 0 <==> (i != 8 && i != 10) && current & (1u64 << i) != 0
        && set & (1u64 << i) == 0) by (bit_vector)
        requires
            i < 64,
    ;
    assert((set & !0x500u64) & (1u64 << i) != 0 <==> (i != 8 && i != 10) && set & (1u64 << i) != 0) by (bit_vector)
        requires
            i < 64,
    ;
}

/// A process as signal delivery sees it: its group, its session and its
/// signal state.
pub struct SignalTarget {
    pub process_group: isize,
    pub session: isize,
    pub signals: SignalState,
}

/// How many of `targets` a group signal reaches: every target whose group
/// (and, when given, session) matches, when the signal is valid.
pub open spec fn matching_count(targets: Seq<SignalTarget>, pgrp: isize, session: Option<isize>, n: int) -> int
    decreases n,
{
    if n <= 0 {
        0
    } else {
        matching_count(targets, pgrp, session, n - 1) + (if target_matches(targets[n - 1], pgrp, session) { 1int } else { 0int })
    }
}

pub open spec fn target_matches(target: SignalTarget, pgrp: isize, session: Option<isize>) -> bool {
    target.process_group == pgrp && (session is None || target.session == session.unwrap())
}

fn send_signal_to_matching(targets: &mut Vec<SignalTarget>, pgrp: isize, session: Option<isize>, signal: u32) -> (delivered: usize)
    requires
        forall|i: int| 0 <= i < old(targets)@.len() ==> (#[trigger] old(targets)@[i]).signals.wf(),
    ensures
        final(targets)@.len() == old(targets)@.len(),
        forall|i: int| 0 <= i < final(targets)@.len() ==> (#[trigger] final(targets)@[i]).signals.wf(),
        signal_bit_spec(signal) is None ==> delivered == 0 && final(targets)@ == old(targets)@,
        signal_bit_spec(signal) is Some ==> delivered == matching_count(old(targets)@, pgrp, session, old(targets)@.len() as int),
        forall|i: int| 0 <= i < final(targets)@.len() ==> {
            let before = old(targets)@[i];
            let after = #[trigger] final(targets)@[i];
            &&& after.process_group == before.process_group
            &&& after.session == before.session
            &&& if signal_bit_spec(signal) is Some && target_matches(before, pgrp, session) {
                after.signals.spec_pending() == before.signals.spec_pending() | signal_bit_spec(signal).unwrap()
                    && after.signals.spec_blocked() == before.signals.spec_blocked()
                    && after.signals.spec_actions() == before.signals.spec_actions()
                    && after.signals.wait_queue_waiters().len() == 0
            } else {
                after.signals == before.signals
            }
        },
{
    if signal_bit(signal).is_none() {
        return 0;
    }
    let mut delivered: usize = 0;
    let mut i: usize = 0;
    while i < targets.len()
        invariant
            signal_bit_spec(signal) is Some,
            i <= targets@.len(),
            targets@.len() == old(targets)@.len(),
            delivered == matching_count(old(targets)@, pgrp, session, i as int),
            delivered <= i,
            forall|j: int| 0 <= j < targets@.len() ==> (#[trigger] targets@[j]).signals.wf(),
            forall|j: int| i <= j < targets@.len() ==> #[trigger] targets@[j] == old(targets)@[j],
            forall|j: int| 0 <= j < i ==> {
                let before = old(targets)@[j];
                let after = #[trigger] targets@[j];
                &&& after.process_group == before.process_group
                &&& after.session == before.session
                &&& if target_matches(before, pgrp, session) {
                    after.signals.spec_pending() == before.signals.spec_pending() | signal_bit_spec(signal).unwrap()
                        && after.signals.spec_blocked() == before.signals.spec_blocked()
                        && after.signals.spec_actions() == before.signals.spec_actions()
                        && after.signals.wait_queue_waiters().len() == 0
                } else {
                    after.signals == before.signals
                }
            },
        decreases targets@.len() - i,
    {
        let in_session = match session {
            Some(wanted) => targets[i].session == wanted,
            None => true,
        };
        if targets[i].process_group == pgrp && in_session {
            let result = targets[i].signals.add_pending(signal);
            if result.is_ok() {
                delivered = delivered + 1;
            }
        }
        i = i + 1;
    }
    delivered
}

/// Delivers `signal` to every process of group `pgrp`; returns how many
/// accepted it.
pub fn send_signal_to_process_group(targets: &mut Vec<SignalTarget>, pgrp: isize, signal: u32) -> (delivered: usize)
    requires
        forall|i: int| 0 <= i < old(targets)@.len() ==> (#[trigger] old(targets)@[i]).signals.wf(),
    ensures
        final(targets)@.len() == old(targets)@.len(),
        forall|i: int| 0 <= i < final(targets)@.len() ==> (#[trigger] final(targets)@[i]).signals.wf(),
        signal_bit_spec(signal) is None ==> delivered == 0 && final(targets)@ == old(targets)@,
        signal_bit_spec(signal) is Some ==> delivered == matching_count(old(targets)@, pgrp, None, old(targets)@.len() as int),
        forall|i: int| 0 <= i < final(targets)@.len() ==> {
            let before = old(targets)@[i];
            let after = #[trigger] final(targets)@[i];
            if signal_bit_spec(signal) is Some && before.process_group == pgrp {
                after.signals.spec_pending() == before.signals.spec_pending() | signal_bit_spec(signal).unwrap()
            } else {
                after.signals == before.signals
            }
        },
{
    send_signal_to_matching(targets, pgrp, None, signal)
}

/// Delivers `signal` to every process that is in group `pgrp` and in
/// `session` (the foreground group of a controlling terminal); returns how
/// many accepted it.
pub fn send_signal_to_foreground_group(targets: &mut Vec<SignalTarget>, pgrp: isize, session: isize, signal: u32) -> (delivered: usize)
    requires
        forall|i: int| 0 <= i < old(targets)@.len() ==> (#[trigger] old(targets)@[i]).signals.wf(),
    ensures
        final(targets)@.len() == old(targets)@.len(),
        forall|i: int| 0 <= i < final(targets)@.len() ==> (#[trigger] final(targets)@[i]).signals.wf(),
        signal_bit_spec(signal) is None ==> delivered == 0 && final(targets)@ == old(targets)@,
        signal_bit_spec(signal) is Some ==> delivered == matching_count(old(targets)@, pgrp, Some(session), old(targets)@.len() as int),
        forall|i: int| 0 <= i < final(targets)@.len() ==> {
            let before = old(targets)@[i];
            let after = #[trigger] final(targets)@[i];
            if signal_bit_spec(signal) is Some && before.process_group == pgrp && before.session == session {
                after.signals.spec_pending() == before.signals.spec_pending() | signal_bit_spec(signal).unwrap()
            } else {
                after.signals == before.signals
            }
        },
{
    send_signal_to_matching(targets, pgrp, Some(session), signal)
}

} // verus!
