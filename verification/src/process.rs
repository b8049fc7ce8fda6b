//! Processes: identities, family relations, process groups and sessions,
//! thread groups, credentials, file-system context and the per-process
//! signal state.
use vstd::prelude::*;
use vstd::std_specs::bits::u64_trailing_zeros;
use vstd::string::StringExecFns;

use crate::signal::{signal_bit, signal_bit_spec, validate_signal, KernelSigAction, SIG_IGN};
use crate::syscall::errno::Errno;
use crate::task::wait_queue::{Completion, WaitOutcome, WaitQueue, WaitStep};
use crate::task::TaskId;

verus! {

pub const PROCESS_MAX_FDS: usize = 128;
/// Signal actions kept per process (signals 1 to 64).
pub const SIGNAL_ACTIONS: usize = 64;

#[derive(Clone, Copy, Debug, PartialEq, Eq, Structural)]
pub struct ProcessId(pub usize);

impl ProcessId {
    pub fn get(self) -> (raw: usize)
        ensures
            raw == self.0,
    {
        self.0
    }

    pub fn from_raw_for_kernel(raw: usize) -> (id: ProcessId)
        ensures
            id.0 == raw,
    {
        ProcessId(raw)
    }
}

#[derive(Clone, Copy, Debug, PartialEq, Eq, Structural)]
pub struct ThreadId(pub usize);

impl ThreadId {
    pub fn get(self) -> (raw: usize)
        ensures
            raw == self.0,
    {
        self.0
    }
}

#[derive(Clone, Copy, Debug, PartialEq, Eq, Structural)]
pub enum ProcessError {
    AlreadyHasLeader,
    InvalidUserContext,
    MetadataOutOfMemory,
    ThreadAlreadyExited,
    ThreadNotFound,
    ThreadNotReady,
}

/// Process-wide pending and blocked signal sets, the signal actions, and the
/// queue of threads waiting for a signal.
pub struct SignalState {
    pending: u64,
    blocked: u64,
    actions: Vec<KernelSigAction>,
    waiters: WaitQueue,
}

/// The lowest signal in `available` (bit `n` is signal `n + 1`).
pub open spec fn lowest_signal(available: u64) -> u32 {
    (u64_trailing_zeros(available) + 1) as u32
}

impl SignalState {
    pub closed spec fn spec_pending(&self) -> u64 {
        self.pending
    }

    pub closed spec fn spec_blocked(&self) -> u64 {
        self.blocked
    }

    pub closed spec fn spec_actions(&self) -> Seq<KernelSigAction> {
        self.actions@
    }

    pub closed spec fn wait_queue_waiters(&self) -> Seq<TaskId> {
        self.waiters.spec_waiters()
    }

    pub closed spec fn wf(&self) -> bool {
        &&& self.actions@.len() == SIGNAL_ACTIONS
        &&& self.waiters.wf()
    }

    /// Nothing pending or blocked, every action the default.
    pub fn new() -> (state: SignalState)
        ensures
            state.wf(),
            state.spec_pending() == 0,
            state.spec_blocked() == 0,
            state.spec_actions() == Seq::new(SIGNAL_ACTIONS as nat, |i: int| KernelSigAction::default_spec()),
            state.wait_queue_waiters().len() == 0,
    {
        let mut actions: Vec<KernelSigAction> = Vec::new();
        let mut i: usize = 0;
        while i < SIGNAL_ACTIONS
            invariant
                i <= SIGNAL_ACTIONS,
                actions@.len() == i,
                forall|k: int| 0 <= k < i ==> #[trigger] actions@[k] == KernelSigAction::default_spec(),
            decreases SIGNAL_ACTIONS - i,
        {
            actions.push(KernelSigAction::default());
            i = i + 1;
        }
        proof {
            assert(actions@ =~= Seq::new(SIGNAL_ACTIONS as nat, |i: int| KernelSigAction::default_spec()));
        }
        SignalState { pending: 0, blocked: 0, actions, waiters: WaitQueue::new() }
    }

    pub fn pending(&self) -> (pending: u64)
        ensures
            pending == self.spec_pending(),
    {
        self.pending
    }

    pub fn blocked(&self) -> (blocked: u64)
        ensures
            blocked == self.spec_blocked(),
    {
        self.blocked
    }

    pub fn set_blocked(&mut self, mask: u64)
        ensures
            final(self).spec_blocked() == mask,
            final(self).spec_pending() == old(self).spec_pending(),
            final(self).spec_actions() == old(self).spec_actions(),
            final(self).wait_queue_waiters() == old(self).wait_queue_waiters(),
            final(self).wf() == old(self).wf(),
    {
        self.blocked = mask;
    }

    /// Marks `signal` (1 to 63) pending and wakes every waiting thread.
    pub fn add_pending(&mut self, signal: u32) -> (result: Result<(), Errno>)
        requires
            old(self).wf(),
        ensures
            final(self).wf(),
            final(self).spec_blocked() == old(self).spec_blocked(),
            final(self).spec_actions() == old(self).spec_actions(),
            signal_bit_spec(signal) is None ==> result == Err::<(), Errno>(Errno::Einval) && *final(self) == *old(self),
            signal_bit_spec(signal) is Some ==> result is Ok
                && final(self).spec_pending() == old(self).spec_pending() | signal_bit_spec(signal).unwrap()
                && final(self).wait_queue_waiters().len() == 0,
    {
        let bit = match signal_bit(signal) {
            Some(bit) => bit,
            None => {
                return Err(Errno::Einval);
            },
        };
        self.pending = self.pending | bit;
        self.waiters.wake_all();
        Ok(())
    }

    /// The queue that threads waiting for a signal block on.
    pub fn wait_queue(&self) -> (queue: &WaitQueue)
        ensures
            queue.spec_waiters() == self.wait_queue_waiters(),
    {
        &self.waiters
    }

    /// The action of `signal` (1 to 64).
    pub fn action(&self, signal: u32) -> (action: Option<KernelSigAction>)
        requires
            self.wf(),
        ensures
            action == (if 1 <= signal <= SIGNAL_ACTIONS {
                Some(self.spec_actions()[signal - 1])
            } else {
                None::<KernelSigAction>
            }),
    {
        if signal == 0 || signal as usize > SIGNAL_ACTIONS {
            return None;
        }
        Some(self.actions[(signal - 1) as usize])
    }

    /// Replaces the action of `signal` (1 to 64).
    pub fn set_action(&mut self, signal: u32, action: KernelSigAction) -> (result: Result<(), Errno>)
        requires
            old(self).wf(),
        ensures
            final(self).wf(),
            final(self).spec_pending() == old(self).spec_pending(),
            final(self).spec_blocked() == old(self).spec_blocked(),
            final(self).wait_queue_waiters() == old(self).wait_queue_waiters(),
            1 <= signal <= SIGNAL_ACTIONS ==> result is Ok
                && final(self).spec_actions() == old(self).spec_actions().update(signal - 1, action),
            !(1 <= signal <= SIGNAL_ACTIONS) ==> result == Err::<(), Errno>(Errno::Einval)
                && final(self).spec_actions() == old(self).spec_actions(),
    {
        if signal == 0 || signal as usize > SIGNAL_ACTIONS {
            return Err(Errno::Einval);
        }
        self.actions.set((signal - 1) as usize, action);
        Ok(())
    }

    /// A child inherits the parent's actions of signals 1 to 63.
    pub fn copy_actions_from(&mut self, parent: &SignalState)
        requires
            old(self).wf(),
            parent.wf(),
        ensures
            final(self).wf(),
            final(self).spec_pending() == old(self).spec_pending(),
            final(self).spec_blocked() == old(self).spec_blocked(),
            final(self).wait_queue_waiters() == old(self).wait_queue_waiters(),
            final(self).spec_actions() == parent.spec_actions().subrange(0, 63).push(old(self).spec_actions()[63]),
    {
        let mut signal: u32 = 1;
        while signal < 64
            invariant
                1 <= signal <= 64,
                self.wf(),
                parent.wf(),
                self.spec_pending() == old(self).spec_pending(),
                self.spec_blocked() == old(self).spec_blocked(),
                self.wait_queue_waiters() == old(self).wait_queue_waiters(),
                forall|k: int| 0 <= k < signal - 1 ==> #[trigger] self.spec_actions()[k] == parent.spec_actions()[k],
                forall|k: int| signal - 1 <= k < SIGNAL_ACTIONS ==> #[trigger] self.spec_actions()[k] == old(self).spec_actions()[k],
            decreases 64 - signal,
        {
            let action = parent.action(signal).unwrap();
            let _ = self.set_action(signal, action);
            signal = signal + 1;
        }
        proof {
            assert(self.spec_actions() =~= parent.spec_actions().subrange(0, 63).push(old(self).spec_actions()[63]));
        }
    }

    /// `exec` resets every handled signal to the default action; ignored
    /// signals stay ignored.
    pub fn reset_actions_for_exec(&mut self)
        requires
            old(self).wf(),
        ensures
            final(self).wf(),
            final(self).spec_pending() == old(self).spec_pending(),
            final(self).spec_blocked() == old(self).spec_blocked(),
            final(self).wait_queue_waiters() == old(self).wait_queue_waiters(),
            final(self).spec_actions() == Seq::new(SIGNAL_ACTIONS as nat, |i: int|
                if old(self).spec_actions()[i].handler == SIG_IGN { old(self).spec_actions()[i] } else { KernelSigAction::default_spec() }),
    {
        let mut i: usize = 0;
        while i < SIGNAL_ACTIONS
            invariant
                i <= SIGNAL_ACTIONS,
                self.actions@.len() == SIGNAL_ACTIONS,
                self.waiters == old(self).waiters,
                self.pending == old(self).pending,
                self.blocked == old(self).blocked,
                old(self).wf(),
                forall|k: int| 0 <= k < i ==> #[trigger] self.actions@[k] == (if old(self).actions@[k].handler == SIG_IGN {
                    old(self).actions@[k]
                } else {
                    KernelSigAction::default_spec()
                }),
                forall|k: int| i <= k < SIGNAL_ACTIONS ==> #[trigger] self.actions@[k] == old(self).actions@[k],
            decreases SIGNAL_ACTIONS - i,
        {
            if self.actions[i].handler != SIG_IGN {
                self.actions.set(i, KernelSigAction::default());
            }
            i = i + 1;
        }
        proof {
            assert(self.spec_actions() =~= Seq::new(SIGNAL_ACTIONS as nat, |i: int|
                if old(self).spec_actions()[i].handler == SIG_IGN { old(self).spec_actions()[i] } else { KernelSigAction::default_spec() }));
        }
    }

    /// Takes the lowest pending signal that is in `wanted` and not in
    /// `blocked`, clearing it from the pending set.
    pub fn take_matching_unblocked(&mut self, wanted: u64, blocked: u64) -> (signal: Option<u32>)
        ensures
            final(self).spec_blocked() == old(self).spec_blocked(),
            final(self).spec_actions() == old(self).spec_actions(),
            final(self).wait_queue_waiters() == old(self).wait_queue_waiters(),
            final(self).wf() == old(self).wf(),
            ({
                let available = old(self).spec_pending() & !blocked & wanted;
                &&& available == 0 ==> signal is None && final(self).spec_pending() == old(self).spec_pending()
                &&& available != 0 ==> signal == Some(lowest_signal(available))
                    && 1 <= lowest_signal(available) <= 64
                    && final(self).spec_pending() == old(self).spec_pending() & !(1u64 << ((lowest_signal(available) - 1) as u64))
            }),
    {
        let available = self.pending & !blocked & wanted;
        if available == 0 {
            return None;
        }
        let zeros = available.trailing_zeros();
        proof {
            vstd::std_specs::bits::axiom_u64_trailing_zeros(available);
        }
        let signal = zeros + 1;
        let bit = 1u64 << (zeros as u64);
        self.pending = self.pending & !bit;
        Some(signal)
    }

    /// Takes the lowest pending signal not in `blocked`.
    pub fn take_unblocked(&mut self, blocked: u64) -> (signal: Option<u32>)
        ensures
            final(self).spec_blocked() == old(self).spec_blocked(),
            final(self).spec_actions() == old(self).spec_actions(),
            final(self).wait_queue_waiters() == old(self).wait_queue_waiters(),
            final(self).wf() == old(self).wf(),
            ({
                let available = old(self).spec_pending() & !blocked;
                &&& available == 0 ==> signal is None && final(self).spec_pending() == old(self).spec_pending()
                &&& available != 0 ==> signal == Some(lowest_signal(available))
                    && 1 <= lowest_signal(available) <= 64
                    && final(self).spec_pending() == old(self).spec_pending() & !(1u64 << ((lowest_signal(available) - 1) as u64))
            }),
    {
        proof {
            let p = self.pending;
            assert(p & !blocked & 0xffff_ffff_ffff_ffffu64 == p & !blocked) by (bit_vector);
        }
        self.take_matching_unblocked(0xffff_ffff_ffff_ffff, blocked)
    }
}

/// The real and effective user and group ids of a process.
#[derive(Clone, Copy, Debug, PartialEq, Eq, Structural)]
pub struct Credentials {
    real_uid: u32,
    effective_uid: u32,
    real_gid: u32,
    effective_gid: u32,
}

impl Credentials {
    pub closed spec fn spec_ids(self) -> (u32, u32, u32, u32) {
        (self.real_uid, self.effective_uid, self.real_gid, self.effective_gid)
    }

    /// The credentials of the first process: root everywhere.
    pub fn bootstrap() -> (credentials: Credentials)
        ensures
            credentials.spec_ids() == (0u32, 0u32, 0u32, 0u32),
    {
        Credentials { real_uid: 0, effective_uid: 0, real_gid: 0, effective_gid: 0 }
    }

    pub fn real_uid(self) -> (id: u32)
        ensures
            id == self.spec_ids().0,
    {
        self.real_uid
    }

    pub fn effective_uid(self) -> (id: u32)
        ensures
            id == self.spec_ids().1,
    {
        self.effective_uid
    }

    pub fn real_gid(self) -> (id: u32)
        ensures
            id == self.spec_ids().2,
    {
        self.real_gid
    }

    pub fn effective_gid(self) -> (id: u32)
        ensures
            id == self.spec_ids().3,
    {
        self.effective_gid
    }
}

/// A process's root and current directory.
pub struct FsContext {
    root: String,
    cwd: String,
}

impl FsContext {
    pub closed spec fn spec_root(&self) -> Seq<char> {
        self.root@
    }

    pub closed spec fn spec_cwd(&self) -> Seq<char> {
        self.cwd@
    }

    /// Root and current directory both `/`.
    pub fn bootstrap() -> (context: FsContext)
        ensures
            context.spec_root() == seq!['/'],
            context.spec_cwd() == seq!['/'],
    {
        proof {
            reveal_strlit("/");
        }
        FsContext { root: String::from_str("/"), cwd: String::from_str("/") }
    }

    pub fn root_path(&self) -> (path: String)
        ensures
            path@ == self.spec_root(),
    {
        self.root.clone()
    }

    pub fn cwd_path(&self) -> (path: String)
        ensures
            path@ == self.spec_cwd(),
    {
        self.cwd.clone()
    }

    pub fn set_cwd(&mut self, path: &str) -> (result: Result<(), Errno>)
        ensures
            result is Ok,
            final(self).spec_cwd() == path@,
            final(self).spec_root() == old(self).spec_root(),
    {
        self.cwd = String::from_str(path);
        Ok(())
    }

    /// Takes both paths of `other` (a forked child inherits them).
    pub fn copy_from(&mut self, other: &FsContext) -> (result: Result<(), ProcessError>)
        ensures
            result is Ok,
            final(self).spec_root() == other.spec_root(),
            final(self).spec_cwd() == other.spec_cwd(),
    {
        let root = other.root_path();
        let cwd = other.cwd_path();
        self.root = root;
        self.cwd = cwd;
        Ok(())
    }
}

/// Live process and thread objects, counted as they are created and freed.
pub struct LiveObjects {
    pub processes: usize,
    pub threads: usize,
}

/// Whether every process and thread object has been freed.
pub fn assert_no_leaks(live: &LiveObjects) -> (clean: bool)
    ensures
        clean == (live.processes == 0 && live.threads == 0),
{
    live.processes == 0 && live.threads == 0
}

/// A range of virtual addresses `start .. end`.
#[derive(Clone, Copy, Debug, PartialEq, Eq, Structural)]
pub struct VirtRange {
    pub start: usize,
    pub end: usize,
}

impl VirtRange {
    pub fn contains(self, address: usize) -> (inside: bool)
        ensures
            inside == (self.start <= address < self.end),
    {
        self.start <= address && address < self.end
    }

    pub fn is_empty(self) -> (empty: bool)
        ensures
            empty == (self.end <= self.start),
    {
        self.end <= self.start
    }

    /// Whether `other` lies inside this range.
    pub fn contains_range(self, other: VirtRange) -> (inside: bool)
        ensures
            inside == (self.start <= other.start && other.end <= self.end),
    {
        self.start <= other.start && other.end <= self.end
    }
}

/// A user entry point and stack are usable when the entry lies in user
/// space and the stack is a non-empty part of it.
pub open spec fn user_context_valid(user_range: VirtRange, entry: usize, user_stack: VirtRange) -> bool {
    &&& user_range.start <= entry < user_range.end
    &&& user_stack.start < user_stack.end
    &&& user_range.start <= user_stack.start && user_stack.end <= user_range.end
}

/// Whether a wait for `requested` (a pid, or -1 for any child) takes the
/// child `pid`.
pub open spec fn wait_matches(requested: isize, pid: ProcessId) -> bool {
    requested == -1 || requested == pid.0 as int
}

/// The first position in `children` of `child`, where it is there.
pub open spec fn child_position(children: Seq<ProcessId>, child: ProcessId) -> Option<int> {
    if exists|i: int| 0 <= i < children.len() && #[trigger] children[i] == child {
        Some(choose|i: int| 0 <= i < children.len() && #[trigger] children[i] == child
            && forall|j: int| 0 <= j < i ==> #[trigger] children[j] != child)
    } else {
        None
    }
}

/// The first zombie that a wait for `requested` takes, where there is one.
pub open spec fn zombie_position(zombies: Seq<(ProcessId, isize)>, requested: isize) -> Option<int> {
    if exists|i: int| 0 <= i < zombies.len() && #[trigger] wait_matches(requested, zombies[i].0) {
        Some(choose|i: int| 0 <= i < zombies.len() && #[trigger] wait_matches(requested, zombies[i].0)
            && forall|j: int| 0 <= j < i ==> !#[trigger] wait_matches(requested, zombies[j].0))
    } else {
        None
    }
}

/// What a process is, apart from its signal state, credentials and paths.
pub struct ProcessView {
    pub id: ProcessId,
    pub parent: Option<ProcessId>,
    /// Live children, in the order they were added.
    pub children: Seq<ProcessId>,
    /// Exited children not yet waited for, with their exit status.
    pub zombies: Seq<(ProcessId, isize)>,
    pub process_group: isize,
    pub session: isize,
    /// The thread-group leader, whose id is the pid.
    pub leader: Option<ThreadId>,
    pub members: Seq<ThreadId>,
    /// A vfork parent waits until the child execs or exits.
    pub vfork_pending: bool,
}

/// A process: family relations, process group and session, thread group,
/// signal state, credentials and file-system context.
pub struct Process {
    id: ProcessId,
    signals: SignalState,
    credentials: Credentials,
    fs: FsContext,
    parent: Option<ProcessId>,
    children: Vec<ProcessId>,
    zombie_children: Vec<(ProcessId, isize)>,
    child_wait: WaitQueue,
    process_group: isize,
    session: isize,
    leader: Option<ThreadId>,
    members: Vec<ThreadId>,
    thread_exit: WaitQueue,
    vfork_pending: bool,
    vfork_done: Completion,
}

impl View for Process {
    type V = ProcessView;

    closed spec fn view(&self) -> ProcessView {
        ProcessView {
            id: self.id,
            parent: self.parent,
            children: self.children@,
            zombies: self.zombie_children@,
            process_group: self.process_group,
            session: self.session,
            leader: self.leader,
            members: self.members@,
            vfork_pending: self.vfork_pending,
        }
    }
}

/// A process just created: its own group and session, nothing else.
pub open spec fn fresh_process(id: ProcessId) -> ProcessView {
    ProcessView {
        id,
        parent: None,
        children: Seq::empty(),
        zombies: Seq::empty(),
        process_group: id.0 as isize,
        session: id.0 as isize,
        leader: None,
        members: Seq::empty(),
        vfork_pending: false,
    }
}

impl Process {
    pub closed spec fn wf(&self) -> bool {
        &&& self.signals.wf()
        &&& self.child_wait.wf()
        &&& self.thread_exit.wf()
        &&& self.vfork_done.wf()
        &&& self.vfork_pending ==> self.vfork_done.spec_done() == 0
    }

    /// Release tokens of the vfork completion; none while the parent waits.
    pub closed spec fn spec_vfork_tokens(&self) -> usize {
        self.vfork_done.spec_done()
    }

    pub closed spec fn spec_signals(&self) -> SignalState {
        self.signals
    }

    pub closed spec fn spec_credentials(&self) -> Credentials {
        self.credentials
    }

    pub closed spec fn spec_fs(&self) -> FsContext {
        self.fs
    }

    pub closed spec fn child_waiters(&self) -> Seq<TaskId> {
        self.child_wait.spec_waiters()
    }

    pub closed spec fn thread_exit_waiters(&self) -> Seq<TaskId> {
        self.thread_exit.spec_waiters()
    }

    /// A process with pid `id`, in a group and session of its own, with
    /// no relations, no threads, the default signal state, root
    /// credentials and `/` as root and working directory.
    pub fn create(id: ProcessId) -> (process: Process)
        ensures
            process.wf(),
            process@ == fresh_process(id),
            process.spec_signals().spec_pending() == 0,
            process.spec_signals().spec_blocked() == 0,
            process.spec_signals().spec_actions() == Seq::new(SIGNAL_ACTIONS as nat, |i: int| KernelSigAction::default_spec()),
            process.spec_credentials().spec_ids() == (0u32, 0u32, 0u32, 0u32),
            process.spec_fs().spec_root() == seq!['/'],
            process.spec_fs().spec_cwd() == seq!['/'],
            process.spec_vfork_tokens() == 0,
    {
        let process = Process {
            id,
            signals: SignalState::new(),
            credentials: Credentials::bootstrap(),
            fs: FsContext::bootstrap(),
            parent: None,
            children: Vec::new(),
            zombie_children: Vec::new(),
            child_wait: WaitQueue::new(),
            process_group: id.0 as isize,
            session: id.0 as isize,
            leader: None,
            members: Vec::new(),
            thread_exit: WaitQueue::new(),
            vfork_pending: false,
            vfork_done: Completion::new(),
        };
        proof {
            assert(process@.children =~= Seq::<ProcessId>::empty());
            assert(process@.zombies =~= Seq::<(ProcessId, isize)>::empty());
            assert(process@.members =~= Seq::<ThreadId>::empty());
        }
        process
    }

    /// Forks a child with pid `child_id`: it inherits the group, session,
    /// blocked signals, signal actions (of signals 1 to 63) and paths, its
    /// parent is this process, and this process lists it last among its
    /// children. With `vfork_pending` the parent is to wait until the child
    /// execs or exits.
    pub fn fork_child(&mut self, child_id: ProcessId, vfork_pending: bool) -> (result: Result<Process, ProcessError>)
        requires
            old(self).wf(),
        ensures
            final(self).wf(),
            final(self)@ == (ProcessView { children: old(self)@.children.push(child_id), ..old(self)@ }),
            final(self).spec_signals() == old(self).spec_signals(),
            final(self).child_waiters() == old(self).child_waiters(),
            result matches Ok(child) ==> {
                &&& child.wf()
                &&& child@ == (ProcessView {
                    parent: Some(old(self)@.id),
                    process_group: old(self)@.process_group,
                    session: old(self)@.session,
                    vfork_pending,
                    ..fresh_process(child_id)
                })
                &&& child.spec_signals().spec_pending() == 0
                &&& child.spec_signals().spec_blocked() == old(self).spec_signals().spec_blocked()
                &&& child.spec_signals().spec_actions() == old(self).spec_signals().spec_actions().subrange(0, 63).push(
                    KernelSigAction::default_spec())
                &&& child.spec_fs().spec_root() == old(self).spec_fs().spec_root()
                &&& child.spec_fs().spec_cwd() == old(self).spec_fs().spec_cwd()
            },
            result is Ok,
    {
        let mut child = Process::create(child_id);
        child.vfork_pending = vfork_pending;
        match child.fs.copy_from(&self.fs) {
            Ok(()) => {},
            Err(error) => {
                return Err(error);
            },
        }
        assert(child.signals.spec_actions()[63] == KernelSigAction::default_spec());
        child.signals.set_blocked(self.signals.blocked());
        child.signals.copy_actions_from(&self.signals);
        child.process_group = self.process_group;
        child.session = self.session;
        match child.set_parent(self.id) {
            Ok(()) => {},
            Err(error) => {
                return Err(error);
            },
        }
        match self.add_child(child_id) {
            Ok(()) => {},
            Err(error) => {
                return Err(error);
            },
        }
        proof {
            assert(child@.children =~= Seq::<ProcessId>::empty());
            assert(child@.zombies =~= Seq::<(ProcessId, isize)>::empty());
            assert(child@.members =~= Seq::<ThreadId>::empty());
        }
        Ok(child)
    }

    /// Whether a vfork parent goes on (`Finish`) or blocks until the child
    /// releases it.
    pub fn wait_vfork_done(&mut self) -> (step: WaitStep)
        requires
            old(self).wf(),
        ensures
            final(self).wf(),
            final(self)@ == old(self)@,
            step == (if old(self)@.vfork_pending { WaitStep::Block } else { WaitStep::Finish(WaitOutcome::Satisfied) }),
    {
        if self.vfork_pending {
            self.vfork_done.wait()
        } else {
            WaitStep::Finish(WaitOutcome::Satisfied)
        }
    }

    /// Releases a waiting vfork parent, once; returns how many waiters woke.
    pub fn complete_vfork(&mut self) -> (woken: usize)
        requires
            old(self).wf(),
        ensures
            final(self).wf(),
            final(self)@ == (ProcessView { vfork_pending: false, ..old(self)@ }),
            !old(self)@.vfork_pending ==> woken == 0,
    {
        if self.vfork_pending {
            self.vfork_pending = false;
            self.vfork_done.complete_all()
        } else {
            0
        }
    }

    pub fn id(&self) -> (id: ProcessId)
        ensures
            id == self@.id,
    {
        self.id
    }

    pub fn signals(&self) -> (signals: &SignalState)
        ensures
            *signals == self.spec_signals(),
    {
        &self.signals
    }

    pub fn parent_id(&self) -> (parent: Option<ProcessId>)
        ensures
            parent == self@.parent,
    {
        self.parent
    }

    pub fn set_parent(&mut self, parent: ProcessId) -> (result: Result<(), ProcessError>)
        ensures
            result is Ok,
            final(self)@ == (ProcessView { parent: Some(parent), ..old(self)@ }),
            final(self).wf() == old(self).wf(),
            final(self).spec_signals() == old(self).spec_signals(),
            final(self).spec_fs() == old(self).spec_fs(),
            final(self).child_waiters() == old(self).child_waiters(),
    {
        self.parent = Some(parent);
        Ok(())
    }

    pub fn add_child(&mut self, child: ProcessId) -> (result: Result<(), ProcessError>)
        ensures
            result is Ok,
            final(self)@ == (ProcessView { children: old(self)@.children.push(child), ..old(self)@ }),
            final(self).wf() == old(self).wf(),
            final(self).spec_signals() == old(self).spec_signals(),
            final(self).spec_fs() == old(self).spec_fs(),
            final(self).child_waiters() == old(self).child_waiters(),
    {
        self.children.push(child);
        Ok(())
    }

    fn find_child(&self, child: ProcessId) -> (position: Option<usize>)
        ensures
            match position {
                Some(p) => child_position(self@.children, child) == Some(p as int) && p < self@.children.len()
                    && self@.children[p as int] == child,
                None => child_position(self@.children, child) is None,
            },
    {
        let mut i: usize = 0;
        while i < self.children.len()
            invariant
                i <= self.children@.len(),
                self@.children == self.children@,
                forall|j: int| 0 <= j < i ==> #[trigger] self.children@[j] != child,
            decreases self.children@.len() - i,
        {
            if self.children[i] == child {
                proof {
                    let p = choose|p: int| 0 <= p < self@.children.len() && #[trigger] self@.children[p] == child
                        && forall|j: int| 0 <= j < p ==> #[trigger] self@.children[j] != child;
                    assert(0 <= p < self@.children.len() && self@.children[p] == child);
                    if p < i {
                        assert(self.children@[p] != child);
                    }
                    if p > i {
                        assert(self@.children[i as int] != child);
                    }
                }
                return Some(i);
            }
            i = i + 1;
        }
        None
    }

    /// Moves an exited child to the zombies with its exit status and wakes
    /// the threads waiting for a child; a process that is not a live child
    /// is refused.
    pub fn mark_child_zombie(&mut self, child: ProcessId, status: isize) -> (result: Result<(), ProcessError>)
        requires
            old(self).wf(),
        ensures
            final(self).wf(),
            final(self).spec_signals() == old(self).spec_signals(),
            match child_position(old(self)@.children, child) {
                Some(p) => {
                    &&& result is Ok
                    &&& final(self)@ == (ProcessView {
                        children: old(self)@.children.remove(p),
                        zombies: old(self)@.zombies.push((child, status)),
                        ..old(self)@
                    })
                    &&& final(self).child_waiters() == Seq::<TaskId>::empty()
                },
                None => {
                    &&& result == Err::<(), ProcessError>(ProcessError::ThreadNotFound)
                    &&& final(self)@ == old(self)@
                    &&& final(self).child_waiters() == old(self).child_waiters()
                },
            },
    {
        let index = match self.find_child(child) {
            Some(index) => index,
            None => {
                return Err(ProcessError::ThreadNotFound);
            },
        };
        let removed = self.children.remove(index);
        self.zombie_children.push((removed, status));
        self.child_wait.wake_all();
        proof {
            assert(self@.children =~= old(self)@.children.remove(index as int));
            assert(self@.zombies =~= old(self)@.zombies.push((child, status)));
        }
        Ok(())
    }

    fn find_zombie(&self, requested: isize) -> (position: Option<usize>)
        ensures
            match position {
                Some(p) => zombie_position(self@.zombies, requested) == Some(p as int) && p < self@.zombies.len(),
                None => zombie_position(self@.zombies, requested) is None,
            },
    {
        let mut i: usize = 0;
        while i < self.zombie_children.len()
            invariant
                i <= self.zombie_children@.len(),
                self@.zombies == self.zombie_children@,
                forall|j: int| 0 <= j < i ==> !#[trigger] wait_matches(requested, self.zombie_children@[j].0),
            decreases self.zombie_children@.len() - i,
        {
            let pid = self.zombie_children[i].0;
            if requested == -1 || (pid.0 <= isize::MAX as usize && requested == pid.0 as isize) {
                proof {
                    let zombies = self@.zombies;
                    assert(wait_matches(requested, zombies[i as int].0));
                    let p = choose|p: int| 0 <= p < zombies.len() && #[trigger] wait_matches(requested, zombies[p].0)
                        && forall|j: int| 0 <= j < p ==> !#[trigger] wait_matches(requested, zombies[j].0);
                    assert(0 <= p < zombies.len() && wait_matches(requested, zombies[p].0));
                    if p < i {
                        assert(!wait_matches(requested, self.zombie_children@[p].0));
                    }
                    if p > i {
                        assert(!wait_matches(requested, zombies[i as int].0));
                    }
                }
                return Some(i);
            }
            i = i + 1;
        }
        None
    }

    /// Reaps the first zombie that a wait for `requested` (a pid, or -1 for
    /// any child) takes: its pid and exit status; none while no such child
    /// has exited.
    pub fn wait_zombie_child(&mut self, requested: isize) -> (result: Result<Option<(ProcessId, isize)>, ProcessError>)
        ensures
            final(self).wf() == old(self).wf(),
            final(self).spec_signals() == old(self).spec_signals(),
            final(self).child_waiters() == old(self).child_waiters(),
            match zombie_position(old(self)@.zombies, requested) {
                Some(p) => {
                    &&& result == Ok::<Option<(ProcessId, isize)>, ProcessError>(Some(old(self)@.zombies[p]))
                    &&& final(self)@ == (ProcessView { zombies: old(self)@.zombies.remove(p), ..old(self)@ })
                },
                None => result == Ok::<Option<(ProcessId, isize)>, ProcessError>(None) && final(self)@ == old(self)@,
            },
    {
        match self.find_zombie(requested) {
            Some(index) => {
                let zombie = self.zombie_children.remove(index);
                proof {
                    assert(self@.zombies =~= old(self)@.zombies.remove(index as int));
                }
                Ok(Some(zombie))
            },
            None => Ok(None),
        }
    }

    /// Whether a wait for `requested` has a child to wait for, live or
    /// exited.
    pub fn has_child(&self, requested: isize) -> (found: bool)
        ensures
            found == ((exists|i: int| 0 <= i < self@.children.len() && #[trigger] wait_matches(requested, self@.children[i]))
                || zombie_position(self@.zombies, requested) is Some),
    {
        let mut i: usize = 0;
        while i < self.children.len()
            invariant
                i <= self.children@.len(),
                self@.children == self.children@,
                forall|j: int| 0 <= j < i ==> !#[trigger] wait_matches(requested, self.children@[j]),
            decreases self.children@.len() - i,
        {
            let pid = self.children[i];
            if requested == -1 || (pid.0 <= isize::MAX as usize && requested == pid.0 as isize) {
                proof {
                    assert(wait_matches(requested, self@.children[i as int]));
                }
                return true;
            }
            i = i + 1;
        }
        self.find_zombie(requested).is_some()
    }

    /// Whether a wait for `requested` has an exited child to reap.
    pub fn has_zombie_child(&self, requested: isize) -> (found: bool)
        ensures
            found == zombie_position(self@.zombies, requested) is Some,
    {
        self.find_zombie(requested).is_some()
    }

    /// The queue that threads waiting for a child block on.
    pub fn child_wait_queue(&self) -> (queue: &WaitQueue)
        ensures
            queue.spec_waiters() == self.child_waiters(),
    {
        &self.child_wait
    }

    pub fn process_group(&self) -> (pgid: isize)
        ensures
            pgid == self@.process_group,
    {
        self.process_group
    }

    pub fn set_process_group(&mut self, pgid: isize)
        ensures
            final(self)@ == (ProcessView { process_group: pgid, ..old(self)@ }),
            final(self).wf() == old(self).wf(),
            final(self).spec_signals() == old(self).spec_signals(),
            final(self).child_waiters() == old(self).child_waiters(),
    {
        self.process_group = pgid;
    }

    pub fn session(&self) -> (sid: isize)
        ensures
            sid == self@.session,
    {
        self.session
    }

    /// Starts a new session led by this process, in a new group of its
    /// own: both take the pid, which is returned.
    pub fn setsid(&mut self) -> (sid: isize)
        ensures
            sid == old(self)@.id.0 as isize,
            final(self)@ == (ProcessView { session: sid, process_group: sid, ..old(self)@ }),
            final(self).wf() == old(self).wf(),
            final(self).spec_signals() == old(self).spec_signals(),
            final(self).child_waiters() == old(self).child_waiters(),
    {
        let sid = self.id.0 as isize;
        self.session = sid;
        self.process_group = sid;
        sid
    }

    pub fn credentials(&self) -> (credentials: Credentials)
        ensures
            credentials == self.spec_credentials(),
    {
        self.credentials
    }

    pub fn fs(&self) -> (fs: &FsContext)
        ensures
            *fs == self.spec_fs(),
    {
        &self.fs
    }

    pub fn thread_count(&self) -> (count: usize)
        ensures
            count == self@.members.len(),
    {
        self.members.len()
    }

    /// Makes the thread-group leader, whose thread id is the pid. Refused
    /// for an entry or stack outside user space, and once the group has a
    /// leader or members.
    pub fn create_initial_thread(&mut self, entry: usize, user_stack: VirtRange, user_range: VirtRange) -> (result:
        Result<ThreadId, ProcessError>)
        ensures
            final(self).wf() == old(self).wf(),
            final(self).spec_signals() == old(self).spec_signals(),
            final(self).child_waiters() == old(self).child_waiters(),
            !user_context_valid(user_range, entry, user_stack) ==> result == Err::<ThreadId, ProcessError>(
                ProcessError::InvalidUserContext) && final(self)@ == old(self)@,
            user_context_valid(user_range, entry, user_stack) && (old(self)@.leader is Some
                || old(self)@.members.len() != 0) ==> result == Err::<ThreadId, ProcessError>(
                ProcessError::AlreadyHasLeader) && final(self)@ == old(self)@,
            user_context_valid(user_range, entry, user_stack) && old(self)@.leader is None && old(self)@.members.len()
                == 0 ==> {
                &&& result == Ok::<ThreadId, ProcessError>(ThreadId(old(self)@.id.0))
                &&& final(self)@ == (ProcessView {
                    leader: Some(ThreadId(old(self)@.id.0)),
                    members: seq![ThreadId(old(self)@.id.0)],
                    ..old(self)@
                })
            },
    {
        if !user_range.contains(entry) || user_stack.is_empty() || !user_range.contains_range(user_stack) {
            return Err(ProcessError::InvalidUserContext);
        }
        if self.leader.is_some() || self.members.len() != 0 {
            return Err(ProcessError::AlreadyHasLeader);
        }
        let id = ThreadId(self.id.0);
        self.leader = Some(id);
        self.members.push(id);
        proof {
            assert(self@.members =~= seq![id]);
        }
        Ok(id)
    }

    /// Adds a thread `id` to the group. Refused for an entry or stack
    /// outside user space, and while the group has no leader.
    pub fn create_thread(&mut self, entry: usize, user_stack: VirtRange, user_range: VirtRange, id: ThreadId) -> (result:
        Result<ThreadId, ProcessError>)
        ensures
            final(self).wf() == old(self).wf(),
            final(self).spec_signals() == old(self).spec_signals(),
            final(self).child_waiters() == old(self).child_waiters(),
            !user_context_valid(user_range, entry, user_stack) ==> result == Err::<ThreadId, ProcessError>(
                ProcessError::InvalidUserContext) && final(self)@ == old(self)@,
            user_context_valid(user_range, entry, user_stack) && old(self)@.leader is None ==> result == Err::<
                ThreadId,
                ProcessError,
            >(ProcessError::ThreadNotReady) && final(self)@ == old(self)@,
            user_context_valid(user_range, entry, user_stack) && old(self)@.leader is Some ==> {
                &&& result == Ok::<ThreadId, ProcessError>(id)
                &&& final(self)@ == (ProcessView { members: old(self)@.members.push(id), ..old(self)@ })
            },
    {
        if !user_range.contains(entry) || user_stack.is_empty() || !user_range.contains_range(user_stack) {
            return Err(ProcessError::InvalidUserContext);
        }
        if self.leader.is_none() {
            return Err(ProcessError::ThreadNotReady);
        }
        self.members.push(id);
        Ok(id)
    }

    fn find_member(&self, id: ThreadId) -> (position: Option<usize>)
        ensures
            match position {
                Some(p) => p < self@.members.len() && self@.members[p as int] == id
                    && forall|j: int| 0 <= j < p ==> #[trigger] self@.members[j] != id,
                None => !self@.members.contains(id),
            },
    {
        let mut i: usize = 0;
        while i < self.members.len()
            invariant
                i <= self.members@.len(),
                self@.members == self.members@,
                forall|j: int| 0 <= j < i ==> #[trigger] self.members@[j] != id,
            decreases self.members@.len() - i,
        {
            if self.members[i] == id {
                return Some(i);
            }
            i = i + 1;
        }
        proof {
            if self@.members.contains(id) {
                let k = choose|k: int| 0 <= k < self@.members.len() && self@.members[k] == id;
                assert(self.members@[k] != id);
            }
        }
        None
    }

    /// Takes thread `id` out of the group (the last member moves into its
    /// slot), clears the leader when it was the leader and wakes the
    /// threads waiting for group members to exit. Returns whether the group
    /// is now empty: then the process has exited.
    pub fn detach_thread(&mut self, id: ThreadId) -> (result: Result<bool, ProcessError>)
        requires
            old(self).wf(),
        ensures
            final(self).wf(),
            final(self).spec_signals() == old(self).spec_signals(),
            final(self).child_waiters() == old(self).child_waiters(),
            !old(self)@.members.contains(id) ==> result == Err::<bool, ProcessError>(ProcessError::ThreadNotFound)
                && final(self)@ == old(self)@,
            old(self)@.members.contains(id) ==> {
                let p = choose|p: int| 0 <= p < old(self)@.members.len() && old(self)@.members[p] == id
                    && forall|j: int| 0 <= j < p ==> old(self)@.members[j] != id;
                &&& result == Ok::<bool, ProcessError>(old(self)@.members.len() == 1)
                &&& final(self)@ == (ProcessView {
                    members: old(self)@.members.update(p, old(self)@.members.last()).drop_last(),
                    leader: if old(self)@.leader == Some(id) { None } else { old(self)@.leader },
                    ..old(self)@
                })
                &&& final(self).thread_exit_waiters() == Seq::<TaskId>::empty()
            },
    {
        let i = match self.find_member(id) {
            Some(i) => i,
            None => {
                return Err(ProcessError::ThreadNotFound);
            },
        };
        proof {
            let members = old(self)@.members;
            let p = choose|p: int| 0 <= p < members.len() && members[p] == id
                && forall|j: int| 0 <= j < p ==> members[j] != id;
            assert(0 <= p < members.len() && members[p] == id && forall|j: int| 0 <= j < p ==> members[j] != id);
            if p < i {
                assert(members[p] != id);
            }
            if p > i {
                assert(members[i as int] != id);
            }
            assert(p == i);
        }
        self.members.swap_remove(i);
        match self.leader {
            Some(leader) => {
                if leader == id {
                    self.leader = None;
                }
            },
            None => {},
        }
        let empty = self.members.len() == 0;
        self.thread_exit.wake_all();
        Ok(empty)
    }

    /// Whether a thread waiting for the group to shrink to one member goes
    /// on or blocks.
    pub fn wait_until_single_thread(&self) -> (step: WaitStep)
        ensures
            step == (if self@.members.len() <= 1 { WaitStep::Finish(WaitOutcome::Satisfied) } else { WaitStep::Block }),
    {
        self.thread_exit.wait_until(self.members.len() <= 1)
    }
}

/// The pids of `processes`.
pub open spec fn process_ids(processes: Seq<Process>) -> Seq<ProcessId> {
    processes.map_values(|process: Process| process@.id)
}

/// The position of the process `pid` among `processes`, whose pids are
/// distinct.
pub open spec fn process_index(processes: Seq<Process>, pid: ProcessId) -> int {
    choose|i: int| 0 <= i < processes.len() && #[trigger] processes[i]@.id == pid
}

/// The live processes, and the next pid to hand out.
pub struct ProcessTable {
    processes: Vec<Process>,
    next_id: usize,
}

impl ProcessTable {
    pub closed spec fn spec_processes(&self) -> Seq<Process> {
        self.processes@
    }

    pub closed spec fn spec_next_id(&self) -> usize {
        self.next_id
    }

    /// Every process is well formed, pids are distinct and below the next
    /// pid to hand out.
    pub closed spec fn wf(&self) -> bool {
        &&& forall|i: int| 0 <= i < self.processes@.len() ==> (#[trigger] self.processes@[i]).wf()
        &&& process_ids(self.processes@).no_duplicates()
        &&& forall|i: int| 0 <= i < self.processes@.len() ==> (#[trigger] self.processes@[i])@.id.0 < self.next_id
        &&& self.next_id >= 1
    }

    /// No process yet; the first pid handed out is 1.
    pub fn new() -> (table: Self)
        ensures
            table.wf(),
            table.spec_processes().len() == 0,
            table.spec_next_id() == 1,
    {
        ProcessTable { processes: Vec::new(), next_id: 1 }
    }

    /// Hands out the next pid; none once pids are exhausted.
    pub fn allocate_process_id(&mut self) -> (pid: Option<ProcessId>)
        requires
            old(self).wf(),
        ensures
            final(self).wf(),
            final(self).spec_processes() == old(self).spec_processes(),
            old(self).spec_next_id() < usize::MAX ==> pid == Some(ProcessId(old(self).spec_next_id()))
                && final(self).spec_next_id() == old(self).spec_next_id() + 1,
            old(self).spec_next_id() == usize::MAX ==> pid is None && final(self).spec_next_id() == old(self).spec_next_id(),
    {
        if self.next_id == usize::MAX {
            return None;
        }
        let pid = ProcessId(self.next_id);
        self.next_id = self.next_id + 1;
        Some(pid)
    }

    fn position(&self, pid: ProcessId) -> (position: Option<usize>)
        requires
            self.wf(),
        ensures
            match position {
                Some(p) => p < self.spec_processes().len() && self.spec_processes()[p as int]@.id == pid
                    && process_index(self.spec_processes(), pid) == p as int,
                None => !process_ids(self.spec_processes()).contains(pid),
            },
    {
        let mut i: usize = 0;
        while i < self.processes.len()
            invariant
                i <= self.processes@.len(),
                self.wf(),
                forall|j: int| 0 <= j < i ==> #[trigger] self.processes@[j]@.id != pid,
            decreases self.processes@.len() - i,
        {
            if self.processes[i].id().0 == pid.0 {
                proof {
                    let processes = self.processes@;
                    assert(processes[i as int]@.id == pid);
                    assert(process_ids(processes)[i as int] == pid);
                    let q = process_index(processes, pid);
                    assert(0 <= q < processes.len() && processes[q]@.id == pid);
                    assert(process_ids(processes)[q] == process_ids(processes)[i as int]);
                }
                return Some(i);
            }
            i = i + 1;
        }
        proof {
            if process_ids(self.processes@).contains(pid) {
                let k = choose|k: int| 0 <= k < process_ids(self.processes@).len() && process_ids(self.processes@)[k] == pid;
                assert(self.processes@[k]@.id == pid);
            }
        }
        None
    }

    /// Creates a process with the next pid and registers it; none once
    /// pids are exhausted.
    pub fn create(&mut self) -> (pid: Option<ProcessId>)
        requires
            old(self).wf(),
        ensures
            final(self).wf(),
            old(self).spec_next_id() == usize::MAX ==> pid is None && final(self).spec_processes() == old(self).spec_processes(),
            old(self).spec_next_id() < usize::MAX ==> {
                &&& pid == Some(ProcessId(old(self).spec_next_id()))
                &&& final(self).spec_processes().len() == old(self).spec_processes().len() + 1
                &&& final(self).spec_processes().subrange(0, old(self).spec_processes().len() as int)
                    == old(self).spec_processes()
                &&& final(self).spec_processes().last()@ == fresh_process(ProcessId(old(self).spec_next_id()))
            },
    {
        let pid = match self.allocate_process_id() {
            Some(pid) => pid,
            None => {
                return None;
            },
        };
        let process = Process::create(pid);
        let ghost before = self.processes@;
        self.processes.push(process);
        proof {
            assert(self.processes@.subrange(0, before.len() as int) =~= before);
            assert(process_ids(self.processes@) =~= process_ids(before).push(pid));
            assert forall|i: int| 0 <= i < self.processes@.len() implies (#[trigger] self.processes@[i])@.id.0 < self.next_id by {
                if i < before.len() {
                    assert(self.processes@[i] == before[i]);
                }
            }
            assert forall|i: int| 0 <= i < self.processes@.len() implies (#[trigger] self.processes@[i]).wf() by {
                if i < before.len() {
                    assert(self.processes@[i] == before[i]);
                }
            }
            assert(!process_ids(before).contains(pid)) by {
                if process_ids(before).contains(pid) {
                    let k = choose|k: int| 0 <= k < process_ids(before).len() && process_ids(before)[k] == pid;
                    assert(before[k]@.id.0 < pid.0);
                }
            }
        }
        Some(pid)
    }

    /// The process `pid`, while it is registered.
    pub fn lookup_process(&self, pid: ProcessId) -> (process: Option<&Process>)
        requires
            self.wf(),
        ensures
            process_ids(self.spec_processes()).contains(pid) ==> process == Some(
                &self.spec_processes()[process_index(self.spec_processes(), pid)],
            ),
            !process_ids(self.spec_processes()).contains(pid) ==> process is None,
    {
        match self.position(pid) {
            Some(p) => {
                proof {
                    assert(process_ids(self.spec_processes())[p as int] == pid);
                }
                Some(&self.processes[p])
            },
            None => None,
        }
    }

    /// The pids of the registered processes, in registration order: a
    /// snapshot to visit them by.
    pub fn process_ids(&self) -> (pids: Vec<ProcessId>)
        ensures
            pids@ == process_ids(self.spec_processes()),
    {
        let mut pids: Vec<ProcessId> = Vec::new();
        let mut i: usize = 0;
        while i < self.processes.len()
            invariant
                i <= self.processes@.len(),
                pids@ == process_ids(self.processes@.subrange(0, i as int)),
            decreases self.processes@.len() - i,
        {
            pids.push(self.processes[i].id());
            proof {
                assert(process_ids(self.processes@.subrange(0, i + 1)) =~= process_ids(self.processes@.subrange(0, i as int)).push(
                    self.processes@[i as int]@.id,
                ));
            }
            i = i + 1;
        }
        proof {
            assert(self.processes@.subrange(0, self.processes@.len() as int) =~= self.processes@);
        }
        pids
    }

    /// Takes the process `pid` out of the table once its last owner is
    /// done with it.
    pub fn unregister_process(&mut self, pid: ProcessId) -> (process: Option<Process>)
        requires
            old(self).wf(),
        ensures
            final(self).wf(),
            final(self).spec_next_id() == old(self).spec_next_id(),
            process_ids(old(self).spec_processes()).contains(pid) ==> {
                let i = process_index(old(self).spec_processes(), pid);
                &&& process == Some(old(self).spec_processes()[i])
                &&& final(self).spec_processes() == old(self).spec_processes().remove(i)
            },
            !process_ids(old(self).spec_processes()).contains(pid) ==> process is None
                && final(self).spec_processes() == old(self).spec_processes(),
    {
        match self.position(pid) {
            Some(p) => {
                let ghost before = self.processes@;
                let process = self.processes.remove(p);
                proof {
                    assert(process_ids(before)[p as int] == pid);
                    assert(process_ids(self.processes@) =~= process_ids(before).remove(p as int));
                    assert forall|a: int, b: int| 0 <= a < b < process_ids(self.processes@).len() implies process_ids(
                        self.processes@,
                    )[a] != process_ids(self.processes@)[b] by {
                        let a0 = if a < p { a } else { a + 1 };
                        let b0 = if b < p { b } else { b + 1 };
                        assert(process_ids(self.processes@)[a] == process_ids(before)[a0]);
                        assert(process_ids(self.processes@)[b] == process_ids(before)[b0]);
                    }
                    assert forall|i: int| 0 <= i < self.processes@.len() implies (#[trigger] self.processes@[i]).wf()
                        && self.processes@[i]@.id.0 < self.next_id by {
                        let i0 = if i < p { i } else { i + 1 };
                        assert(self.processes@[i] == before[i0]);
                    }
                }
                Some(process)
            },
            None => None,
        }
    }

    /// Marks `signal` pending for the process `pid` and wakes its threads
    /// that wait for a signal. An invalid signal is refused (`Einval`), as
    /// is a pid that no live process has (`Esrch`).
    pub fn send_signal(&mut self, pid: ProcessId, signal: u32) -> (result: Result<(), Errno>)
        requires
            old(self).wf(),
        ensures
            final(self).wf(),
            final(self).spec_next_id() == old(self).spec_next_id(),
            final(self).spec_processes().len() == old(self).spec_processes().len(),
            signal_bit_spec(signal) is None ==> result == Err::<(), Errno>(Errno::Einval)
                && final(self).spec_processes() == old(self).spec_processes(),
            signal_bit_spec(signal) is Some && !process_ids(old(self).spec_processes()).contains(pid) ==> result == Err::<
                (),
                Errno,
            >(Errno::Esrch) && final(self).spec_processes() == old(self).spec_processes(),
            signal_bit_spec(signal) is Some && process_ids(old(self).spec_processes()).contains(pid) ==> {
                let i = process_index(old(self).spec_processes(), pid);
                let before = old(self).spec_processes()[i];
                let after = final(self).spec_processes()[i];
                &&& result is Ok
                &&& after@ == before@
                &&& after.spec_signals().spec_pending() == before.spec_signals().spec_pending() | signal_bit_spec(
                    signal,
                ).unwrap()
                &&& after.spec_signals().spec_blocked() == before.spec_signals().spec_blocked()
                &&& after.spec_signals().wait_queue_waiters().len() == 0
                &&& forall|j: int| 0 <= j < old(self).spec_processes().len() && j != i
                    ==> #[trigger] final(self).spec_processes()[j] == old(self).spec_processes()[j]
            },
    {
        match validate_signal(signal) {
            Ok(()) => {},
            Err(error) => {
                return Err(error);
            },
        }
        let p = match self.position(pid) {
            Some(p) => p,
            None => {
                return Err(Errno::Esrch);
            },
        };
        let ghost before = self.processes@;
        proof {
            assert(process_ids(before)[p as int] == pid);
        }
        let result = self.processes[p].signals.add_pending(signal);
        proof {
            assert forall|i: int| 0 <= i < self.processes@.len() implies (#[trigger] self.processes@[i]).wf()
                && self.processes@[i]@.id.0 < self.next_id by {
                if i != p {
                    assert(self.processes@[i] == before[i]);
                }
            }
            assert(process_ids(self.processes@) =~= process_ids(before));
        }
        result
    }
}

/// A child marked as exited is what a wait for its pid reaps next, with
/// its exit status, when no earlier zombie carries the same pid.
pub proof fn lemma_zombie_then_wait(before: ProcessView, child: ProcessId, status: isize)
    requires
        child_position(before.children, child) is Some,
        child.0 <= isize::MAX,
        forall|i: int| 0 <= i < before.zombies.len() ==> #[trigger] before.zombies[i].0 != child,
    ensures
        ({
            let zombies = before.zombies.push((child, status));
            &&& zombie_position(zombies, child.0 as isize) == Some(before.zombies.len() as int)
            &&& zombies[before.zombies.len() as int] == (child, status)
        }),
{
    let zombies = before.zombies.push((child, status));
    let requested = child.0 as isize;
    let p = before.zombies.len() as int;
    assert(wait_matches(requested, zombies[p].0));
    assert forall|j: int| 0 <= j < p implies !#[trigger] wait_matches(requested, zombies[j].0) by {
        assert(zombies[j] == before.zombies[j]);
        assert(before.zombies[j].0 != child);
        if wait_matches(requested, zombies[j].0) {
            assert(requested != -1);
            assert(zombies[j].0.0 == child.0);
        }
    }
    let q = choose|q: int| 0 <= q < zombies.len() && #[trigger] wait_matches(requested, zombies[q].0)
        && forall|j: int| 0 <= j < q ==> !#[trigger] wait_matches(requested, zombies[j].0);
    assert(0 <= q < zombies.len() && wait_matches(requested, zombies[q].0));
    if q < p {
        assert(!wait_matches(requested, zombies[q].0));
    }
}

} // verus!
