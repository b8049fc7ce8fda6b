//! Logical CPU identities, the CPU lifecycle state machine and CPU masks.
use vstd::prelude::*;

verus! {

/// Number of logical CPUs the kernel supports.
pub const MAX_CPUS: usize = 8;

/// A logical CPU number, below `MAX_CPUS` when built by `CpuId::new`.
#[derive(Clone, Copy, Debug, PartialEq, Eq, Structural)]
pub struct CpuId(pub usize);

impl CpuId {
    /// The boot CPU.
    pub fn boot() -> (cpu: Self)
        ensures
            cpu.0 == 0,
    {
        CpuId(0)
    }

    /// The logical CPU `value`, or `None` beyond `MAX_CPUS`.
    pub fn new(value: usize) -> (cpu: Option<Self>)
        ensures
            cpu == (if value < MAX_CPUS { Some(CpuId(value)) } else { None::<CpuId> }),
    {
        if value < MAX_CPUS {
            Some(CpuId(value))
        } else {
            None
        }
    }

    pub fn get(self) -> (value: usize)
        ensures
            value == self.0,
    {
        self.0
    }
}

} // verus!

verus! {

/// Lifecycle of one logical CPU.
#[derive(Clone, Copy, Debug, PartialEq, Eq, Structural)]
pub enum CpuState {
    Absent,
    Present,
    Starting,
    SchedulerRegistered,
    Active,
    IpiReady,
    Failed,
    Dying,
    Dead,
}

/// The raw encoding of each lifecycle state.
pub open spec fn state_raw(state: CpuState) -> u8 {
    match state {
        CpuState::Absent => 0,
        CpuState::Present => 1,
        CpuState::Starting => 2,
        CpuState::SchedulerRegistered => 3,
        CpuState::Active => 4,
        CpuState::IpiReady => 5,
        CpuState::Failed => 6,
        CpuState::Dying => 7,
        CpuState::Dead => 8,
    }
}

pub open spec fn present_spec(state: CpuState) -> bool {
    !(state is Absent)
}

pub open spec fn online_spec(state: CpuState) -> bool {
    state is SchedulerRegistered || state is Active || state is IpiReady || state is Dying
}

pub open spec fn scheduler_active_spec(state: CpuState) -> bool {
    state is Active || state is IpiReady
}

pub open spec fn accepts_ipi_spec(state: CpuState) -> bool {
    state is IpiReady
}

/// Which CPU predicate a mask or count selects.
#[derive(Clone, Copy, Debug, PartialEq, Eq, Structural)]
pub enum CpuFilter {
    Present,
    Online,
    SchedulerActive,
    IpiReady,
}

pub open spec fn filter_holds(filter: CpuFilter, state: CpuState) -> bool {
    match filter {
        CpuFilter::Present => present_spec(state),
        CpuFilter::Online => online_spec(state),
        CpuFilter::SchedulerActive => scheduler_active_spec(state),
        CpuFilter::IpiReady => accepts_ipi_spec(state),
    }
}

impl CpuState {
    /// Decodes a raw lifecycle value; only `0..=8` are states.
    pub fn from_raw(raw: u8) -> (state: Self)
        requires
            raw <= 8,
        ensures
            state_raw(state) == raw,
    {
        match raw {
            0 => CpuState::Absent,
            1 => CpuState::Present,
            2 => CpuState::Starting,
            3 => CpuState::SchedulerRegistered,
            4 => CpuState::Active,
            5 => CpuState::IpiReady,
            6 => CpuState::Failed,
            7 => CpuState::Dying,
            _ => CpuState::Dead,
        }
    }

    /// The raw lifecycle value of this state.
    pub fn raw(self) -> (raw: u8)
        ensures
            raw == state_raw(self),
    {
        match self {
            CpuState::Absent => 0,
            CpuState::Present => 1,
            CpuState::Starting => 2,
            CpuState::SchedulerRegistered => 3,
            CpuState::Active => 4,
            CpuState::IpiReady => 5,
            CpuState::Failed => 6,
            CpuState::Dying => 7,
            CpuState::Dead => 8,
        }
    }

    /// Human-readable state name used in lifecycle dumps.
    pub fn name(self) -> (name: &'static str)
        ensures
            name@ == state_name(self),
    {
        match self {
            CpuState::Absent => "absent",
            CpuState::Present => "present",
            CpuState::Starting => "starting",
            CpuState::SchedulerRegistered => "scheduler-registered",
            CpuState::Active => "active",
            CpuState::IpiReady => "ipi-ready",
            CpuState::Failed => "failed",
            CpuState::Dying => "dying",
            CpuState::Dead => "dead",
        }
    }

    pub fn is_present(self) -> (present: bool)
        ensures
            present == present_spec(self),
    {
        !matches!(self, CpuState::Absent)
    }

    pub fn is_online(self) -> (online: bool)
        ensures
            online == online_spec(self),
    {
        matches!(self, CpuState::SchedulerRegistered | CpuState::Active | CpuState::IpiReady | CpuState::Dying)
    }

    pub fn is_scheduler_active(self) -> (active: bool)
        ensures
            active == scheduler_active_spec(self),
    {
        matches!(self, CpuState::Active | CpuState::IpiReady)
    }

    pub fn accepts_ipi(self) -> (ready: bool)
        ensures
            ready == accepts_ipi_spec(self),
    {
        matches!(self, CpuState::IpiReady)
    }

    /// Whether this state satisfies `filter`.
    pub fn satisfies(self, filter: CpuFilter) -> (holds: bool)
        ensures
            holds == filter_holds(filter, self),
    {
        match filter {
            CpuFilter::Present => self.is_present(),
            CpuFilter::Online => self.is_online(),
            CpuFilter::SchedulerActive => self.is_scheduler_active(),
            CpuFilter::IpiReady => self.accepts_ipi(),
        }
    }
}

pub open spec fn state_name(state: CpuState) -> Seq<char> {
    match state {
        CpuState::Absent => "absent"@,
        CpuState::Present => "present"@,
        CpuState::Starting => "starting"@,
        CpuState::SchedulerRegistered => "scheduler-registered"@,
        CpuState::Active => "active"@,
        CpuState::IpiReady => "ipi-ready"@,
        CpuState::Failed => "failed"@,
        CpuState::Dying => "dying"@,
        CpuState::Dead => "dead"@,
    }
}

/// Why firmware topology could not be adopted.
#[derive(Clone, Copy, Debug, PartialEq, Eq, Structural)]
pub enum TopologyError {
    /// Firmware reports more CPUs than `MAX_CPUS`.
    TooManyCpus,
    /// Firmware reports this hardware ID twice.
    DuplicateHardwareId(usize),
}

/// Logical CPU identities, their hardware IDs and lifecycle states.
pub struct CpuRegistry {
    /// Hardware ID of each discovered logical CPU (boot CPU first).
    pub hardware_ids: Vec<usize>,
    /// Lifecycle state of every logical CPU slot.
    pub states: Vec<CpuState>,
}

/// Bit `i` of `mask` is set.
pub open spec fn bit_set(mask: usize, i: usize) -> bool {
    (mask >> i) & 1 == 1
}

/// Number of CPUs below `n` whose state satisfies `filter`.
pub open spec fn count_matching(states: Seq<CpuState>, n: int, filter: CpuFilter) -> int
    decreases n,
{
    if n <= 0 {
        0
    } else {
        count_matching(states, n - 1, filter) + (if filter_holds(filter, states[n - 1]) { 1int } else { 0int })
    }
}

/// Number of set bits among the low `n` bits of `mask`.
pub open spec fn set_bits_below(mask: usize, n: int) -> int
    decreases n,
{
    if n <= 0 {
        0
    } else {
        set_bits_below(mask, n - 1) + (if bit_set(mask, (n - 1) as usize) { 1int } else { 0int })
    }
}

proof fn lemma_set_bits_prefix(states: Seq<CpuState>, discovered: int, filter: CpuFilter, mask: usize, n: int)
    requires
        0 <= n <= 32,
        0 <= discovered,
        forall|i: usize| i < 32 ==> #[trigger] bit_set(mask, i)
            == ((i as int) < discovered && filter_holds(filter, states[i as int])),
    ensures
        set_bits_below(mask, n) == count_matching(states, if n < discovered { n } else { discovered }, filter),
    decreases n,
{
    if n > 0 {
        lemma_set_bits_prefix(states, discovered, filter, mask, n - 1);
        assert(bit_set(mask, (n - 1) as usize) == ((n - 1) < discovered && filter_holds(filter, states[n - 1])));
    }
}

/// A filter counts as many CPUs as its mask has bits set: every CPU it
/// counts is one set bit among the low 32, and no higher bit is set.
pub proof fn lemma_count_is_set_bits(registry: &CpuRegistry, filter: CpuFilter, mask: usize)
    requires
        registry.wf(),
        forall|i: usize| i < 32 ==> #[trigger] bit_set(mask, i)
            == ((i as int) < registry.discovered() && filter_holds(filter, registry.states@[i as int])),
    ensures
        count_matching(registry.states@, registry.discovered(), filter) == set_bits_below(mask, 32),
{
    lemma_set_bits_prefix(registry.states@, registry.discovered(), filter, mask, 32);
}

/// Mask with the low `n` bits set (every CPU below `n`).
pub open spec fn low_mask(n: int) -> usize {
    if n >= 64 { usize::MAX } else { ((1usize << (n as usize)) - 1) as usize }
}

proof fn lemma_set_bit(m: usize, i: usize, j: usize)
    requires
        i < 32,
        j < 32,
    ensures
        (((m | (1usize << i)) >> j) & 1 == 1) == (j == i || (m >> j) & 1 == 1),
{
    assert((((m | (1usize << i)) >> j) & 1 == 1) == (j == i || (m >> j) & 1 == 1)) by (bit_vector)
        requires
            i < 32,
            j < 32,
    ;
}

proof fn lemma_zero_bits(j: usize)
    requires
        j < 32,
    ensures
        !bit_set(0, j),
{
    assert((0usize >> j) & 1 != 1) by (bit_vector);
}

impl CpuRegistry {
    pub open spec fn discovered(&self) -> int {
        self.hardware_ids@.len() as int
    }

    pub open spec fn wf(&self) -> bool {
        &&& 1 <= self.hardware_ids@.len() <= MAX_CPUS
        &&& self.states@.len() == MAX_CPUS
        &&& self.hardware_ids@.no_duplicates()
        &&& forall|i: int| self.discovered() <= i < MAX_CPUS ==> (#[trigger] self.states@[i]) == CpuState::Absent
    }

    /// Adopts the firmware CPU list: the boot CPU becomes logical CPU 0, the
    /// other reported IDs follow in firmware order (skipping the boot ID),
    /// every discovered CPU becomes `Present` and the rest stay `Absent`.
    pub fn discover(boot_hardware_id: usize, firmware_ids: &[usize]) -> (result: Result<CpuRegistry, TopologyError>)
        ensures
            result matches Ok(registry) ==> {
                &&& registry.wf()
                &&& registry.hardware_ids@ == seq![boot_hardware_id]
                    + firmware_ids@.filter(|h: usize| h != boot_hardware_id)
                &&& forall|i: int| 0 <= i < registry.discovered() ==> (#[trigger] registry.states@[i]) == CpuState::Present
            },
            result matches Err(TopologyError::TooManyCpus) ==>
                firmware_ids@.filter(|h: usize| h != boot_hardware_id).len() >= MAX_CPUS,
            result matches Err(TopologyError::DuplicateHardwareId(id)) ==>
                !(seq![boot_hardware_id] + firmware_ids@.filter(|h: usize| h != boot_hardware_id)).no_duplicates(),
            result is Ok <==> (
                firmware_ids@.filter(|h: usize| h != boot_hardware_id).len() < MAX_CPUS
                && (seq![boot_hardware_id] + firmware_ids@.filter(|h: usize| h != boot_hardware_id)).no_duplicates()),
    {
        let ghost pred = |h: usize| h != boot_hardware_id;
        let mut ids: Vec<usize> = Vec::new();
        ids.push(boot_hardware_id);
        let mut i: usize = 0;
        while i < firmware_ids.len()
            invariant
                i <= firmware_ids@.len(),
                pred == (|h: usize| h != boot_hardware_id),
                ids@ == seq![boot_hardware_id] + firmware_ids@.take(i as int).filter(pred),
                ids@.no_duplicates(),
                ids@.len() <= MAX_CPUS,
            decreases firmware_ids@.len() - i,
        {
            let hardware_id = firmware_ids[i];
            proof {
                reveal(Seq::filter);
                assert(firmware_ids@.take(i as int + 1).drop_last() =~= firmware_ids@.take(i as int));
                assert(firmware_ids@.take(i as int + 1).last() == hardware_id);
            }
            proof {
                if pred(hardware_id) {
                    assert(firmware_ids@.take(i as int + 1).filter(pred) == firmware_ids@.take(i as int).filter(pred).push(hardware_id));
                }
            }
            if hardware_id != boot_hardware_id {
                if ids.len() >= MAX_CPUS {
                    proof {
                        lemma_filter_prefix_len(firmware_ids@, pred, i as int + 1);
                    }
                    return Err(TopologyError::TooManyCpus);
                }
                let mut k: usize = 0;
                while k < ids.len()
                    invariant
                        k <= ids@.len(),
                        i < firmware_ids@.len(),
                        hardware_id == firmware_ids@[i as int],
                        hardware_id != boot_hardware_id,
                        pred == (|h: usize| h != boot_hardware_id),
                        ids@ == seq![boot_hardware_id] + firmware_ids@.take(i as int).filter(pred),
                        firmware_ids@.take(i as int + 1).filter(pred) == firmware_ids@.take(i as int).filter(pred).push(hardware_id),
                        forall|t: int| 0 <= t < k ==> ids@[t] != hardware_id,
                    decreases ids@.len() - k,
                {
                    if ids[k] == hardware_id {
                        proof {
                            let grown = seq![boot_hardware_id] + firmware_ids@.take(i as int + 1).filter(pred);
                            assert(grown =~= ids@.push(hardware_id));
                            assert(grown[k as int] == grown[ids@.len() as int]);
                            lemma_filter_prefix_dup(firmware_ids@, pred, boot_hardware_id, i as int + 1);
                        }
                        return Err(TopologyError::DuplicateHardwareId(hardware_id));
                    }
                    k = k + 1;
                }
                ids.push(hardware_id);
                proof {
                    assert(ids@ =~= seq![boot_hardware_id] + firmware_ids@.take(i as int + 1).filter(pred));
                }
            } else {
                proof {
                    assert(firmware_ids@.take(i as int + 1).filter(pred) == firmware_ids@.take(i as int).filter(pred));
                }
            }
            i = i + 1;
        }
        proof {
            assert(firmware_ids@.take(firmware_ids@.len() as int) =~= firmware_ids@);
        }
        let mut states: Vec<CpuState> = Vec::new();
        let mut slot: usize = 0;
        while slot < MAX_CPUS
            invariant
                slot <= MAX_CPUS,
                states@.len() == slot,
                forall|t: int| 0 <= t < slot ==> (#[trigger] states@[t]) == (if t < ids@.len() {
                    CpuState::Present
                } else {
                    CpuState::Absent
                }),
            decreases MAX_CPUS - slot,
        {
            if slot < ids.len() {
                states.push(CpuState::Present);
            } else {
                states.push(CpuState::Absent);
            }
            slot = slot + 1;
        }
        Ok(CpuRegistry { hardware_ids: ids, states })
    }
}

proof fn lemma_filter_prefix_len(s: Seq<usize>, pred: spec_fn(usize) -> bool, k: int)
    requires
        0 <= k <= s.len(),
    ensures
        s.take(k).filter(pred).len() <= s.filter(pred).len(),
{
    assert(s =~= s.take(k) + s.skip(k));
    Seq::filter_distributes_over_add(s.take(k), s.skip(k), pred);
}

proof fn lemma_filter_prefix_dup(s: Seq<usize>, pred: spec_fn(usize) -> bool, first: usize, k: int)
    requires
        0 <= k <= s.len(),
        !(seq![first] + s.take(k).filter(pred)).no_duplicates(),
    ensures
        !(seq![first] + s.filter(pred)).no_duplicates(),
{
    assert(s =~= s.take(k) + s.skip(k));
    Seq::filter_distributes_over_add(s.take(k), s.skip(k), pred);
    let prefix = seq![first] + s.take(k).filter(pred);
    let whole = seq![first] + s.filter(pred);
    assert(whole =~= prefix + s.skip(k).filter(pred));
    let (a, b) = choose|a: int, b: int| 0 <= a < prefix.len() && 0 <= b < prefix.len() && a != b && prefix[a] == prefix[b];
    assert(whole[a] == whole[b]);
}

} // verus!

verus! {

impl CpuRegistry {
    /// Bit `i` set for every discovered CPU `i` whose state satisfies `filter`.
    pub fn state_mask(&self, filter: CpuFilter) -> (mask: usize)
        requires
            self.wf(),
        ensures
            forall|i: usize| i < 32 ==> #[trigger] bit_set(mask, i)
                == ((i as int) < self.discovered() && filter_holds(filter, self.states@[i as int])),
            mask <= low_mask(self.discovered()),
    {
        let mut mask: usize = 0;
        let mut logical: usize = 0;
        let n = self.hardware_ids.len();
        proof {
            assert forall|j: usize| j < 32 implies !#[trigger] bit_set(mask, j) by {
                lemma_zero_bits(j);
            }
            assert(0usize <= ((1usize << 0usize) - 1) as usize) by (bit_vector);
        }
        while logical < n
            invariant
                logical <= n,
                n == self.discovered(),
                self.wf(),
                mask <= low_mask(logical as int),
                forall|j: usize| j < 32 ==> #[trigger] bit_set(mask, j)
                    == ((j as int) < logical && filter_holds(filter, self.states@[j as int])),
            decreases n - logical,
        {
            let holds = self.states[logical].satisfies(filter);
            if holds {
                proof {
                    assert forall|j: usize| j < 32 implies #[trigger] bit_set(mask | (1usize << logical), j)
                        == (j == logical || bit_set(mask, j)) by {
                        lemma_set_bit(mask, logical, j);
                    }
                    lemma_mask_grows(mask, logical);
                }
                mask = mask | (1usize << logical);
            } else {
                proof {
                    lemma_mask_bound_grows(mask, logical);
                }
            }
            logical = logical + 1;
        }
        mask
    }

    /// Number of discovered CPUs whose state satisfies `filter`.
    pub fn count_state(&self, filter: CpuFilter) -> (count: usize)
        requires
            self.wf(),
        ensures
            count == count_matching(self.states@, self.discovered(), filter),
    {
        let mut count: usize = 0;
        let mut logical: usize = 0;
        let n = self.hardware_ids.len();
        while logical < n
            invariant
                logical <= n,
                n == self.discovered(),
                self.wf(),
                count == count_matching(self.states@, logical as int, filter),
                count <= logical,
            decreases n - logical,
        {
            if self.states[logical].satisfies(filter) {
                count = count + 1;
            }
            logical = logical + 1;
        }
        count
    }

    /// Moves `cpu` from `expected` to `next`; on any other current state the
    /// registry is unchanged and that state is returned.
    pub fn transition(&mut self, cpu: CpuId, expected: CpuState, next: CpuState) -> (result: Result<(), CpuState>)
        requires
            old(self).wf(),
            cpu.0 < MAX_CPUS,
            !(next is Absent),
            cpu.0 >= old(self).discovered() ==> expected != CpuState::Absent,
        ensures
            final(self).wf(),
            final(self).hardware_ids == old(self).hardware_ids,
            old(self).states@[cpu.0 as int] == expected ==> result is Ok
                && final(self).states@ == old(self).states@.update(cpu.0 as int, next),
            old(self).states@[cpu.0 as int] != expected ==> result == Err::<(), CpuState>(old(self).states@[cpu.0 as int])
                && final(self).states@ == old(self).states@,
    {
        let actual = self.states[cpu.0];
        if actual == expected {
            self.states.set(cpu.0, next);
            Ok(())
        } else {
            Err(actual)
        }
    }
}

proof fn lemma_mask_grows(mask: usize, logical: usize)
    requires
        logical < 32,
        mask <= low_mask(logical as int),
    ensures
        mask | (1usize << logical) <= low_mask(logical as int + 1),
{
    let m1 = ((1usize << logical) - 1) as usize;
    let m2 = ((1usize << ((logical + 1) as usize)) - 1) as usize;
    assert(mask <= m1 ==> mask | (1usize << logical) <= m2) by (bit_vector)
        requires
            logical < 32,
            m1 == ((1usize << logical) - 1) as usize,
            m2 == ((1usize << ((logical + 1) as usize)) - 1) as usize,
    ;
}

proof fn lemma_mask_bound_grows(mask: usize, logical: usize)
    requires
        logical < 32,
        mask <= low_mask(logical as int),
    ensures
        mask <= low_mask(logical as int + 1),
{
    let m1 = ((1usize << logical) - 1) as usize;
    let m2 = ((1usize << ((logical + 1) as usize)) - 1) as usize;
    assert(m1 <= m2) by (bit_vector)
        requires
            logical < 32,
            m1 == ((1usize << logical) - 1) as usize,
            m2 == ((1usize << ((logical + 1) as usize)) - 1) as usize,
    ;
}

} // verus!

verus! {

/// Number of discovered logical CPUs.
pub fn discovered_cpu_count(registry: &CpuRegistry) -> (count: usize)
    requires
        registry.wf(),
    ensures
        count == registry.discovered(),
{
    registry.hardware_ids.len()
}

/// Lifecycle state of `cpu`.
pub fn cpu_state(registry: &CpuRegistry, cpu: CpuId) -> (state: CpuState)
    requires
        registry.wf(),
        cpu.0 < MAX_CPUS,
    ensures
        state == registry.states@[cpu.0 as int],
{
    registry.states[cpu.0]
}

pub fn present_cpu_mask(registry: &CpuRegistry) -> (mask: usize)
    requires
        registry.wf(),
    ensures
        forall|i: usize| i < 32 ==> #[trigger] bit_set(mask, i)
            == ((i as int) < registry.discovered() && present_spec(registry.states@[i as int])),
        mask <= low_mask(registry.discovered()),
{
    registry.state_mask(CpuFilter::Present)
}

pub fn online_cpu_mask(registry: &CpuRegistry) -> (mask: usize)
    requires
        registry.wf(),
    ensures
        forall|i: usize| i < 32 ==> #[trigger] bit_set(mask, i)
            == ((i as int) < registry.discovered() && online_spec(registry.states@[i as int])),
        mask <= low_mask(registry.discovered()),
{
    registry.state_mask(CpuFilter::Online)
}

pub fn scheduler_active_cpu_mask(registry: &CpuRegistry) -> (mask: usize)
    requires
        registry.wf(),
    ensures
        forall|i: usize| i < 32 ==> #[trigger] bit_set(mask, i)
            == ((i as int) < registry.discovered() && scheduler_active_spec(registry.states@[i as int])),
        mask <= low_mask(registry.discovered()),
{
    registry.state_mask(CpuFilter::SchedulerActive)
}

pub fn ipi_ready_cpu_mask(registry: &CpuRegistry) -> (mask: usize)
    requires
        registry.wf(),
    ensures
        forall|i: usize| i < 32 ==> #[trigger] bit_set(mask, i)
            == ((i as int) < registry.discovered() && accepts_ipi_spec(registry.states@[i as int])),
        mask <= low_mask(registry.discovered()),
{
    registry.state_mask(CpuFilter::IpiReady)
}

pub fn online_cpu_count(registry: &CpuRegistry) -> (count: usize)
    requires
        registry.wf(),
    ensures
        count == count_matching(registry.states@, registry.discovered(), CpuFilter::Online),
{
    registry.count_state(CpuFilter::Online)
}

pub fn scheduler_active_cpu_count(registry: &CpuRegistry) -> (count: usize)
    requires
        registry.wf(),
    ensures
        count == count_matching(registry.states@, registry.discovered(), CpuFilter::SchedulerActive),
{
    registry.count_state(CpuFilter::SchedulerActive)
}

pub fn is_online(registry: &CpuRegistry, cpu: CpuId) -> (online: bool)
    requires
        registry.wf(),
        cpu.0 < MAX_CPUS,
    ensures
        online == online_spec(registry.states@[cpu.0 as int]),
{
    registry.states[cpu.0].is_online()
}

pub fn is_scheduler_active(registry: &CpuRegistry, cpu: CpuId) -> (active: bool)
    requires
        registry.wf(),
        cpu.0 < MAX_CPUS,
    ensures
        active == scheduler_active_spec(registry.states@[cpu.0 as int]),
{
    registry.states[cpu.0].is_scheduler_active()
}

pub fn is_ipi_ready(registry: &CpuRegistry, cpu: CpuId) -> (ready: bool)
    requires
        registry.wf(),
        cpu.0 < MAX_CPUS,
    ensures
        ready == accepts_ipi_spec(registry.states@[cpu.0 as int]),
{
    registry.states[cpu.0].accepts_ipi()
}

/// Hardware ID of a discovered logical CPU.
pub fn hardware_id(registry: &CpuRegistry, cpu: CpuId) -> (id: usize)
    requires
        registry.wf(),
        (cpu.0 as int) < registry.discovered(),
    ensures
        id == registry.hardware_ids@[cpu.0 as int],
{
    registry.hardware_ids[cpu.0]
}

/// Bring-up is complete when every discovered CPU reached `IpiReady`.
pub fn assert_bringup_complete(registry: &CpuRegistry) -> (complete: bool)
    requires
        registry.wf(),
    ensures
        complete == forall|i: int| 0 <= i < registry.discovered() ==> #[trigger] registry.states@[i] == CpuState::IpiReady,
{
    let n = registry.hardware_ids.len();
    let mut logical: usize = 0;
    while logical < n
        invariant
            logical <= n,
            n == registry.discovered(),
            registry.wf(),
            forall|i: int| 0 <= i < logical ==> #[trigger] registry.states@[i] == CpuState::IpiReady,
        decreases n - logical,
    {
        if registry.states[logical] != CpuState::IpiReady {
            return false;
        }
        logical = logical + 1;
    }
    true
}

/// Mask with one bit per discovered CPU.
pub fn expected_cpu_mask(discovered: usize) -> (mask: usize)
    requires
        discovered <= MAX_CPUS,
    ensures
        mask == low_mask(discovered as int),
        forall|i: usize| i < 32 ==> #[trigger] bit_set(mask, i) == (i < discovered),
{
    assert(1usize << discovered >= 1) by (bit_vector)
        requires
            discovered <= 8,
    ;
    let mask = ((1usize << discovered) - 1) as usize;
    proof {
        assert forall|i: usize| i < 32 implies #[trigger] bit_set(mask, i) == (i < discovered) by {
            assert(((((1usize << discovered) - 1) as usize >> i) & 1 == 1) == (i < discovered)) by (bit_vector)
                requires
                    discovered <= 8,
                    i < 32,
            ;
        }
    }
    mask
}

/// CPUs that a broadcast from `current` must interrupt: online, IPI-ready
/// and not `current` itself.
pub fn broadcast_ipi_except_current(registry: &CpuRegistry, current: CpuId) -> (targets: usize)
    requires
        registry.wf(),
        current.0 < MAX_CPUS,
    ensures
        forall|i: usize| i < 32 ==> #[trigger] bit_set(targets, i)
            == ((i as int) < registry.discovered() && accepts_ipi_spec(registry.states@[i as int]) && i != current.0),
{
    let online = online_cpu_mask(registry);
    let ready = ipi_ready_cpu_mask(registry);
    let current_bit = 1usize << current.0;
    let targets = online & ready & !current_bit;
    proof {
        assert forall|i: usize| i < 32 implies #[trigger] bit_set(targets, i)
            == (bit_set(online, i) && bit_set(ready, i) && i != current.0) by {
            let c = current.0;
            assert((((online & ready & !(1usize << c)) >> i) & 1 == 1)
                == (((online >> i) & 1 == 1) && ((ready >> i) & 1 == 1) && i != c)) by (bit_vector)
                requires
                    c < 8,
                    i < 32,
            ;
        }
    }
    targets
}

/// The boot CPU cannot take the secondary start path: `Present -> Starting`.
pub fn mark_cpu_starting(registry: &mut CpuRegistry, cpu: CpuId) -> (result: Result<(), CpuState>)
    requires
        old(registry).wf(),
        cpu.0 < MAX_CPUS,
        cpu.0 != 0,
    ensures
        final(registry).wf(),
        old(registry).states@[cpu.0 as int] == CpuState::Present ==> result is Ok
            && final(registry).states@ == old(registry).states@.update(cpu.0 as int, CpuState::Starting),
        old(registry).states@[cpu.0 as int] != CpuState::Present ==> result == Err::<(), CpuState>(old(registry).states@[cpu.0 as int])
            && final(registry).states@ == old(registry).states@,
{
    registry.transition(cpu, CpuState::Present, CpuState::Starting)
}

/// A secondary failed to start: `Starting -> Failed`.
pub fn mark_cpu_start_failed(registry: &mut CpuRegistry, cpu: CpuId) -> (result: Result<(), CpuState>)
    requires
        old(registry).wf(),
        cpu.0 < MAX_CPUS,
    ensures
        final(registry).wf(),
        old(registry).states@[cpu.0 as int] == CpuState::Starting ==> result is Ok
            && final(registry).states@ == old(registry).states@.update(cpu.0 as int, CpuState::Failed),
        old(registry).states@[cpu.0 as int] != CpuState::Starting ==> result == Err::<(), CpuState>(old(registry).states@[cpu.0 as int])
            && final(registry).states@ == old(registry).states@,
{
    registry.transition(cpu, CpuState::Starting, CpuState::Failed)
}

/// The boot CPU registered with the scheduler: `Present -> SchedulerRegistered`.
pub fn mark_boot_scheduler_registered(registry: &mut CpuRegistry) -> (result: Result<(), CpuState>)
    requires
        old(registry).wf(),
    ensures
        final(registry).wf(),
        old(registry).states@[0] == CpuState::Present ==> result is Ok
            && final(registry).states@ == old(registry).states@.update(0, CpuState::SchedulerRegistered),
        old(registry).states@[0] != CpuState::Present ==> result == Err::<(), CpuState>(old(registry).states@[0])
            && final(registry).states@ == old(registry).states@,
{
    registry.transition(CpuId(0), CpuState::Present, CpuState::SchedulerRegistered)
}

/// A started secondary registered with the scheduler: `Starting -> SchedulerRegistered`.
pub fn mark_current_scheduler_registered(registry: &mut CpuRegistry, cpu: CpuId) -> (result: Result<(), CpuState>)
    requires
        old(registry).wf(),
        cpu.0 < MAX_CPUS,
        cpu.0 != 0,
    ensures
        final(registry).wf(),
        old(registry).states@[cpu.0 as int] == CpuState::Starting ==> result is Ok
            && final(registry).states@ == old(registry).states@.update(cpu.0 as int, CpuState::SchedulerRegistered),
        old(registry).states@[cpu.0 as int] != CpuState::Starting ==> result == Err::<(), CpuState>(old(registry).states@[cpu.0 as int])
            && final(registry).states@ == old(registry).states@,
{
    registry.transition(cpu, CpuState::Starting, CpuState::SchedulerRegistered)
}

/// The CPU's scheduler started: `SchedulerRegistered -> Active`.
pub fn mark_current_scheduler_active(registry: &mut CpuRegistry, cpu: CpuId) -> (result: Result<(), CpuState>)
    requires
        old(registry).wf(),
        cpu.0 < MAX_CPUS,
    ensures
        final(registry).wf(),
        old(registry).states@[cpu.0 as int] == CpuState::SchedulerRegistered ==> result is Ok
            && final(registry).states@ == old(registry).states@.update(cpu.0 as int, CpuState::Active),
        old(registry).states@[cpu.0 as int] != CpuState::SchedulerRegistered ==> result == Err::<(), CpuState>(old(registry).states@[cpu.0 as int])
            && final(registry).states@ == old(registry).states@,
{
    registry.transition(cpu, CpuState::SchedulerRegistered, CpuState::Active)
}

/// The CPU accepts inter-processor interrupts: `Active -> IpiReady`.
pub fn mark_current_ipi_ready(registry: &mut CpuRegistry, cpu: CpuId) -> (result: Result<(), CpuState>)
    requires
        old(registry).wf(),
        cpu.0 < MAX_CPUS,
    ensures
        final(registry).wf(),
        old(registry).states@[cpu.0 as int] == CpuState::Active ==> result is Ok
            && final(registry).states@ == old(registry).states@.update(cpu.0 as int, CpuState::IpiReady),
        old(registry).states@[cpu.0 as int] != CpuState::Active ==> result == Err::<(), CpuState>(old(registry).states@[cpu.0 as int])
            && final(registry).states@ == old(registry).states@,
{
    registry.transition(cpu, CpuState::Active, CpuState::IpiReady)
}

/// Wrapping-counter deadline test used while waiting for secondaries.
pub fn deadline_reached(now: u64, deadline: u64) -> (reached: bool)
    ensures
        reached == (crate::time::forward_distance(now, deadline) < crate::time::HALF_RANGE),
{
    now.wrapping_sub(deadline) < 0x8000_0000_0000_0000u64
}

/// The lifecycle masks nest: every IPI-ready CPU is scheduler-active, every
/// scheduler-active CPU is online and every online CPU is present.
pub proof fn lemma_lifecycle_masks_nest(state: CpuState)
    ensures
        accepts_ipi_spec(state) ==> scheduler_active_spec(state),
        scheduler_active_spec(state) ==> online_spec(state),
        online_spec(state) ==> present_spec(state),
{
}

/// Counting never exceeds the number of discovered CPUs, and the online
/// count covers the scheduler-active count.
pub proof fn lemma_counts_nest(states: Seq<CpuState>, n: int)
    requires
        0 <= n,
    ensures
        count_matching(states, n, CpuFilter::SchedulerActive) <= count_matching(states, n, CpuFilter::Online),
        count_matching(states, n, CpuFilter::Online) <= count_matching(states, n, CpuFilter::Present),
        count_matching(states, n, CpuFilter::Present) <= n,
    decreases n,
{
    if n > 0 {
        lemma_counts_nest(states, n - 1);
    }
}

} // verus!
