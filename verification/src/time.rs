//! Monotonic time: wrapping counter instants, unit conversions and the
//! per-CPU one-shot clockevent policy of the tickless scheduler tick.
//!
//! The hardware counter wraps at 2^64. Two instants are ordered only when
//! they lie within half of that range of each other; every comparison goes
//! through `instant_is_after` and its companions below.
use vstd::prelude::*;

verus! {

/// Scheduler ticks per second.
pub const TICKS_PER_SECOND: u64 = 100;
/// Half of the counter range: the largest distance that still orders instants.
pub const HALF_RANGE: u64 = 0x8000_0000_0000_0000;
/// Smallest distance, in nanoseconds, at which a clockevent is programmed.
pub const MIN_CLOCKEVENT_DELTA_NS: u64 = 1_000;
pub const NANOS_PER_SECOND: u64 = 1_000_000_000;

/// The forward distance from `earlier` to `later` on the wrapping counter.
pub open spec fn forward_distance(later: u64, earlier: u64) -> int {
    if later >= earlier {
        later - earlier
    } else {
        later - earlier + 0x1_0000_0000_0000_0000
    }
}

/// `left` lies strictly after `right`, within half of the counter range.
pub open spec fn is_after(left: u64, right: u64) -> bool {
    forward_distance(left, right) != 0 && forward_distance(left, right) < HALF_RANGE
}

/// A point on the architecture's wrapping monotonic counter.
///
/// Deliberately offers no total order: counter order is only meaningful
/// inside a half-range window and must use the helpers of this module.
#[derive(Clone, Copy, Debug, PartialEq, Eq, Structural)]
pub struct MonotonicInstant(pub u64);

impl MonotonicInstant {
    pub fn from_cycles(cycles: u64) -> (instant: Self)
        ensures
            instant.0 == cycles,
    {
        MonotonicInstant(cycles)
    }

    pub fn cycles(self) -> (cycles: u64)
        ensures
            cycles == self.0,
    {
        self.0
    }

    /// The instant `cycles` later; the interval must stay below half-range.
    pub fn wrapping_add_cycles(self, cycles: u64) -> (later: Self)
        requires
            cycles < HALF_RANGE,
        ensures
            later.0 == vstd::wrapping::u64_specs::wrapping_add(self.0, cycles),
            forward_distance(later.0, self.0) == cycles,
    {
        MonotonicInstant(self.0.wrapping_add(cycles))
    }

    /// Nanoseconds elapsed since `earlier` at a counter frequency of
    /// `frequency` Hz, saturated to `u64::MAX`.
    pub fn duration_since(self, earlier: Self, frequency: u64) -> (nanos: u64)
        requires
            frequency != 0,
            forward_distance(self.0, earlier.0) < HALF_RANGE,
        ensures
            nanos == cycles_to_nanoseconds_spec(forward_distance(self.0, earlier.0), frequency as int),
    {
        let cycles = self.0.wrapping_sub(earlier.0);
        cycles_to_nanoseconds(cycles, frequency)
    }
}

/// What one timer interrupt observed: the counter and the scheduler ticks
/// that elapsed since the previous one.
#[derive(Clone, Copy, Debug)]
pub struct TimerInterrupt {
    pub now: MonotonicInstant,
    pub elapsed_ticks: u64,
}

impl TimerInterrupt {
    pub fn now(self) -> (now: MonotonicInstant)
        ensures
            now == self.now,
    {
        self.now
    }

    pub fn elapsed_ticks(self) -> (ticks: u64)
        ensures
            ticks == self.elapsed_ticks,
    {
        self.elapsed_ticks
    }
}

/// `left` lies strictly after `right` (within half-range).
pub fn instant_is_after(left: MonotonicInstant, right: MonotonicInstant) -> (after: bool)
    ensures
        after == is_after(left.0, right.0),
{
    let distance = left.0.wrapping_sub(right.0);
    distance != 0 && distance < HALF_RANGE
}

/// `left` lies strictly before `right` (within half-range).
pub fn instant_is_before(left: MonotonicInstant, right: MonotonicInstant) -> (before: bool)
    ensures
        before == is_after(right.0, left.0),
{
    instant_is_after(right, left)
}

/// The deadline is due: `now` equals it or lies after it.
pub open spec fn deadline_reached_spec(now: u64, deadline: u64) -> bool {
    now == deadline || is_after(now, deadline)
}

pub fn deadline_reached(now: MonotonicInstant, deadline: MonotonicInstant) -> (reached: bool)
    ensures
        reached == deadline_reached_spec(now.0, deadline.0),
{
    now.0 == deadline.0 || instant_is_after(now, deadline)
}

/// The earlier of two deadlines; ties and unordered pairs pick `right`.
pub fn earlier_deadline(left: MonotonicInstant, right: MonotonicInstant) -> (chosen: MonotonicInstant)
    ensures
        chosen == (if is_after(right.0, left.0) { left } else { right }),
{
    if instant_is_before(left, right) {
        left
    } else {
        right
    }
}

/// Exact nanosecond count of `cycles` at `frequency` Hz, saturated to `u64`.
pub open spec fn cycles_to_nanoseconds_spec(cycles: int, frequency: int) -> u64 {
    let nanos = cycles * NANOS_PER_SECOND / frequency;
    if nanos > u64::MAX { u64::MAX } else { nanos as u64 }
}

pub fn cycles_to_nanoseconds(cycles: u64, frequency: u64) -> (nanos: u64)
    requires
        frequency != 0,
    ensures
        nanos == cycles_to_nanoseconds_spec(cycles as int, frequency as int),
{
    assert(cycles as u128 * 1_000_000_000u128 <= u64::MAX as u128 * 1_000_000_000u128) by (nonlinear_arith);
    let product: u128 = cycles as u128 * 1_000_000_000u128;
    let nanos: u128 = product / frequency as u128;
    if nanos > u64::MAX as u128 {
        u64::MAX
    } else {
        nanos as u64
    }
}

/// Cycles covering `nanos` at `frequency` Hz, rounded up.
pub open spec fn cycles_round_up_spec(nanos: int, frequency: int) -> int {
    (nanos * frequency + (NANOS_PER_SECOND - 1)) / NANOS_PER_SECOND as int
}

/// Converts a duration to counter cycles, rounding up. The conversion must
/// neither overflow nor reach the half-range of the counter.
pub fn duration_to_cycles_round_up(nanos: u128, frequency: u64) -> (cycles: u64)
    requires
        nanos * frequency + (NANOS_PER_SECOND - 1) <= u128::MAX,
        cycles_round_up_spec(nanos as int, frequency as int) < HALF_RANGE,
    ensures
        cycles == cycles_round_up_spec(nanos as int, frequency as int),
{
    let numerator: u128 = nanos * frequency as u128;
    let cycles: u128 = (numerator + 999_999_999u128) / 1_000_000_000u128;
    cycles as u64
}

/// The smallest lead, in cycles, with which a clockevent is programmed:
/// one microsecond rounded up, and never less than one cycle.
pub fn minimum_clockevent_delta_cycles(frequency: u64) -> (cycles: u64)
    ensures
        cycles == (if cycles_round_up_spec(MIN_CLOCKEVENT_DELTA_NS as int, frequency as int) < 1 {
            1
        } else {
            cycles_round_up_spec(MIN_CLOCKEVENT_DELTA_NS as int, frequency as int)
        }),
{
    assert(1_000 * frequency <= 1_000 * u64::MAX) by (nonlinear_arith);
    assert(cycles_round_up_spec(MIN_CLOCKEVENT_DELTA_NS as int, frequency as int) < HALF_RANGE) by {
        assert((1_000 * frequency + 999_999_999) / 1_000_000_000 <= frequency) by (nonlinear_arith);
    }
    let cycles = duration_to_cycles_round_up(1_000, frequency);
    if cycles < 1 { 1 } else { cycles }
}

/// Tick period in cycles of a clocksource running at `frequency` Hz, or
/// `None` when the frequency is too small for the configured tick rate.
pub fn tick_period_for(frequency: u64) -> (period: Option<u64>)
    ensures
        period == (if frequency / TICKS_PER_SECOND == 0 { None } else { Some((frequency / TICKS_PER_SECOND) as u64) }),
{
    let period = frequency / TICKS_PER_SECOND;
    if period == 0 { None } else { Some(period) }
}


/// What the local clockevent hardware must do after a reprogram decision.
#[derive(Clone, Copy, Debug, PartialEq, Eq, Structural)]
pub enum ClockeventAction {
    /// The clockevent is stopped on this CPU; leave the hardware alone.
    Untouched,
    /// No deadline remains: shut the one-shot timer down.
    Shutdown,
    /// Program the one-shot timer for this instant.
    Program(MonotonicInstant),
}

/// Per-CPU clockevent bookkeeping of the tickless scheduler tick.
#[derive(Clone, Copy, Debug)]
pub struct ClockeventState {
    /// The one-shot clockevent was started on this CPU.
    pub running: bool,
    /// The scheduler tick currently demands periodic deadlines.
    pub tick_active: bool,
    /// Next scheduler-tick deadline (0: none published).
    pub next_scheduler_deadline: u64,
    /// Deadline last written to the hardware (0: none outstanding).
    pub programmed_deadline: u64,
    /// Scheduler ticks accounted on this CPU.
    pub timer_ticks: u64,
    /// Times this CPU entered tickless idle with an active tick.
    pub tickless_idle_entries: u64,
}

/// The deadline that the clockevent should fire at next: the earlier of the
/// scheduler tick (when active) and the software-timer deadline.
pub open spec fn chosen_deadline(tick: Option<u64>, software: Option<MonotonicInstant>) -> Option<u64> {
    match (tick, software) {
        (Some(t), Some(s)) => Some(if is_after(s.0, t) { t } else { s.0 }),
        (Some(t), None) => Some(t),
        (None, Some(s)) => Some(s.0),
        (None, None) => None,
    }
}

/// The instant actually programmed for `chosen`: `chosen` itself when it
/// lies at least `minimum_delta` ahead of `now` (within half-range), and
/// `now + minimum_delta` otherwise.
pub open spec fn safe_deadline(chosen: u64, now: u64, minimum_delta: u64) -> u64 {
    let distance = forward_distance(chosen, now);
    if distance < minimum_delta || distance >= HALF_RANGE {
        vstd::wrapping::u64_specs::wrapping_add(now, minimum_delta)
    } else {
        chosen
    }
}

impl ClockeventState {
    /// A stopped clockevent with no deadlines and no accounted ticks.
    pub fn new() -> (state: Self)
        ensures
            !state.running,
            !state.tick_active,
            state.next_scheduler_deadline == 0,
            state.programmed_deadline == 0,
            state.timer_ticks == 0,
            state.tickless_idle_entries == 0,
    {
        ClockeventState {
            running: false,
            tick_active: false,
            next_scheduler_deadline: 0,
            programmed_deadline: 0,
            timer_ticks: 0,
            tickless_idle_entries: 0,
        }
    }

    /// Returns this CPU to the stopped state (after the hardware was shut down).
    pub fn reset(&mut self)
        ensures
            *final(self) == Self::new_spec(),
    {
        *self = Self::new();
    }

    pub open spec fn new_spec() -> Self {
        ClockeventState {
            running: false,
            tick_active: false,
            next_scheduler_deadline: 0,
            programmed_deadline: 0,
            timer_ticks: 0,
            tickless_idle_entries: 0,
        }
    }

    /// Starts the clockevent and publishes the first scheduler-tick deadline
    /// one period after `now`. Starting a running clockevent is a bug.
    pub fn arm_scheduler_tick(&mut self, now: MonotonicInstant, period: u64)
        requires
            !old(self).running,
            period < HALF_RANGE,
        ensures
            final(self).running,
            final(self).tick_active,
            final(self).timer_ticks == 0,
            final(self).next_scheduler_deadline == vstd::wrapping::u64_specs::wrapping_add(now.0, period),
            final(self).programmed_deadline == old(self).programmed_deadline,
            final(self).tickless_idle_entries == old(self).tickless_idle_entries,
    {
        let deadline = now.wrapping_add_cycles(period);
        self.running = true;
        self.timer_ticks = 0;
        self.next_scheduler_deadline = deadline.cycles();
        self.tick_active = true;
    }

    /// Accounts one timer interrupt observed at `now`.
    ///
    /// The outstanding hardware deadline is consumed. When the scheduler
    /// tick is active and its deadline was reached, every period that has
    /// passed since it counts as one tick and the deadline moves past `now`.
    pub fn begin_timer_interrupt(&mut self, now: MonotonicInstant, period: u64) -> (interrupt: TimerInterrupt)
        requires
            old(self).running,
            0 < period,
            old(self).tick_active && deadline_reached_spec(now.0, old(self).next_scheduler_deadline) ==>
                period * (forward_distance(now.0, old(self).next_scheduler_deadline) / (period as int) + 1) < HALF_RANGE,
        ensures
            interrupt.now == now,
            final(self).programmed_deadline == 0,
            final(self).running == old(self).running,
            final(self).tick_active == old(self).tick_active,
            final(self).tickless_idle_entries == old(self).tickless_idle_entries,
            ({
                let next = old(self).next_scheduler_deadline;
                let elapsed = forward_distance(now.0, next) / (period as int) + 1;
                if old(self).tick_active && deadline_reached_spec(now.0, next) {
                    &&& interrupt.elapsed_ticks == elapsed
                    &&& final(self).next_scheduler_deadline
                        == vstd::wrapping::u64_specs::wrapping_add(next, (period * elapsed) as u64)
                    &&& final(self).timer_ticks
                        == vstd::wrapping::u64_specs::wrapping_add(old(self).timer_ticks, elapsed as u64)
                } else {
                    &&& interrupt.elapsed_ticks == 0
                    &&& final(self).next_scheduler_deadline == next
                    &&& final(self).timer_ticks == old(self).timer_ticks
                }
            }),
    {
        self.programmed_deadline = 0;
        let mut elapsed_ticks: u64 = 0;
        if self.tick_active {
            let scheduled = MonotonicInstant::from_cycles(self.next_scheduler_deadline);
            if deadline_reached(now, scheduled) {
                let overdue = now.0.wrapping_sub(scheduled.0);
                let elapsed = overdue / period + 1;
                assert(period * elapsed < HALF_RANGE);
                let advance = period * elapsed;
                let next = scheduled.wrapping_add_cycles(advance);
                self.next_scheduler_deadline = next.cycles();
                self.timer_ticks = self.timer_ticks.wrapping_add(elapsed);
                elapsed_ticks = elapsed;
            }
        }
        TimerInterrupt { now, elapsed_ticks }
    }

    /// Decides how to program the local one-shot timer for the earlier of
    /// the scheduler tick and the software-timer deadline.
    pub fn plan_reprogram(
        &self,
        software_deadline: Option<MonotonicInstant>,
        now: MonotonicInstant,
        minimum_delta: u64,
    ) -> (action: ClockeventAction)
        requires
            minimum_delta < HALF_RANGE,
            self.tick_active ==> self.next_scheduler_deadline != 0,
        ensures
            !self.running ==> action == ClockeventAction::Untouched,
            self.running ==> match chosen_deadline(
                if self.tick_active { Some(self.next_scheduler_deadline) } else { None },
                software_deadline,
            ) {
                None => action == ClockeventAction::Shutdown,
                Some(chosen) => action == ClockeventAction::Program(
                    MonotonicInstant(safe_deadline(chosen, now.0, minimum_delta)),
                ),
            },
    {
        if !self.running {
            return ClockeventAction::Untouched;
        }
        let scheduler_deadline = if self.tick_active {
            Some(MonotonicInstant::from_cycles(self.next_scheduler_deadline))
        } else {
            None
        };
        let chosen = match (scheduler_deadline, software_deadline) {
            (Some(scheduler), Some(software)) => earlier_deadline(scheduler, software),
            (Some(scheduler), None) => scheduler,
            (None, Some(software)) => software,
            (None, None) => {
                return ClockeventAction::Shutdown;
            },
        };
        let distance = chosen.0.wrapping_sub(now.0);
        let safe = if distance < minimum_delta || distance >= HALF_RANGE {
            now.wrapping_add_cycles(minimum_delta)
        } else {
            chosen
        };
        ClockeventAction::Program(safe)
    }

    /// Records the outcome of a reprogram: the programmed instant, or no
    /// outstanding deadline after a shutdown.
    pub fn record_action(&mut self, action: ClockeventAction)
        ensures
            final(self).programmed_deadline == match action {
                ClockeventAction::Program(deadline) => deadline.0,
                ClockeventAction::Shutdown => 0,
                ClockeventAction::Untouched => old(self).programmed_deadline,
            },
            final(self).running == old(self).running,
            final(self).tick_active == old(self).tick_active,
            final(self).next_scheduler_deadline == old(self).next_scheduler_deadline,
            final(self).timer_ticks == old(self).timer_ticks,
            final(self).tickless_idle_entries == old(self).tickless_idle_entries,
    {
        match action {
            ClockeventAction::Program(deadline) => {
                self.programmed_deadline = deadline.0;
            },
            ClockeventAction::Shutdown => {
                self.programmed_deadline = 0;
            },
            ClockeventAction::Untouched => {},
        }
    }

    /// Enters tickless idle: an active scheduler tick is suspended and the
    /// entry counted. Returns whether the clockevent must be reprogrammed.
    pub fn enter_idle(&mut self) -> (reprogram: bool)
        ensures
            reprogram == old(self).running,
            final(self).running == old(self).running,
            final(self).programmed_deadline == old(self).programmed_deadline,
            final(self).timer_ticks == old(self).timer_ticks,
            if old(self).running && old(self).tick_active {
                &&& !final(self).tick_active
                &&& final(self).next_scheduler_deadline == 0
                &&& final(self).tickless_idle_entries
                    == vstd::wrapping::u64_specs::wrapping_add(old(self).tickless_idle_entries, 1)
            } else {
                &&& final(self).tick_active == old(self).tick_active
                &&& final(self).next_scheduler_deadline == old(self).next_scheduler_deadline
                &&& final(self).tickless_idle_entries == old(self).tickless_idle_entries
            },
    {
        if !self.running {
            return false;
        }
        if self.tick_active {
            self.tick_active = false;
            self.next_scheduler_deadline = 0;
            self.tickless_idle_entries = self.tickless_idle_entries.wrapping_add(1);
        }
        true
    }

    /// Leaves tickless idle at `now`: the scheduler tick becomes active
    /// again (with a fresh deadline one period ahead when none is
    /// published). Returns whether the hardware must be re-armed: the tick
    /// was just re-activated, nothing is outstanding, the outstanding
    /// deadline passed or lies after the tick, or the source is disabled.
    pub fn leave_idle(&mut self, now: MonotonicInstant, period: u64, source_enabled: bool) -> (reprogram: bool)
        requires
            period < HALF_RANGE,
        ensures
            !old(self).running ==> !reprogram && *final(self) == *old(self),
            old(self).running ==> {
                let was_active = old(self).tick_active;
                let published = old(self).next_scheduler_deadline;
                let refreshed = !was_active || published == 0;
                let scheduler = if refreshed {
                    vstd::wrapping::u64_specs::wrapping_add(now.0, period)
                } else {
                    published
                };
                let programmed = old(self).programmed_deadline;
                &&& final(self).tick_active
                &&& final(self).next_scheduler_deadline == scheduler
                &&& final(self).running
                &&& final(self).programmed_deadline == programmed
                &&& final(self).timer_ticks == old(self).timer_ticks
                &&& final(self).tickless_idle_entries == old(self).tickless_idle_entries
                &&& reprogram == (!was_active || programmed == 0
                    || deadline_reached_spec(now.0, programmed)
                    || is_after(programmed, scheduler)
                    || !source_enabled)
            },
    {
        if !self.running {
            return false;
        }
        let was_active = self.tick_active;
        self.tick_active = true;
        let published = self.next_scheduler_deadline;
        let scheduler_deadline = if !was_active || published == 0 {
            let deadline = now.wrapping_add_cycles(period);
            self.next_scheduler_deadline = deadline.cycles();
            deadline
        } else {
            MonotonicInstant::from_cycles(published)
        };
        let programmed = MonotonicInstant::from_cycles(self.programmed_deadline);
        let needs_rearm = self.programmed_deadline == 0
            || deadline_reached(now, programmed)
            || instant_is_before(scheduler_deadline, programmed)
            || !source_enabled;
        !was_active || needs_rearm
    }
}

/// An ordering between instants is never mutual: if `a` is after `b`,
/// `b` is not after `a`.
pub proof fn lemma_after_is_asymmetric(a: u64, b: u64)
    ensures
        is_after(a, b) ==> !is_after(b, a),
        !is_after(a, a),
{
}

/// Adding a non-zero interval below half-range moves an instant strictly later.
pub proof fn lemma_add_moves_later(start: u64, cycles: u64)
    requires
        0 < cycles < HALF_RANGE,
    ensures
        is_after(vstd::wrapping::u64_specs::wrapping_add(start, cycles), start),
        deadline_reached_spec(vstd::wrapping::u64_specs::wrapping_add(start, cycles), start),
{
}

/// The earlier of two deadlines is one of them and never lies after the other.
pub proof fn lemma_earlier_deadline_is_first(left: u64, right: u64)
    ensures
        ({
            let chosen = if is_after(right, left) { left } else { right };
            &&& (chosen == left || chosen == right)
            &&& !is_after(chosen, left)
            &&& !is_after(chosen, right)
        }),
{
}

/// The instant `nanos` nanoseconds after `now` on a counter running at
/// `frequency` Hz (rounded up to whole cycles).
pub fn deadline_after(now: MonotonicInstant, nanos: u128, frequency: u64) -> (deadline: MonotonicInstant)
    requires
        nanos * frequency + (NANOS_PER_SECOND - 1) <= u128::MAX,
        cycles_round_up_spec(nanos as int, frequency as int) < HALF_RANGE,
    ensures
        deadline.0 == vstd::wrapping::u64_specs::wrapping_add(now.0, cycles_round_up_spec(nanos as int, frequency as int) as u64),
{
    now.wrapping_add_cycles(duration_to_cycles_round_up(nanos, frequency))
}

/// Scheduler ticks accounted on `cpu`.
pub fn timer_ticks_for(states: &[ClockeventState], cpu: crate::smp::CpuId) -> (ticks: u64)
    requires
        cpu.0 < states@.len(),
    ensures
        ticks == states@[cpu.0 as int].timer_ticks,
{
    states[cpu.0].timer_ticks
}

/// Scheduler ticks accounted on the calling CPU `current`.
pub fn timer_ticks(states: &[ClockeventState], current: crate::smp::CpuId) -> (ticks: u64)
    requires
        current.0 < states@.len(),
    ensures
        ticks == states@[current.0 as int].timer_ticks,
{
    timer_ticks_for(states, current)
}

/// Times `cpu` entered tickless idle with the scheduler tick active.
pub fn tickless_idle_entries_for(states: &[ClockeventState], cpu: crate::smp::CpuId) -> (entries: u64)
    requires
        cpu.0 < states@.len(),
    ensures
        entries == states@[cpu.0 as int].tickless_idle_entries,
{
    states[cpu.0].tickless_idle_entries
}

} // verus!
