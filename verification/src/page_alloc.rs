//! The global page allocator slot: allocation options, one-time
//! installation of the frame allocator, allocation with zero-filling,
//! two-phase freeing, and batch reference updates that are all-or-nothing.
use vstd::prelude::*;

verus! {

/// Which physical memory an allocation may come from.
#[derive(Clone, Copy, Debug, PartialEq, Eq, Structural)]
pub enum AllocationClass {
    Any,
    /// Below 4 GiB, for 32-bit DMA.
    Dma32,
}

#[derive(Clone, Copy, Debug, PartialEq, Eq, Structural)]
pub struct PageAllocationOptions {
    class: AllocationClass,
    zeroed: bool,
}

impl PageAllocationOptions {
    pub closed spec fn spec_class(self) -> AllocationClass {
        self.class
    }

    pub closed spec fn spec_zeroed(self) -> bool {
        self.zeroed
    }

    /// Any memory, contents left as they are.
    pub fn kernel() -> (options: Self)
        ensures
            options.spec_class() == AllocationClass::Any,
            !options.spec_zeroed(),
    {
        PageAllocationOptions { class: AllocationClass::Any, zeroed: false }
    }

    /// Any memory, zero-filled.
    pub fn kernel_zeroed() -> (options: Self)
        ensures
            options.spec_class() == AllocationClass::Any,
            options.spec_zeroed(),
    {
        PageAllocationOptions { class: AllocationClass::Any, zeroed: true }
    }

    /// DMA32 memory, zero-filled.
    pub fn dma32_zeroed() -> (options: Self)
        ensures
            options.spec_class() == AllocationClass::Dma32,
            options.spec_zeroed(),
    {
        PageAllocationOptions { class: AllocationClass::Dma32, zeroed: true }
    }

    pub fn class(self) -> (class: AllocationClass)
        ensures
            class == self.spec_class(),
    {
        self.class
    }

    pub fn is_zeroed(self) -> (zeroed: bool)
        ensures
            zeroed == self.spec_zeroed(),
    {
        self.zeroed
    }
}

#[derive(Clone, Copy, Debug, PartialEq, Eq, Structural)]
pub enum GlobalPageAllocatorError {
    AlreadyInitialized,
    NotInitialized,
    /// The frame allocator refused the request.
    Frame,
    PhysicalMemoryNotAccessible,
}

/// The frame allocator behind the global slot, with per-frame reference
/// counts. Frames are named by their frame number.
///
/// Reference counting is stated over `spec_counts`, the count of each frame
/// in use: an increment or decrement changes the count of its frame by one
/// and nothing else, a refused one changes nothing, and a frame whose count
/// is positive can always be decremented.
pub trait FrameAllocator {
    /// The reference count of each frame in use.
    spec fn spec_counts(&self) -> Map<u64, u32>;

    fn total_free_pages(&self) -> usize;

    /// Takes a run of `2^order` free frames of `class`.
    fn allocate(&mut self, order: usize, class: AllocationClass) -> Result<PageAllocation, GlobalPageAllocatorError>;

    /// Takes an allocation out of circulation on its way back.
    fn begin_free(&mut self, allocation: &PageAllocation) -> Result<(), GlobalPageAllocatorError>;

    /// Puts an allocation whose freeing began back into use.
    fn cancel_free(&mut self, allocation: &PageAllocation) -> Result<(), GlobalPageAllocatorError>;

    fn reference_count(&self, frame: u64) -> (result: Result<u32, GlobalPageAllocatorError>)
        ensures
            result matches Ok(count) ==> self.spec_counts().contains_key(frame) && count == self.spec_counts()[frame];

    fn increment_reference(&mut self, frame: u64) -> (result: Result<u32, GlobalPageAllocatorError>)
        ensures
            match result {
                Ok(count) => old(self).spec_counts().contains_key(frame) && count == old(self).spec_counts()[frame] + 1
                    && final(self).spec_counts() == old(self).spec_counts().insert(frame, count),
                Err(_) => final(self).spec_counts() == old(self).spec_counts(),
            };

    fn decrement_reference(&mut self, frame: u64) -> (result: Result<u32, GlobalPageAllocatorError>)
        ensures
            match result {
                Ok(count) => old(self).spec_counts().contains_key(frame) && old(self).spec_counts()[frame] >= 1
                    && count == old(self).spec_counts()[frame] - 1 && final(self).spec_counts() == old(
                    self,
                ).spec_counts().insert(frame, count),
                Err(_) => final(self).spec_counts() == old(self).spec_counts(),
            },
            old(self).spec_counts().contains_key(frame) && old(self).spec_counts()[frame] >= 1 ==> result is Ok;

    /// Takes a frame whose count reached zero out of circulation.
    fn begin_free_unreferenced_frame(&mut self, frame: u64) -> Result<PageAllocation, GlobalPageAllocatorError>;

    /// Returns a taken-out allocation to the free lists.
    fn finish_free(&mut self, allocation: &PageAllocation) -> Result<(), GlobalPageAllocatorError>;
}

/// A run of `2^order` frames starting at `start_frame`.
#[derive(Clone, Copy, Debug, PartialEq, Eq, Structural)]
pub struct PageAllocation {
    pub start_frame: u64,
    pub order: usize,
}

/// The state of one frame of a [`FrameTable`].
#[derive(Clone, Copy, Debug, PartialEq, Eq, Structural)]
pub enum FrameState {
    Free,
    /// In use, with its reference count.
    Used(u32),
    /// On its way back to the free frames.
    Leaving,
}

/// A frame allocator over a fixed range of frames: runs of `2^order`
/// frames aligned to their size, the frames below `dma32_frames` serving
/// DMA32 requests.
pub struct FrameTable {
    states: Vec<FrameState>,
    dma32_frames: u64,
}

/// Frames in a run of order `order`: `2^order`.
pub open spec fn run_length(order: nat) -> nat
    decreases order,
{
    if order == 0 {
        1
    } else {
        2 * run_length((order - 1) as nat)
    }
}

/// Every frame of `start .. end` is in `state`.
pub open spec fn run_all(states: Seq<FrameState>, start: int, end: int, state: FrameState) -> bool {
    forall|i: int| start <= i < end ==> #[trigger] states[i] == state
}

/// Every frame of `start .. end` is in use, whatever its count.
pub open spec fn run_all_used(states: Seq<FrameState>, start: int, end: int) -> bool {
    forall|i: int| start <= i < end ==> #[trigger] states[i] is Used
}

/// The `size` frames from `start` are all free.
pub open spec fn free_run_at(states: Seq<FrameState>, start: int, size: int) -> bool {
    run_all(states, start, start + size, FrameState::Free)
}

/// `states` with every frame of `start .. end` set to `state`.
pub open spec fn with_run(states: Seq<FrameState>, start: int, end: int, state: FrameState) -> Seq<FrameState> {
    Seq::new(states.len(), |i: int| if start <= i < end { state } else { states[i] })
}

/// The number of free frames in `states`.
pub open spec fn free_frames(states: Seq<FrameState>) -> nat
    decreases states.len(),
{
    if states.len() == 0 {
        0
    } else {
        free_frames(states.drop_last()) + if states.last() == FrameState::Free { 1nat } else { 0nat }
    }
}

proof fn lemma_run_length_grows(i: nat, j: nat)
    requires
        i <= j,
    ensures
        1 <= run_length(i) <= run_length(j),
    decreases j,
{
    if j > 0 {
        if i < j {
            lemma_run_length_grows(i, (j - 1) as nat);
        } else {
            lemma_run_length_grows((j - 1) as nat, (j - 1) as nat);
        }
    }
}

/// Two distinct multiples of `size` lie at least `size` apart.
proof fn lemma_aligned_gap(start: int, s: int, size: int)
    requires
        size > 0,
        start % size == 0,
        s % size == 0,
        start < s,
    ensures
        start + size <= s,
{
    vstd::arithmetic::div_mod::lemma_fundamental_div_mod(start, size);
    vstd::arithmetic::div_mod::lemma_fundamental_div_mod(s, size);
    let q1 = start / size;
    let q2 = s / size;
    assert(start + size <= s) by (nonlinear_arith)
        requires
            start == size * q1,
            s == size * q2,
            start < s,
            size > 0,
    ;
}

impl FrameTable {
    pub closed spec fn spec_states(&self) -> Seq<FrameState> {
        self.states@
    }

    pub closed spec fn spec_dma32_frames(&self) -> u64 {
        self.dma32_frames
    }

    /// The frames below which a request of `class` is served.
    pub open spec fn spec_limit(&self, class: AllocationClass) -> int {
        match class {
            AllocationClass::Any => self.spec_states().len() as int,
            AllocationClass::Dma32 => if (self.spec_dma32_frames() as int) < self.spec_states().len() {
                self.spec_dma32_frames() as int
            } else {
                self.spec_states().len() as int
            },
        }
    }

    /// The frames `start .. end` of `allocation`, when they lie in the table.
    pub open spec fn spec_run_of(&self, allocation: PageAllocation) -> Option<(int, int)> {
        let end = allocation.start_frame + run_length(allocation.order as nat);
        if end <= self.spec_states().len() {
            Some((allocation.start_frame as int, end))
        } else {
            None
        }
    }

    /// `frames` free frames.
    pub fn new(frames: usize, dma32_frames: u64) -> (table: Self)
        ensures
            table.spec_states() == Seq::new(frames as nat, |i: int| FrameState::Free),
            table.spec_dma32_frames() == dma32_frames,
    {
        let mut states: Vec<FrameState> = Vec::new();
        let mut i: usize = 0;
        while i < frames
            invariant
                i <= frames,
                states@ == Seq::new(i as nat, |k: int| FrameState::Free),
            decreases frames - i,
        {
            states.push(FrameState::Free);
            i = i + 1;
            proof {
                assert(states@ =~= Seq::new(i as nat, |k: int| FrameState::Free));
            }
        }
        FrameTable { states, dma32_frames }
    }

    /// Whether every frame of `start .. end` is in `wanted` state (`Used`
    /// with any count when `any_count`).
    fn run_is(&self, start: usize, end: usize, wanted: FrameState, any_count: bool) -> (all: bool)
        requires
            start <= end <= self.states@.len(),
        ensures
            all == if any_count {
                run_all_used(self.states@, start as int, end as int)
            } else {
                run_all(self.states@, start as int, end as int, wanted)
            },
    {
        let mut i = start;
        while i < end
            invariant
                start <= i <= end <= self.states@.len(),
                forall|k: int| start <= k < i ==> if any_count {
                    #[trigger] self.states@[k] is Used
                } else {
                    self.states@[k] == wanted
                },
            decreases end - i,
        {
            let state = self.states[i];
            let matches = if any_count {
                match state {
                    FrameState::Used(_) => true,
                    _ => false,
                }
            } else {
                state == wanted
            };
            if !matches {
                return false;
            }
            i = i + 1;
        }
        true
    }

    /// Sets every frame of `start .. end` to `state`.
    fn set_run(&mut self, start: usize, end: usize, state: FrameState)
        requires
            start <= end <= old(self).states@.len(),
        ensures
            final(self).states@ == with_run(old(self).states@, start as int, end as int, state),
            final(self).dma32_frames == old(self).dma32_frames,
    {
        let mut i = start;
        proof {
            assert(self.states@ =~= with_run(old(self).states@, start as int, start as int, state));
        }
        while i < end
            invariant
                start <= i <= end <= self.states@.len(),
                self.states@ == with_run(old(self).states@, start as int, i as int, state),
                self.dma32_frames == old(self).dma32_frames,
            decreases end - i,
        {
            self.states.set(i, state);
            i = i + 1;
            proof {
                assert(self.states@ =~= with_run(old(self).states@, start as int, i as int, state));
            }
        }
    }

    /// The frames `start .. end` of `allocation`, when they lie in the table.
    fn run_of(&self, allocation: &PageAllocation) -> (run: Option<(usize, usize)>)
        ensures
            run is Some <==> self.spec_run_of(*allocation) is Some,
            run matches Some((start, end)) ==> self.spec_run_of(*allocation) == Some((start as int, end as int))
                && end <= self.states@.len(),
    {
        proof {
            lemma_run_length_grows(0, allocation.order as nat);
        }
        let count = self.states.len();
        if allocation.start_frame >= count as u64 {
            return None;
        }
        let start = allocation.start_frame as usize;
        let mut size: usize = 1;
        let mut i: usize = 0;
        while i < allocation.order
            invariant
                i <= allocation.order,
                size == run_length(i as nat),
                count == self.states@.len(),
            decreases allocation.order - i,
        {
            if size > usize::MAX / 2 {
                proof {
                    assert(run_length((i + 1) as nat) == 2 * run_length(i as nat));
                    lemma_run_length_grows((i + 1) as nat, allocation.order as nat);
                }
                return None;
            }
            size = size * 2;
            i = i + 1;
        }
        if size > count - start {
            return None;
        }
        Some((start, start + size))
    }
}

impl FrameAllocator for FrameTable {
    closed spec fn spec_counts(&self) -> Map<u64, u32> {
        Map::new(
            |frame: u64| frame < self.states@.len() && self.states@[frame as int] is Used,
            |frame: u64| self.states@[frame as int]->Used_0,
        )
    }

    fn total_free_pages(&self) -> (pages: usize)
        ensures
            pages == free_frames(self.spec_states()),
    {
        let mut pages: usize = 0;
        let mut i: usize = 0;
        while i < self.states.len()
            invariant
                i <= self.states@.len(),
                pages <= i,
                pages == free_frames(self.states@.take(i as int)),
            decreases self.states@.len() - i,
        {
            proof {
                assert(self.states@.take(i + 1).drop_last() =~= self.states@.take(i as int));
            }
            if self.states[i] == FrameState::Free {
                pages = pages + 1;
            }
            i = i + 1;
        }
        proof {
            assert(self.states@.take(i as int) =~= self.states@);
        }
        pages
    }

    /// First fit over the runs aligned to their size below the class's limit.
    fn allocate(&mut self, order: usize, class: AllocationClass) -> (result: Result<PageAllocation, GlobalPageAllocatorError>)
        ensures
            final(self).spec_dma32_frames() == old(self).spec_dma32_frames(),
            result matches Ok(allocation) ==> {
                    let size = run_length(order as nat) as int;
                    let start = allocation.start_frame as int;
                    &&& allocation.order == order
                    &&& order < 63
                    &&& start % size == 0
                    &&& start + size <= old(self).spec_limit(class)
                    &&& free_run_at(old(self).spec_states(), start, size)
                    &&& final(self).spec_states() == with_run(old(self).spec_states(), start, start + size,
                        FrameState::Used(1))
                    &&& forall|s: int| 0 <= s < start && s % size == 0
                        ==> !#[trigger] free_run_at(old(self).spec_states(), s, size)
                },
            result matches Err(error) ==> {
                    &&& error == GlobalPageAllocatorError::Frame
                    &&& final(self).spec_states() == old(self).spec_states()
                    &&& order < 63 ==> forall|s: int| 0 <= s && s % (run_length(order as nat) as int) == 0
                        && s + run_length(order as nat) <= old(self).spec_limit(class)
                        ==> !#[trigger] free_run_at(old(self).spec_states(), s, run_length(order as nat) as int)
                },
    {
        let count = self.states.len();
        let limit = match class {
            AllocationClass::Any => count,
            AllocationClass::Dma32 => if self.dma32_frames < count as u64 {
                self.dma32_frames as usize
            } else {
                count
            },
        };
        if order >= 63 {
            return Err(GlobalPageAllocatorError::Frame);
        }
        let mut size: usize = 1;
        let mut i: usize = 0;
        while i < order
            invariant
                i <= order < 63,
                size == run_length(i as nat),
                limit == old(self).spec_limit(class),
            decreases order - i,
        {
            if size > limit || size > usize::MAX / 2 {
                proof {
                    assert(run_length((i + 1) as nat) == 2 * run_length(i as nat));
                    lemma_run_length_grows(i as nat, order as nat);
                    lemma_run_length_grows((i + 1) as nat, order as nat);
                }
                return Err(GlobalPageAllocatorError::Frame);
            }
            size = size * 2;
            i = i + 1;
        }
        proof {
            lemma_run_length_grows(0, order as nat);
        }
        let mut start: usize = 0;
        while start < limit && size <= limit - start
            invariant
                limit == old(self).spec_limit(class),
                limit <= self.states@.len(),
                order < 63,
                size == run_length(order as nat),
                size >= 1,
                start % size == 0,
                self.states@ == old(self).states@,
                self.dma32_frames == old(self).dma32_frames,
                forall|s: int| 0 <= s < start && s % (size as int) == 0 && s + size <= limit
                    ==> !#[trigger] free_run_at(old(self).states@, s, size as int),
            decreases limit - start,
        {
            if self.run_is(start, start + size, FrameState::Free, false) {
                self.set_run(start, start + size, FrameState::Used(1));
                let allocation = PageAllocation { start_frame: start as u64, order };
                proof {
                    assert(allocation.start_frame as int == start as int);
                    assert(free_run_at(old(self).spec_states(), start as int, size as int));
                    assert forall|s: int| 0 <= s < start && s % (size as int) == 0
                        implies !#[trigger] free_run_at(old(self).states@, s, size as int) by {
                        lemma_aligned_gap(s, start as int, size as int);
                    }
                }
                return Ok(allocation);
            }
            proof {
                assert forall|s: int| 0 <= s < start + size && s % (size as int) == 0 && s + size <= limit
                    implies !#[trigger] free_run_at(old(self).states@, s, size as int) by {
                    if s > start {
                        lemma_aligned_gap(start as int, s, size as int);
                    }
                }
                vstd::arithmetic::div_mod::lemma_mod_add_multiples_vanish(start as int, size as int);
            }
            start = start + size;
        }
        proof {
            assert forall|s: int| 0 <= s && s % (size as int) == 0 && s + size <= limit
                implies !#[trigger] free_run_at(old(self).states@, s, size as int) by {
                if s >= start {
                    assert(s + size > limit);
                }
            }
        }
        Err(GlobalPageAllocatorError::Frame)
    }

    fn begin_free(&mut self, allocation: &PageAllocation) -> (result: Result<(), GlobalPageAllocatorError>)
        ensures
            final(self).spec_dma32_frames() == old(self).spec_dma32_frames(),
            match old(self).spec_run_of(*allocation) {
                Some((start, end)) => if run_all_used(old(self).spec_states(), start, end) {
                    result is Ok && final(self).spec_states() == with_run(old(self).spec_states(), start, end,
                        FrameState::Leaving)
                } else {
                    result == Err::<(), GlobalPageAllocatorError>(GlobalPageAllocatorError::Frame)
                        && final(self).spec_states() == old(self).spec_states()
                },
                None => result == Err::<(), GlobalPageAllocatorError>(GlobalPageAllocatorError::Frame)
                    && final(self).spec_states() == old(self).spec_states(),
            },
    {
        match self.run_of(allocation) {
            Some((start, end)) => {
                if self.run_is(start, end, FrameState::Leaving, true) {
                    self.set_run(start, end, FrameState::Leaving);
                    Ok(())
                } else {
                    Err(GlobalPageAllocatorError::Frame)
                }
            },
            None => Err(GlobalPageAllocatorError::Frame),
        }
    }

    fn cancel_free(&mut self, allocation: &PageAllocation) -> (result: Result<(), GlobalPageAllocatorError>)
        ensures
            final(self).spec_dma32_frames() == old(self).spec_dma32_frames(),
            match old(self).spec_run_of(*allocation) {
                Some((start, end)) => if run_all(old(self).spec_states(), start, end, FrameState::Leaving) {
                    result is Ok && final(self).spec_states() == with_run(old(self).spec_states(), start, end,
                        FrameState::Used(1))
                } else {
                    result == Err::<(), GlobalPageAllocatorError>(GlobalPageAllocatorError::Frame)
                        && final(self).spec_states() == old(self).spec_states()
                },
                None => result == Err::<(), GlobalPageAllocatorError>(GlobalPageAllocatorError::Frame)
                    && final(self).spec_states() == old(self).spec_states(),
            },
    {
        match self.run_of(allocation) {
            Some((start, end)) => {
                if self.run_is(start, end, FrameState::Leaving, false) {
                    self.set_run(start, end, FrameState::Used(1));
                    Ok(())
                } else {
                    Err(GlobalPageAllocatorError::Frame)
                }
            },
            None => Err(GlobalPageAllocatorError::Frame),
        }
    }

    fn reference_count(&self, frame: u64) -> (result: Result<u32, GlobalPageAllocatorError>)
        ensures
            result == (if frame < self.spec_states().len() && self.spec_states()[frame as int] is Used {
                Ok::<u32, GlobalPageAllocatorError>(self.spec_states()[frame as int]->Used_0)
            } else {
                Err::<u32, GlobalPageAllocatorError>(GlobalPageAllocatorError::Frame)
            }),
    {
        if frame >= self.states.len() as u64 {
            return Err(GlobalPageAllocatorError::Frame);
        }
        match self.states[frame as usize] {
            FrameState::Used(count) => Ok(count),
            _ => Err(GlobalPageAllocatorError::Frame),
        }
    }

    fn increment_reference(&mut self, frame: u64) -> (result: Result<u32, GlobalPageAllocatorError>)
        ensures
            final(self).spec_dma32_frames() == old(self).spec_dma32_frames(),
            if frame < old(self).spec_states().len() && old(self).spec_states()[frame as int] is Used
                && old(self).spec_states()[frame as int]->Used_0 < u32::MAX {
                let count = (old(self).spec_states()[frame as int]->Used_0 + 1) as u32;
                result == Ok::<u32, GlobalPageAllocatorError>(count)
                    && final(self).spec_states() == old(self).spec_states().update(frame as int, FrameState::Used(count))
            } else {
                result == Err::<u32, GlobalPageAllocatorError>(GlobalPageAllocatorError::Frame)
                    && final(self).spec_states() == old(self).spec_states()
            },
    {
        if frame >= self.states.len() as u64 {
            return Err(GlobalPageAllocatorError::Frame);
        }
        match self.states[frame as usize] {
            FrameState::Used(count) => {
                if count == u32::MAX {
                    return Err(GlobalPageAllocatorError::Frame);
                }
                self.states.set(frame as usize, FrameState::Used(count + 1));
                proof {
                    assert(self.spec_counts() =~= old(self).spec_counts().insert(frame, (count + 1) as u32));
                }
                Ok(count + 1)
            },
            _ => Err(GlobalPageAllocatorError::Frame),
        }
    }

    fn decrement_reference(&mut self, frame: u64) -> (result: Result<u32, GlobalPageAllocatorError>)
        ensures
            final(self).spec_dma32_frames() == old(self).spec_dma32_frames(),
            if frame < old(self).spec_states().len() && old(self).spec_states()[frame as int] is Used
                && old(self).spec_states()[frame as int]->Used_0 > 0 {
                let count = (old(self).spec_states()[frame as int]->Used_0 - 1) as u32;
                result == Ok::<u32, GlobalPageAllocatorError>(count)
                    && final(self).spec_states() == old(self).spec_states().update(frame as int, FrameState::Used(count))
            } else {
                result == Err::<u32, GlobalPageAllocatorError>(GlobalPageAllocatorError::Frame)
                    && final(self).spec_states() == old(self).spec_states()
            },
    {
        if frame >= self.states.len() as u64 {
            return Err(GlobalPageAllocatorError::Frame);
        }
        match self.states[frame as usize] {
            FrameState::Used(count) => {
                if count == 0 {
                    return Err(GlobalPageAllocatorError::Frame);
                }
                self.states.set(frame as usize, FrameState::Used(count - 1));
                proof {
                    assert(self.spec_counts() =~= old(self).spec_counts().insert(frame, (count - 1) as u32));
                }
                Ok(count - 1)
            },
            _ => Err(GlobalPageAllocatorError::Frame),
        }
    }

    fn begin_free_unreferenced_frame(&mut self, frame: u64) -> (result: Result<PageAllocation, GlobalPageAllocatorError>)
        ensures
            final(self).spec_dma32_frames() == old(self).spec_dma32_frames(),
            if frame < old(self).spec_states().len() && old(self).spec_states()[frame as int] == FrameState::Used(0) {
                result == Ok::<PageAllocation, GlobalPageAllocatorError>(PageAllocation { start_frame: frame, order: 0 })
                    && final(self).spec_states() == old(self).spec_states().update(frame as int, FrameState::Leaving)
            } else {
                result == Err::<PageAllocation, GlobalPageAllocatorError>(GlobalPageAllocatorError::Frame)
                    && final(self).spec_states() == old(self).spec_states()
            },
    {
        if frame >= self.states.len() as u64 {
            return Err(GlobalPageAllocatorError::Frame);
        }
        match self.states[frame as usize] {
            FrameState::Used(0) => {
                self.states.set(frame as usize, FrameState::Leaving);
                Ok(PageAllocation { start_frame: frame, order: 0 })
            },
            _ => Err(GlobalPageAllocatorError::Frame),
        }
    }

    fn finish_free(&mut self, allocation: &PageAllocation) -> (result: Result<(), GlobalPageAllocatorError>)
        ensures
            final(self).spec_dma32_frames() == old(self).spec_dma32_frames(),
            match old(self).spec_run_of(*allocation) {
                Some((start, end)) => if run_all(old(self).spec_states(), start, end, FrameState::Leaving) {
                    result is Ok && final(self).spec_states() == with_run(old(self).spec_states(), start, end,
                        FrameState::Free)
                } else {
                    result == Err::<(), GlobalPageAllocatorError>(GlobalPageAllocatorError::Frame)
                        && final(self).spec_states() == old(self).spec_states()
                },
                None => result == Err::<(), GlobalPageAllocatorError>(GlobalPageAllocatorError::Frame)
                    && final(self).spec_states() == old(self).spec_states(),
            },
    {
        match self.run_of(allocation) {
            Some((start, end)) => {
                if self.run_is(start, end, FrameState::Leaving, false) {
                    self.set_run(start, end, FrameState::Free);
                    Ok(())
                } else {
                    Err(GlobalPageAllocatorError::Frame)
                }
            },
            None => Err(GlobalPageAllocatorError::Frame),
        }
    }
}

/// The global slot that holds the frame allocator once it is installed.
pub struct GlobalPageAllocator<A: FrameAllocator> {
    allocator: Option<A>,
}

impl<A: FrameAllocator> GlobalPageAllocator<A> {
    pub closed spec fn spec_allocator(&self) -> Option<A> {
        self.allocator
    }

    /// An empty slot.
    pub fn new() -> (slot: Self)
        ensures
            slot.spec_allocator() is None,
    {
        GlobalPageAllocator { allocator: None }
    }
}

/// Installs the allocator; a second installation is refused.
pub fn install<A: FrameAllocator>(slot: &mut GlobalPageAllocator<A>, allocator: A) -> (result: Result<(), GlobalPageAllocatorError>)
    ensures
        old(slot).spec_allocator() is Some ==> result == Err::<(), GlobalPageAllocatorError>(
            GlobalPageAllocatorError::AlreadyInitialized) && *final(slot) == *old(slot),
        old(slot).spec_allocator() is None ==> result is Ok && final(slot).spec_allocator() == Some(allocator),
{
    if slot.allocator.is_some() {
        return Err(GlobalPageAllocatorError::AlreadyInitialized);
    }
    slot.allocator = Some(allocator);
    Ok(())
}

pub fn is_initialized<A: FrameAllocator>(slot: &GlobalPageAllocator<A>) -> (initialized: bool)
    ensures
        initialized == slot.spec_allocator() is Some,
{
    slot.allocator.is_some()
}

/// Free pages of the installed allocator.
pub fn total_free_pages<A: FrameAllocator>(slot: &GlobalPageAllocator<A>) -> (pages: Result<usize, GlobalPageAllocatorError>)
    ensures
        slot.spec_allocator() is None <==> pages == Err::<usize, GlobalPageAllocatorError>(GlobalPageAllocatorError::NotInitialized),
{
    match &slot.allocator {
        Some(allocator) => Ok(allocator.total_free_pages()),
        None => Err(GlobalPageAllocatorError::NotInitialized),
    }
}

pub fn reference_count<A: FrameAllocator>(slot: &GlobalPageAllocator<A>, frame: u64) -> (count: Result<u32, GlobalPageAllocatorError>)
    ensures
        slot.spec_allocator() is None ==> count == Err::<u32, GlobalPageAllocatorError>(GlobalPageAllocatorError::NotInitialized),
{
    match &slot.allocator {
        Some(allocator) => allocator.reference_count(frame),
        None => Err(GlobalPageAllocatorError::NotInitialized),
    }
}

pub fn increment_reference<A: FrameAllocator>(slot: &mut GlobalPageAllocator<A>, frame: u64)
    -> (count: Result<u32, GlobalPageAllocatorError>)
    ensures
        old(slot).spec_allocator() is None ==> count == Err::<u32, GlobalPageAllocatorError>(GlobalPageAllocatorError::NotInitialized)
            && *final(slot) == *old(slot),
        final(slot).spec_allocator() is Some == old(slot).spec_allocator() is Some,
{
    match &mut slot.allocator {
        Some(allocator) => allocator.increment_reference(frame),
        None => Err(GlobalPageAllocatorError::NotInitialized),
    }
}

pub fn decrement_reference<A: FrameAllocator>(slot: &mut GlobalPageAllocator<A>, frame: u64)
    -> (count: Result<u32, GlobalPageAllocatorError>)
    ensures
        old(slot).spec_allocator() is None ==> count == Err::<u32, GlobalPageAllocatorError>(GlobalPageAllocatorError::NotInitialized)
            && *final(slot) == *old(slot),
        final(slot).spec_allocator() is Some == old(slot).spec_allocator() is Some,
{
    match &mut slot.allocator {
        Some(allocator) => allocator.decrement_reference(frame),
        None => Err(GlobalPageAllocatorError::NotInitialized),
    }
}

/// How often `frame` occurs in `frames`.
pub open spec fn occurrences(frames: Seq<u64>, frame: u64) -> nat
    decreases frames.len(),
{
    if frames.len() == 0 {
        0
    } else {
        (if frames[0] == frame { 1nat } else { 0nat }) + occurrences(frames.drop_first(), frame)
    }
}

proof fn lemma_occurrences_push(frames: Seq<u64>, last: u64, frame: u64)
    ensures
        occurrences(frames.push(last), frame) == occurrences(frames, frame) + if last == frame { 1nat } else { 0nat },
    decreases frames.len(),
{
    if frames.len() > 0 {
        assert(frames.push(last)[0] == frames[0]);
        assert(frames.push(last).drop_first() =~= frames.drop_first().push(last));
        lemma_occurrences_push(frames.drop_first(), last, frame);
    } else {
        assert(frames.push(last)[0] == last);
        assert(frames.push(last).drop_first() =~= Seq::<u64>::empty());
        assert(occurrences(Seq::<u64>::empty(), frame) == 0);
    }
}

/// Increments the reference count of every frame, all or nothing: when one
/// increment fails, the frames before it are decremented again and that
/// failure is returned, leaving every count as it was.
pub fn increment_reference_many<A: FrameAllocator>(slot: &mut GlobalPageAllocator<A>, frames: &[u64])
    -> (result: Result<(), GlobalPageAllocatorError>)
    ensures
        old(slot).spec_allocator() is None ==> result == Err::<(), GlobalPageAllocatorError>(
            GlobalPageAllocatorError::NotInitialized) && *final(slot) == *old(slot),
        old(slot).spec_allocator() is Some && frames@.len() == 0 ==> result is Ok,
        final(slot).spec_allocator() is Some == old(slot).spec_allocator() is Some,
        old(slot).spec_allocator() is Some ==> {
            let before = old(slot).spec_allocator().unwrap().spec_counts();
            let after = final(slot).spec_allocator().unwrap().spec_counts();
            match result {
                Ok(()) => {
                    &&& after.dom() == before.dom()
                    &&& forall|frame: u64| #[trigger] before.contains_key(frame) ==> after[frame] == before[frame]
                        + occurrences(frames@, frame)
                    &&& forall|i: int| 0 <= i < frames@.len() ==> before.contains_key(#[trigger] frames@[i])
                },
                Err(_) => after == before,
            }
        },
{
    let mut allocator = match slot.allocator.take() {
        Some(allocator) => allocator,
        None => {
            return Err(GlobalPageAllocatorError::NotInitialized);
        },
    };
    let ghost before = allocator.spec_counts();
    let mut done: usize = 0;
    proof {
        assert(frames@.subrange(0, 0) =~= Seq::<u64>::empty());
    }
    while done < frames.len()
        invariant
            done <= frames@.len(),
            slot.allocator is None,
            old(slot).spec_allocator() is Some,
            before == old(slot).spec_allocator().unwrap().spec_counts(),
            allocator.spec_counts().dom() == before.dom(),
            forall|frame: u64| #[trigger] before.contains_key(frame) ==> allocator.spec_counts()[frame] == before[frame]
                + occurrences(frames@.subrange(0, done as int), frame),
            forall|i: int| 0 <= i < done ==> before.contains_key(#[trigger] frames@[i]),
        decreases frames@.len() - done,
    {
        let ghost current = allocator.spec_counts();
        match allocator.increment_reference(frames[done]) {
            Ok(_) => {
                proof {
                    let f = frames@[done as int];
                    assert(frames@.subrange(0, done + 1) =~= frames@.subrange(0, done as int).push(f));
                    assert forall|frame: u64| #[trigger] before.contains_key(frame) implies allocator.spec_counts()[frame]
                        == before[frame] + occurrences(frames@.subrange(0, done + 1), frame) by {
                        lemma_occurrences_push(frames@.subrange(0, done as int), f, frame);
                    }
                    assert(allocator.spec_counts().dom() =~= before.dom());
                }
                done = done + 1;
            },
            Err(error) => {
                let mut undone: usize = 0;
                proof {
                    assert(frames@.subrange(0, done as int) =~= frames@.subrange(undone as int, done as int));
                }
                while undone < done
                    invariant
                        undone <= done,
                        done <= frames@.len(),
                        slot.allocator is None,
                        old(slot).spec_allocator() is Some,
                        before == old(slot).spec_allocator().unwrap().spec_counts(),
                        allocator.spec_counts().dom() == before.dom(),
                        forall|i: int| 0 <= i < done ==> before.contains_key(#[trigger] frames@[i]),
                        forall|frame: u64| #[trigger] before.contains_key(frame) ==> allocator.spec_counts()[frame]
                            == before[frame] + occurrences(frames@.subrange(undone as int, done as int), frame),
                    decreases done - undone,
                {
                    let f = frames[undone];
                    proof {
                        let rest = frames@.subrange(undone as int, done as int);
                        assert(rest[0] == f);
                        assert(rest.drop_first() =~= frames@.subrange(undone + 1, done as int));
                        assert(before.contains_key(frames@[undone as int]));
                        assert(occurrences(rest, f) >= 1);
                    }
                    let _ = allocator.decrement_reference(f);
                    proof {
                        let rest = frames@.subrange(undone as int, done as int);
                        assert forall|frame: u64| #[trigger] before.contains_key(frame) implies allocator.spec_counts()[frame]
                            == before[frame] + occurrences(frames@.subrange(undone + 1, done as int), frame) by {
                            assert(rest.drop_first() =~= frames@.subrange(undone + 1, done as int));
                        }
                        assert(allocator.spec_counts().dom() =~= before.dom());
                    }
                    undone = undone + 1;
                }
                proof {
                    assert(frames@.subrange(undone as int, done as int) =~= Seq::<u64>::empty());
                    assert(allocator.spec_counts() =~= before);
                }
                slot.allocator = Some(allocator);
                return Err(error);
            },
        }
    }
    proof {
        assert(frames@.subrange(0, frames@.len() as int) =~= frames@);
    }
    slot.allocator = Some(allocator);
    Ok(())
}

/// Decrements the reference count of every frame and frees those that reach
/// zero. `scratch` is cleared and then holds the freed allocations; the
/// number of frames freed is returned.
pub fn release_many_unreferenced<A: FrameAllocator>(
    slot: &mut GlobalPageAllocator<A>,
    frames: &[u64],
    scratch: &mut Vec<PageAllocation>,
) -> (result: Result<usize, GlobalPageAllocatorError>)
    ensures
        old(slot).spec_allocator() is None ==> result == Err::<usize, GlobalPageAllocatorError>(
            GlobalPageAllocatorError::NotInitialized) && *final(slot) == *old(slot) && final(scratch)@.len() == 0,
        result matches Ok(freed) ==> freed == final(scratch)@.len() && freed <= frames@.len(),
        old(slot).spec_allocator() is Some && frames@.len() == 0 ==> result == Ok::<usize, GlobalPageAllocatorError>(0),
        final(slot).spec_allocator() is Some == old(slot).spec_allocator() is Some,
{
    scratch.clear();
    let mut allocator = match slot.allocator.take() {
        Some(allocator) => allocator,
        None => {
            return Err(GlobalPageAllocatorError::NotInitialized);
        },
    };
    let mut failure: Option<GlobalPageAllocatorError> = None;
    let mut index: usize = 0;
    while index < frames.len() && failure.is_none()
        invariant
            index <= frames@.len(),
            scratch@.len() <= index,
            failure is Some ==> frames@.len() > 0,
        decreases frames@.len() - index, if failure is None { 1int } else { 0int },
    {
        match allocator.decrement_reference(frames[index]) {
            Ok(0) => {
                match allocator.begin_free_unreferenced_frame(frames[index]) {
                    Ok(allocation) => {
                        scratch.push(allocation);
                    },
                    Err(error) => {
                        failure = Some(error);
                    },
                }
            },
            Ok(_) => {},
            Err(error) => {
                failure = Some(error);
            },
        }
        index = index + 1;
    }
    let mut finished: usize = 0;
    while finished < scratch.len() && failure.is_none()
        invariant
            finished <= scratch@.len(),
            scratch@.len() <= frames@.len(),
            failure is Some ==> frames@.len() > 0,
        decreases scratch@.len() - finished, if failure is None { 1int } else { 0int },
    {
        if let Err(error) = allocator.finish_free(&scratch[finished]) {
            failure = Some(error);
        }
        finished = finished + 1;
    }
    slot.allocator = Some(allocator);
    match failure {
        Some(error) => Err(error),
        None => Ok(scratch.len()),
    }
}

/// The physical memory behind allocations, reached through the kernel's
/// direct map.
pub trait FrameMemory {
    /// Writes `value` into every byte of `allocation`.
    fn fill(&mut self, allocation: &PageAllocation, value: u8) -> Result<(), GlobalPageAllocatorError>;
}

/// Allocates `2^order` frames of the class `options` asks for, zero-filled
/// when it asks for that; when zeroing fails the frames go back and the
/// failure is returned.
pub fn allocate<A: FrameAllocator, M: FrameMemory>(
    slot: &mut GlobalPageAllocator<A>,
    memory: &mut M,
    order: usize,
    options: PageAllocationOptions,
) -> (result: Result<PageAllocation, GlobalPageAllocatorError>)
    ensures
        old(slot).spec_allocator() is None ==> result == Err::<PageAllocation, GlobalPageAllocatorError>(
            GlobalPageAllocatorError::NotInitialized) && *final(slot) == *old(slot),
        final(slot).spec_allocator() is Some == old(slot).spec_allocator() is Some,
{
    let allocation = match &mut slot.allocator {
        Some(allocator) => match allocator.allocate(order, options.class()) {
            Ok(allocation) => allocation,
            Err(error) => {
                return Err(error);
            },
        },
        None => {
            return Err(GlobalPageAllocatorError::NotInitialized);
        },
    };
    if options.is_zeroed() {
        if let Err(error) = memory.fill(&allocation, 0) {
            match &mut slot.allocator {
                Some(allocator) => {
                    if let Err(free_error) = allocator.begin_free(&allocation) {
                        return Err(free_error);
                    }
                    if let Err(free_error) = allocator.finish_free(&allocation) {
                        return Err(free_error);
                    }
                },
                None => {},
            }
            return Err(error);
        }
    }
    Ok(allocation)
}

/// Returns an allocation to the free lists.
pub fn free<A: FrameAllocator>(slot: &mut GlobalPageAllocator<A>, allocation: PageAllocation) -> (result: Result<
    (),
    GlobalPageAllocatorError,
>)
    ensures
        old(slot).spec_allocator() is None ==> result == Err::<(), GlobalPageAllocatorError>(
            GlobalPageAllocatorError::NotInitialized) && *final(slot) == *old(slot),
        final(slot).spec_allocator() is Some == old(slot).spec_allocator() is Some,
{
    match &mut slot.allocator {
        Some(allocator) => {
            match allocator.begin_free(&allocation) {
                Ok(()) => {},
                Err(error) => {
                    return Err(error);
                },
            }
            allocator.finish_free(&allocation)
        },
        None => Err(GlobalPageAllocatorError::NotInitialized),
    }
}

/// Frees a frame whose reference count reached zero.
pub fn free_unreferenced_frame<A: FrameAllocator>(slot: &mut GlobalPageAllocator<A>, frame: u64) -> (result: Result<
    (),
    GlobalPageAllocatorError,
>)
    ensures
        old(slot).spec_allocator() is None ==> result == Err::<(), GlobalPageAllocatorError>(
            GlobalPageAllocatorError::NotInitialized) && *final(slot) == *old(slot),
        final(slot).spec_allocator() is Some == old(slot).spec_allocator() is Some,
{
    match &mut slot.allocator {
        Some(allocator) => {
            let allocation = match allocator.begin_free_unreferenced_frame(frame) {
                Ok(allocation) => allocation,
                Err(error) => {
                    return Err(error);
                },
            };
            allocator.finish_free(&allocation)
        },
        None => Err(GlobalPageAllocatorError::NotInitialized),
    }
}

/// Frees every allocation, starting all of them first: when one cannot
/// start, those started before it are put back into use and that failure
/// is returned.
pub fn free_many<A: FrameAllocator>(slot: &mut GlobalPageAllocator<A>, allocations: Vec<PageAllocation>) -> (result:
    Result<(), GlobalPageAllocatorError>)
    ensures
        old(slot).spec_allocator() is None ==> result == Err::<(), GlobalPageAllocatorError>(
            GlobalPageAllocatorError::NotInitialized) && *final(slot) == *old(slot),
        old(slot).spec_allocator() is Some && allocations@.len() == 0 ==> result is Ok,
        final(slot).spec_allocator() is Some == old(slot).spec_allocator() is Some,
{
    let mut allocator = match slot.allocator.take() {
        Some(allocator) => allocator,
        None => {
            return Err(GlobalPageAllocatorError::NotInitialized);
        },
    };
    let mut begun: usize = 0;
    let mut failure: Option<GlobalPageAllocatorError> = None;
    while begun < allocations.len() && failure.is_none()
        invariant
            begun <= allocations@.len(),
            failure is Some ==> allocations@.len() > 0,
        decreases allocations@.len() - begun, if failure is None { 1int } else { 0int },
    {
        match allocator.begin_free(&allocations[begun]) {
            Ok(()) => {
                begun = begun + 1;
            },
            Err(error) => {
                let mut cancelled: usize = 0;
                while cancelled < begun
                    invariant
                        cancelled <= begun,
                        begun <= allocations@.len(),
                    decreases begun - cancelled,
                {
                    let _ = allocator.cancel_free(&allocations[cancelled]);
                    cancelled = cancelled + 1;
                }
                failure = Some(error);
            },
        }
    }
    let mut finished: usize = 0;
    while finished < allocations.len() && failure.is_none()
        invariant
            finished <= allocations@.len(),
            failure is Some ==> allocations@.len() > 0,
        decreases allocations@.len() - finished, if failure is None { 1int } else { 0int },
    {
        if let Err(error) = allocator.finish_free(&allocations[finished]) {
            failure = Some(error);
        }
        finished = finished + 1;
    }
    slot.allocator = Some(allocator);
    match failure {
        Some(error) => Err(error),
        None => Ok(()),
    }
}

} // verus!
