//! The kernel's runtime page table: what each walk over the table tree
//! decides at every entry it reads, the order in which a new chain of
//! tables is written, and the bookkeeping of the tables the kernel
//! allocated at run time.
//!
//! Entries live in physical memory and their bit layout is the
//! architecture's; the architecture's walker reads each entry, decodes it
//! into a [`DecodedEntry`], hands it to the step of the operation under way
//! and performs the writes that the steps return.
use vstd::prelude::*;

use crate::page_alloc::{GlobalPageAllocatorError, PageAllocation};

verus! {

#[derive(Clone, Copy, Debug, PartialEq, Eq, Structural)]
pub enum RuntimePageTableError {
    InvalidVirtualAddress,
    AlreadyMapped,
    NotMapped,
    LeafWhereTableExpected { level: usize },
    InvalidTableEntry { level: usize },
    PageAllocator(GlobalPageAllocatorError),
    PageTableEntry,
    PageTableAccess,
    MetadataOutOfMemory,
}

impl From<GlobalPageAllocatorError> for RuntimePageTableError {
    fn from(error: GlobalPageAllocatorError) -> (converted: Self) {
        RuntimePageTableError::PageAllocator(error)
    }
}

impl vstd::std_specs::convert::FromSpecImpl<GlobalPageAllocatorError> for RuntimePageTableError {
    open spec fn obeys_from_spec() -> bool {
        true
    }

    open spec fn from_spec(v: GlobalPageAllocatorError) -> RuntimePageTableError {
        RuntimePageTableError::PageAllocator(v)
    }
}

/// A page-table entry as the architecture decodes it.
#[derive(Clone, Copy, Debug, PartialEq, Eq)]
pub enum DecodedEntry {
    /// Nothing below this entry.
    Empty,
    /// A pointer to the next-level table held in `frame`.
    Table { frame: u64 },
    /// The mapping of a page: the frame it names, where it names one, and
    /// the physical address it maps.
    Leaf { page_frame: Option<u64>, physical_address: u64 },
    /// Neither a table pointer nor a mapping.
    Invalid,
}

/// What a walk that maps a page does with an entry above the leaf level.
#[derive(Clone, Copy, Debug, PartialEq, Eq)]
pub enum MapStep {
    /// Go on into the table in `table`.
    Next { table: u64 },
    /// No table here: build the missing chain below this entry.
    InstallChain,
    Fail(RuntimePageTableError),
}

/// What a translation does with an entry above the leaf level.
#[derive(Clone, Copy, Debug, PartialEq, Eq)]
pub enum TranslateStep {
    Next { table: u64 },
    /// The address is not mapped.
    Unmapped,
    Fail(RuntimePageTableError),
}

/// The common rule above the leaf level: a table pointer leads on, a
/// mapping where a table belongs and an invalid entry are errors at
/// `level`.
pub open spec fn descend_error(level: usize, entry: DecodedEntry) -> RuntimePageTableError {
    match entry {
        DecodedEntry::Leaf { .. } => RuntimePageTableError::LeafWhereTableExpected { level },
        _ => RuntimePageTableError::InvalidTableEntry { level },
    }
}

/// One step of `map_page` above the leaf level.
pub fn map_step(level: usize, entry: DecodedEntry) -> (step: MapStep)
    ensures
        step == match entry {
            DecodedEntry::Empty => MapStep::InstallChain,
            DecodedEntry::Table { frame } => MapStep::Next { table: frame },
            _ => MapStep::Fail(descend_error(level, entry)),
        },
{
    match entry {
        DecodedEntry::Empty => MapStep::InstallChain,
        DecodedEntry::Table { frame } => MapStep::Next { table: frame },
        DecodedEntry::Leaf { .. } => MapStep::Fail(RuntimePageTableError::LeafWhereTableExpected { level }),
        DecodedEntry::Invalid => MapStep::Fail(RuntimePageTableError::InvalidTableEntry { level }),
    }
}

/// The leaf slot of `map_page`: only an empty slot takes the new mapping.
pub fn map_leaf_step(entry: DecodedEntry) -> (result: Result<(), RuntimePageTableError>)
    ensures
        result is Ok <==> entry is Empty,
        result is Err ==> result == Err::<(), RuntimePageTableError>(RuntimePageTableError::AlreadyMapped),
{
    match entry {
        DecodedEntry::Empty => Ok(()),
        _ => Err(RuntimePageTableError::AlreadyMapped),
    }
}

/// One step of the walk to an existing mapping (`protect_page`,
/// `replace_page`, `unmap_page`) above the leaf level.
pub fn lookup_step(level: usize, entry: DecodedEntry) -> (result: Result<u64, RuntimePageTableError>)
    ensures
        result == match entry {
            DecodedEntry::Empty => Err(RuntimePageTableError::NotMapped),
            DecodedEntry::Table { frame } => Ok(frame),
            _ => Err(descend_error(level, entry)),
        },
{
    match entry {
        DecodedEntry::Empty => Err(RuntimePageTableError::NotMapped),
        DecodedEntry::Table { frame } => Ok(frame),
        DecodedEntry::Leaf { .. } => Err(RuntimePageTableError::LeafWhereTableExpected { level }),
        DecodedEntry::Invalid => Err(RuntimePageTableError::InvalidTableEntry { level }),
    }
}

/// The leaf slot of a walk to an existing mapping, in a tree of `levels`
/// levels: the frame the mapping names.
pub fn lookup_leaf_step(levels: usize, entry: DecodedEntry) -> (result: Result<u64, RuntimePageTableError>)
    requires
        levels >= 1,
    ensures
        result == match entry {
            DecodedEntry::Empty => Err(RuntimePageTableError::NotMapped),
            DecodedEntry::Leaf { page_frame: Some(frame), .. } => Ok(frame),
            _ => Err(RuntimePageTableError::InvalidTableEntry { level: (levels - 1) as usize }),
        },
{
    match entry {
        DecodedEntry::Empty => Err(RuntimePageTableError::NotMapped),
        DecodedEntry::Leaf { page_frame: Some(frame), .. } => Ok(frame),
        _ => Err(RuntimePageTableError::InvalidTableEntry { level: levels - 1 }),
    }
}

/// One step of `translate` above the leaf level.
pub fn translate_step(level: usize, entry: DecodedEntry) -> (step: TranslateStep)
    ensures
        step == match entry {
            DecodedEntry::Empty => TranslateStep::Unmapped,
            DecodedEntry::Table { frame } => TranslateStep::Next { table: frame },
            _ => TranslateStep::Fail(descend_error(level, entry)),
        },
{
    match entry {
        DecodedEntry::Empty => TranslateStep::Unmapped,
        DecodedEntry::Table { frame } => TranslateStep::Next { table: frame },
        DecodedEntry::Leaf { .. } => TranslateStep::Fail(RuntimePageTableError::LeafWhereTableExpected { level }),
        DecodedEntry::Invalid => TranslateStep::Fail(RuntimePageTableError::InvalidTableEntry { level }),
    }
}

/// The physical address of `address` through a mapping of the page at
/// `physical_address`, pages being `page_size` bytes (a power of two):
/// the page's address plus the offset of `address` in its page, or none
/// when the sum overflows.
pub open spec fn translated(physical_address: u64, address: u64, page_size: u64) -> Option<u64> {
    let sum = physical_address + (address & ((page_size - 1) as u64));
    if sum <= u64::MAX { Some(sum as u64) } else { None }
}

/// The leaf slot of `translate` in a tree of `levels` levels.
pub fn translate_leaf_step(levels: usize, entry: DecodedEntry, address: u64, page_size: u64) -> (result: Result<
    Option<u64>,
    RuntimePageTableError,
>)
    requires
        levels >= 1,
        page_size >= 1,
    ensures
        result == match entry {
            DecodedEntry::Empty => Ok(None),
            DecodedEntry::Leaf { physical_address, .. } => Ok(translated(physical_address, address, page_size)),
            _ => Err(RuntimePageTableError::InvalidTableEntry { level: (levels - 1) as usize }),
        },
{
    match entry {
        DecodedEntry::Empty => Ok(None),
        DecodedEntry::Leaf { physical_address, .. } => {
            let offset = address & (page_size - 1);
            Ok(physical_address.checked_add(offset))
        },
        _ => Err(RuntimePageTableError::InvalidTableEntry { level: levels - 1 }),
    }
}

/// One step of the walk of `reclaim_empty_tables` above the leaf level:
/// the next table, or none when the path ends in an empty entry (there is
/// nothing to reclaim).
pub fn reclaim_step(level: usize, entry: DecodedEntry) -> (result: Result<Option<u64>, RuntimePageTableError>)
    ensures
        result == match entry {
            DecodedEntry::Empty => Ok(None),
            DecodedEntry::Table { frame } => Ok(Some(frame)),
            _ => Err(RuntimePageTableError::InvalidTableEntry { level }),
        },
{
    match entry {
        DecodedEntry::Empty => Ok(None),
        DecodedEntry::Table { frame } => Ok(Some(frame)),
        _ => Err(RuntimePageTableError::InvalidTableEntry { level }),
    }
}

/// Before an empty table at `table_level` is cut loose, its parent entry
/// must point at it.
pub fn reclaim_parent_check(table_level: usize, parent_entry: DecodedEntry, table: u64) -> (result: Result<
    (),
    RuntimePageTableError,
>)
    requires
        table_level >= 1,
    ensures
        result is Ok <==> parent_entry == (DecodedEntry::Table { frame: table }),
        result is Err ==> result == Err::<(), RuntimePageTableError>(
            RuntimePageTableError::InvalidTableEntry { level: (table_level - 1) as usize },
        ),
{
    match parent_entry {
        DecodedEntry::Table { frame } => {
            if frame == table {
                Ok(())
            } else {
                Err(RuntimePageTableError::InvalidTableEntry { level: table_level - 1 })
            }
        },
        _ => Err(RuntimePageTableError::InvalidTableEntry { level: table_level - 1 }),
    }
}

/// Whether every entry of a table holds `expected`.
pub fn table_is_filled(entries: &[u64], expected: u64) -> (filled: bool)
    ensures
        filled <==> forall|i: int| 0 <= i < entries@.len() ==> #[trigger] entries@[i] == expected,
{
    let mut i: usize = 0;
    while i < entries.len()
        invariant
            i <= entries@.len(),
            forall|k: int| 0 <= k < i ==> #[trigger] entries@[k] == expected,
        decreases entries@.len() - i,
    {
        if entries[i] != expected {
            return false;
        }
        i = i + 1;
    }
    true
}

/// How many new tables a mapping needs when the entry at `missing_level`
/// is empty, in a tree of `levels` levels: one per level below it.
pub fn required_tables(levels: usize, missing_level: usize) -> (required: usize)
    requires
        missing_level + 1 < levels,
    ensures
        required == levels - 1 - missing_level,
        required >= 1,
{
    levels - 1 - missing_level
}

/// One entry to write: `value` into entry `index` of the table in `table`.
#[derive(Clone, Copy, Debug, PartialEq, Eq, Structural)]
pub struct EntryWrite {
    pub table: u64,
    pub index: usize,
    pub value: u64,
}

/// Write `k` of the chain that maps a page below the empty entry at
/// `missing_level` of `parent`. `frames` are the new tables from the
/// level below `missing_level` down to the leaf table, `pointers[i]` is
/// the table entry that points at `frames[i]`, and `leaf` the new
/// mapping. Write 0 puts the mapping into the leaf table; each later
/// write points a table at the one filled by the write before it; the
/// last points `parent` at the first new table.
pub open spec fn chain_write(
    parent: u64,
    missing_level: int,
    levels: int,
    indices: Seq<usize>,
    leaf: u64,
    frames: Seq<u64>,
    pointers: Seq<u64>,
    k: int,
) -> EntryWrite {
    let required = frames.len() as int;
    if k == 0 {
        EntryWrite { table: frames[required - 1], index: indices[levels - 1], value: leaf }
    } else if k < required {
        EntryWrite {
            table: frames[required - 1 - k],
            index: indices[missing_level + required - k],
            value: pointers[required - k],
        }
    } else {
        EntryWrite { table: parent, index: indices[missing_level], value: pointers[0] }
    }
}

/// The writes that hang a new chain of tables under the empty entry at
/// `missing_level` of `parent`, in the order they must happen: a table
/// becomes reachable only once everything below it is in place, and the
/// chain as a whole only with the last write.
pub fn chain_writes(
    parent: u64,
    missing_level: usize,
    indices: &[usize],
    leaf: u64,
    frames: &[u64],
    pointers: &[u64],
) -> (writes: Vec<EntryWrite>)
    requires
        missing_level + 1 < indices@.len(),
        frames@.len() == indices@.len() - 1 - missing_level,
        pointers@.len() == frames@.len(),
    ensures
        writes@.len() == frames@.len() + 1,
        forall|k: int|
            0 <= k < writes@.len() ==> #[trigger] writes@[k] == chain_write(
                parent,
                missing_level as int,
                indices@.len() as int,
                indices@,
                leaf,
                frames@,
                pointers@,
                k,
            ),
        writes@[0].table == frames@[frames@.len() - 1] && writes@[0].value == leaf,
        forall|k: int| 0 <= k < frames@.len() ==> #[trigger] writes@[k].table == frames@[frames@.len() - 1 - k],
        forall|k: int|
            0 <= k < frames@.len() ==> #[trigger] writes@[k + 1].value == pointers@[frames@.len() - 1 - k],
        writes@[frames@.len() as int].table == parent,
{
    let levels = indices.len();
    let required = frames.len();
    let mut writes: Vec<EntryWrite> = Vec::new();
    writes.push(EntryWrite { table: frames[required - 1], index: indices[levels - 1], value: leaf });
    let mut k: usize = 1;
    while k < required
        invariant
            levels == indices@.len(),
            required == frames@.len(),
            pointers@.len() == required,
            required == levels - 1 - missing_level,
            1 <= k <= required,
            writes@.len() == k,
            forall|j: int|
                0 <= j < k ==> #[trigger] writes@[j] == chain_write(
                    parent,
                    missing_level as int,
                    levels as int,
                    indices@,
                    leaf,
                    frames@,
                    pointers@,
                    j,
                ),
        decreases required - k,
    {
        writes.push(
            EntryWrite {
                table: frames[required - 1 - k],
                index: indices[missing_level + required - k],
                value: pointers[required - k],
            },
        );
        k = k + 1;
    }
    writes.push(EntryWrite { table: parent, index: indices[missing_level], value: pointers[0] });
    proof {
        assert forall|j: int| 0 <= j < required implies #[trigger] writes@[j + 1].value == pointers@[required - 1 - j] by {
            assert(writes@[j + 1] == chain_write(
                parent,
                missing_level as int,
                levels as int,
                indices@,
                leaf,
                frames@,
                pointers@,
                j + 1,
            ));
        }
        assert forall|j: int| 0 <= j < required implies #[trigger] writes@[j].table == frames@[required - 1 - j] by {
            assert(writes@[j] == chain_write(
                parent,
                missing_level as int,
                levels as int,
                indices@,
                leaf,
                frames@,
                pointers@,
                j,
            ));
        }
    }
    writes
}

/// The root of the kernel's table tree and the tables allocated for it at
/// run time, in the order they were recorded (a retired table's slot takes
/// the last one).
pub struct RuntimePageTable {
    root: u64,
    runtime_tables: Vec<PageAllocation>,
}

impl View for RuntimePageTable {
    type V = Seq<PageAllocation>;

    closed spec fn view(&self) -> Seq<PageAllocation> {
        self.runtime_tables@
    }
}

/// The first position of the table held in `table`, where there is one.
pub open spec fn position_of(tables: Seq<PageAllocation>, table: u64) -> Option<int> {
    if exists|i: int| 0 <= i < tables.len() && #[trigger] tables[i].start_frame == table {
        Some(choose|i: int| 0 <= i < tables.len() && #[trigger] tables[i].start_frame == table
            && forall|j: int| 0 <= j < i ==> #[trigger] tables[j].start_frame != table)
    } else {
        None
    }
}

impl RuntimePageTable {
    pub closed spec fn spec_root(&self) -> u64 {
        self.root
    }

    /// Takes over the tree built at boot, rooted in `root`; no table has
    /// been allocated at run time yet.
    pub fn from_boot(root: u64) -> (table: Self)
        ensures
            table.spec_root() == root,
            table@ == Seq::<PageAllocation>::empty(),
    {
        RuntimePageTable { root, runtime_tables: Vec::new() }
    }

    pub fn root(&self) -> (root: u64)
        ensures
            root == self.spec_root(),
    {
        self.root
    }

    pub fn allocated_runtime_tables(&self) -> (count: usize)
        ensures
            count == self@.len(),
    {
        self.runtime_tables.len()
    }

    /// Settles an attempt to hang a chain of new tables: when it worked the
    /// tables allocated for it become this table's own, in order, and none
    /// is handed back; when it failed, the table is left as it was and every
    /// table allocated for it is handed back to be freed.
    pub fn finish_chain(&mut self, allocations: Vec<PageAllocation>, outcome: Result<(), RuntimePageTableError>)
        -> (freed: Vec<PageAllocation>)
        ensures
            outcome is Ok ==> final(self)@ == old(self)@ + allocations@ && freed@ == Seq::<PageAllocation>::empty(),
            outcome is Err ==> final(self)@ == old(self)@ && freed@ == allocations@,
            final(self).spec_root() == old(self).spec_root(),
    {
        match outcome {
            Ok(()) => {
                self.record_tables(allocations);
                Vec::new()
            },
            Err(_) => allocations,
        }
    }

    /// Records the tables of a chain that was hung in place, in order.
    pub fn record_tables(&mut self, allocations: Vec<PageAllocation>)
        ensures
            final(self)@ == old(self)@ + allocations@,
            final(self).spec_root() == old(self).spec_root(),
    {
        let mut i: usize = 0;
        while i < allocations.len()
            invariant
                i <= allocations@.len(),
                self.runtime_tables@ == old(self).runtime_tables@ + allocations@.subrange(0, i as int),
                self.root == old(self).root,
            decreases allocations@.len() - i,
        {
            self.runtime_tables.push(allocations[i]);
            proof {
                assert(allocations@.subrange(0, i + 1) =~= allocations@.subrange(0, i as int).push(allocations@[i as int]));
            }
            i = i + 1;
        }
        proof {
            assert(allocations@.subrange(0, allocations@.len() as int) =~= allocations@);
        }
    }

    /// The position of the runtime table held in `table`; none for a
    /// table built at boot.
    pub fn table_position(&self, table: u64) -> (position: Option<usize>)
        ensures
            match position {
                Some(p) => position_of(self@, table) == Some(p as int),
                None => position_of(self@, table) is None,
            },
    {
        let mut i: usize = 0;
        while i < self.runtime_tables.len()
            invariant
                i <= self@.len(),
                self@ == self.runtime_tables@,
                forall|j: int| 0 <= j < i ==> #[trigger] self@[j].start_frame != table,
            decreases self@.len() - i,
        {
            if self.runtime_tables[i].start_frame == table {
                proof {
                    let p = choose|p: int| 0 <= p < self@.len() && #[trigger] self@[p].start_frame == table
                        && forall|j: int| 0 <= j < p ==> #[trigger] self@[j].start_frame != table;
                    assert(0 <= p < self@.len() && self@[p].start_frame == table);
                    if p < i {
                        assert(self@[p].start_frame != table);
                    }
                    if p > i {
                        assert(self@[i as int].start_frame != table);
                    }
                }
                return Some(i);
            }
            i = i + 1;
        }
        None
    }

    /// Takes the runtime table at `position` out of the record: the last
    /// recorded table moves into its slot.
    pub fn retire_table(&mut self, position: usize) -> (retired: PageAllocation)
        requires
            position < old(self)@.len(),
        ensures
            retired == old(self)@[position as int],
            final(self)@ == old(self)@.update(position as int, old(self)@.last()).drop_last(),
            final(self)@.len() == old(self)@.len() - 1,
            final(self).spec_root() == old(self).spec_root(),
    {
        self.runtime_tables.swap_remove(position)
    }
}

/// Recording a chain's tables and then looking one of them up finds it,
/// and retiring it hands back that very allocation.
pub proof fn lemma_record_then_retire(before: Seq<PageAllocation>, chain: Seq<PageAllocation>, k: int)
    requires
        0 <= k < chain.len(),
        forall|i: int| 0 <= i < before.len() ==> #[trigger] before[i].start_frame != chain[k].start_frame,
        forall|i: int| 0 <= i < k ==> #[trigger] chain[i].start_frame != chain[k].start_frame,
    ensures
        position_of(before + chain, chain[k].start_frame) == Some(before.len() + k),
        (before + chain)[before.len() + k] == chain[k],
{
    let all = before + chain;
    let table = chain[k].start_frame;
    let p = before.len() + k;
    assert(all[p] == chain[k]);
    assert(forall|j: int| 0 <= j < p ==> #[trigger] all[j].start_frame != table) by {
        assert forall|j: int| 0 <= j < p implies #[trigger] all[j].start_frame != table by {
            if j < before.len() {
                assert(all[j] == before[j]);
            } else {
                assert(all[j] == chain[j - before.len()]);
            }
        }
    }
    assert(0 <= p < all.len() && all[p].start_frame == table);
    let q = choose|q: int| 0 <= q < all.len() && #[trigger] all[q].start_frame == table
        && forall|j: int| 0 <= j < q ==> #[trigger] all[j].start_frame != table;
    assert(0 <= q < all.len() && all[q].start_frame == table && forall|j: int| 0 <= j < q ==> #[trigger] all[j].start_frame != table);
    if q < p {
        assert(all[q].start_frame != table);
    }
    if q > p {
        assert(all[p].start_frame != table);
    }
}

} // verus!
