//! The registry of block-device names: whole disks and the partitions found
//! on them, each name taken once, and the partitions recorded per disk.
//! The devices themselves are kept by their owners under these names.
use vstd::prelude::*;
use vstd::string::StringExecFns;

use crate::block::BlockError;
use crate::partition::{check_partition_window, partition_name, partition_name_spec, PartitionError, PartitionSpec};

verus! {

/// What a registered name stands for.
#[derive(Clone, Copy, Debug, PartialEq, Eq, Structural)]
pub enum DeviceKind {
    Disk,
    /// Blocks `first_lba .. first_lba + block_count` of its disk.
    Partition { first_lba: u64, block_count: u64, read_only: bool },
}

/// The registered names in registration order, with what they stand for,
/// and the partition names recorded per disk.
pub struct BlockRegistry {
    entries: Vec<(String, DeviceKind)>,
    partitions: Vec<(String, Vec<String>)>,
}

/// The records that hold at least one partition.
pub open spec fn nonempty_records(records: Seq<(Seq<char>, Seq<Seq<char>>)>) -> Seq<(Seq<char>, Seq<Seq<char>>)> {
    records.filter(|record: (Seq<char>, Seq<Seq<char>>)| record.1.len() > 0)
}

proof fn lemma_nonempty_push(records: Seq<(Seq<char>, Seq<Seq<char>>)>, record: (Seq<char>, Seq<Seq<char>>))
    ensures
        nonempty_records(records.push(record)) == if record.1.len() > 0 {
            nonempty_records(records).push(record)
        } else {
            nonempty_records(records)
        },
{
    records.lemma_filter_push(record, |record: (Seq<char>, Seq<Seq<char>>)| record.1.len() > 0);
}

/// A disk name with its partition names.
pub open spec fn record_view(record: (String, Vec<String>)) -> (Seq<char>, Seq<Seq<char>>) {
    (record.0@, record.1@.map_values(|name: String| name@))
}

/// The names of `entries`.
pub open spec fn entry_names(entries: Seq<(Seq<char>, DeviceKind)>) -> Seq<Seq<char>> {
    entries.map_values(|entry: (Seq<char>, DeviceKind)| entry.0)
}

/// The position of `name` among `entries`, whose names are distinct.
pub open spec fn entry_index(entries: Seq<(Seq<char>, DeviceKind)>, name: Seq<char>) -> int {
    choose|i: int| 0 <= i < entries.len() && #[trigger] entries[i].0 == name
}

/// Whether `name` is registered as a whole disk.
pub open spec fn is_disk(entries: Seq<(Seq<char>, DeviceKind)>, name: Seq<char>) -> bool {
    entry_names(entries).contains(name) && entries[entry_index(entries, name)].1 is Disk
}

/// The partition names recorded for `disk`: those of its first record.
pub open spec fn recorded_partitions(records: Seq<(Seq<char>, Seq<Seq<char>>)>, disk: Seq<char>) -> Seq<Seq<char>>
    decreases records.len(),
{
    if records.len() == 0 {
        Seq::empty()
    } else if records[0].0 == disk {
        records[0].1
    } else {
        recorded_partitions(records.drop_first(), disk)
    }
}

/// Registering `specs` of disk `disk` (of `parent_blocks` blocks) after the
/// names `taken`: the names registered, in order, and the error that ended
/// the registration early, if one did. A window that does not fit the disk
/// stops it; a partition whose name is taken is passed over.
pub open spec fn partition_registration(
    taken: Seq<Seq<char>>,
    disk: Seq<char>,
    specs: Seq<PartitionSpec>,
    parent_blocks: u64,
) -> (Seq<(Seq<char>, DeviceKind)>, Option<PartitionError>)
    decreases specs.len(),
{
    if specs.len() == 0 {
        (Seq::empty(), None)
    } else {
        let spec = specs[0];
        let end = spec.first_lba + spec.block_count;
        if end > u64::MAX || (spec.block_count > 0 && end > parent_blocks) {
            (Seq::empty(), Some(PartitionError::AddressOverflow))
        } else if spec.block_count == 0 {
            (Seq::empty(), Some(PartitionError::BadPartitionTable))
        } else {
            let name = partition_name_spec(disk, spec.number as nat);
            let kind = DeviceKind::Partition {
                first_lba: spec.first_lba,
                block_count: spec.block_count,
                read_only: spec.read_only,
            };
            if taken.contains(name) {
                partition_registration(taken, disk, specs.drop_first(), parent_blocks)
            } else {
                let rest = partition_registration(taken.push(name), disk, specs.drop_first(), parent_blocks);
                (seq![(name, kind)] + rest.0, rest.1)
            }
        }
    }
}

impl View for BlockRegistry {
    type V = Seq<(Seq<char>, DeviceKind)>;

    closed spec fn view(&self) -> Seq<(Seq<char>, DeviceKind)> {
        self.entries@.map_values(|entry: (String, DeviceKind)| (entry.0@, entry.1))
    }
}

impl BlockRegistry {
    /// The partition names recorded per disk.
    pub closed spec fn spec_records(&self) -> Seq<(Seq<char>, Seq<Seq<char>>)> {
        self.partitions@.map_values(|record: (String, Vec<String>)| record_view(record))
    }

    pub fn new() -> (registry: Self)
        ensures
            registry@ == Seq::<(Seq<char>, DeviceKind)>::empty(),
            registry.spec_records() == Seq::<(Seq<char>, Seq<Seq<char>>)>::empty(),
    {
        let registry = BlockRegistry { entries: Vec::new(), partitions: Vec::new() };
        proof {
            assert(registry@ =~= Seq::<(Seq<char>, DeviceKind)>::empty());
            assert(registry.spec_records() =~= Seq::<(Seq<char>, Seq<Seq<char>>)>::empty());
        }
        registry
    }

    /// Every name is registered once.
    pub closed spec fn wf(&self) -> bool {
        entry_names(self@).no_duplicates()
    }

    proof fn lemma_index(&self, name: Seq<char>, p: int)
        requires
            self.wf(),
            0 <= p < self@.len(),
            self@[p].0 == name,
        ensures
            entry_names(self@).contains(name),
            entry_index(self@, name) == p,
    {
        assert(entry_names(self@)[p] == name);
        let q = entry_index(self@, name);
        assert(0 <= q < self@.len() && self@[q].0 == name);
        assert(entry_names(self@)[q] == entry_names(self@)[p]);
    }

    fn position(&self, name: &String) -> (position: Option<usize>)
        ensures
            match position {
                Some(p) => p < self@.len() && self@[p as int].0 == name@,
                None => !entry_names(self@).contains(name@),
            },
    {
        let mut i: usize = 0;
        while i < self.entries.len()
            invariant
                i <= self.entries@.len(),
                self@.len() == self.entries@.len(),
                forall|k: int| 0 <= k < self.entries@.len() ==> #[trigger] self@[k] == (self.entries@[k].0@, self.entries@[k].1),
                forall|j: int| 0 <= j < i ==> #[trigger] self@[j].0 != name@,
            decreases self.entries@.len() - i,
        {
            if self.entries[i].0 == *name {
                return Some(i);
            }
            i = i + 1;
        }
        proof {
            if entry_names(self@).contains(name@) {
                let k = choose|k: int| 0 <= k < entry_names(self@).len() && entry_names(self@)[k] == name@;
                assert(self@[k].0 == name@);
            }
        }
        None
    }

    fn push_entry(&mut self, name: String, kind: DeviceKind)
        ensures
            final(self)@ == old(self)@.push((name@, kind)),
            final(self).spec_records() == old(self).spec_records(),
    {
        self.entries.push((name, kind));
        proof {
            assert(self@ =~= old(self)@.push((name@, kind)));
        }
    }

    proof fn lemma_push_keeps_wf(&self, before: &BlockRegistry, name: Seq<char>, kind: DeviceKind)
        requires
            before.wf(),
            !entry_names(before@).contains(name),
            self@ == before@.push((name, kind)),
        ensures
            self.wf(),
    {
        assert(entry_names(self@) =~= entry_names(before@).push(name));
    }

    /// Registers a whole disk under `name`; a name may be taken once.
    pub fn register_device(&mut self, name: &str) -> (result: Result<(), BlockError>)
        requires
            old(self).wf(),
        ensures
            final(self).wf(),
            final(self).spec_records() == old(self).spec_records(),
            entry_names(old(self)@).contains(name@) ==> result == Err::<(), BlockError>(BlockError::InvalidArgument)
                && final(self)@ == old(self)@,
            !entry_names(old(self)@).contains(name@) ==> result is Ok && final(self)@ == old(self)@.push(
                (name@, DeviceKind::Disk),
            ),
    {
        let name = String::from_str(name);
        if let Some(p) = self.position(&name) {
            proof {
                self.lemma_index(name@, p as int);
            }
            return Err(BlockError::InvalidArgument);
        }
        let ghost before = *self;
        self.push_entry(name, DeviceKind::Disk);
        proof {
            self.lemma_push_keeps_wf(&before, name@, DeviceKind::Disk);
        }
        Ok(())
    }

    /// Takes `name` out of the registry; an unknown name is refused.
    pub fn unregister_device(&mut self, name: &str) -> (result: Result<(), BlockError>)
        requires
            old(self).wf(),
        ensures
            final(self).wf(),
            final(self).spec_records() == old(self).spec_records(),
            entry_names(old(self)@).contains(name@) ==> result is Ok && final(self)@ == old(self)@.remove(
                entry_index(old(self)@, name@),
            ),
            !entry_names(old(self)@).contains(name@) ==> result == Err::<(), BlockError>(BlockError::InvalidArgument)
                && final(self)@ == old(self)@,
    {
        let name = String::from_str(name);
        match self.position(&name) {
            Some(p) => {
                proof {
                    self.lemma_index(name@, p as int);
                }
                self.entries.remove(p);
                proof {
                    assert(self@ =~= old(self)@.remove(p as int));
                    assert(entry_names(self@) =~= entry_names(old(self)@).remove(p as int));
                    assert forall|a: int, b: int| 0 <= a < b < entry_names(self@).len() implies entry_names(self@)[a]
                        != entry_names(self@)[b] by {
                        let a0 = if a < p { a } else { a + 1 };
                        let b0 = if b < p { b } else { b + 1 };
                        assert(entry_names(self@)[a] == entry_names(old(self)@)[a0]);
                        assert(entry_names(self@)[b] == entry_names(old(self)@)[b0]);
                    }
                }
                Ok(())
            },
            None => Err(BlockError::InvalidArgument),
        }
    }

    pub fn is_registered(&self, name: &str) -> (registered: bool)
        ensures
            registered == entry_names(self@).contains(name@),
    {
        let name = String::from_str(name);
        match self.position(&name) {
            Some(p) => {
                proof {
                    assert(entry_names(self@)[p as int] == name@);
                }
                true
            },
            None => false,
        }
    }

    /// What `name` stands for.
    pub fn kind(&self, name: &str) -> (kind: Option<DeviceKind>)
        requires
            self.wf(),
        ensures
            entry_names(self@).contains(name@) ==> kind == Some(self@[entry_index(self@, name@)].1),
            !entry_names(self@).contains(name@) ==> kind is None,
    {
        let name = String::from_str(name);
        match self.position(&name) {
            Some(p) => {
                proof {
                    self.lemma_index(name@, p as int);
                }
                Some(self.entries[p].1)
            },
            None => None,
        }
    }

    /// The names of the registered whole disks, in registration order.
    pub fn disk_names(&self) -> (names: Vec<String>)
        ensures
            names@.map_values(|name: String| name@) == entry_names(self@.filter(
                |entry: (Seq<char>, DeviceKind)| entry.1 is Disk,
            )),
    {
        let mut names: Vec<String> = Vec::new();
        let mut i: usize = 0;
        while i < self.entries.len()
            invariant
                i <= self.entries@.len(),
                self@.len() == self.entries@.len(),
                forall|k: int| 0 <= k < self.entries@.len() ==> #[trigger] self@[k] == (self.entries@[k].0@, self.entries@[k].1),
                names@.map_values(|name: String| name@) == entry_names(self@.subrange(0, i as int).filter(
                    |entry: (Seq<char>, DeviceKind)| entry.1 is Disk,
                )),
            decreases self.entries@.len() - i,
        {
            let ghost before = names@;
            proof {
                let f = |entry: (Seq<char>, DeviceKind)| entry.1 is Disk;
                assert(self@.subrange(0, i + 1) =~= self@.subrange(0, i as int).push(self@[i as int]));
                self@.subrange(0, i as int).lemma_filter_push(self@[i as int], f);
            }
            if self.entries[i].1 == DeviceKind::Disk {
                names.push(self.entries[i].0.clone());
                proof {
                    assert(names@.map_values(|name: String| name@) =~= before.map_values(|name: String| name@).push(
                        self@[i as int].0,
                    ));
                }
            }
            i = i + 1;
        }
        proof {
            assert(self@.subrange(0, self@.len() as int) =~= self@);
        }
        names
    }

    /// The partition names recorded for `disk`, in table order.
    pub fn partitions_of(&self, disk: &str) -> (names: Vec<String>)
        ensures
            names@.map_values(|name: String| name@) == recorded_partitions(self.spec_records(), disk@),
    {
        let wanted = String::from_str(disk);
        let mut i: usize = 0;
        proof {
            assert(self.spec_records().subrange(0, self.spec_records().len() as int) =~= self.spec_records());
        }
        while i < self.partitions.len()
            invariant
                i <= self.partitions@.len(),
                wanted@ == disk@,
                self.spec_records().len() == self.partitions@.len(),
                recorded_partitions(self.spec_records().subrange(i as int, self.spec_records().len() as int), disk@)
                    == recorded_partitions(self.spec_records(), disk@),
            decreases self.partitions@.len() - i,
        {
            let ghost rest = self.spec_records().subrange(i as int, self.spec_records().len() as int);
            proof {
                assert(rest.drop_first() =~= self.spec_records().subrange(i + 1, self.spec_records().len() as int));
                assert(rest[0] == self.spec_records()[i as int]);
            }
            if self.partitions[i].0 == wanted {
                let names = self.partitions[i].1.clone();
                proof {
                    assert(self.spec_records()[i as int] == record_view(self.partitions@[i as int]));
                    assert(rest[0].0 == disk@);
                    let stored = self.partitions@[i as int].1@;
                    assert forall|k: int| 0 <= k < names@.len() implies #[trigger] names@[k]@ == stored[k]@ by {
                        assert(cloned::<String>(stored[k], names@[k]));
                    }
                    assert(names@.map_values(|name: String| name@) =~= self.spec_records()[i as int].1);
                    assert(rest.len() > 0);
                    assert(recorded_partitions(rest, disk@) == rest[0].1);
                    assert(rest[0].1 == self.spec_records()[i as int].1);
                    assert(names@.map_values(|name: String| name@) == recorded_partitions(self.spec_records(), disk@));
                }
                return names;
            }
            i = i + 1;
        }
        proof {
            assert(self.spec_records().subrange(i as int, self.spec_records().len() as int)
                =~= Seq::<(Seq<char>, Seq<Seq<char>>)>::empty());
        }
        Vec::new()
    }

    /// Replaces the record of partitions per disk; a disk without
    /// partitions gets no record.
    pub fn record_partitions(&mut self, records: Vec<(String, Vec<String>)>)
        ensures
            final(self)@ == old(self)@,
            final(self).spec_records() == nonempty_records(
                records@.map_values(|record: (String, Vec<String>)| record_view(record)),
            ),
    {
        let ghost all = records@.map_values(|record: (String, Vec<String>)| record_view(record));
        let mut rest = records;
        let mut kept: Vec<(String, Vec<String>)> = Vec::new();
        let ghost mut taken: int = 0;
        while rest.len() > 0
            invariant
                0 <= taken <= all.len(),
                rest@.len() == all.len() - taken,
                forall|k: int| 0 <= k < rest@.len() ==> #[trigger] record_view(rest@[k]) == all[taken + k],
                kept@.map_values(|record: (String, Vec<String>)| record_view(record)) == nonempty_records(all.subrange(0, taken)),
            decreases rest@.len(),
        {
            let ghost before_kept = kept@;
            let ghost before_rest = rest@;
            let record = rest.remove(0);
            proof {
                assert(record_view(record) == all[taken]);
                assert(all[taken].1.len() == record.1@.len());
                assert forall|k: int| 0 <= k < rest@.len() implies #[trigger] record_view(rest@[k]) == all[taken + 1 + k] by {
                    assert(rest@[k] == before_rest[k + 1]);
                }
                assert(all.subrange(0, taken + 1) =~= all.subrange(0, taken).push(all[taken]));
                lemma_nonempty_push(all.subrange(0, taken), all[taken]);
            }
            if record.1.len() > 0 {
                kept.push(record);
                proof {
                    assert(kept@.map_values(|record: (String, Vec<String>)| record_view(record)) =~= before_kept.map_values(
                        |record: (String, Vec<String>)| record_view(record),
                    ).push(all[taken]));
                }
            }
            proof {
                taken = taken + 1;
            }
        }
        proof {
            assert(all.subrange(0, taken) =~= all);
        }
        self.partitions = kept;
        proof {
            assert(self.spec_records() =~= nonempty_records(all));
        }
    }
}

/// Registers the partitions `specs` that a scan found on the registered
/// disk `disk_name` of `parent_blocks` blocks, each under its Linux-style
/// name, and returns the names registered. A name that is taken already
/// (a raw ext4 disk beside its `1` partition) is passed over; a window
/// that does not fit the disk ends the registration with an error, the
/// partitions before it staying registered. A name that is not a
/// registered disk is refused.
pub fn register_partitions(registry: &mut BlockRegistry, disk_name: &str, specs: &[PartitionSpec], parent_blocks: u64)
    -> (result: Result<Vec<String>, PartitionError>)
    requires
        old(registry).wf(),
    ensures
        final(registry).wf(),
        final(registry).spec_records() == old(registry).spec_records(),
        !is_disk(old(registry)@, disk_name@) ==> result == Err::<Vec<String>, PartitionError>(
            PartitionError::Block(BlockError::InvalidArgument)) && final(registry)@ == old(registry)@,
        is_disk(old(registry)@, disk_name@) ==> {
            let plan = partition_registration(entry_names(old(registry)@), disk_name@, specs@, parent_blocks);
            &&& final(registry)@ == old(registry)@ + plan.0
            &&& match plan.1 {
                Some(error) => result == Err::<Vec<String>, PartitionError>(error),
                None => result matches Ok(names) && names@.map_values(|name: String| name@) == entry_names(plan.0),
            }
        },
{
    match registry.kind(disk_name) {
        Some(DeviceKind::Disk) => {},
        _ => {
            return Err(PartitionError::Block(BlockError::InvalidArgument));
        },
    }
    let ghost start = registry@;
    assert(is_disk(start, disk_name@));
    let ghost whole = partition_registration(entry_names(start), disk_name@, specs@, parent_blocks);
    let ghost mut added: Seq<(Seq<char>, DeviceKind)> = Seq::empty();
    let mut names: Vec<String> = Vec::new();
    let mut i: usize = 0;
    proof {
        assert(specs@.subrange(0, specs@.len() as int) =~= specs@);
        assert(start + added =~= start);
        assert(added + whole.0 =~= whole.0);
        assert(names@.map_values(|name: String| name@) =~= entry_names(added));
    }
    while i < specs.len()
        invariant
            i <= specs@.len(),
            registry.wf(),
            registry.spec_records() == old(registry).spec_records(),
            start == old(registry)@,
            is_disk(start, disk_name@),
            whole == partition_registration(entry_names(start), disk_name@, specs@, parent_blocks),
            registry@ == start + added,
            names@.map_values(|name: String| name@) == entry_names(added),
            added + partition_registration(entry_names(registry@), disk_name@,
                specs@.subrange(i as int, specs@.len() as int), parent_blocks).0 == whole.0,
            partition_registration(entry_names(registry@), disk_name@,
                specs@.subrange(i as int, specs@.len() as int), parent_blocks).1 == whole.1,
        decreases specs@.len() - i,
    {
        let spec = specs[i];
        let ghost tail = specs@.subrange(i as int, specs@.len() as int);
        let ghost taken = entry_names(registry@);
        proof {
            assert(tail[0] == spec);
            assert(tail.drop_first() =~= specs@.subrange(i + 1, specs@.len() as int));
        }
        match check_partition_window(parent_blocks, spec.first_lba, spec.block_count) {
            Ok(()) => {},
            Err(error) => {
                proof {
                    let rest = partition_registration(taken, disk_name@, tail, parent_blocks);
                    assert(rest.0 == Seq::<(Seq<char>, DeviceKind)>::empty());
                    assert(added + rest.0 =~= added);
                }
                return Err(error);
            },
        }
        let name = partition_name(disk_name, spec.number);
        let kind = DeviceKind::Partition {
            first_lba: spec.first_lba,
            block_count: spec.block_count,
            read_only: spec.read_only,
        };
        match registry.position(&name) {
            Some(p) => {
                proof {
                    assert(taken[p as int] == name@);
                }
            },
            None => {
                let ghost before = *registry;
                let ghost before_names = names@;
                names.push(name.clone());
                registry.push_entry(name, kind);
                proof {
                    registry.lemma_push_keeps_wf(&before, name@, kind);
                    assert(entry_names(registry@) =~= taken.push(name@));
                    let rest = partition_registration(taken.push(name@), disk_name@, tail.drop_first(), parent_blocks);
                    assert(partition_registration(taken, disk_name@, tail, parent_blocks).0 == seq![(name@, kind)] + rest.0);
                    assert(added.push((name@, kind)) + rest.0 =~= added + (seq![(name@, kind)] + rest.0));
                    assert(registry@ =~= start + added.push((name@, kind)));
                    assert(names@.map_values(|n: String| n@) =~= before_names.map_values(|n: String| n@).push(name@));
                    assert(entry_names(added.push((name@, kind))) =~= entry_names(added).push(name@));
                    added = added.push((name@, kind));
                }
            },
        }
        i = i + 1;
    }
    proof {
        assert(specs@.subrange(i as int, specs@.len() as int) =~= Seq::<PartitionSpec>::empty());
        assert(added + Seq::<(Seq<char>, DeviceKind)>::empty() =~= added);
    }
    Ok(names)
}

} // verus!
