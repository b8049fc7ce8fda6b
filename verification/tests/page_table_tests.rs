use kernel::page_alloc::{GlobalPageAllocatorError, PageAllocation};
use kernel::runtime_page_table::{
    chain_writes, lookup_leaf_step, lookup_step, map_leaf_step, map_step, reclaim_parent_check, reclaim_step,
    required_tables, table_is_filled, translate_leaf_step, translate_step, DecodedEntry, EntryWrite, MapStep,
    RuntimePageTable, RuntimePageTableError, TranslateStep,
};

const LEAF: DecodedEntry = DecodedEntry::Leaf { page_frame: Some(0x8020_0), physical_address: 0x8020_0000 };

#[test]
fn walks_above_the_leaf_level() {
    assert_eq!(map_step(0, DecodedEntry::Empty), MapStep::InstallChain);
    assert_eq!(map_step(1, DecodedEntry::Table { frame: 42 }), MapStep::Next { table: 42 });
    assert_eq!(map_step(1, LEAF), MapStep::Fail(RuntimePageTableError::LeafWhereTableExpected { level: 1 }));
    assert_eq!(map_step(0, DecodedEntry::Invalid), MapStep::Fail(RuntimePageTableError::InvalidTableEntry { level: 0 }));

    assert_eq!(lookup_step(0, DecodedEntry::Empty), Err(RuntimePageTableError::NotMapped));
    assert_eq!(lookup_step(1, DecodedEntry::Table { frame: 7 }), Ok(7));
    assert_eq!(lookup_step(1, LEAF), Err(RuntimePageTableError::LeafWhereTableExpected { level: 1 }));

    assert_eq!(translate_step(0, DecodedEntry::Empty), TranslateStep::Unmapped);
    assert_eq!(translate_step(1, DecodedEntry::Table { frame: 9 }), TranslateStep::Next { table: 9 });
    assert_eq!(translate_step(1, DecodedEntry::Invalid), TranslateStep::Fail(RuntimePageTableError::InvalidTableEntry { level: 1 }));

    assert_eq!(reclaim_step(0, DecodedEntry::Empty), Ok(None));
    assert_eq!(reclaim_step(1, DecodedEntry::Table { frame: 5 }), Ok(Some(5)));
    assert_eq!(reclaim_step(1, LEAF), Err(RuntimePageTableError::InvalidTableEntry { level: 1 }));
}

#[test]
fn leaf_slots() {
    assert_eq!(map_leaf_step(DecodedEntry::Empty), Ok(()));
    assert_eq!(map_leaf_step(LEAF), Err(RuntimePageTableError::AlreadyMapped));
    assert_eq!(map_leaf_step(DecodedEntry::Invalid), Err(RuntimePageTableError::AlreadyMapped));

    assert_eq!(lookup_leaf_step(3, LEAF), Ok(0x8020_0));
    assert_eq!(lookup_leaf_step(3, DecodedEntry::Empty), Err(RuntimePageTableError::NotMapped));
    assert_eq!(lookup_leaf_step(3, DecodedEntry::Table { frame: 1 }), Err(RuntimePageTableError::InvalidTableEntry { level: 2 }));
    let frameless = DecodedEntry::Leaf { page_frame: None, physical_address: 0 };
    assert_eq!(lookup_leaf_step(4, frameless), Err(RuntimePageTableError::InvalidTableEntry { level: 3 }));
}

#[test]
fn translation_adds_the_page_offset() {
    assert_eq!(translate_leaf_step(3, LEAF, 0xffff_ffc0_0000_1234, 4096), Ok(Some(0x8020_0234)));
    assert_eq!(translate_leaf_step(3, DecodedEntry::Empty, 0x1000, 4096), Ok(None));
    let top = DecodedEntry::Leaf { page_frame: None, physical_address: u64::MAX - 0xff };
    assert_eq!(translate_leaf_step(3, top, 0x1100, 4096), Ok(None));
    assert_eq!(translate_leaf_step(3, top, 0x10ff, 4096), Ok(Some(u64::MAX)));
    assert_eq!(translate_leaf_step(3, DecodedEntry::Invalid, 0, 4096), Err(RuntimePageTableError::InvalidTableEntry { level: 2 }));
}

#[test]
fn reclaim_checks_the_parent_pointer() {
    assert_eq!(reclaim_parent_check(2, DecodedEntry::Table { frame: 11 }, 11), Ok(()));
    assert_eq!(reclaim_parent_check(2, DecodedEntry::Table { frame: 12 }, 11), Err(RuntimePageTableError::InvalidTableEntry { level: 1 }));
    assert_eq!(reclaim_parent_check(1, LEAF, 11), Err(RuntimePageTableError::InvalidTableEntry { level: 0 }));
    assert!(table_is_filled(&[0; 512], 0));
    let mut entries = [0_u64; 512];
    entries[511] = 1;
    assert!(!table_is_filled(&entries, 0));
    assert!(table_is_filled(&[], 7));
}

#[test]
fn a_new_chain_is_published_last() {
    assert_eq!(required_tables(3, 0), 2);
    assert_eq!(required_tables(4, 2), 1);
    let indices = [3, 4, 5];
    let writes = chain_writes(100, 0, &indices, 0xaaa, &[200, 300], &[0x200, 0x300]);
    assert_eq!(
        writes,
        vec![
            EntryWrite { table: 300, index: 5, value: 0xaaa },
            EntryWrite { table: 200, index: 4, value: 0x300 },
            EntryWrite { table: 100, index: 3, value: 0x200 },
        ]
    );
    let single = chain_writes(100, 1, &indices, 0xbbb, &[400], &[0x400]);
    assert_eq!(
        single,
        vec![EntryWrite { table: 400, index: 5, value: 0xbbb }, EntryWrite { table: 100, index: 4, value: 0x400 }]
    );
    let four = chain_writes(1, 0, &[10, 11, 12, 13], 0xccc, &[2, 3, 4], &[0x20, 0x30, 0x40]);
    assert_eq!(
        four,
        vec![
            EntryWrite { table: 4, index: 13, value: 0xccc },
            EntryWrite { table: 3, index: 12, value: 0x40 },
            EntryWrite { table: 2, index: 11, value: 0x30 },
            EntryWrite { table: 1, index: 10, value: 0x20 },
        ]
    );
}

#[test]
fn runtime_tables_are_recorded_and_retired() {
    let mut table = RuntimePageTable::from_boot(0x8000);
    assert_eq!(table.root(), 0x8000);
    assert_eq!(table.allocated_runtime_tables(), 0);
    let a = PageAllocation { start_frame: 10, order: 0 };
    let b = PageAllocation { start_frame: 11, order: 0 };
    let c = PageAllocation { start_frame: 12, order: 0 };
    table.record_tables(vec![a, b]);
    table.record_tables(vec![c]);
    assert_eq!(table.allocated_runtime_tables(), 3);
    assert_eq!(table.table_position(11), Some(1));
    assert_eq!(table.table_position(0x8000), None);
    assert_eq!(table.retire_table(0), a);
    assert_eq!(table.allocated_runtime_tables(), 2);
    assert_eq!(table.table_position(12), Some(0));
    assert_eq!(table.table_position(11), Some(1));
    assert_eq!(table.table_position(10), None);
}

#[test]
fn allocator_errors_convert() {
    assert_eq!(
        RuntimePageTableError::from(GlobalPageAllocatorError::NotInitialized),
        RuntimePageTableError::PageAllocator(GlobalPageAllocatorError::NotInitialized)
    );
}

#[test]
fn failed_chain_hands_its_tables_back() {
    let mut table = RuntimePageTable::from_boot(0x8000);
    let a = PageAllocation { start_frame: 20, order: 0 };
    let b = PageAllocation { start_frame: 21, order: 0 };
    let freed = table.finish_chain(vec![a, b], Err(RuntimePageTableError::PageTableAccess));
    assert_eq!(freed, vec![a, b]);
    assert_eq!(table.allocated_runtime_tables(), 0);
    let freed = table.finish_chain(vec![a, b], Ok(()));
    assert!(freed.is_empty());
    assert_eq!(table.allocated_runtime_tables(), 2);
    assert_eq!(table.table_position(21), Some(1));
}
