use kernel::block::BlockError;
use kernel::block_registry::{register_partitions, BlockRegistry, DeviceKind};
use kernel::mmc::block::register_mmcblk1;
use kernel::mmc::dw_mmc::DwMmcController;
use kernel::mmc::mock::MockRegisterIo;
use kernel::mmc::sd::SdCardInfo;
use kernel::partition::{PartitionError, PartitionSpec};

fn spec(number: u32, first_lba: u64, block_count: u64) -> PartitionSpec {
    PartitionSpec { number, first_lba, block_count, read_only: false }
}

#[test]
fn names_are_taken_once() {
    let mut registry = BlockRegistry::new();
    assert_eq!(registry.register_device("vda"), Ok(()));
    assert_eq!(registry.register_device("vda"), Err(BlockError::InvalidArgument));
    assert_eq!(registry.register_device("ram0"), Ok(()));
    assert!(registry.is_registered("vda"));
    assert!(!registry.is_registered("vdb"));
    assert_eq!(registry.kind("ram0"), Some(DeviceKind::Disk));
    assert_eq!(registry.kind("vdb"), None);
    assert_eq!(registry.unregister_device("vdb"), Err(BlockError::InvalidArgument));
    assert_eq!(registry.unregister_device("vda"), Ok(()));
    assert!(!registry.is_registered("vda"));
    assert_eq!(registry.disk_names(), vec![String::from("ram0")]);
}

#[test]
fn partitions_are_registered_under_linux_names() {
    let mut registry = BlockRegistry::new();
    registry.register_device("mmcblk1").expect("disk");
    registry.register_device("vda").expect("disk");
    let names = register_partitions(&mut registry, "mmcblk1", &[spec(1, 2048, 100), spec(3, 4096, 50)], 8192);
    assert_eq!(names, Ok(vec![String::from("mmcblk1p1"), String::from("mmcblk1p3")]));
    assert_eq!(
        registry.kind("mmcblk1p3"),
        Some(DeviceKind::Partition { first_lba: 4096, block_count: 50, read_only: false })
    );
    // A raw ext4 disk registers `vda1` over the whole disk; a second scan
    // passes the taken name over.
    assert_eq!(register_partitions(&mut registry, "vda", &[spec(1, 0, 64)], 64), Ok(vec![String::from("vda1")]));
    assert_eq!(register_partitions(&mut registry, "vda", &[spec(1, 0, 64)], 64), Ok(vec![]));
    assert_eq!(registry.disk_names(), vec![String::from("mmcblk1"), String::from("vda")]);
    // Only disks take partitions.
    assert_eq!(
        register_partitions(&mut registry, "vda1", &[spec(1, 0, 8)], 64),
        Err(PartitionError::Block(BlockError::InvalidArgument))
    );
    assert_eq!(
        register_partitions(&mut registry, "sdz", &[spec(1, 0, 8)], 64),
        Err(PartitionError::Block(BlockError::InvalidArgument))
    );
}

#[test]
fn a_window_past_the_disk_ends_the_registration() {
    let mut registry = BlockRegistry::new();
    registry.register_device("vdb").expect("disk");
    assert_eq!(
        register_partitions(&mut registry, "vdb", &[spec(1, 0, 8), spec(2, 60, 8), spec(3, 10, 4)], 64),
        Err(PartitionError::AddressOverflow)
    );
    assert!(registry.is_registered("vdb1"));
    assert!(!registry.is_registered("vdb2"));
    assert!(!registry.is_registered("vdb3"));
    assert_eq!(register_partitions(&mut registry, "vdb", &[spec(4, 0, 0)], 64), Err(PartitionError::BadPartitionTable));
    assert_eq!(
        register_partitions(&mut registry, "vdb", &[spec(5, u64::MAX, 2)], 64),
        Err(PartitionError::AddressOverflow)
    );
}

#[test]
fn partition_records_keep_disks_with_partitions() {
    let mut registry = BlockRegistry::new();
    assert!(registry.partitions_of("mmcblk1").is_empty());
    registry.record_partitions(vec![
        (String::from("mmcblk1"), vec![String::from("mmcblk1p1"), String::from("mmcblk1p2")]),
        (String::from("vda"), vec![]),
    ]);
    assert_eq!(registry.partitions_of("mmcblk1"), vec![String::from("mmcblk1p1"), String::from("mmcblk1p2")]);
    assert!(registry.partitions_of("vda").is_empty());
    registry.record_partitions(vec![]);
    assert!(registry.partitions_of("mmcblk1").is_empty());
}

#[test]
fn the_card_is_registered_once_as_mmcblk1() {
    let info = SdCardInfo { rca: 0x1234, is_sdhc: true, block_count: 1024, bus_width: 4, cid: [0; 16] };
    let mut registry = BlockRegistry::new();
    let controller = DwMmcController::new(MockRegisterIo::new(), 25_000_000, 32);
    assert!(register_mmcblk1(&mut registry, controller, info).is_ok());
    assert_eq!(registry.kind("mmcblk1"), Some(DeviceKind::Disk));
    let again = DwMmcController::new(MockRegisterIo::new(), 25_000_000, 32);
    assert!(matches!(register_mmcblk1(&mut registry, again, info), Err(BlockError::InvalidArgument)));
    let empty = SdCardInfo { block_count: 0, ..info };
    let mut fresh = BlockRegistry::new();
    let controller = DwMmcController::new(MockRegisterIo::new(), 25_000_000, 32);
    assert!(matches!(register_mmcblk1(&mut fresh, controller, empty), Err(BlockError::InvalidArgument)));
    assert!(!fresh.is_registered("mmcblk1"));
}
