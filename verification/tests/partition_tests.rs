use kernel::block::{BlockDevice, BlockError, MemoryBlockDevice};
use kernel::partition::{
    crc32, partition_name, scan_partitions, PartitionBlockDevice, PartitionError, PartitionSpec,
    GPT_ENTRY_SIZE, GPT_HEADER_SIZE, GPT_READONLY_ATTR, LBA_SIZE, MBR_GPT_PROTECTIVE,
    MBR_PARTITION_ENTRY_SIZE, MBR_PARTITION_OFFSET, MBR_SIGNATURE, MAX_GPT_ENTRIES_BYTES,
};

fn make_disk(blocks: u64) -> MemoryBlockDevice {
    MemoryBlockDevice::new(512, blocks).expect("fixture disk")
}

fn install_gpt(device: &mut MemoryBlockDevice, partitions: &[(u64, u64, bool)], header_size: usize) {
    assert!(header_size >= GPT_HEADER_SIZE);
    let blocks = device.block_count();

    let mut mbr = [0_u8; 512];
    mbr[446 + 4] = MBR_GPT_PROTECTIVE;
    mbr[446 + 8..446 + 12].copy_from_slice(&1_u32.to_le_bytes());
    mbr[446 + 12..446 + 16].copy_from_slice(&(blocks as u32).saturating_sub(1).to_le_bytes());
    mbr[510..512].copy_from_slice(&MBR_SIGNATURE.to_le_bytes());
    device.write_block(0, &mbr).expect("write protective mbr");

    let num_entries = partitions.len();
    let mut entries = vec![0_u8; MAX_GPT_ENTRIES_BYTES];
    for (index, &(first, last, read_only)) in partitions.iter().enumerate() {
        let entry = &mut entries[index * GPT_ENTRY_SIZE..index * GPT_ENTRY_SIZE + GPT_ENTRY_SIZE];
        entry[..16].copy_from_slice(&[0xaf; 16]);
        entry[16..32].copy_from_slice(&[0xbe; 16]);
        entry[32..40].copy_from_slice(&first.to_le_bytes());
        entry[40..48].copy_from_slice(&last.to_le_bytes());
        if read_only {
            entry[48..56].copy_from_slice(&GPT_READONLY_ATTR.to_le_bytes());
        }
    }
    let entries_bytes = num_entries * GPT_ENTRY_SIZE;
    let entries_crc = crc32(&entries[..entries_bytes]);
    for (offset, chunk) in entries[..entries_bytes].chunks(LBA_SIZE).enumerate() {
        let mut sector = [0_u8; LBA_SIZE];
        sector[..chunk.len()].copy_from_slice(chunk);
        device.write_block(2 + offset as u64, &sector).expect("write gpt entries");
    }

    let mut header = [0_u8; LBA_SIZE];
    header[..8].copy_from_slice(b"EFI PART");
    header[8..12].copy_from_slice(&0x0001_0000_u32.to_le_bytes());
    header[12..16].copy_from_slice(&(header_size as u32).to_le_bytes());
    header[24..32].copy_from_slice(&1_u64.to_le_bytes());
    header[32..40].copy_from_slice(&(blocks - 1).to_le_bytes());
    header[40..48].copy_from_slice(&34_u64.to_le_bytes());
    header[48..56].copy_from_slice(&(blocks - 2).to_le_bytes());
    header[56..72].copy_from_slice(&[0x11; 16]);
    header[72..80].copy_from_slice(&2_u64.to_le_bytes());
    header[80..84].copy_from_slice(&(num_entries as u32).to_le_bytes());
    header[84..88].copy_from_slice(&(GPT_ENTRY_SIZE as u32).to_le_bytes());
    header[88..92].copy_from_slice(&entries_crc.to_le_bytes());
    for byte in header[GPT_HEADER_SIZE..header_size.min(LBA_SIZE)].iter_mut() {
        *byte = 0x5a;
    }
    let crc_len = header_size.min(LBA_SIZE);
    let header_crc = crc32(&header[..crc_len]);
    header[16..20].copy_from_slice(&header_crc.to_le_bytes());
    device.write_block(1, &header).expect("write gpt header");
}

fn install_mbr(device: &mut MemoryBlockDevice, partitions: &[(u32, u32, u8)]) {
    let mut mbr = [0_u8; 512];
    for (index, &(first, sectors, partition_type)) in partitions.iter().enumerate() {
        let offset = MBR_PARTITION_OFFSET + index * MBR_PARTITION_ENTRY_SIZE;
        mbr[offset] = 0x00;
        mbr[offset + 4] = partition_type;
        mbr[offset + 8..offset + 12].copy_from_slice(&first.to_le_bytes());
        mbr[offset + 12..offset + 16].copy_from_slice(&sectors.to_le_bytes());
    }
    mbr[510..512].copy_from_slice(&MBR_SIGNATURE.to_le_bytes());
    device.write_block(0, &mbr).expect("write mbr");
}

fn spec(number: u32, first_lba: u64, block_count: u64, read_only: bool) -> PartitionSpec {
    PartitionSpec { number, first_lba, block_count, read_only }
}

#[test]
fn partition_names_follow_linux_rules() {
    assert_eq!(partition_name("vda", 1), "vda1");
    assert_eq!(partition_name("mmcblk1", 1), "mmcblk1p1");
    assert_eq!(partition_name("sda", 2), "sda2");
    assert_eq!(partition_name("nvme0n1", 12), "nvme0n112");
    assert_eq!(partition_name("mmcblk0", 10), "mmcblk0p10");
}

#[test]
fn crc32_matches_the_standard_check_value() {
    assert_eq!(crc32(b"123456789"), 0xCBF4_3926);
    assert_eq!(crc32(b""), 0);
    assert_eq!(crc32(b"a"), 0xE8B7_BE43);
}

#[test]
fn raw_ext4_disk_is_one_whole_partition() {
    let mut raw = make_disk(64);
    let mut super_sector = [0_u8; 512];
    super_sector[56..58].copy_from_slice(&0xef53_u16.to_le_bytes());
    raw.write_block(2, &super_sector).expect("write ext4 magic");
    let specs = scan_partitions(&mut raw).expect("raw ext4 scan");
    assert_eq!(specs, vec![spec(1, 0, 64, false)]);
}

#[test]
fn blank_disk_has_no_partitions() {
    let mut blank = make_disk(64);
    assert_eq!(scan_partitions(&mut blank).expect("blank scan"), vec![]);
}

#[test]
fn gpt_partitions_carry_read_only_attribute() {
    let mut gpt = make_disk(64);
    install_gpt(&mut gpt, &[(34, 40, false), (50, 60, true)], GPT_HEADER_SIZE);
    let specs = scan_partitions(&mut gpt).expect("gpt scan");
    assert_eq!(specs, vec![spec(1, 34, 7, false), spec(2, 50, 11, true)]);
}

#[test]
fn gpt_header_crc_corruption_is_reported() {
    let mut corrupt = make_disk(64);
    install_gpt(&mut corrupt, &[(34, 40, false)], GPT_HEADER_SIZE);
    let mut bad_header = [0_u8; 512];
    corrupt.read_block(1, &mut bad_header).expect("read gpt header");
    bad_header[16] ^= 0xff;
    corrupt.write_block(1, &bad_header).expect("corrupt gpt header crc");
    assert_eq!(scan_partitions(&mut corrupt), Err(PartitionError::BadPartitionTable));
}

#[test]
fn gpt_partition_past_the_disk_is_rejected() {
    let mut oob = make_disk(64);
    install_gpt(&mut oob, &[(50, 100, false)], GPT_HEADER_SIZE);
    assert_eq!(scan_partitions(&mut oob), Err(PartitionError::BadPartitionTable));
}

#[test]
fn empty_gpt_gives_no_partitions() {
    let mut empty = make_disk(64);
    install_gpt(&mut empty, &[], GPT_HEADER_SIZE);
    assert!(scan_partitions(&mut empty).expect("empty gpt scan").is_empty());
}

#[test]
fn mbr_primary_partitions_are_listed() {
    let mut mbr = make_disk(64);
    install_mbr(&mut mbr, &[(1, 20, 0x0c), (30, 15, 0x83)]);
    let specs = scan_partitions(&mut mbr).expect("mbr scan");
    assert_eq!(specs, vec![spec(1, 1, 20, false), spec(2, 30, 15, false)]);
}

#[test]
fn sparse_mbr_keeps_slot_numbers() {
    let mut sparse = make_disk(64);
    install_mbr(&mut sparse, &[(1, 20, 0x0c), (0, 0, 0), (30, 15, 0x83)]);
    let specs = scan_partitions(&mut sparse).expect("sparse mbr scan");
    assert_eq!(specs, vec![spec(1, 1, 20, false), spec(3, 30, 15, false)]);
    let names: Vec<String> = specs.iter().map(|s| partition_name("vda", s.number)).collect();
    assert_eq!(names, vec![String::from("vda1"), String::from("vda3")]);
}

#[test]
fn partition_end_overflow_is_refused() {
    let raw = make_disk(64);
    assert_eq!(
        PartitionBlockDevice::new(raw, u64::MAX - 1, 3, false).err(),
        Some(PartitionError::AddressOverflow)
    );
}

#[test]
fn partition_past_parent_and_empty_partition_are_refused() {
    assert_eq!(
        PartitionBlockDevice::new(make_disk(64), 60, 5, false).err(),
        Some(PartitionError::AddressOverflow)
    );
    assert_eq!(
        PartitionBlockDevice::new(make_disk(64), 10, 0, false).err(),
        Some(PartitionError::BadPartitionTable)
    );
}

#[test]
fn read_only_parent_makes_a_read_only_partition() {
    let parent = make_disk(64).into_read_only();
    let mut part = PartitionBlockDevice::new(parent, 0, 8, false).expect("read-only partition construction");
    assert!(part.is_read_only());
    let block = [0_u8; 512];
    assert_eq!(part.write_block(0, &block), Err(BlockError::DeviceReadOnly));
}

#[test]
fn partition_reads_and_writes_map_to_the_parent() {
    let mut base = make_disk(64);
    let mut first = [0_u8; 512];
    first[0..8].copy_from_slice(b"partdata");
    base.write_block(2, &first).expect("write parent block 2");
    let mut part = PartitionBlockDevice::new(base, 2, 10, false).expect("partition construction");
    let mut readback = [0_u8; 512];
    part.read_block(0, &mut readback).expect("partition read");
    assert_eq!(&readback[0..8], b"partdata");
    assert_eq!(part.read_block(10, &mut readback), Err(BlockError::OutOfRange));
    let mut write = [0_u8; 512];
    write[0..7].copy_from_slice(b"written");
    part.write_block(0, &write).expect("partition write");
    assert_eq!(part.parent().block_count(), 64);
    let mut parent = part.into_parent();
    let mut check = [0_u8; 512];
    parent.read_block(2, &mut check).expect("parent block read");
    assert_eq!(&check[0..7], b"written");
}

#[test]
fn gpt_with_wide_header_parses() {
    let mut wide = make_disk(64);
    install_gpt(&mut wide, &[(34, 40, false)], 128);
    let specs = scan_partitions(&mut wide).expect("wide-header gpt scan");
    assert_eq!(specs, vec![spec(1, 34, 7, false)]);
}

#[test]
fn gpt_header_larger_than_a_block_is_rejected() {
    let mut oversized = make_disk(64);
    install_gpt(&mut oversized, &[(34, 40, false)], LBA_SIZE + 16);
    assert_eq!(scan_partitions(&mut oversized), Err(PartitionError::BadPartitionTable));
}

#[test]
fn memory_device_refuses_impossible_geometry() {
    assert_eq!(MemoryBlockDevice::new(0, 4).err(), Some(BlockError::InvalidArgument));
    assert_eq!(MemoryBlockDevice::new(usize::MAX, 2).err(), Some(BlockError::InvalidArgument));
}

#[test]
fn memory_device_write_then_read_gives_the_data_back() {
    let mut disk = make_disk(4);
    let mut data = [0_u8; 512];
    for (i, byte) in data.iter_mut().enumerate() {
        *byte = (i % 251) as u8;
    }
    disk.write_block(3, &data).expect("write");
    let mut back = [0_u8; 512];
    disk.read_block(3, &mut back).expect("read");
    assert_eq!(back, data);
    let mut other = [1_u8; 512];
    disk.read_block(2, &mut other).expect("read untouched");
    assert_eq!(other, [0_u8; 512]);
    assert_eq!(disk.read_block(4, &mut back), Err(BlockError::OutOfRange));
    let mut short = [0_u8; 100];
    assert_eq!(disk.read_block(0, &mut short), Err(BlockError::BufferTooSmall));
}
