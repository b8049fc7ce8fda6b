//! Partition tables (raw ext4 whole disk, GPT, MBR) and bounded partition
//! views over a parent block device.
use vstd::prelude::*;
use vstd::string::StrSliceExecFns;
use vstd::string::StringExecFns;

use crate::text::{append_decimal, decimal};
use crate::block::{block_slice, read_at, read_at_count, replace_block, BlockDevice, BlockError};

verus! {

pub const LBA_SIZE: usize = 512;

pub const EXT4_SUPER_MAGIC: u16 = 0xef53;
pub const EXT4_SUPER_OFFSET: u64 = 1024;
pub const EXT4_SUPER_MAGIC_OFFSET: u64 = 56;

pub const MBR_SIGNATURE: u16 = 0xaa55;
pub const MBR_PARTITION_OFFSET: usize = 446;
pub const MBR_PARTITION_ENTRY_SIZE: usize = 16;
pub const MBR_PARTITION_COUNT: usize = 4;
/// Protective MBR type of a GPT disk (not a partition of its own).
pub const MBR_GPT_PROTECTIVE: u8 = 0xee;

pub const GPT_HEADER_SIZE: usize = 92;
pub const GPT_ENTRY_SIZE: usize = 128;
pub const MAX_GPT_ENTRIES: usize = 128;
pub const MAX_GPT_ENTRIES_BYTES: usize = 16384;
/// GPT attribute bit 60: read-only.
pub const GPT_READONLY_ATTR: u64 = 0x1000_0000_0000_0000;

#[derive(Clone, Copy, Debug, PartialEq, Eq, Structural)]
pub enum PartitionError {
    AddressOverflow,
    BadBlockSize,
    BadPartitionTable,
    Block(BlockError),
    OutOfMemory,
    Unsupported,
}

impl From<BlockError> for PartitionError {
    fn from(error: BlockError) -> (converted: Self) {
        PartitionError::Block(error)
    }
}

impl vstd::std_specs::convert::FromSpecImpl<BlockError> for PartitionError {
    open spec fn obeys_from_spec() -> bool {
        true
    }

    open spec fn from_spec(v: BlockError) -> PartitionError {
        PartitionError::Block(v)
    }
}

/// A partition found in a table, before it gets a name.
///
/// `number` is the slot in the table (MBR slot or GPT entry, from 1): empty
/// slots are skipped but do not renumber the partitions after them.
#[derive(Clone, Copy, Debug, PartialEq, Eq, Structural)]
pub struct PartitionSpec {
    pub number: u32,
    pub first_lba: u64,
    pub block_count: u64,
    pub read_only: bool,
}

// ---------------------------------------------------------------------------
// Little-endian fields and CRC32.

pub open spec fn le16(s: Seq<u8>, at: int) -> u16 {
    (s[at] as u16) | ((s[at + 1] as u16) << 8u16)
}

pub open spec fn le32(s: Seq<u8>, at: int) -> u32 {
    (s[at] as u32) | ((s[at + 1] as u32) << 8u32) | ((s[at + 2] as u32) << 16u32) | ((s[at + 3] as u32) << 24u32)
}

pub open spec fn le64(s: Seq<u8>, at: int) -> u64 {
    (le32(s, at) as u64) | ((le32(s, at + 4) as u64) << 32u64)
}

pub fn read_le16(bytes: &[u8], at: usize) -> (value: u16)
    requires
        at + 2 <= bytes@.len(),
    ensures
        value == le16(bytes@, at as int),
{
    (bytes[at] as u16) | ((bytes[at + 1] as u16) << 8u16)
}

pub fn read_le32(bytes: &[u8], at: usize) -> (value: u32)
    requires
        at + 4 <= bytes@.len(),
    ensures
        value == le32(bytes@, at as int),
{
    (bytes[at] as u32) | ((bytes[at + 1] as u32) << 8u32) | ((bytes[at + 2] as u32) << 16u32) | ((bytes[at + 3] as u32) << 24u32)
}

pub fn read_le64(bytes: &[u8], at: usize) -> (value: u64)
    requires
        at + 8 <= bytes@.len(),
    ensures
        value == le64(bytes@, at as int),
{
    let length = bytes.len();
    let low = read_le32(bytes, at);
    let high = read_le32(bytes, at + 4);
    (low as u64) | ((high as u64) << 32u64)
}

/// One bit of the reflected IEEE 802.3 CRC register.
pub open spec fn crc_bit(crc: u32) -> u32 {
    if crc & 1 == 1 {
        (crc >> 1u32) ^ 0xedb8_8320u32
    } else {
        crc >> 1u32
    }
}

/// `n` bits of the CRC register.
pub open spec fn crc_bits(crc: u32, n: nat) -> u32
    decreases n,
{
    if n == 0 {
        crc
    } else {
        crc_bits(crc_bit(crc), (n - 1) as nat)
    }
}

/// The CRC register after `data`, starting from `crc`.
pub open spec fn crc_register(crc: u32, data: Seq<u8>) -> u32
    decreases data.len(),
{
    if data.len() == 0 {
        crc
    } else {
        crc_bits(crc_register(crc, data.drop_last()) ^ (data.last() as u32), 8)
    }
}

/// IEEE 802.3 CRC32 of `data`.
pub open spec fn crc32_spec(data: Seq<u8>) -> u32 {
    !crc_register(0xffff_ffffu32, data)
}

/// IEEE 802.3 CRC32 (the checksum of GPT headers and entry arrays).
pub fn crc32(data: &[u8]) -> (crc: u32)
    ensures
        crc == crc32_spec(data@),
{
    let mut crc: u32 = 0xffff_ffff;
    let mut i: usize = 0;
    while i < data.len()
        invariant
            i <= data@.len(),
            crc == crc_register(0xffff_ffffu32, data@.subrange(0, i as int)),
        decreases data@.len() - i,
    {
        let ghost before = crc;
        crc = crc ^ (data[i] as u32);
        let mut bit: usize = 0;
        while bit < 8
            invariant
                bit <= 8,
                crc == crc_bits(before ^ (data@[i as int] as u32), bit as nat),
            decreases 8 - bit,
        {
            proof {
                lemma_crc_bits_step(before ^ (data@[i as int] as u32), bit as nat);
            }
            if crc & 1 == 1 {
                crc = (crc >> 1u32) ^ 0xedb8_8320u32;
            } else {
                crc = crc >> 1u32;
            }
            bit = bit + 1;
        }
        proof {
            let prefix = data@.subrange(0, i + 1);
            assert(prefix.drop_last() =~= data@.subrange(0, i as int));
            assert(prefix.last() == data@[i as int]);
        }
        i = i + 1;
    }
    proof {
        assert(data@.subrange(0, data@.len() as int) =~= data@);
    }
    !crc
}

proof fn lemma_crc_bits_step(crc: u32, n: nat)
    ensures
        crc_bits(crc, n + 1) == crc_bit(crc_bits(crc, n)),
    decreases n,
{
    if n == 0 {
        assert(crc_bits(crc, 1) == crc_bits(crc_bit(crc), 0));
    } else {
        lemma_crc_bits_step(crc_bit(crc), (n - 1) as nat);
        assert(crc_bits(crc, n + 1) == crc_bits(crc_bit(crc), n));
        assert(crc_bits(crc, n) == crc_bits(crc_bit(crc), (n - 1) as nat));
        assert((n - 1) as nat + 1 == n);
    }
}

// ---------------------------------------------------------------------------
// MBR.

pub open spec fn has_mbr_signature_spec(lba0: Seq<u8>) -> bool {
    le16(lba0, 510) == MBR_SIGNATURE
}

/// Whether the sector ends in the MBR signature 0x55 0xaa.
pub fn has_mbr_signature(lba0: &[u8]) -> (signed: bool)
    requires
        lba0@.len() == LBA_SIZE,
    ensures
        signed == has_mbr_signature_spec(lba0@),
{
    read_le16(lba0, 510) == MBR_SIGNATURE
}

/// The partition of MBR slot `index`, if the slot holds one that fits in
/// `parent_blocks` blocks.
pub open spec fn mbr_slot(lba0: Seq<u8>, index: int, read_only: bool, parent_blocks: u64) -> Option<PartitionSpec> {
    let offset = MBR_PARTITION_OFFSET + index * MBR_PARTITION_ENTRY_SIZE;
    let partition_type = lba0[offset + 4];
    let first_lba = le32(lba0, offset + 8) as u64;
    let sector_count = le32(lba0, offset + 12) as u64;
    if partition_type == 0 || partition_type == MBR_GPT_PROTECTIVE || sector_count == 0
        || first_lba + sector_count > parent_blocks {
        None
    } else {
        Some(PartitionSpec { number: (index + 1) as u32, first_lba, block_count: sector_count, read_only })
    }
}

/// The partitions of MBR slots `index` and after, in slot order.
pub open spec fn mbr_from(lba0: Seq<u8>, index: int, read_only: bool, parent_blocks: u64) -> Seq<PartitionSpec>
    decreases MBR_PARTITION_COUNT - index,
{
    if index >= MBR_PARTITION_COUNT || index < 0 {
        Seq::empty()
    } else {
        match mbr_slot(lba0, index, read_only, parent_blocks) {
            Some(spec) => seq![spec] + mbr_from(lba0, index + 1, read_only, parent_blocks),
            None => mbr_from(lba0, index + 1, read_only, parent_blocks),
        }
    }
}

/// The primary partitions of an MBR: empty slots, the GPT protective type and
/// entries that run past the parent are skipped.
pub fn scan_mbr(lba0: &[u8], read_only: bool, parent_blocks: u64) -> (specs: Vec<PartitionSpec>)
    requires
        lba0@.len() == LBA_SIZE,
    ensures
        specs@ == mbr_from(lba0@, 0, read_only, parent_blocks),
{
    let mut specs: Vec<PartitionSpec> = Vec::new();
    let mut index: usize = 0;
    while index < MBR_PARTITION_COUNT
        invariant
            index <= MBR_PARTITION_COUNT,
            lba0@.len() == LBA_SIZE,
            mbr_from(lba0@, 0, read_only, parent_blocks) == specs@ + mbr_from(lba0@, index as int, read_only, parent_blocks),
        decreases MBR_PARTITION_COUNT - index,
    {
        let offset = MBR_PARTITION_OFFSET + index * MBR_PARTITION_ENTRY_SIZE;
        let partition_type = lba0[offset + 4];
        let first_lba = read_le32(lba0, offset + 8) as u64;
        let sector_count = read_le32(lba0, offset + 12) as u64;
        let ghost rest = mbr_from(lba0@, index + 1, read_only, parent_blocks);
        if partition_type == 0 || partition_type == MBR_GPT_PROTECTIVE || sector_count == 0
            || first_lba + sector_count > parent_blocks {
            assert(mbr_from(lba0@, index as int, read_only, parent_blocks) == rest);
        } else {
            let spec = PartitionSpec { number: (index + 1) as u32, first_lba, block_count: sector_count, read_only };
            assert(mbr_from(lba0@, index as int, read_only, parent_blocks) == seq![spec] + rest);
            assert(specs@ + (seq![spec] + rest) =~= specs@.push(spec) + rest);
            specs.push(spec);
        }
        index = index + 1;
    }
    proof {
        assert(mbr_from(lba0@, MBR_PARTITION_COUNT as int, read_only, parent_blocks) =~= Seq::<PartitionSpec>::empty());
        assert(specs@ + Seq::<PartitionSpec>::empty() =~= specs@);
    }
    specs
}

/// Whether `spec` is what MBR slot `slot` of `lba0` describes: a used,
/// non-protective entry, numbered from one, with its first LBA and sector
/// count.
pub open spec fn mbr_entry_is(lba0: Seq<u8>, slot: int, spec: PartitionSpec, read_only: bool) -> bool {
    let offset = MBR_PARTITION_OFFSET + slot * MBR_PARTITION_ENTRY_SIZE;
    &&& 0 <= slot < MBR_PARTITION_COUNT
    &&& spec.number == slot + 1
    &&& lba0[offset + 4] != 0
    &&& lba0[offset + 4] != MBR_GPT_PROTECTIVE
    &&& spec.first_lba == le32(lba0, offset + 8)
    &&& spec.block_count == le32(lba0, offset + 12)
    &&& spec.read_only == read_only
}

/// What every partition an MBR scan from slot `index` on lists is.
proof fn lemma_mbr_listed_fit(lba0: Seq<u8>, index: int, read_only: bool, parent_blocks: u64)
    requires
        0 <= index,
    ensures
        forall|k: int| 0 <= k < mbr_from(lba0, index, read_only, parent_blocks).len() ==> {
            let spec = #[trigger] mbr_from(lba0, index, read_only, parent_blocks)[k];
            &&& spec.block_count > 0
            &&& spec.first_lba + spec.block_count <= parent_blocks
            &&& spec.number > index
            &&& mbr_entry_is(lba0, spec.number - 1, spec, read_only)
        },
        forall|a: int, b: int| #![trigger mbr_from(lba0, index, read_only, parent_blocks)[a], mbr_from(lba0, index, read_only, parent_blocks)[b]]
            0 <= a < b < mbr_from(lba0, index, read_only, parent_blocks).len()
            ==> mbr_from(lba0, index, read_only, parent_blocks)[a].number < mbr_from(lba0, index, read_only, parent_blocks)[b].number,
    decreases MBR_PARTITION_COUNT - index,
{
    if 0 <= index < MBR_PARTITION_COUNT {
        lemma_mbr_listed_fit(lba0, index + 1, read_only, parent_blocks);
        let rest = mbr_from(lba0, index + 1, read_only, parent_blocks);
        match mbr_slot(lba0, index, read_only, parent_blocks) {
            Some(spec) => {
                let all = seq![spec] + rest;
                assert(all == mbr_from(lba0, index, read_only, parent_blocks));
                assert forall|k: int| 0 < k < all.len() implies all[k] == rest[k - 1] by {}
                assert forall|a: int, b: int| #![trigger all[a], all[b]] 0 <= a < b < all.len()
                    implies all[a].number < all[b].number by {
                    assert(all[b] == rest[b - 1]);
                    if a > 0 {
                        assert(all[a] == rest[a - 1]);
                    }
                }
            },
            None => {},
        }
    }
}

/// Slot `slot` of an MBR, when in use, is listed by the scan from `index` on.
proof fn lemma_mbr_slot_listed(lba0: Seq<u8>, index: int, slot: int, read_only: bool, parent_blocks: u64)
    requires
        0 <= index <= slot < MBR_PARTITION_COUNT,
        mbr_slot(lba0, slot, read_only, parent_blocks) is Some,
    ensures
        mbr_from(lba0, index, read_only, parent_blocks).contains(mbr_slot(lba0, slot, read_only, parent_blocks)->0),
    decreases slot - index,
{
    let target = mbr_slot(lba0, slot, read_only, parent_blocks)->0;
    let rest = mbr_from(lba0, index + 1, read_only, parent_blocks);
    if index == slot {
        assert(mbr_from(lba0, index, read_only, parent_blocks) == seq![target] + rest);
        assert(mbr_from(lba0, index, read_only, parent_blocks)[0] == target);
    } else {
        lemma_mbr_slot_listed(lba0, index + 1, slot, read_only, parent_blocks);
        let k = choose|k: int| 0 <= k < rest.len() && rest[k] == target;
        match mbr_slot(lba0, index, read_only, parent_blocks) {
            Some(spec) => {
                assert((seq![spec] + rest)[k + 1] == target);
            },
            None => {
                assert(rest[k] == target);
            },
        }
    }
}

/// An MBR scan lists a used slot exactly when it fits on the disk: a slot
/// whose type is neither empty nor GPT-protective and whose sector count is
/// not zero is listed, with its first LBA and sector count, whenever it ends
/// at or before the last block (`first_lba + sector_count <= parent_blocks`);
/// every listed partition is such a slot, has blocks and ends within the
/// disk, and the partitions come in slot order.
pub proof fn lemma_mbr_lists_fitting_slots(lba0: Seq<u8>, slot: int, read_only: bool, parent_blocks: u64)
    requires
        0 <= slot < MBR_PARTITION_COUNT,
    ensures
        ({
            let offset = MBR_PARTITION_OFFSET + slot * MBR_PARTITION_ENTRY_SIZE;
            let partition_type = lba0[offset + 4];
            let first_lba = le32(lba0, offset + 8);
            let sector_count = le32(lba0, offset + 12);
            partition_type != 0 && partition_type != MBR_GPT_PROTECTIVE && sector_count != 0
                && first_lba + sector_count <= parent_blocks ==> mbr_from(lba0, 0, read_only, parent_blocks).contains(
                PartitionSpec {
                    number: (slot + 1) as u32,
                    first_lba: first_lba as u64,
                    block_count: sector_count as u64,
                    read_only,
                },
            )
        }),
        forall|k: int| 0 <= k < mbr_from(lba0, 0, read_only, parent_blocks).len() ==> {
            let spec = #[trigger] mbr_from(lba0, 0, read_only, parent_blocks)[k];
            &&& spec.block_count > 0
            &&& spec.first_lba + spec.block_count <= parent_blocks
            &&& mbr_entry_is(lba0, spec.number - 1, spec, read_only)
        },
        forall|a: int, b: int| #![trigger mbr_from(lba0, 0, read_only, parent_blocks)[a], mbr_from(lba0, 0, read_only, parent_blocks)[b]]
            0 <= a < b < mbr_from(lba0, 0, read_only, parent_blocks).len()
            ==> mbr_from(lba0, 0, read_only, parent_blocks)[a].number < mbr_from(lba0, 0, read_only, parent_blocks)[b].number,
{
    lemma_mbr_listed_fit(lba0, 0, read_only, parent_blocks);
    if mbr_slot(lba0, slot, read_only, parent_blocks) is Some {
        lemma_mbr_slot_listed(lba0, 0, slot, read_only, parent_blocks);
    }
}

// ---------------------------------------------------------------------------
// GPT.

/// Where a checked GPT header puts its entry array.
#[derive(Clone, Copy, Debug, PartialEq, Eq, Structural)]
pub struct GptLayout {
    pub entries_offset: u64,
    pub num_entries: usize,
    pub entry_size: usize,
    pub entries_bytes: usize,
    pub entries_crc: u32,
}

pub open spec fn is_gpt_signature(header: Seq<u8>) -> bool {
    header.subrange(0, 8) == seq![0x45u8, 0x46u8, 0x49u8, 0x20u8, 0x50u8, 0x41u8, 0x52u8, 0x54u8]
}

/// The first `header_size` bytes of the header with the CRC field zeroed:
/// what the header CRC covers.
pub open spec fn header_crc_input(header: Seq<u8>, header_size: int) -> Seq<u8> {
    header.subrange(0, header_size).update(16, 0).update(17, 0).update(18, 0).update(19, 0)
}

/// What a GPT header in LBA 1 says: `None` when it has no GPT signature, the
/// layout of its entries when it passes its checks, and otherwise the error.
pub open spec fn gpt_header_spec(header: Seq<u8>) -> Result<Option<GptLayout>, PartitionError> {
    let header_size = le32(header, 12) as int;
    let entries_lba = le64(header, 72);
    let num_entries = le32(header, 80) as int;
    let entry_size = le32(header, 84) as int;
    if !is_gpt_signature(header) {
        Ok(None)
    } else if header_size < GPT_HEADER_SIZE || header_size > LBA_SIZE {
        Err(PartitionError::BadPartitionTable)
    } else if crc32_spec(header_crc_input(header, header_size)) != le32(header, 16) {
        Err(PartitionError::BadPartitionTable)
    } else if entry_size < GPT_ENTRY_SIZE || entry_size % 8 != 0 {
        Err(PartitionError::BadPartitionTable)
    } else if num_entries > MAX_GPT_ENTRIES {
        Err(PartitionError::Unsupported)
    } else if num_entries * entry_size > usize::MAX {
        Err(PartitionError::AddressOverflow)
    } else if num_entries * entry_size > MAX_GPT_ENTRIES_BYTES {
        Err(PartitionError::Unsupported)
    } else if entries_lba * LBA_SIZE > u64::MAX {
        Err(PartitionError::AddressOverflow)
    } else {
        Ok(Some(GptLayout {
            entries_offset: (entries_lba * LBA_SIZE) as u64,
            num_entries: num_entries as usize,
            entry_size: entry_size as usize,
            entries_bytes: (num_entries * entry_size) as usize,
            entries_crc: le32(header, 88),
        }))
    }
}

/// Checks a GPT header (the 512 bytes of LBA 1).
pub fn parse_gpt_header(header: &[u8]) -> (result: Result<Option<GptLayout>, PartitionError>)
    requires
        header@.len() == LBA_SIZE,
    ensures
        result == gpt_header_spec(header@),
{
    let signed = header[0] == 0x45 && header[1] == 0x46 && header[2] == 0x49 && header[3] == 0x20
        && header[4] == 0x50 && header[5] == 0x41 && header[6] == 0x52 && header[7] == 0x54;
    proof {
        let h = header@.subrange(0, 8);
        assert(h[0] == header@[0] && h[1] == header@[1] && h[2] == header@[2] && h[3] == header@[3]);
        assert(h[4] == header@[4] && h[5] == header@[5] && h[6] == header@[6] && h[7] == header@[7]);
        if signed {
            assert(h =~= seq![0x45u8, 0x46u8, 0x49u8, 0x20u8, 0x50u8, 0x41u8, 0x52u8, 0x54u8]);
        }
    }
    if !signed {
        return Ok(None);
    }
    let header_size = read_le32(header, 12) as usize;
    if header_size < GPT_HEADER_SIZE || header_size > LBA_SIZE {
        return Err(PartitionError::BadPartitionTable);
    }
    let stored_crc = read_le32(header, 16);
    let mut crc_buf: Vec<u8> = Vec::new();
    let mut i: usize = 0;
    while i < header_size
        invariant
            i <= header_size <= LBA_SIZE,
            header@.len() == LBA_SIZE,
            crc_buf@.len() == i,
            forall|t: int| 0 <= t < i ==> #[trigger] crc_buf@[t] == (if 16 <= t < 20 { 0u8 } else { header@[t] }),
        decreases header_size - i,
    {
        if 16 <= i && i < 20 {
            crc_buf.push(0);
        } else {
            crc_buf.push(header[i]);
        }
        i = i + 1;
    }
    proof {
        assert(crc_buf@ =~= header_crc_input(header@, header_size as int));
    }
    if crc32(crc_buf.as_slice()) != stored_crc {
        return Err(PartitionError::BadPartitionTable);
    }
    let entries_lba = read_le64(header, 72);
    let num_entries = read_le32(header, 80) as usize;
    let entry_size = read_le32(header, 84) as usize;
    if entry_size < GPT_ENTRY_SIZE || entry_size % 8 != 0 {
        return Err(PartitionError::BadPartitionTable);
    }
    if num_entries > MAX_GPT_ENTRIES {
        return Err(PartitionError::Unsupported);
    }
    let entries_bytes = match num_entries.checked_mul(entry_size) {
        Some(bytes) => bytes,
        None => {
            return Err(PartitionError::AddressOverflow);
        },
    };
    if entries_bytes > MAX_GPT_ENTRIES_BYTES {
        return Err(PartitionError::Unsupported);
    }
    let entries_offset = match entries_lba.checked_mul(LBA_SIZE as u64) {
        Some(offset) => offset,
        None => {
            return Err(PartitionError::AddressOverflow);
        },
    };
    let entries_crc = read_le32(header, 88);
    Ok(Some(GptLayout { entries_offset, num_entries, entry_size, entries_bytes, entries_crc }))
}

/// Whether the 16-byte type GUID of the entry at `start` is all zero (an
/// unused entry).
pub open spec fn gpt_entry_unused(entries: Seq<u8>, start: int) -> bool {
    forall|t: int| start <= t < start + 16 ==> entries[t] == 0
}

/// What GPT entry `index` gives: `Ok(None)` for an unused entry.
pub open spec fn gpt_entry(entries: Seq<u8>, index: int, entry_size: int, parent_blocks: u64)
    -> Result<Option<PartitionSpec>, PartitionError> {
    let start = index * entry_size;
    let first_lba = le64(entries, start + 32);
    let last_lba = le64(entries, start + 40);
    let attributes = le64(entries, start + 48);
    if gpt_entry_unused(entries, start) {
        Ok(None)
    } else if last_lba < first_lba {
        Err(PartitionError::BadPartitionTable)
    } else if last_lba - first_lba + 1 > u64::MAX {
        Err(PartitionError::AddressOverflow)
    } else if last_lba + 1 > u64::MAX {
        Err(PartitionError::AddressOverflow)
    } else if last_lba + 1 > parent_blocks {
        Err(PartitionError::BadPartitionTable)
    } else {
        Ok(Some(PartitionSpec {
            number: (index + 1) as u32,
            first_lba,
            block_count: (last_lba - first_lba + 1) as u64,
            read_only: attributes & GPT_READONLY_ATTR != 0,
        }))
    }
}

/// The partitions of GPT entries `index` and after, in entry order, or the
/// error of the first bad entry among them.
pub open spec fn gpt_from(entries: Seq<u8>, index: int, num_entries: int, entry_size: int, parent_blocks: u64)
    -> Result<Seq<PartitionSpec>, PartitionError>
    decreases num_entries - index,
{
    if index >= num_entries || index < 0 {
        Ok(Seq::empty())
    } else {
        match gpt_entry(entries, index, entry_size, parent_blocks) {
            Err(error) => Err(error),
            Ok(None) => gpt_from(entries, index + 1, num_entries, entry_size, parent_blocks),
            Ok(Some(spec)) => match gpt_from(entries, index + 1, num_entries, entry_size, parent_blocks) {
                Ok(rest) => Ok(seq![spec] + rest),
                Err(error) => Err(error),
            },
        }
    }
}

pub open spec fn prefixed(prefix: Seq<PartitionSpec>, rest: Result<Seq<PartitionSpec>, PartitionError>)
    -> Result<Seq<PartitionSpec>, PartitionError> {
    match rest {
        Ok(specs) => Ok(prefix + specs),
        Err(error) => Err(error),
    }
}

/// What a GPT entry array gives under a checked header.
pub open spec fn gpt_entries_spec(entries: Seq<u8>, layout: GptLayout, parent_blocks: u64)
    -> Result<Seq<PartitionSpec>, PartitionError> {
    if crc32_spec(entries) != layout.entries_crc {
        Err(PartitionError::BadPartitionTable)
    } else {
        gpt_from(entries, 0, layout.num_entries as int, layout.entry_size as int, parent_blocks)
    }
}

pub open spec fn layout_wf(layout: GptLayout) -> bool {
    &&& layout.num_entries <= MAX_GPT_ENTRIES
    &&& layout.entry_size >= GPT_ENTRY_SIZE
    &&& layout.entries_bytes == layout.num_entries * layout.entry_size
}

/// Parses a GPT entry array (checked against its CRC) into partitions.
pub fn parse_gpt_entries(entries: &[u8], layout: GptLayout, parent_blocks: u64)
    -> (result: Result<Vec<PartitionSpec>, PartitionError>)
    requires
        layout_wf(layout),
        entries@.len() == layout.entries_bytes,
    ensures
        result matches Ok(specs) ==> gpt_entries_spec(entries@, layout, parent_blocks) == Ok::<Seq<PartitionSpec>, PartitionError>(specs@),
        result matches Err(error) ==> gpt_entries_spec(entries@, layout, parent_blocks) == Err::<Seq<PartitionSpec>, PartitionError>(error),
{
    if crc32(entries) != layout.entries_crc {
        return Err(PartitionError::BadPartitionTable);
    }
    let num_entries = layout.num_entries;
    let entry_size = layout.entry_size;
    let ghost whole = gpt_from(entries@, 0, num_entries as int, entry_size as int, parent_blocks);
    let mut specs: Vec<PartitionSpec> = Vec::new();
    let mut index: usize = 0;
    while index < num_entries
        invariant
            index <= num_entries,
            layout_wf(layout),
            num_entries == layout.num_entries,
            entry_size == layout.entry_size,
            entries@.len() == num_entries * entry_size,
            entries@.len() == layout.entries_bytes,
            crc32_spec(entries@) == layout.entries_crc,
            whole == gpt_from(entries@, 0, num_entries as int, entry_size as int, parent_blocks),
            whole == prefixed(specs@, gpt_from(entries@, index as int, num_entries as int, entry_size as int, parent_blocks)),
        decreases num_entries - index,
    {
        proof {
            assert((index + 1) * entry_size <= num_entries * entry_size) by (nonlinear_arith)
                requires index < num_entries, entry_size >= 0;
            assert(index * entry_size + entry_size == (index + 1) * entry_size) by (nonlinear_arith);
            assert(index * entry_size >= 0) by (nonlinear_arith)
                requires index >= 0, entry_size >= 0;
        }
        let start = index * entry_size;
        let ghost rest = gpt_from(entries@, index + 1, num_entries as int, entry_size as int, parent_blocks);
        let mut unused = true;
        let mut t: usize = 0;
        while t < 16
            invariant
                t <= 16,
                start + GPT_ENTRY_SIZE <= entries@.len(),
                entries@.len() == layout.entries_bytes,
                unused <==> forall|u: int| start <= u < start + t ==> entries@[u] == 0,
            decreases 16 - t,
        {
            if entries[start + t] != 0 {
                unused = false;
            }
            t = t + 1;
        }
        if unused {
            assert(gpt_from(entries@, index as int, num_entries as int, entry_size as int, parent_blocks) == rest);
        } else {
            let first_lba = read_le64(entries, start + 32);
            let last_lba = read_le64(entries, start + 40);
            if last_lba < first_lba {
                return Err(PartitionError::BadPartitionTable);
            }
            let block_count = match (last_lba - first_lba).checked_add(1) {
                Some(count) => count,
                None => {
                    assert(gpt_entry(entries@, index as int, entry_size as int, parent_blocks)
                        == Err::<Option<PartitionSpec>, PartitionError>(PartitionError::AddressOverflow));
                    assert(gpt_from(entries@, index as int, num_entries as int, entry_size as int, parent_blocks)
                        == Err::<Seq<PartitionSpec>, PartitionError>(PartitionError::AddressOverflow));
                    return Err(PartitionError::AddressOverflow);
                },
            };
            let end = match first_lba.checked_add(block_count) {
                Some(end) => end,
                None => {
                    assert(gpt_entry(entries@, index as int, entry_size as int, parent_blocks)
                        == Err::<Option<PartitionSpec>, PartitionError>(PartitionError::AddressOverflow));
                    assert(gpt_from(entries@, index as int, num_entries as int, entry_size as int, parent_blocks)
                        == Err::<Seq<PartitionSpec>, PartitionError>(PartitionError::AddressOverflow));
                    return Err(PartitionError::AddressOverflow);
                },
            };
            if end > parent_blocks {
                return Err(PartitionError::BadPartitionTable);
            }
            let attributes = read_le64(entries, start + 48);
            let spec = PartitionSpec {
                number: (index + 1) as u32,
                first_lba,
                block_count,
                read_only: attributes & GPT_READONLY_ATTR != 0,
            };
            proof {
                assert(gpt_entry(entries@, index as int, entry_size as int, parent_blocks) == Ok::<Option<PartitionSpec>, PartitionError>(Some(spec)));
                match rest {
                    Ok(r) => {
                        assert(specs@ + (seq![spec] + r) =~= specs@.push(spec) + r);
                    },
                    Err(e) => {},
                }
            }
            specs.push(spec);
        }
        index = index + 1;
    }
    proof {
        assert(specs@ + Seq::<PartitionSpec>::empty() =~= specs@);
    }
    Ok(specs)
}

// ---------------------------------------------------------------------------
// Scanning a device.

/// What a read of `length` bytes at `offset` leaves in a zeroed buffer.
pub open spec fn read_into_zeroed(contents: Seq<u8>, offset: int, length: int) -> Seq<u8> {
    let count = read_at_count(contents.len() as int, offset, length);
    Seq::new(length as nat, |t: int| if t < count { contents[offset + t] } else { 0u8 })
}

pub open spec fn whole_disk(parent_blocks: u64, read_only: bool) -> Seq<PartitionSpec> {
    seq![PartitionSpec { number: 1, first_lba: 0, block_count: parent_blocks, read_only }]
}

/// Whether the ext4 superblock magic sits at byte 1080 of `contents`.
pub open spec fn is_ext4_image(contents: Seq<u8>) -> bool {
    &&& contents.len() >= EXT4_SUPER_OFFSET + EXT4_SUPER_MAGIC_OFFSET + 2
    &&& le16(contents, (EXT4_SUPER_OFFSET + EXT4_SUPER_MAGIC_OFFSET) as int) == EXT4_SUPER_MAGIC
}

/// What the GPT probe of a device whose bytes are `contents` finds:
/// `Ok(None)` when there is no GPT header in LBA 1.
pub open spec fn gpt_scan_spec(contents: Seq<u8>, parent_blocks: u64)
    -> Result<Option<Seq<PartitionSpec>>, PartitionError> {
    let header = contents.subrange(LBA_SIZE as int, 2 * LBA_SIZE);
    if parent_blocks < 3 {
        Ok(None)
    } else {
        match gpt_header_spec(header) {
            Err(error) => Err(error),
            Ok(None) => Ok(None),
            Ok(Some(layout)) => if layout.entries_offset + layout.entries_bytes > u64::MAX {
                Err(PartitionError::Block(BlockError::AddressOverflow))
            } else {
                match gpt_entries_spec(
                    read_into_zeroed(contents, layout.entries_offset as int, layout.entries_bytes as int),
                    layout,
                    parent_blocks,
                ) {
                    Ok(specs) => Ok(Some(specs)),
                    Err(error) => Err(error),
                }
            },
        }
    }
}

/// The partition layout of a device whose bytes are `contents`: raw ext4
/// first, then GPT, then MBR; no table gives no partitions.
pub open spec fn scan_spec(contents: Seq<u8>, block_size: usize, parent_blocks: u64, read_only: bool)
    -> Result<Seq<PartitionSpec>, PartitionError> {
    if block_size < LBA_SIZE {
        Err(PartitionError::BadBlockSize)
    } else if parent_blocks == 0 {
        Err(PartitionError::BadPartitionTable)
    } else if is_ext4_image(contents) {
        Ok(whole_disk(parent_blocks, read_only))
    } else {
        match gpt_scan_spec(contents, parent_blocks) {
            Err(error) => Err(error),
            Ok(Some(specs)) => Ok(specs),
            Ok(None) => {
                let lba0 = contents.subrange(0, LBA_SIZE as int);
                if has_mbr_signature_spec(lba0) {
                    Ok(mbr_from(lba0, 0, read_only, parent_blocks))
                } else {
                    Ok(Seq::empty())
                }
            },
        }
    }
}

pub open spec fn specs_view(result: Result<Vec<PartitionSpec>, PartitionError>) -> Result<Seq<PartitionSpec>, PartitionError> {
    match result {
        Ok(specs) => Ok(specs@),
        Err(error) => Err(error),
    }
}

pub open spec fn gpt_view(result: Result<Option<Vec<PartitionSpec>>, PartitionError>)
    -> Result<Option<Seq<PartitionSpec>>, PartitionError> {
    match result {
        Ok(Some(specs)) => Ok(Some(specs@)),
        Ok(None) => Ok(None),
        Err(error) => Err(error),
    }
}

pub open spec fn device_unchanged<D: BlockDevice>(before: D, after: D) -> bool {
    &&& after.spec_wf()
    &&& after.spec_block_size() == before.spec_block_size()
    &&& after.spec_block_count() == before.spec_block_count()
    &&& after.spec_read_only() == before.spec_read_only()
    &&& after.spec_tracks_contents() == before.spec_tracks_contents()
    &&& after.spec_contents() == before.spec_contents()
}

fn zeroed(length: usize) -> (buffer: Vec<u8>)
    ensures
        buffer@ == Seq::new(length as nat, |t: int| 0u8),
{
    let mut buffer: Vec<u8> = Vec::new();
    let mut i: usize = 0;
    while i < length
        invariant
            i <= length,
            buffer@.len() == i,
            forall|t: int| 0 <= t < i ==> #[trigger] buffer@[t] == 0u8,
        decreases length - i,
    {
        buffer.push(0);
        i = i + 1;
    }
    proof {
        assert(buffer@ =~= Seq::new(length as nat, |t: int| 0u8));
    }
    buffer
}

/// Reads `length` bytes at `offset` into a zeroed buffer, mapping a device
/// error into the partition error.
fn read_zeroed<D: BlockDevice>(parent: &mut D, offset: u64, length: usize) -> (result: Result<(Vec<u8>, usize), PartitionError>)
    requires
        old(parent).spec_wf(),
    ensures
        device_unchanged(*old(parent), *final(parent)),
        result matches Ok((buffer, count)) ==> buffer@.len() == length && count <= length,
        result matches Err(error) ==> error is Block,
        old(parent).spec_tracks_contents() ==> ({
            let contents = old(parent).spec_contents();
            if offset + length > u64::MAX {
                result == Err::<(Vec<u8>, usize), PartitionError>(PartitionError::Block(BlockError::AddressOverflow))
            } else {
                result matches Ok((buffer, count)) && buffer@ == read_into_zeroed(contents, offset as int, length as int)
                    && count == read_at_count(contents.len() as int, offset as int, length as int)
            }
        }),
{
    proof {
        parent.lemma_contents_len();
    }
    let mut buffer = zeroed(length);
    let ghost total = parent.spec_block_size() * parent.spec_block_count();
    match read_at(parent, offset, buffer.as_mut_slice()) {
        Ok(count) => {
            proof {
                if parent.spec_tracks_contents() {
                    let expected = read_into_zeroed(parent.spec_contents(), offset as int, length as int);
                    assert forall|t: int| 0 <= t < length implies #[trigger] buffer@[t] == expected[t] by {
                        if t >= count {
                            assert(buffer@.subrange(count as int, length as int)[t - count] == Seq::new(length as nat, |t: int| 0u8).subrange(count as int, length as int)[t - count]);
                        }
                    }
                    assert(buffer@ =~= expected);
                }
            }
            Ok((buffer, count))
        },
        Err(error) => Err(PartitionError::Block(error)),
    }
}

/// Whether the parent holds a raw ext4 file system (superblock magic at
/// byte 1080).
pub fn device_is_ext4<D: BlockDevice>(parent: &mut D) -> (result: Result<bool, PartitionError>)
    requires
        old(parent).spec_wf(),
    ensures
        device_unchanged(*old(parent), *final(parent)),
        result matches Err(error) ==> error is Block,
        old(parent).spec_tracks_contents() ==> result == Ok::<bool, PartitionError>(is_ext4_image(old(parent).spec_contents())),
{
    let (magic, count) = read_zeroed(parent, EXT4_SUPER_OFFSET + EXT4_SUPER_MAGIC_OFFSET, 2)?;
    if count != 2 {
        return Ok(false);
    }
    Ok(read_le16(magic.as_slice(), 0) == EXT4_SUPER_MAGIC)
}

/// Reads and parses the GPT of the parent: `Ok(None)` when LBA 1 holds no
/// GPT header, an error when the table is damaged.
pub fn scan_gpt<D: BlockDevice>(parent: &mut D, parent_blocks: u64) -> (result: Result<Option<Vec<PartitionSpec>>, PartitionError>)
    requires
        old(parent).spec_wf(),
        old(parent).spec_block_size() >= LBA_SIZE,
        parent_blocks == old(parent).spec_block_count(),
    ensures
        device_unchanged(*old(parent), *final(parent)),
        result is Err ==> parent_blocks >= 3,
        old(parent).spec_tracks_contents() ==> gpt_view(result) == gpt_scan_spec(old(parent).spec_contents(), parent_blocks),
{
    if parent_blocks < 3 {
        return Ok(None);
    }
    proof {
        parent.lemma_contents_len();
        assert(parent.spec_block_size() * parent_blocks >= 3 * LBA_SIZE) by (nonlinear_arith)
            requires parent.spec_block_size() >= LBA_SIZE, parent_blocks >= 3;
    }
    let (header, _) = read_zeroed(parent, LBA_SIZE as u64, LBA_SIZE)?;
    proof {
        if parent.spec_tracks_contents() {
            assert(header@ =~= parent.spec_contents().subrange(LBA_SIZE as int, 2 * LBA_SIZE));
        }
    }
    let layout = match parse_gpt_header(header.as_slice())? {
        Some(layout) => layout,
        None => {
            return Ok(None);
        },
    };
    if layout.entries_offset.checked_add(layout.entries_bytes as u64).is_none() {
        return Err(PartitionError::Block(BlockError::AddressOverflow));
    }
    let (entries, _) = read_zeroed(parent, layout.entries_offset, layout.entries_bytes)?;
    let specs = parse_gpt_entries(entries.as_slice(), layout, parent_blocks)?;
    Ok(Some(specs))
}

/// The partition layout of the parent: a raw ext4 whole disk gives one
/// partition over the whole device; then GPT, then MBR; no table gives none.
pub fn scan_partitions<D: BlockDevice>(parent: &mut D) -> (result: Result<Vec<PartitionSpec>, PartitionError>)
    requires
        old(parent).spec_wf(),
    ensures
        device_unchanged(*old(parent), *final(parent)),
        old(parent).spec_block_size() < LBA_SIZE ==> result == Err::<Vec<PartitionSpec>, PartitionError>(PartitionError::BadBlockSize),
        old(parent).spec_block_size() >= LBA_SIZE && old(parent).spec_block_count() == 0
            ==> result == Err::<Vec<PartitionSpec>, PartitionError>(PartitionError::BadPartitionTable),
        old(parent).spec_tracks_contents() ==> specs_view(result) == scan_spec(old(parent).spec_contents(),
            old(parent).spec_block_size(), old(parent).spec_block_count(), old(parent).spec_read_only()),
{
    let block_size = parent.block_size();
    if block_size < LBA_SIZE {
        return Err(PartitionError::BadBlockSize);
    }
    let parent_blocks = parent.block_count();
    if parent_blocks == 0 {
        return Err(PartitionError::BadPartitionTable);
    }
    if device_is_ext4(parent)? {
        let read_only = parent.is_read_only();
        let mut whole: Vec<PartitionSpec> = Vec::new();
        whole.push(PartitionSpec { number: 1, first_lba: 0, block_count: parent_blocks, read_only });
        proof {
            assert(whole@ =~= whole_disk(parent_blocks, read_only));
        }
        return Ok(whole);
    }
    if let Some(specs) = scan_gpt(parent, parent_blocks)? {
        return Ok(specs);
    }
    proof {
        parent.lemma_contents_len();
        assert(parent.spec_block_size() * parent_blocks >= LBA_SIZE) by (nonlinear_arith)
            requires parent.spec_block_size() >= LBA_SIZE, parent_blocks >= 1;
    }
    let (lba0, _) = read_zeroed(parent, 0, LBA_SIZE)?;
    proof {
        if parent.spec_tracks_contents() {
            assert(lba0@ =~= parent.spec_contents().subrange(0, LBA_SIZE as int));
        }
    }
    if has_mbr_signature(lba0.as_slice()) {
        let read_only = parent.is_read_only();
        return Ok(scan_mbr(lba0.as_slice(), read_only, parent_blocks));
    }
    Ok(Vec::new())
}

// ---------------------------------------------------------------------------
// Partition views.

/// Checks that blocks `first_lba .. first_lba + block_count` form a
/// non-empty window inside a parent of `parent_blocks` blocks: an end past
/// `u64::MAX` or past the parent is an overflow, an empty window a bad table.
pub fn check_partition_window(parent_blocks: u64, first_lba: u64, block_count: u64) -> (result: Result<(), PartitionError>)
    ensures
        first_lba + block_count > u64::MAX ==> result == Err::<(), PartitionError>(PartitionError::AddressOverflow),
        first_lba + block_count <= u64::MAX && block_count == 0
            ==> result == Err::<(), PartitionError>(PartitionError::BadPartitionTable),
        block_count > 0 && first_lba + block_count > parent_blocks
            ==> result == Err::<(), PartitionError>(PartitionError::AddressOverflow),
        result is Ok <==> (block_count > 0 && first_lba + block_count <= parent_blocks),
{
    let end = match first_lba.checked_add(block_count) {
        Some(end) => end,
        None => {
            return Err(PartitionError::AddressOverflow);
        },
    };
    if block_count == 0 {
        return Err(PartitionError::BadPartitionTable);
    }
    if end > parent_blocks {
        return Err(PartitionError::AddressOverflow);
    }
    Ok(())
}

/// A bounded view of blocks `first_lba .. first_lba + block_count` of a
/// parent device; read-only when the parent is.
pub struct PartitionBlockDevice<P: BlockDevice> {
    parent: P,
    first_lba: u64,
    block_count: u64,
    read_only: bool,
}

impl<P: BlockDevice> PartitionBlockDevice<P> {
    pub closed spec fn spec_parent(&self) -> P {
        self.parent
    }

    pub closed spec fn spec_first_lba(&self) -> u64 {
        self.first_lba
    }

    /// A view of `block_count` blocks from `first_lba`: refused when the end
    /// overflows or passes the parent, or when it is empty.
    pub fn new(parent: P, first_lba: u64, block_count: u64, read_only: bool) -> (result: Result<Self, PartitionError>)
        requires
            parent.spec_wf(),
        ensures
            first_lba + block_count > u64::MAX ==> result == Err::<Self, PartitionError>(PartitionError::AddressOverflow),
            first_lba + block_count <= u64::MAX && block_count == 0
                ==> result == Err::<Self, PartitionError>(PartitionError::BadPartitionTable),
            block_count > 0 && first_lba + block_count > parent.spec_block_count()
                ==> result == Err::<Self, PartitionError>(PartitionError::AddressOverflow),
            result is Ok <==> (block_count > 0 && first_lba + block_count <= parent.spec_block_count()),
            result matches Ok(device) ==> {
                &&& device.spec_wf()
                &&& device.spec_parent() == parent
                &&& device.spec_first_lba() == first_lba
                &&& device.spec_block_size() == parent.spec_block_size()
                &&& device.spec_block_count() == block_count
                &&& device.spec_read_only() == (read_only || parent.spec_read_only())
                &&& device.spec_tracks_contents() == parent.spec_tracks_contents()
                &&& device.spec_contents() == parent.spec_contents().subrange(
                    first_lba * parent.spec_block_size(), (first_lba + block_count) * parent.spec_block_size())
            },
    {
        let parent_blocks = parent.block_count();
        match check_partition_window(parent_blocks, first_lba, block_count) {
            Ok(()) => {},
            Err(error) => {
                return Err(error);
            },
        }
        let read_only = read_only || parent.is_read_only();
        Ok(PartitionBlockDevice { parent, first_lba, block_count, read_only })
    }

    /// The parent device.
    pub fn parent(&self) -> (parent: &P)
        ensures
            *parent == self.spec_parent(),
    {
        &self.parent
    }

    /// Gives the parent device back.
    pub fn into_parent(self) -> (parent: P)
        ensures
            parent == self.spec_parent(),
    {
        self.parent
    }
}

proof fn lemma_window(block_size: int, first: int, block: int, count: int)
    requires
        block_size > 0,
        first >= 0,
        0 <= block < count,
    ensures
        (first + block) * block_size == first * block_size + block * block_size,
        (first + block + 1) * block_size == first * block_size + block * block_size + block_size,
        (block + 1) * block_size == block * block_size + block_size,
        (first + count) * block_size == first * block_size + count * block_size,
        (block + 1) * block_size <= count * block_size,
        first * block_size >= 0,
        block * block_size >= 0,
{
    assert((first + block) * block_size == first * block_size + block * block_size) by (nonlinear_arith);
    assert((first + block + 1) * block_size == first * block_size + block * block_size + block_size) by (nonlinear_arith);
    assert((block + 1) * block_size == block * block_size + block_size) by (nonlinear_arith);
    assert((first + count) * block_size == first * block_size + count * block_size) by (nonlinear_arith);
    assert((block + 1) * block_size <= count * block_size) by (nonlinear_arith)
        requires block < count, block_size > 0;
    assert(first * block_size >= 0) by (nonlinear_arith)
        requires first >= 0, block_size > 0;
    assert(block * block_size >= 0) by (nonlinear_arith)
        requires block >= 0, block_size > 0;
}

proof fn lemma_window_len(block_size: int, first: int, count: int, parent_count: int)
    requires
        block_size > 0,
        first >= 0,
        count >= 0,
        first + count <= parent_count,
    ensures
        0 <= first * block_size <= (first + count) * block_size <= parent_count * block_size,
        (first + count) * block_size - first * block_size == block_size * count,
        parent_count * block_size == block_size * parent_count,
{
    assert(0 <= first * block_size <= (first + count) * block_size <= parent_count * block_size) by (nonlinear_arith)
        requires block_size > 0, first >= 0, count >= 0, first + count <= parent_count;
    assert((first + count) * block_size - first * block_size == block_size * count) by (nonlinear_arith);
    assert(parent_count * block_size == block_size * parent_count) by (nonlinear_arith);
}

impl<P: BlockDevice> BlockDevice for PartitionBlockDevice<P> {
    closed spec fn spec_wf(&self) -> bool {
        &&& self.parent.spec_wf()
        &&& self.block_count > 0
        &&& self.first_lba + self.block_count <= self.parent.spec_block_count()
        &&& self.parent.spec_read_only() ==> self.read_only
    }

    closed spec fn spec_block_size(&self) -> usize {
        self.parent.spec_block_size()
    }

    closed spec fn spec_block_count(&self) -> u64 {
        self.block_count
    }

    closed spec fn spec_read_only(&self) -> bool {
        self.read_only
    }

    closed spec fn spec_tracks_contents(&self) -> bool {
        self.parent.spec_tracks_contents()
    }

    closed spec fn spec_contents(&self) -> Seq<u8> {
        self.parent.spec_contents().subrange(
            self.first_lba * self.parent.spec_block_size(),
            (self.first_lba + self.block_count) * self.parent.spec_block_size(),
        )
    }

    proof fn lemma_contents_len(&self) {
        self.parent.lemma_contents_len();
        lemma_window_len(self.parent.spec_block_size() as int, self.first_lba as int, self.block_count as int,
            self.parent.spec_block_count() as int);
    }

    fn block_size(&self) -> (size: usize) {
        self.parent.block_size()
    }

    fn block_count(&self) -> (count: u64) {
        self.block_count
    }

    fn read_block(&mut self, block: u64, output: &mut [u8]) -> (result: Result<(), BlockError>) {
        let block_size = self.parent.block_size();
        if output.len() != block_size {
            return Err(BlockError::BufferTooSmall);
        }
        if block >= self.block_count {
            return Err(BlockError::OutOfRange);
        }
        let lba = match self.first_lba.checked_add(block) {
            Some(lba) => lba,
            None => {
                return Err(BlockError::AddressOverflow);
            },
        };
        proof {
            self.parent.lemma_contents_len();
            lemma_window(block_size as int, self.first_lba as int, block as int, self.block_count as int);
            lemma_window_len(block_size as int, self.first_lba as int, self.block_count as int,
                self.parent.spec_block_count() as int);
            if self.parent.spec_tracks_contents() {
                let contents = self.parent.spec_contents();
                let window = self.spec_contents();
                let start = self.first_lba * block_size;
                assert forall|t: int| 0 <= t < block_size implies #[trigger] block_slice(window, block_size as int, block as int)[t]
                    == block_slice(contents, block_size as int, lba as int)[t] by {
                    assert(window[block * block_size + t] == contents[start + block * block_size + t]);
                }
                assert(block_slice(window, block_size as int, block as int) =~= block_slice(contents, block_size as int, lba as int));
            }
        }
        self.parent.read_block(lba, output)
    }

    fn write_block(&mut self, block: u64, input: &[u8]) -> (result: Result<(), BlockError>) {
        if self.read_only {
            return Err(BlockError::DeviceReadOnly);
        }
        let block_size = self.parent.block_size();
        if input.len() != block_size {
            return Err(BlockError::BufferTooSmall);
        }
        if block >= self.block_count {
            return Err(BlockError::OutOfRange);
        }
        let lba = match self.first_lba.checked_add(block) {
            Some(lba) => lba,
            None => {
                return Err(BlockError::AddressOverflow);
            },
        };
        let ghost before = self.parent.spec_contents();
        let ghost window = self.spec_contents();
        proof {
            self.parent.lemma_contents_len();
            lemma_window(block_size as int, self.first_lba as int, block as int, self.block_count as int);
            lemma_window_len(block_size as int, self.first_lba as int, self.block_count as int,
                self.parent.spec_block_count() as int);
        }
        let result = self.parent.write_block(lba, input);
        proof {
            if self.parent.spec_tracks_contents() && result is Ok {
                let start = self.first_lba * block_size;
                let after = self.parent.spec_contents();
                let expected = replace_block(window, block_size as int, block as int, input@);
                assert(after == replace_block(before, block_size as int, lba as int, input@));
                assert(after.len() == before.len());
                assert forall|t: int| 0 <= t < expected.len() implies #[trigger] self.spec_contents()[t] == expected[t] by {
                    assert(self.spec_contents()[t] == after[start + t]);
                }
                assert(self.spec_contents() =~= expected);
            }
        }
        result
    }

    fn is_read_only(&self) -> (read_only: bool) {
        self.read_only
    }

    fn is_partition(&self) -> (partition: bool) {
        true
    }
}

// ---------------------------------------------------------------------------
// Names.

pub open spec fn has_mmcblk_prefix(disk: Seq<char>) -> bool {
    &&& disk.len() >= 6
    &&& disk[0] == 'm' && disk[1] == 'm' && disk[2] == 'c'
    &&& disk[3] == 'b' && disk[4] == 'l' && disk[5] == 'k'
}

/// The name of partition `partition` of disk `disk`.
pub open spec fn partition_name_spec(disk: Seq<char>, partition: nat) -> Seq<char> {
    if has_mmcblk_prefix(disk) {
        disk.push('p') + decimal(partition)
    } else {
        disk + decimal(partition)
    }
}

/// Linux-style partition naming: `mmcblk*` disks take a `p` before the
/// number (`mmcblk1p1`), the others none (`vda1`, `sda2`).
pub fn partition_name(disk: &str, partition: u32) -> (name: String)
    ensures
        name@ == partition_name_spec(disk@, partition as nat),
{
    let length = disk.unicode_len();
    let mmcblk = length >= 6 && disk.get_char(0) == 'm' && disk.get_char(1) == 'm' && disk.get_char(2) == 'c'
        && disk.get_char(3) == 'b' && disk.get_char(4) == 'l' && disk.get_char(5) == 'k';
    let mut name = String::from_str(disk);
    if mmcblk {
        proof { reveal_strlit("p"); }
        name.append("p");
    }
    append_decimal(&mut name, partition as u64);
    proof {
        if mmcblk {
            assert(disk@ + seq!['p'] =~= disk@.push('p'));
        }
    }
    name
}

} // verus!
