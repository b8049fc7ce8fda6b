//! The read-only SD card block device: single-block reads by CMD17 and PIO
//! through the FIFO. SDSC cards are addressed in bytes, SDHC/SDXC in blocks;
//! writes are always refused.
use vstd::prelude::*;

use crate::block::{BlockDevice, BlockError};
use crate::block_registry::{entry_names, BlockRegistry, DeviceKind};

use super::dw_mmc::{
    command_exchange, fifo_reads, le_byte, no_data_error, DwMmcController, MmcCommand, MmcError, MmcRegisterIo,
    MmcResponse, MmcResponseType, RegisterAccess,
};
use super::sd::{sd_command, SdCardInfo, SD_CMD17};

verus! {

pub const SD_BLOCK_SIZE: usize = 512;

/// Makes the block device of an initialised card and registers it as
/// `mmcblk1`; the device goes to the caller, who keeps it under that name.
/// A card with no blocks, or a name already taken, is refused.
pub fn register_mmcblk1<I: MmcRegisterIo>(registry: &mut BlockRegistry, controller: DwMmcController<I>, info: SdCardInfo)
    -> (result: Result<SdBlockDevice<I>, BlockError>)
    requires
        old(registry).wf(),
        controller.wf(),
    ensures
        final(registry).wf(),
        final(registry).spec_records() == old(registry).spec_records(),
        info.block_count == 0 ==> result == Err::<SdBlockDevice<I>, BlockError>(BlockError::InvalidArgument)
            && final(registry)@ == old(registry)@,
        info.block_count > 0 && entry_names(old(registry)@).contains("mmcblk1"@) ==> result == Err::<
            SdBlockDevice<I>,
            BlockError,
        >(BlockError::InvalidArgument) && final(registry)@ == old(registry)@,
        info.block_count > 0 && !entry_names(old(registry)@).contains("mmcblk1"@) ==> {
            &&& result matches Ok(device) && device.spec_info() == info && device.spec_wf()
            &&& final(registry)@ == old(registry)@.push(("mmcblk1"@, DeviceKind::Disk))
        },
{
    let device = match SdBlockDevice::new(controller, info) {
        Ok(device) => device,
        Err(error) => {
            return Err(error);
        },
    };
    match registry.register_device("mmcblk1") {
        Ok(()) => Ok(device),
        Err(error) => Err(error),
    }
}

/// CMD17 with a one-block data phase read from the card.
pub open spec fn sd_read_command(argument: u32) -> MmcCommand {
    MmcCommand {
        data_present: true,
        read: true,
        data_length: Some(SD_BLOCK_SIZE),
        ..sd_command(SD_CMD17, argument, MmcResponseType::R1)
    }
}

/// What a block read does on the controller after the command, from the
/// register trace `sent` on: the output is the FIFO words read, least
/// significant byte first, and the read succeeds exactly when no data-phase
/// error was seen and the whole block came.
pub open spec fn block_data_read(sent: Seq<RegisterAccess>, after: Seq<RegisterAccess>, fifo_offset: usize,
    output: Seq<u8>, ok: bool) -> bool {
    let accesses = after.skip(sent.len() as int);
    let words = fifo_reads(accesses, fifo_offset);
    &&& after.len() >= sent.len()
    &&& after.take(sent.len() as int) == sent
    &&& ok <==> (no_data_error(accesses) && words.len() * 4 == SD_BLOCK_SIZE)
    &&& ok ==> forall|k: int| 0 <= k < SD_BLOCK_SIZE ==> #[trigger] output[k] == le_byte(words[k / 4], k % 4)
}

/// A read-only SD card block device.
pub struct SdBlockDevice<I: MmcRegisterIo> {
    controller: DwMmcController<I>,
    info: SdCardInfo,
}

/// The CMD17 address of block `block`: the block number on SDHC/SDXC, the
/// byte address (block times block size) on SDSC.
pub open spec fn sd_block_address_spec(is_sdhc: bool, block: u64, block_size: usize) -> Result<u64, BlockError> {
    if is_sdhc {
        Ok(block)
    } else if block * block_size > u64::MAX {
        Err(BlockError::AddressOverflow)
    } else {
        Ok((block * block_size) as u64)
    }
}

pub fn sd_block_address(is_sdhc: bool, block: u64, block_size: usize) -> (result: Result<u64, BlockError>)
    ensures
        result == sd_block_address_spec(is_sdhc, block, block_size),
{
    if is_sdhc {
        Ok(block)
    } else {
        match block.checked_mul(block_size as u64) {
            Some(address) => Ok(address),
            None => Err(BlockError::AddressOverflow),
        }
    }
}

/// Every controller failure reaches block-device callers as an invalid argument.
pub fn mmc_to_block(error: MmcError) -> (converted: BlockError)
    ensures
        converted == BlockError::InvalidArgument,
{
    match error {
        MmcError::Timeout | MmcError::CrcError => BlockError::InvalidArgument,
        MmcError::FifoUnderrun | MmcError::FifoOverrun => BlockError::InvalidArgument,
        MmcError::CardError => BlockError::InvalidArgument,
        MmcError::ResetFailed | MmcError::NotReady | MmcError::Io => BlockError::InvalidArgument,
        MmcError::InvalidArgument => BlockError::InvalidArgument,
    }
}

/// The SD block size (512), for logging.
pub fn sd_block_size() -> (size: usize)
    ensures
        size == SD_BLOCK_SIZE,
{
    SD_BLOCK_SIZE
}

impl<I: MmcRegisterIo> SdBlockDevice<I> {
    pub closed spec fn spec_info(&self) -> SdCardInfo {
        self.info
    }

    /// For a block in range, a one-block buffer and an address that fits
    /// CMD17: the controller sends CMD17 with the card's address of `block`;
    /// a refused command leaves the buffer as it was, and otherwise the block
    /// read decides the result and the bytes. Every controller failure is an
    /// invalid argument.
    pub closed spec fn card_read(&self, after: &Self, block: u64, output_before: Seq<u8>, output_after: Seq<u8>,
        result: Result<(), BlockError>) -> bool {
        let address = sd_block_address_spec(self.info.is_sdhc, block, SD_BLOCK_SIZE);
        block < self.info.block_count && output_before.len() == SD_BLOCK_SIZE && address is Ok
            && address->Ok_0 <= u32::MAX ==> exists|poll: Seq<RegisterAccess>, sent: Seq<RegisterAccess>,
            answer: Result<MmcResponse, MmcError>| {
            &&& #[trigger] command_exchange(self.controller.trace@, sd_read_command(address->Ok_0 as u32),
                self.controller.fifo_depth, poll, sent, answer)
            &&& answer is Err ==> after.controller.trace@ == sent && output_after == output_before
                && result == Err::<(), BlockError>(BlockError::InvalidArgument)
            &&& answer is Ok ==> block_data_read(sent, after.controller.trace@, self.controller.fifo_offset,
                output_after, result is Ok)
            &&& result is Err ==> result == Err::<(), BlockError>(BlockError::InvalidArgument)
        }
    }

    /// Wraps an initialised card; refused when the card reports no blocks.
    pub fn new(controller: DwMmcController<I>, info: SdCardInfo) -> (result: Result<Self, BlockError>)
        requires
            controller.wf(),
        ensures
            info.block_count == 0 <==> result == Err::<Self, BlockError>(BlockError::InvalidArgument),
            info.block_count > 0 <==> result is Ok,
            result matches Ok(device) ==> device.spec_wf() && device.spec_info() == info
                && device.spec_block_count() == info.block_count && device.spec_block_size() == SD_BLOCK_SIZE
                && device.spec_read_only() && !device.spec_tracks_contents(),
    {
        if info.block_count == 0 {
            return Err(BlockError::InvalidArgument);
        }
        Ok(SdBlockDevice { controller, info })
    }

    /// CMD17 for block `block`, then the data phase through the FIFO.
    fn read_single_block(&mut self, block: u64, output: &mut [u8]) -> (result: Result<(), BlockError>)
        requires
            old(self).controller.wf(),
        ensures
            final(self).controller.wf(),
            final(self).info == old(self).info,
            final(output)@.len() == old(output)@.len(),
            block >= old(self).info.block_count ==> result == Err::<(), BlockError>(BlockError::OutOfRange),
            block < old(self).info.block_count && old(output)@.len() != SD_BLOCK_SIZE
                ==> result == Err::<(), BlockError>(BlockError::BufferTooSmall),
            block < old(self).info.block_count && old(output)@.len() == SD_BLOCK_SIZE && (
                sd_block_address_spec(old(self).info.is_sdhc, block, SD_BLOCK_SIZE) is Err
                || sd_block_address_spec(old(self).info.is_sdhc, block, SD_BLOCK_SIZE)->Ok_0 > u32::MAX)
                ==> result == Err::<(), BlockError>(BlockError::AddressOverflow),
            result matches Err(error) ==> (error is OutOfRange || error is BufferTooSmall || error is AddressOverflow
                || error is InvalidArgument),
            old(self).card_read(&*final(self), block, old(output)@, final(output)@, result),
    {
        if block >= self.info.block_count {
            return Err(BlockError::OutOfRange);
        }
        if output.len() != SD_BLOCK_SIZE {
            return Err(BlockError::BufferTooSmall);
        }
        let address = sd_block_address(self.info.is_sdhc, block, SD_BLOCK_SIZE)?;
        if address > u32::MAX as u64 {
            return Err(BlockError::AddressOverflow);
        }
        let argument = address as u32;
        let command = MmcCommand::new(SD_CMD17, argument, MmcResponseType::R1).with_data_length(true, SD_BLOCK_SIZE);
        let ghost before = self.controller.trace@;
        let answer = self.controller.send_command(command);
        let ghost sent = self.controller.trace@;
        let ghost poll = choose|poll: Seq<RegisterAccess>| #[trigger] command_exchange(before, command,
            self.controller.fifo_depth, poll, sent, answer);
        proof {
            assert(command == sd_read_command(argument));
            assert(command_exchange(before, command, self.controller.fifo_depth, poll, sent, answer));
        }
        if let Err(error) = answer {
            return Err(mmc_to_block(error));
        }
        let outcome = self.controller.read_block_data(output);
        proof {
            let accesses = self.controller.trace@.skip(sent.len() as int);
            assert(block_data_read(sent, self.controller.trace@, self.controller.fifo_offset, output@, outcome is Ok));
        }
        match outcome {
            Ok(()) => Ok(()),
            Err(error) => Err(mmc_to_block(error)),
        }
    }
}

impl<I: MmcRegisterIo> BlockDevice for SdBlockDevice<I> {
    closed spec fn spec_wf(&self) -> bool {
        self.controller.wf() && self.info.block_count > 0
    }

    closed spec fn spec_block_size(&self) -> usize {
        SD_BLOCK_SIZE
    }

    closed spec fn spec_block_count(&self) -> u64 {
        self.info.block_count
    }

    closed spec fn spec_read_only(&self) -> bool {
        true
    }

    closed spec fn spec_tracks_contents(&self) -> bool {
        false
    }

    closed spec fn spec_contents(&self) -> Seq<u8> {
        Seq::empty()
    }

    proof fn lemma_contents_len(&self) {
    }

    fn block_size(&self) -> (size: usize) {
        SD_BLOCK_SIZE
    }

    fn block_count(&self) -> (count: u64) {
        self.info.block_count
    }

    fn read_block(&mut self, block: u64, output: &mut [u8]) -> (result: Result<(), BlockError>)
        ensures
            old(self).card_read(&*final(self), block, old(output)@, final(output)@, result),
    {
        self.read_single_block(block, output)
    }

    fn write_block(&mut self, block: u64, input: &[u8]) -> (result: Result<(), BlockError>) {
        Err(BlockError::DeviceReadOnly)
    }

    fn is_read_only(&self) -> (read_only: bool) {
        true
    }

    fn is_partition(&self) -> (partition: bool) {
        false
    }
}

} // verus!
