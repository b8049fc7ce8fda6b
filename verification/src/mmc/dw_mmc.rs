//! DesignWare MMC host controller, polled mode.
//!
//! Register access goes through `MmcRegisterIo`: volatile MMIO on hardware,
//! a simulated register file in tests. Every poll has both a counter
//! deadline and an iteration cap, so a stuck controller or a clock that
//! does not advance cannot hang the caller.
use vstd::prelude::*;

use super::registers::{
    CLKENA_ENABLE, CMD_DATA_EXPECTED, CMD_DATA_WRITE, CMD_INDEX_MASK, CMD_RESP_CRC, CMD_RESP_EXP, CMD_RESP_LONG, CMD_SEND_INIT, CMD_START, CMD_UPDATE_CLOCK, CTRL_FIFO_RESET, CTRL_RESET, DATA_240A_OFFSET, DATA_OFFSET, DW_MMC_240A, INT_CMD_DONE, INT_DATA_CRC, INT_DATA_OVER, INT_DATA_TIMEOUT, INT_END_BIT, INT_FIFO_OVERRUN, INT_FIFO_UNDERRUN, INT_RESP_CRC, INT_RESP_TIMEOUT, INT_RX_DATA_REQ, INT_START_BIT, REG_BLKSIZ, REG_BYTCNT, REG_CLKDIV, REG_CLKENA, REG_CMD, REG_CMDARG, REG_CTRL, REG_CTYPE, REG_FIFOTH, REG_INTMASK, REG_PWREN, REG_RESP0, REG_RESP1, REG_RESP2, REG_RESP3, REG_RINTSTS, REG_STATUS, REG_VERID, STATUS_BUSY, STATUS_FIFO_COUNT_MASK, STATUS_FIFO_COUNT_SHIFT, ctype_for_width, fifoth_for,
};

verus! {

/// Polling deadline in milliseconds.
pub const POLL_DEADLINE_MS: u64 = 500;
/// Upper bound on polling iterations, independent of the clock.
pub const POLL_COUNT_CAP: usize = 2_000_000;

/// Register access for a controller instance, with the counter that
/// bounds polling.
pub trait MmcRegisterIo {
    fn read32(&mut self, offset: usize) -> u32;
    fn write32(&mut self, offset: usize, value: u32);
    /// Current value of the monotonic counter.
    fn counter(&mut self) -> u64;
    /// Frequency of that counter in Hz.
    fn counter_frequency_hz(&self) -> u64;
}

#[derive(Clone, Copy, Debug, PartialEq, Eq, Structural)]
pub enum MmcError {
    /// A poll for command, data or reset completion ran out of time.
    Timeout,
    /// Response or data CRC error.
    CrcError,
    FifoUnderrun,
    FifoOverrun,
    /// The controller reset did not complete.
    ResetFailed,
    /// Invalid command argument.
    InvalidArgument,
    /// Controller not ready.
    NotReady,
    /// The R1 card status reports a fatal error.
    CardError,
    /// Lower-level I/O failure.
    Io,
}

/// Response format of a command.
#[derive(Clone, Copy, Debug, PartialEq, Eq, Structural)]
pub enum MmcResponseType {
    /// No response (CMD0).
    NoResponse,
    /// 48-bit, CRC and index checked.
    R1,
    /// R1 followed by a busy phase (CMD7).
    R1b,
    /// 136-bit (CID/CSD).
    R2,
    /// 48-bit without CRC (OCR).
    R3,
    /// 48-bit published RCA.
    R6,
    /// 48-bit interface condition.
    R7,
}

/// One host command.
#[derive(Clone, Copy, Debug, PartialEq, Eq, Structural)]
pub struct MmcCommand {
    pub index: u8,
    pub argument: u32,
    pub response_type: MmcResponseType,
    /// A data phase follows (block transfer).
    pub data_present: bool,
    /// Data direction: card to host.
    pub read: bool,
    /// Initialisation command (send the 80-clock init sequence first).
    pub init: bool,
    /// Only update the clock registers.
    pub update_clock: bool,
    /// Bytes of the data phase; required whenever a data phase follows.
    pub data_length: Option<usize>,
}

impl MmcCommand {
    pub fn new(index: u8, argument: u32, response_type: MmcResponseType) -> (command: Self)
        ensures
            command == (MmcCommand {
                index,
                argument,
                response_type,
                data_present: false,
                read: false,
                init: false,
                update_clock: false,
                data_length: None,
            }),
    {
        MmcCommand {
            index,
            argument,
            response_type,
            data_present: false,
            read: false,
            init: false,
            update_clock: false,
            data_length: None,
        }
    }

    /// Adds a data phase of `data_length` bytes in the given direction.
    pub fn with_data_length(self, read: bool, data_length: usize) -> (command: Self)
        ensures
            command == (MmcCommand { data_present: true, read, data_length: Some(data_length), ..self }),
    {
        MmcCommand { data_present: true, read, data_length: Some(data_length), ..self }
    }

    pub fn with_init(self) -> (command: Self)
        ensures
            command == (MmcCommand { init: true, ..self }),
    {
        MmcCommand { init: true, ..self }
    }
}

/// One operation asked of an MMC host, with what came of it.
pub enum HostEvent {
    Command(MmcCommand, Result<MmcResponse, MmcError>),
    /// A data read, with the bytes the output buffer held afterwards.
    ReadData(Seq<u8>, Result<(), MmcError>),
    Clock(u64, Result<(), MmcError>),
    BusWidth(u8, Result<(), MmcError>),
    /// A reading of the counter that bounds card polling.
    Counter(u64),
}

/// What the SD card protocol needs from a host controller.
pub trait MmcHost {
    /// The host's fixed configuration, which no command changes.
    spec fn spec_configuration(&self) -> (usize, u32, u64);

    /// The operations asked of the host so far, in order.
    spec fn spec_events(&self) -> Seq<HostEvent>;

    fn send_command(&mut self, command: MmcCommand) -> (result: Result<MmcResponse, MmcError>)
        ensures
            final(self).spec_configuration() == old(self).spec_configuration(),
            final(self).spec_events() == old(self).spec_events().push(HostEvent::Command(command, result));

    fn read_block_data(&mut self, output: &mut [u8]) -> (result: Result<(), MmcError>)
        ensures
            final(self).spec_configuration() == old(self).spec_configuration(),
            final(output)@.len() == old(output)@.len(),
            final(self).spec_events() == old(self).spec_events().push(HostEvent::ReadData(final(output)@, result));

    fn set_clock(&mut self, frequency_hz: u64) -> (result: Result<(), MmcError>)
        ensures
            final(self).spec_configuration() == old(self).spec_configuration(),
            final(self).spec_events() == old(self).spec_events().push(HostEvent::Clock(frequency_hz, result));

    fn set_bus_width(&mut self, bus_width: u8) -> (result: Result<(), MmcError>)
        ensures
            final(self).spec_configuration() == old(self).spec_configuration(),
            final(self).spec_events() == old(self).spec_events().push(HostEvent::BusWidth(bus_width, result));

    /// Current value of the monotonic counter that bounds card polling.
    fn counter(&mut self) -> (cycles: u64)
        ensures
            final(self).spec_configuration() == old(self).spec_configuration(),
            final(self).spec_events() == old(self).spec_events().push(HostEvent::Counter(cycles));
    /// Frequency of that counter in Hz.
    fn counter_frequency_hz(&self) -> u64;
}

/// Response registers RESP0..RESP3.
#[derive(Clone, Copy, Debug, PartialEq, Eq, Structural)]
pub struct MmcResponse {
    pub r0: u32,
    pub r1: u32,
    pub r2: u32,
    pub r3: u32,
}

/// Byte `j` (0 = most significant) of `word` in big-endian order.
pub open spec fn be_byte(word: u32, j: int) -> u8 {
    ((word >> ((24 - 8 * j) as u32)) & 0xff) as u8
}

impl MmcResponse {
    pub open spec fn zeroed_spec() -> Self {
        MmcResponse { r0: 0, r1: 0, r2: 0, r3: 0 }
    }

    pub fn zeroed() -> (response: Self)
        ensures
            response == (MmcResponse { r0: 0, r1: 0, r2: 0, r3: 0 }),
    {
        MmcResponse { r0: 0, r1: 0, r2: 0, r3: 0 }
    }

    /// The 32-bit payload of a 48-bit response.
    pub fn status(&self) -> (status: u32)
        ensures
            status == self.r0,
    {
        self.r0
    }

    /// The 16 payload bytes of a 136-bit response. The controller stores
    /// the most significant word in RESP3, so the payload is RESP3, RESP2,
    /// RESP1, RESP0, each word big-endian.
    pub fn card_data(&self) -> (bytes: [u8; 16])
        ensures
            forall|j: int| 0 <= j < 4 ==> {
                &&& #[trigger] bytes@[j] == be_byte(self.r3, j)
                &&& bytes@[4 + j] == be_byte(self.r2, j)
                &&& bytes@[8 + j] == be_byte(self.r1, j)
                &&& bytes@[12 + j] == be_byte(self.r0, j)
            },
    {
        let bytes: [u8; 16] = [
            ((self.r3 >> 24u32) & 0xff) as u8, ((self.r3 >> 16u32) & 0xff) as u8,
            ((self.r3 >> 8u32) & 0xff) as u8, ((self.r3 >> 0u32) & 0xff) as u8,
            ((self.r2 >> 24u32) & 0xff) as u8, ((self.r2 >> 16u32) & 0xff) as u8,
            ((self.r2 >> 8u32) & 0xff) as u8, ((self.r2 >> 0u32) & 0xff) as u8,
            ((self.r1 >> 24u32) & 0xff) as u8, ((self.r1 >> 16u32) & 0xff) as u8,
            ((self.r1 >> 8u32) & 0xff) as u8, ((self.r1 >> 0u32) & 0xff) as u8,
            ((self.r0 >> 24u32) & 0xff) as u8, ((self.r0 >> 16u32) & 0xff) as u8,
            ((self.r0 >> 8u32) & 0xff) as u8, ((self.r0 >> 0u32) & 0xff) as u8,
        ];
        proof {
            assert forall|j: int| 0 <= j < 4 implies {
                &&& #[trigger] bytes@[j] == be_byte(self.r3, j)
                &&& bytes@[4 + j] == be_byte(self.r2, j)
                &&& bytes@[8 + j] == be_byte(self.r1, j)
                &&& bytes@[12 + j] == be_byte(self.r0, j)
            } by {
                if j == 0 {
                } else if j == 1 {
                } else if j == 2 {
                } else {
                }
            }
        }
        bytes
    }
}

/// Fatal R1 card-status bits (bits 31..19 and bit 15).
pub const R1_ERROR_MASK: u32 = 0xfff8_8000;

pub fn r1_has_error(status: u32) -> (error: bool)
    ensures
        error == (status & R1_ERROR_MASK != 0),
{
    status & R1_ERROR_MASK != 0
}

/// CMD register value for `command` (without `CMD_START`).
pub open spec fn command_bits(command: MmcCommand) -> u32 {
    let index = (command.index as u32) & CMD_INDEX_MASK;
    let response = match command.response_type {
        MmcResponseType::NoResponse => 0u32,
        MmcResponseType::R2 => CMD_RESP_EXP | CMD_RESP_LONG,
        MmcResponseType::R1 | MmcResponseType::R1b | MmcResponseType::R6 | MmcResponseType::R7 => CMD_RESP_EXP | CMD_RESP_CRC,
        MmcResponseType::R3 => CMD_RESP_EXP,
    };
    let data = if command.data_present {
        if command.read { CMD_DATA_EXPECTED } else { CMD_DATA_EXPECTED | CMD_DATA_WRITE }
    } else {
        0u32
    };
    let init = if command.init { CMD_SEND_INIT } else { 0u32 };
    let clock = if command.update_clock { CMD_UPDATE_CLOCK } else { 0u32 };
    index | response | data | init | clock
}

/// Clock divider for a target card clock: `ciu / (2 * max(target, 100 kHz))`,
/// clamped to `1..=0xffff`.
pub open spec fn clock_divider_spec(ciu_frequency_hz: u64, frequency_hz: u64) -> u32 {
    let target = if frequency_hz < 100_000 { 100_000 } else { frequency_hz as int };
    let doubled = if target * 2 > u64::MAX { u64::MAX as int } else { target * 2 };
    let quotient = ciu_frequency_hz as int / doubled;
    if quotient < 1 { 1 } else if quotient > 0xffff { 0xffff } else { quotient as u32 }
}

pub fn clock_divider(ciu_frequency_hz: u64, frequency_hz: u64) -> (divider: u32)
    ensures
        divider == clock_divider_spec(ciu_frequency_hz, frequency_hz),
{
    let target = if frequency_hz < 100_000 { 100_000 } else { frequency_hz };
    let doubled = saturating_mul_u64(target, 2);
    let quotient = ciu_frequency_hz / doubled;
    if quotient < 1 {
        1
    } else if quotient > 0xffff {
        0xffff
    } else {
        quotient as u32
    }
}

/// FIFO watermark (in words) for a data phase of `data_length` bytes: the
/// words of the transfer, kept below the FIFO depth, and at least one.
pub open spec fn watermark_spec(data_length: int, fifo_depth: int) -> int {
    let words = (data_length + 3) / 4;
    let capped = if words < fifo_depth - 1 { words } else { fifo_depth - 1 };
    if capped < 1 { 1 } else { capped }
}

/// The controller polls its status registers; it owns the register I/O.
pub struct DwMmcController<I: MmcRegisterIo> {
    pub io: I,
    pub ciu_frequency_hz: u64,
    pub fifo_depth: u32,
    /// Data register (FIFO) offset, chosen from VERID at construction.
    pub fifo_offset: usize,
    /// Every register access and counter reading this controller made, in order.
    pub trace: Ghost<Seq<RegisterAccess>>,
    /// The operations asked of this controller as an MMC host, in order.
    pub host_events: Ghost<Seq<HostEvent>>,
}

/// One access of the controller to its registers or its counter.
pub enum RegisterAccess {
    /// A register read at an offset, with the value it gave.
    Read(usize, u32),
    /// A register write at an offset, with the value written.
    Write(usize, u32),
    /// A reading of the monotonic counter.
    Counter(u64),
}

/// The value a read gave (0 for any other access).
pub open spec fn read_value(access: RegisterAccess) -> u32 {
    match access {
        RegisterAccess::Read(_, value) => value,
        _ => 0,
    }
}

/// Whether a polled `value` ends the poll.
pub open spec fn poll_satisfied(value: u32, mask: u32, until_set: bool) -> bool {
    if until_set { value & mask != 0 } else { value & mask == 0 }
}

/// The accesses of a poll of `register` that has not yet succeeded: reads
/// of that register, none meeting the condition, and counter readings.
pub open spec fn unmet_poll(accesses: Seq<RegisterAccess>, register: usize, mask: u32, until_set: bool) -> bool {
    forall|i: int| 0 <= i < accesses.len() ==> match #[trigger] accesses[i] {
        RegisterAccess::Read(offset, value) => offset == register && !poll_satisfied(value, mask, until_set),
        RegisterAccess::Write(_, _) => false,
        RegisterAccess::Counter(_) => true,
    }
}

/// The accesses of one whole poll of `register`: an unmet poll, possibly
/// ended by a read that meets the condition.
pub open spec fn is_poll(accesses: Seq<RegisterAccess>, register: usize, mask: u32, until_set: bool) -> bool {
    ||| unmet_poll(accesses, register, mask, until_set)
    ||| {
        &&& accesses.len() > 0
        &&& unmet_poll(accesses.drop_last(), register, mask, until_set)
        &&& accesses.last() == RegisterAccess::Read(register, read_value(accesses.last()))
        &&& poll_satisfied(read_value(accesses.last()), mask, until_set)
    }
}

/// What a poll that made `accesses` returns: the value of a final read that
/// met the condition, or a timeout.
pub open spec fn poll_result(accesses: Seq<RegisterAccess>, mask: u32, until_set: bool) -> Result<u32, MmcError> {
    if accesses.len() > 0 && accesses.last() is Read && poll_satisfied(read_value(accesses.last()), mask, until_set) {
        Ok(read_value(accesses.last()))
    } else {
        Err(MmcError::Timeout)
    }
}

/// Interrupt bits that end the wait for a command to complete.
pub open spec fn command_wait_mask() -> u32 {
    INT_CMD_DONE | INT_RESP_CRC | INT_RESP_TIMEOUT | INT_START_BIT | INT_END_BIT
}

/// What a command-completion wait whose interrupt poll made `poll` returns:
/// completion, a CRC or start/end-bit error, or a timeout.
pub open spec fn done_status(poll: Seq<RegisterAccess>) -> Result<(), MmcError> {
    match poll_result(poll, command_wait_mask(), true) {
        Ok(status) => if status & INT_CMD_DONE != 0 {
            Ok(())
        } else if status & (INT_RESP_CRC | INT_START_BIT | INT_END_BIT) != 0 {
            Err(MmcError::CrcError)
        } else {
            Err(MmcError::Timeout)
        },
        Err(_) => Err(MmcError::Timeout),
    }
}

/// The acknowledgement that wait writes after the poll `poll`.
pub open spec fn done_ack(poll: Seq<RegisterAccess>) -> Seq<RegisterAccess> {
    match poll_result(poll, command_wait_mask(), true) {
        Ok(status) => seq![RegisterAccess::Write(REG_RINTSTS, if status & INT_CMD_DONE != 0 {
            INT_CMD_DONE
        } else if status & (INT_RESP_CRC | INT_START_BIT | INT_END_BIT) != 0 {
            status & command_wait_mask()
        } else {
            INT_RESP_TIMEOUT
        })],
        Err(_) => Seq::empty(),
    }
}

/// FIFOTH value for a receive watermark.
pub open spec fn fifoth_spec(watermark: u32) -> u32 {
    ((watermark & 0xfff) << 16u32) | (watermark & 0xfff)
}

/// The command passes the checks done before anything is written: a data
/// phase comes with a length that is a non-zero multiple of 4.
pub open spec fn command_accepted(command: MmcCommand) -> bool {
    command.data_present ==> (command.data_length matches Some(length) && length != 0 && length % 4 == 0)
}

/// The writes that issue `command`: for a data phase, block size, byte
/// count and FIFO watermark; then argument and command with the start bit.
pub open spec fn command_writes(command: MmcCommand, fifo_depth: u32) -> Seq<RegisterAccess> {
    let length = command.data_length.unwrap();
    let data = if command.data_present {
        seq![
            RegisterAccess::Write(REG_BLKSIZ, length as u32),
            RegisterAccess::Write(REG_BYTCNT, length as u32),
            RegisterAccess::Write(REG_FIFOTH, fifoth_spec(watermark_spec(length as int, fifo_depth as int) as u32)),
        ]
    } else {
        Seq::empty()
    };
    data + seq![RegisterAccess::Write(REG_CMDARG, command.argument), RegisterAccess::Write(REG_CMD, command_bits(command) | CMD_START)]
}

/// Response registers read for a response type, in order.
pub open spec fn response_registers(response_type: MmcResponseType) -> Seq<usize> {
    match response_type {
        MmcResponseType::NoResponse => Seq::empty(),
        MmcResponseType::R2 => seq![REG_RESP0, REG_RESP1, REG_RESP2, REG_RESP3],
        _ => seq![REG_RESP0],
    }
}

/// `reads` reads the response registers of `response_type`, in order.
pub open spec fn reads_response(reads: Seq<RegisterAccess>, response_type: MmcResponseType) -> bool {
    &&& reads.len() == response_registers(response_type).len()
    &&& forall|i: int| 0 <= i < reads.len() ==> #[trigger] reads[i] == RegisterAccess::Read(
        response_registers(response_type)[i], read_value(reads[i]))
}

/// The response assembled from those reads (zero words where none is read).
pub open spec fn response_of(reads: Seq<RegisterAccess>, response_type: MmcResponseType) -> MmcResponse {
    match response_type {
        MmcResponseType::NoResponse => MmcResponse { r0: 0, r1: 0, r2: 0, r3: 0 },
        MmcResponseType::R2 => MmcResponse {
            r0: read_value(reads[0]),
            r1: read_value(reads[1]),
            r2: read_value(reads[2]),
            r3: read_value(reads[3]),
        },
        _ => MmcResponse { r0: read_value(reads[0]), r1: 0, r2: 0, r3: 0 },
    }
}

/// `after` is `before` followed by an ordinary (not clock-update) command:
/// its writes, the completion poll `poll` and its acknowledgement, and on
/// completion the response reads; `result` is the wait's error, or the
/// response, refused as a card error when an R1 status has error bits.
pub open spec fn command_exchange(before: Seq<RegisterAccess>, command: MmcCommand, fifo_depth: u32,
    poll: Seq<RegisterAccess>, after: Seq<RegisterAccess>, result: Result<MmcResponse, MmcError>) -> bool {
    let acked = before + command_writes(command, fifo_depth) + poll + done_ack(poll);
    let reads = after.skip(acked.len() as int);
    let response = response_of(reads, command.response_type);
    &&& is_poll(poll, REG_RINTSTS, command_wait_mask(), true)
    &&& if done_status(poll) is Err {
        after == acked && result == Err::<MmcResponse, MmcError>(done_status(poll)->Err_0)
    } else {
        &&& after.len() >= acked.len()
        &&& after.take(acked.len() as int) == acked
        &&& reads_response(reads, command.response_type)
        &&& result == if command.response_type == MmcResponseType::R1 && response.r0 & R1_ERROR_MASK != 0 {
            Err::<MmcResponse, MmcError>(MmcError::CardError)
        } else {
            Ok::<MmcResponse, MmcError>(response)
        }
    }
}

/// `after` is `before` followed by what programming the card clock with
/// `divider` does: the data-busy poll `busy`; then the clock disabled and
/// applied, with the clock-update poll `first`; then the divider and the
/// enable written and applied, with the poll `second`. It stops at the
/// first poll that times out, and `result` says whether all three ended.
pub open spec fn clock_sequence(before: Seq<RegisterAccess>, busy: Seq<RegisterAccess>, first: Seq<RegisterAccess>,
    second: Seq<RegisterAccess>, after: Seq<RegisterAccess>, divider: u32, result: Result<(), MmcError>) -> bool {
    let disable = seq![RegisterAccess::Write(REG_CLKENA, 0)] + update_clock_writes();
    let enable = seq![RegisterAccess::Write(REG_CLKDIV, divider), RegisterAccess::Write(REG_CLKENA, CLKENA_ENABLE)]
        + update_clock_writes();
    &&& is_poll(busy, REG_STATUS, STATUS_BUSY, false)
    &&& if poll_result(busy, STATUS_BUSY, false) is Err {
        after == before + busy && result == Err::<(), MmcError>(MmcError::Timeout)
    } else {
        &&& is_poll(first, REG_CMD, CMD_START, false)
        &&& if poll_result(first, CMD_START, false) is Err {
            after == before + busy + disable + first && result == Err::<(), MmcError>(MmcError::Timeout)
        } else {
            &&& is_poll(second, REG_CMD, CMD_START, false)
            &&& after == before + busy + disable + first + enable + second
            &&& if poll_result(second, CMD_START, false) is Err {
                result == Err::<(), MmcError>(MmcError::Timeout)
            } else {
                result is Ok
            }
        }
    }
}

/// The command that makes the controller take over new clock settings.
pub open spec fn update_clock_command() -> MmcCommand {
    MmcCommand {
        index: 0,
        argument: 0,
        response_type: MmcResponseType::NoResponse,
        data_present: false,
        read: false,
        init: false,
        update_clock: true,
        data_length: None,
    }
}

/// The writes that send the clock-update command.
pub open spec fn update_clock_writes() -> Seq<RegisterAccess> {
    seq![RegisterAccess::Write(REG_CMDARG, 0), RegisterAccess::Write(REG_CMD, command_bits(update_clock_command()) | CMD_START)]
}

/// The words read from the FIFO at `fifo_offset`, in order.
pub open spec fn fifo_reads(accesses: Seq<RegisterAccess>, fifo_offset: usize) -> Seq<u32>
    decreases accesses.len(),
{
    if accesses.len() == 0 {
        Seq::empty()
    } else {
        let earlier = fifo_reads(accesses.drop_last(), fifo_offset);
        match accesses.last() {
            RegisterAccess::Read(offset, value) => if offset == fifo_offset { earlier.push(value) } else { earlier },
            _ => earlier,
        }
    }
}

/// Byte `j` (0 to 3) of `word`, least significant first.
pub open spec fn le_byte(word: u32, j: int) -> u8 {
    if j == 0 {
        (word & 0xff) as u8
    } else if j == 1 {
        ((word >> 8u32) & 0xff) as u8
    } else if j == 2 {
        ((word >> 16u32) & 0xff) as u8
    } else {
        ((word >> 24u32) & 0xff) as u8
    }
}

/// The error a data-phase interrupt status reports, by priority: data CRC,
/// data timeout, FIFO underrun, FIFO overrun.
pub open spec fn data_error(status: u32) -> Option<MmcError> {
    if status & INT_DATA_CRC != 0 {
        Some(MmcError::CrcError)
    } else if status & INT_DATA_TIMEOUT != 0 {
        Some(MmcError::Timeout)
    } else if status & INT_FIFO_UNDERRUN != 0 {
        Some(MmcError::FifoUnderrun)
    } else if status & INT_FIFO_OVERRUN != 0 {
        Some(MmcError::FifoOverrun)
    } else {
        None
    }
}

/// The interrupt bits acknowledged after such an error.
pub open spec fn data_error_ack(status: u32) -> u32 {
    if status & INT_DATA_CRC != 0 {
        INT_DATA_CRC | INT_DATA_OVER
    } else if status & INT_DATA_TIMEOUT != 0 {
        INT_DATA_TIMEOUT | INT_DATA_OVER
    } else if status & INT_FIFO_UNDERRUN != 0 {
        INT_FIFO_UNDERRUN | INT_DATA_OVER
    } else {
        INT_FIFO_OVERRUN | INT_DATA_OVER
    }
}

/// `access` reads an interrupt status that reports a data-phase error.
pub open spec fn data_error_read(access: RegisterAccess) -> bool {
    access is Read && access->Read_0 == REG_RINTSTS && data_error(read_value(access)) is Some
}

/// No access of `accesses` reads a data-phase error.
pub open spec fn no_data_error(accesses: Seq<RegisterAccess>) -> bool {
    forall|i: int| 0 <= i < accesses.len() ==> !#[trigger] data_error_read(accesses[i])
}

/// Whether a data-phase interrupt status reports an error.
fn data_error_status(status: u32) -> (error: bool)
    ensures
        error == data_error(status) is Some,
{
    status & INT_DATA_CRC != 0 || status & INT_DATA_TIMEOUT != 0 || status & INT_FIFO_UNDERRUN != 0
        || status & INT_FIFO_OVERRUN != 0
}

/// A status that does not end the data-ready wait reports no error.
proof fn lemma_unmet_no_data_error(status: u32)
    requires
        !poll_satisfied(status, DATA_READY_MASK, true),
    ensures
        data_error(status) is None,
{
    assert(status & 0x1aa8u32 == 0 ==> status & 0x80u32 == 0 && status & 0x200u32 == 0 && status & 0x800u32 == 0
        && status & 0x1000u32 == 0) by (bit_vector);
}

/// The reads of a data-ready wait report no error, but for a last read
/// that ends it.
proof fn lemma_poll_data_errors(poll: Seq<RegisterAccess>)
    requires
        is_poll(poll, REG_RINTSTS, DATA_READY_MASK, true),
    ensures
        poll_result(poll, DATA_READY_MASK, true) is Err ==> no_data_error(poll),
        poll.len() > 0 ==> no_data_error(poll.drop_last()),
        poll_result(poll, DATA_READY_MASK, true) matches Ok(status) ==> poll.len() > 0
            && poll.last() == RegisterAccess::Read(REG_RINTSTS, status),
{
    if unmet_poll(poll, REG_RINTSTS, DATA_READY_MASK, true) {
        assert forall|i: int| 0 <= i < poll.len() implies !#[trigger] data_error_read(poll[i]) by {
            if poll[i] is Read {
                lemma_unmet_no_data_error(read_value(poll[i]));
            }
        }
        if poll.len() > 0 {
            assert forall|i: int| 0 <= i < poll.drop_last().len() implies !#[trigger] data_error_read(poll.drop_last()[i]) by {
                assert(poll.drop_last()[i] == poll[i]);
                if poll[i] is Read {
                    lemma_unmet_no_data_error(read_value(poll[i]));
                }
            }
            assert(poll[poll.len() - 1] == poll.last());
        }
    } else {
        let rest = poll.drop_last();
        assert forall|i: int| 0 <= i < rest.len() implies !#[trigger] data_error_read(rest[i]) by {
            if rest[i] is Read {
                lemma_unmet_no_data_error(read_value(rest[i]));
            }
        }
    }
}

proof fn lemma_fifo_reads_append(a: Seq<RegisterAccess>, b: Seq<RegisterAccess>, fifo_offset: usize)
    ensures
        fifo_reads(a + b, fifo_offset) == fifo_reads(a, fifo_offset) + fifo_reads(b, fifo_offset),
    decreases b.len(),
{
    if b.len() == 0 {
        assert(a + b =~= a);
        assert(fifo_reads(a, fifo_offset) + fifo_reads(b, fifo_offset) =~= fifo_reads(a, fifo_offset));
    } else {
        assert((a + b).drop_last() =~= a + b.drop_last());
        assert((a + b).last() == b.last());
        lemma_fifo_reads_append(a, b.drop_last(), fifo_offset);
        assert(fifo_reads(a + b, fifo_offset) =~= fifo_reads(a, fifo_offset) + fifo_reads(b, fifo_offset));
    }
}

proof fn lemma_fifo_reads_push(accesses: Seq<RegisterAccess>, access: RegisterAccess, fifo_offset: usize)
    ensures
        fifo_reads(accesses.push(access), fifo_offset) == (if access is Read && access->Read_0 == fifo_offset {
            fifo_reads(accesses, fifo_offset).push(read_value(access))
        } else {
            fifo_reads(accesses, fifo_offset)
        }),
{
    assert(accesses.push(access).drop_last() =~= accesses);
}

/// A poll of another register reads nothing from the FIFO.
proof fn lemma_poll_reads_no_fifo(accesses: Seq<RegisterAccess>, register: usize, mask: u32, until_set: bool, fifo_offset: usize)
    requires
        is_poll(accesses, register, mask, until_set),
        register != fifo_offset,
    ensures
        fifo_reads(accesses, fifo_offset) == Seq::<u32>::empty(),
    decreases accesses.len(),
{
    if accesses.len() > 0 {
        let rest = accesses.drop_last();
        assert(unmet_poll(rest, register, mask, until_set)) by {
            assert forall|i: int| 0 <= i < rest.len() implies match #[trigger] rest[i] {
                RegisterAccess::Read(offset, value) => offset == register && !poll_satisfied(value, mask, until_set),
                RegisterAccess::Write(_, _) => false,
                RegisterAccess::Counter(_) => true,
            } by {
                assert(rest[i] == accesses[i]);
            }
        }
        if unmet_poll(accesses, register, mask, until_set) {
            assert(accesses[accesses.len() - 1] == accesses.last());
        }
        lemma_poll_reads_no_fifo(rest, register, mask, until_set, fifo_offset);
    }
}

/// The FIFO offset for a controller reporting `verid`.
pub open spec fn fifo_offset_for(verid: u32) -> usize {
    if verid & 0xffff >= DW_MMC_240A { DATA_240A_OFFSET } else { DATA_OFFSET }
}

/// Interrupt bits that end a wait for command completion.
pub const COMMAND_DONE_MASK: u32 = 0xa144;
/// Interrupt bits that end a wait for FIFO data.
pub const DATA_READY_MASK: u32 = 0x1aa8;

impl<I: MmcRegisterIo> DwMmcController<I> {
    pub open spec fn wf(&self) -> bool {
        &&& (self.fifo_offset == DATA_OFFSET || self.fifo_offset == DATA_240A_OFFSET)
        &&& self.fifo_depth >= 1
    }

    /// Wraps `io`, reading VERID to locate the FIFO.
    pub fn new(io: I, ciu_frequency_hz: u64, fifo_depth: u32) -> (controller: Self)
        ensures
            controller.wf(),
            controller.ciu_frequency_hz == ciu_frequency_hz,
            controller.fifo_depth == (if fifo_depth < 1 { 1 } else { fifo_depth }),
            controller.trace@ == seq![RegisterAccess::Read(REG_VERID, read_value(controller.trace@[0]))],
            controller.host_events@ == Seq::<HostEvent>::empty(),
            controller.fifo_offset == fifo_offset_for(read_value(controller.trace@[0])),
    {
        let mut io = io;
        let raw = io.read32(REG_VERID);
        let verid = raw & 0xffff;
        let fifo_offset = if verid >= DW_MMC_240A { DATA_240A_OFFSET } else { DATA_OFFSET };
        DwMmcController {
            io,
            ciu_frequency_hz,
            fifo_depth: if fifo_depth < 1 { 1 } else { fifo_depth },
            fifo_offset,
            trace: Ghost(Seq::empty().push(RegisterAccess::Read(REG_VERID, raw))),
            host_events: Ghost(Seq::empty()),
        }
    }

    /// Reads the register at `offset`, noting the read.
    fn read_register(&mut self, offset: usize) -> (value: u32)
        ensures
            final(self).trace@ == old(self).trace@.push(RegisterAccess::Read(offset, value)),
            final(self).fifo_offset == old(self).fifo_offset,
            final(self).fifo_depth == old(self).fifo_depth,
            final(self).ciu_frequency_hz == old(self).ciu_frequency_hz,
            final(self).host_events == old(self).host_events,
    {
        let value = self.io.read32(offset);
        proof {
            self.trace@ = self.trace@.push(RegisterAccess::Read(offset, value));
        }
        value
    }

    /// Writes `value` to the register at `offset`, noting the write.
    fn write_register(&mut self, offset: usize, value: u32)
        ensures
            final(self).trace@ == old(self).trace@.push(RegisterAccess::Write(offset, value)),
            final(self).fifo_offset == old(self).fifo_offset,
            final(self).fifo_depth == old(self).fifo_depth,
            final(self).ciu_frequency_hz == old(self).ciu_frequency_hz,
            final(self).host_events == old(self).host_events,
    {
        self.io.write32(offset, value);
        proof {
            self.trace@ = self.trace@.push(RegisterAccess::Write(offset, value));
        }
    }

    /// Reads the counter, noting the reading.
    fn read_counter(&mut self) -> (cycles: u64)
        ensures
            final(self).trace@ == old(self).trace@.push(RegisterAccess::Counter(cycles)),
            final(self).fifo_offset == old(self).fifo_offset,
            final(self).fifo_depth == old(self).fifo_depth,
            final(self).ciu_frequency_hz == old(self).ciu_frequency_hz,
            final(self).host_events == old(self).host_events,
    {
        let cycles = self.io.counter();
        proof {
            self.trace@ = self.trace@.push(RegisterAccess::Counter(cycles));
        }
        cycles
    }

    /// Powers the card slot (PWREN = 1).
    pub fn power_on(&mut self) -> (result: Result<(), MmcError>)
        ensures
            result is Ok,
            final(self).trace@ == old(self).trace@.push(RegisterAccess::Write(REG_PWREN, 1)),
            final(self).fifo_offset == old(self).fifo_offset,
            final(self).fifo_depth == old(self).fifo_depth,
            final(self).ciu_frequency_hz == old(self).ciu_frequency_hz,
            final(self).host_events == old(self).host_events,
    {
        self.write_register(REG_PWREN, 1);
        Ok(())
    }

    /// Resets controller and FIFO; the reset bits self-clear when done.
    pub fn reset(&mut self) -> (result: Result<(), MmcError>)
        ensures
            result is Ok || result == Err::<(), MmcError>(MmcError::Timeout),
            final(self).trace@.len() > old(self).trace@.len(),
            final(self).trace@.take(old(self).trace@.len() + 1int) == old(self).trace@.push(
                RegisterAccess::Write(REG_CTRL, CTRL_RESET | CTRL_FIFO_RESET)),
            is_poll(final(self).trace@.skip(old(self).trace@.len() + 1int), REG_CTRL, CTRL_RESET | CTRL_FIFO_RESET, false),
            result is Ok <==> poll_result(final(self).trace@.skip(old(self).trace@.len() + 1int),
                CTRL_RESET | CTRL_FIFO_RESET, false) is Ok,
            final(self).fifo_offset == old(self).fifo_offset,
            final(self).fifo_depth == old(self).fifo_depth,
            final(self).ciu_frequency_hz == old(self).ciu_frequency_hz,
            final(self).host_events == old(self).host_events,
    {
        self.write_register(REG_CTRL, CTRL_RESET | CTRL_FIFO_RESET);
        let ghost written = self.trace@;
        let polled = self.poll_for(REG_CTRL, CTRL_RESET | CTRL_FIFO_RESET, false);
        proof {
            assert(self.trace@.take(old(self).trace@.len() + 1int) =~= self.trace@.take(written.len() as int));
        }
        match polled {
            Ok(_) => Ok(()),
            Err(error) => Err(error),
        }
    }

    /// Masks every interrupt and clears the raw status.
    pub fn disable_interrupts(&mut self)
        ensures
            final(self).trace@ == old(self).trace@.push(RegisterAccess::Write(REG_INTMASK, 0)).push(
                RegisterAccess::Write(REG_RINTSTS, u32::MAX)),
            final(self).fifo_offset == old(self).fifo_offset,
            final(self).fifo_depth == old(self).fifo_depth,
            final(self).ciu_frequency_hz == old(self).ciu_frequency_hz,
            final(self).host_events == old(self).host_events,
    {
        self.write_register(REG_INTMASK, 0);
        self.write_register(REG_RINTSTS, u32::MAX);
    }

    /// Raw interrupt status.
    pub fn raw_interrupts(&mut self) -> (status: u32)
        ensures
            final(self).trace@ == old(self).trace@.push(RegisterAccess::Read(REG_RINTSTS, status)),
            final(self).fifo_offset == old(self).fifo_offset,
            final(self).fifo_depth == old(self).fifo_depth,
            final(self).ciu_frequency_hz == old(self).ciu_frequency_hz,
            final(self).host_events == old(self).host_events,
    {
        self.read_register(REG_RINTSTS)
    }

    /// Programs the card clock: disable and apply, then divider plus enable
    /// and apply again.
    pub fn set_clock(&mut self, frequency_hz: u64) -> (result: Result<(), MmcError>)
        ensures
            result is Ok || result matches Err(MmcError::Timeout) || result matches Err(MmcError::CrcError),
            exists|busy: Seq<RegisterAccess>, first: Seq<RegisterAccess>, second: Seq<RegisterAccess>|
                #[trigger] clock_sequence(old(self).trace@, busy, first, second, final(self).trace@,
                clock_divider_spec(old(self).ciu_frequency_hz, frequency_hz), result),
            final(self).fifo_offset == old(self).fifo_offset,
            final(self).fifo_depth == old(self).fifo_depth,
            final(self).ciu_frequency_hz == old(self).ciu_frequency_hz,
            final(self).host_events == old(self).host_events,
    {
        let ghost before = old(self).trace@;
        let ghost divider_spec = clock_divider_spec(old(self).ciu_frequency_hz, frequency_hz);
        let ghost disable = seq![RegisterAccess::Write(REG_CLKENA, 0)] + update_clock_writes();
        let ghost enable = seq![RegisterAccess::Write(REG_CLKDIV, divider_spec), RegisterAccess::Write(REG_CLKENA, CLKENA_ENABLE)]
            + update_clock_writes();
        let busy_result = self.wait_data_busy_clear();
        let ghost busy = self.trace@.skip(before.len() as int);
        proof {
            assert(self.trace@ =~= before + busy);
        }
        match busy_result {
            Ok(()) => {},
            Err(error) => {
                proof {
                    assert(clock_sequence(before, busy, Seq::empty(), Seq::empty(), self.trace@, divider_spec, Err(error)));
                }
                return Err(error);
            },
        }
        self.write_register(REG_CLKENA, 0);
        let ghost disabled = self.trace@;
        let first_result = self.send_update_clock();
        let ghost first = self.trace@.skip(disabled.len() + 2int);
        proof {
            assert(disabled =~= before + busy + seq![RegisterAccess::Write(REG_CLKENA, 0)]);
            assert(self.trace@ =~= self.trace@.take(disabled.len() + 2int) + first);
            assert(disabled + update_clock_writes() =~= before + busy + disable);
            assert(self.trace@ =~= before + busy + disable + first);
        }
        match first_result {
            Ok(()) => {},
            Err(error) => {
                proof {
                    assert(clock_sequence(before, busy, first, Seq::empty(), self.trace@, divider_spec, Err(error)));
                }
                return Err(error);
            },
        }
        let divider = clock_divider(self.ciu_frequency_hz, frequency_hz);
        self.write_register(REG_CLKDIV, divider);
        self.write_register(REG_CLKENA, CLKENA_ENABLE);
        let ghost enabled = self.trace@;
        let second_result = self.send_update_clock();
        let ghost second = self.trace@.skip(enabled.len() + 2int);
        proof {
            assert(enabled =~= before + busy + disable + first + seq![RegisterAccess::Write(REG_CLKDIV, divider_spec),
                RegisterAccess::Write(REG_CLKENA, CLKENA_ENABLE)]);
            assert(self.trace@ =~= self.trace@.take(enabled.len() + 2int) + second);
            assert(enabled + update_clock_writes() =~= before + busy + disable + first + enable);
            assert(self.trace@ =~= before + busy + disable + first + enable + second);
        }
        match second_result {
            Ok(()) => {},
            Err(error) => {
                proof {
                    assert(clock_sequence(before, busy, first, second, self.trace@, divider_spec, Err(error)));
                }
                return Err(error);
            },
        }
        proof {
            assert(clock_sequence(before, busy, first, second, self.trace@, divider_spec, Ok(())));
        }
        Ok(())
    }

    fn send_update_clock(&mut self) -> (result: Result<(), MmcError>)
        ensures
            result is Ok || result matches Err(MmcError::Timeout),
            final(self).trace@.len() >= old(self).trace@.len() + 2,
            final(self).trace@.take(old(self).trace@.len() + 2int) == old(self).trace@ + update_clock_writes(),
            is_poll(final(self).trace@.skip(old(self).trace@.len() + 2int), REG_CMD, CMD_START, false),
            result is Ok <==> poll_result(final(self).trace@.skip(old(self).trace@.len() + 2int), CMD_START, false) is Ok,
            final(self).fifo_offset == old(self).fifo_offset,
            final(self).fifo_depth == old(self).fifo_depth,
            final(self).ciu_frequency_hz == old(self).ciu_frequency_hz,
            final(self).host_events == old(self).host_events,
    {
        let command = MmcCommand {
            index: 0,
            argument: 0,
            response_type: MmcResponseType::NoResponse,
            data_present: false,
            read: false,
            init: false,
            update_clock: true,
            data_length: None,
        };
        match self.send_command(command) {
            Ok(_) => Ok(()),
            Err(error) => Err(error),
        }
    }

    /// Selects a 1, 4 or 8-bit data bus.
    pub fn set_bus_width(&mut self, bus_width: u8) -> (result: Result<(), MmcError>)
        ensures
            result is Ok <==> (bus_width == 1 || bus_width == 4 || bus_width == 8),
            result is Err ==> result == Err::<(), MmcError>(MmcError::InvalidArgument),
            result is Ok ==> final(self).trace@ == old(self).trace@.push(RegisterAccess::Write(REG_CTYPE,
                if bus_width == 8 { 0x1_0000u32 } else if bus_width == 4 { 1u32 } else { 0u32 })),
            result is Err ==> final(self).trace@ == old(self).trace@,
            final(self).fifo_offset == old(self).fifo_offset,
            final(self).fifo_depth == old(self).fifo_depth,
            final(self).ciu_frequency_hz == old(self).ciu_frequency_hz,
            final(self).host_events == old(self).host_events,
    {
        if bus_width != 1 && bus_width != 4 && bus_width != 8 {
            return Err(MmcError::InvalidArgument);
        }
        self.write_register(REG_CTYPE, ctype_for_width(bus_width));
        Ok(())
    }

    /// Programs block size, byte count and FIFO watermark for a data phase.
    fn configure_data_transfer(&mut self, data_length: usize) -> (result: Result<(), MmcError>)
        ensures
            result is Ok <==> (data_length != 0 && data_length % 4 == 0),
            result is Err ==> result == Err::<(), MmcError>(MmcError::InvalidArgument),
            result is Err ==> final(self).trace@ == old(self).trace@,
            result is Ok ==> final(self).trace@ == old(self).trace@ + seq![
                RegisterAccess::Write(REG_BLKSIZ, data_length as u32),
                RegisterAccess::Write(REG_BYTCNT, data_length as u32),
                RegisterAccess::Write(REG_FIFOTH, fifoth_spec(watermark_spec(data_length as int, old(self).fifo_depth as int) as u32)),
            ],
            final(self).fifo_offset == old(self).fifo_offset,
            final(self).fifo_depth == old(self).fifo_depth,
            final(self).ciu_frequency_hz == old(self).ciu_frequency_hz,
            final(self).host_events == old(self).host_events,
    {
        if data_length == 0 || data_length % 4 != 0 {
            return Err(MmcError::InvalidArgument);
        }
        let watermark = fifo_watermark(data_length, self.fifo_depth);
        let ghost before = self.trace@;
        self.write_register(REG_BLKSIZ, data_length as u32);
        self.write_register(REG_BYTCNT, data_length as u32);
        self.write_register(REG_FIFOTH, fifoth_for(watermark));
        proof {
            assert(watermark_spec(data_length as int, old(self).fifo_depth as int) as u32 == watermark);
            assert(self.trace@ =~= before + seq![
                RegisterAccess::Write(REG_BLKSIZ, data_length as u32),
                RegisterAccess::Write(REG_BYTCNT, data_length as u32),
                RegisterAccess::Write(REG_FIFOTH, fifoth_spec(watermark)),
            ]);
        }
        Ok(())
    }

    /// Sends `command` and waits for its response.
    pub fn send_command(&mut self, command: MmcCommand) -> (result: Result<MmcResponse, MmcError>)
        ensures
            command.data_present && command.data_length is None ==> result == Err::<MmcResponse, MmcError>(MmcError::InvalidArgument),
            command.data_present && command.data_length.is_some()
                && (command.data_length.unwrap() == 0 || command.data_length.unwrap() % 4 != 0)
                ==> result == Err::<MmcResponse, MmcError>(MmcError::InvalidArgument),
            result matches Err(error) ==> (error is Timeout || error is CrcError || error is InvalidArgument || error is CardError),
            command.update_clock ==> result is Err || result == Ok::<MmcResponse, MmcError>(MmcResponse::zeroed_spec()),
            result matches Err(MmcError::InvalidArgument) ==> command.data_present,
            result matches Err(MmcError::CardError) ==> command.response_type == MmcResponseType::R1,
            !command_accepted(command) ==> final(self).trace@ == old(self).trace@,
            command_accepted(command) && command.update_clock ==> {
                let sent = old(self).trace@ + command_writes(command, old(self).fifo_depth);
                &&& final(self).trace@.len() >= sent.len()
                &&& final(self).trace@.take(sent.len() as int) == sent
                &&& is_poll(final(self).trace@.skip(sent.len() as int), REG_CMD, CMD_START, false)
                &&& result is Ok <==> poll_result(final(self).trace@.skip(sent.len() as int), CMD_START, false) is Ok
                &&& result is Err ==> result == Err::<MmcResponse, MmcError>(MmcError::Timeout)
            },
            command_accepted(command) && !command.update_clock ==> exists|poll: Seq<RegisterAccess>|
                #[trigger] command_exchange(old(self).trace@, command, old(self).fifo_depth, poll, final(self).trace@, result),
            result matches Ok(response) ==> {
                &&& command.response_type == MmcResponseType::R1 ==> response.r0 & R1_ERROR_MASK == 0
                &&& command.response_type == MmcResponseType::NoResponse ==> response == MmcResponse { r0: 0, r1: 0, r2: 0, r3: 0 }
                &&& command.response_type != MmcResponseType::R2 ==> response.r1 == 0 && response.r2 == 0 && response.r3 == 0
            },
            final(self).fifo_offset == old(self).fifo_offset,
            final(self).fifo_depth == old(self).fifo_depth,
            final(self).ciu_frequency_hz == old(self).ciu_frequency_hz,
            final(self).host_events == old(self).host_events,
    {
        let ghost before = self.trace@;
        if command.data_present {
            let data_length = match command.data_length {
                Some(length) => length,
                None => {
                    return Err(MmcError::InvalidArgument);
                },
            };
            match self.configure_data_transfer(data_length) {
                Ok(()) => {},
                Err(error) => {
                    return Err(error);
                },
            }
        }
        let cmd_value = build_command_value(&command) | CMD_START;
        self.write_register(REG_CMDARG, command.argument);
        self.write_register(REG_CMD, cmd_value);
        let ghost sent = self.trace@;
        proof {
            assert(sent =~= before + command_writes(command, self.fifo_depth));
        }

        if command.update_clock {
            // A clock update raises no command-done interrupt: the controller
            // signals it only by clearing CMD_START.
            let polled = self.poll_for(REG_CMD, CMD_START, false);
            match polled {
                Ok(_) => {},
                Err(error) => {
                    return Err(error);
                },
            }
            assert(0u32 & R1_ERROR_MASK == 0) by (bit_vector);
            return Ok(MmcResponse::zeroed());
        }
        let done = self.poll_command_done();
        let ghost poll = choose|poll: Seq<RegisterAccess>| #[trigger] is_poll(poll, REG_RINTSTS, command_wait_mask(), true)
            && self.trace@ == sent + poll + done_ack(poll) && done == done_status(poll);
        match done {
            Ok(()) => {},
            Err(error) => {
                proof {
                    assert(command_exchange(before, command, self.fifo_depth, poll, self.trace@, Err(error)));
                }
                return Err(error);
            },
        }
        let ghost acked = self.trace@;

        let mut response = MmcResponse::zeroed();
        match command.response_type {
            MmcResponseType::NoResponse => {},
            MmcResponseType::R2 => {
                response.r0 = self.read_register(REG_RESP0);
                response.r1 = self.read_register(REG_RESP1);
                response.r2 = self.read_register(REG_RESP2);
                response.r3 = self.read_register(REG_RESP3);
                proof {
                    assert(self.trace@.skip(acked.len() as int) =~= seq![
                        RegisterAccess::Read(REG_RESP0, response.r0),
                        RegisterAccess::Read(REG_RESP1, response.r1),
                        RegisterAccess::Read(REG_RESP2, response.r2),
                        RegisterAccess::Read(REG_RESP3, response.r3),
                    ]);
                }
            },
            MmcResponseType::R1 | MmcResponseType::R1b | MmcResponseType::R3 | MmcResponseType::R6 | MmcResponseType::R7 => {
                response.r0 = self.read_register(REG_RESP0);
                proof {
                    assert(self.trace@.skip(acked.len() as int) =~= seq![RegisterAccess::Read(REG_RESP0, response.r0)]);
                }
            },
        }
        proof {
            let reads = self.trace@.skip(acked.len() as int);
            if command.response_type == MmcResponseType::NoResponse {
                assert(reads =~= Seq::<RegisterAccess>::empty());
            }
            assert(self.trace@.take(acked.len() as int) =~= acked);
            assert(reads_response(reads, command.response_type));
            assert(response == response_of(reads, command.response_type));
        }
        if command.response_type == MmcResponseType::R1 && r1_has_error(response.r0) {
            proof {
                assert(command_exchange(before, command, self.fifo_depth, poll, self.trace@, Err(MmcError::CardError)));
            }
            return Err(MmcError::CardError);
        }
        proof {
            assert(command_exchange(before, command, self.fifo_depth, poll, self.trace@, Ok(response)));
        }
        Ok(response)
    }

    /// Polled single-block read of `output.len()` bytes from the FIFO,
    /// driven by the RX-request and data-over interrupts.
    pub fn read_block_data(&mut self, output: &mut [u8]) -> (result: Result<(), MmcError>)
        requires
            self.wf(),
        ensures
            final(output)@.len() == old(output)@.len(),
            (old(output)@.len() == 0 || old(output)@.len() % 4 != 0) <==> result == Err::<(), MmcError>(MmcError::InvalidArgument),
            result matches Err(error) ==> (error is InvalidArgument || error is Timeout || error is CrcError
                || error is FifoUnderrun || error is FifoOverrun),
            final(self).trace@.len() >= old(self).trace@.len(),
            final(self).trace@.take(old(self).trace@.len() as int) == old(self).trace@,
            old(output)@.len() != 0 && old(output)@.len() % 4 == 0 ==> (result is Ok <==> {
                let accesses = final(self).trace@.skip(old(self).trace@.len() as int);
                no_data_error(accesses) && fifo_reads(accesses, old(self).fifo_offset).len() * 4 == old(output)@.len()
            }),
            forall|i: int| 0 <= i < final(self).trace@.len() - old(self).trace@.len()
                && #[trigger] data_error_read(final(self).trace@.skip(old(self).trace@.len() as int)[i]) ==> {
                let accesses = final(self).trace@.skip(old(self).trace@.len() as int);
                let status = read_value(accesses[i]);
                &&& result == Err::<(), MmcError>(data_error(status)->Some_0)
                &&& accesses.len() == i + 2
                &&& accesses[i + 1] == RegisterAccess::Write(REG_RINTSTS, data_error_ack(status))
            },
            result is Ok ==> {
                let words = fifo_reads(final(self).trace@.skip(old(self).trace@.len() as int), old(self).fifo_offset);
                &&& final(self).trace@.take(old(self).trace@.len() as int) == old(self).trace@
                &&& words.len() * 4 == old(output)@.len()
                &&& forall|k: int| 0 <= k < old(output)@.len() ==> #[trigger] final(output)@[k] == le_byte(words[k / 4], k % 4)
            },
            final(self).fifo_offset == old(self).fifo_offset,
            final(self).fifo_depth == old(self).fifo_depth,
            final(self).ciu_frequency_hz == old(self).ciu_frequency_hz,
            final(self).host_events == old(self).host_events,
    {
        if output.len() == 0 || output.len() % 4 != 0 {
            proof {
                assert(self.trace@.take(old(self).trace@.len() as int) =~= old(self).trace@);
            }
            return Err(MmcError::InvalidArgument);
        }
        let words = output.len() / 4;
        let mut received: usize = 0;
        let mut rounds: usize = 0;
        let ghost start = old(self).trace@.len() as int;
        let ghost fifo = self.fifo_offset;
        proof {
            assert(self.trace@.skip(start) =~= Seq::<RegisterAccess>::empty());
            assert(self.trace@.take(start) =~= old(self).trace@);
        }
        while received < words && rounds < POLL_COUNT_CAP
            invariant
                self.wf(),
                received <= words,
                rounds <= POLL_COUNT_CAP,
                words * 4 == output@.len(),
                output@.len() <= usize::MAX,
                output@.len() == old(output)@.len(),
                self.fifo_offset == old(self).fifo_offset,
                self.fifo_depth == old(self).fifo_depth,
                self.ciu_frequency_hz == old(self).ciu_frequency_hz,
                self.host_events == old(self).host_events,
                fifo == self.fifo_offset,
                start == old(self).trace@.len(),
                self.trace@.len() >= start,
                self.trace@.take(start) == old(self).trace@,
                fifo_reads(self.trace@.skip(start), fifo).len() == received,
                forall|k: int| 0 <= k < received * 4 ==> #[trigger] output@[k] == le_byte(
                    fifo_reads(self.trace@.skip(start), fifo)[k / 4], k % 4),
                no_data_error(self.trace@.skip(start)),
            decreases POLL_COUNT_CAP - rounds,
        {
            rounds = rounds + 1;
            let ghost before_poll = self.trace@;
            let polled = self.poll_for(REG_RINTSTS, DATA_READY_MASK, true);
            let ghost poll = self.trace@.skip(before_poll.len() as int);
            let ghost earlier = before_poll.skip(start);
            proof {
                assert(self.trace@ =~= before_poll + poll);
                assert(self.trace@.take(start) =~= before_poll.take(start));
                assert(self.trace@.skip(start) =~= earlier + poll);
                lemma_fifo_reads_append(earlier, poll, fifo);
                lemma_poll_reads_no_fifo(poll, REG_RINTSTS, DATA_READY_MASK, true, fifo);
                assert(fifo_reads(self.trace@.skip(start), fifo) =~= fifo_reads(earlier, fifo));
                lemma_poll_data_errors(poll);
            }
            let interrupts = match polled {
                Ok(interrupts) => interrupts,
                Err(error) => {
                    proof {
                        let accesses = self.trace@.skip(start);
                        assert forall|i: int| 0 <= i < accesses.len() implies !#[trigger] data_error_read(accesses[i]) by {
                            if i < earlier.len() {
                                assert(accesses[i] == earlier[i]);
                            } else {
                                assert(accesses[i] == poll[i - earlier.len()]);
                            }
                        }
                    }
                    return Err(error);
                },
            };
            let ghost polled_accesses = self.trace@.skip(start);
            proof {
                let k = polled_accesses.len() - 1;
                assert(polled_accesses[k] == poll.last());
                assert forall|i: int| 0 <= i < k implies !#[trigger] data_error_read(polled_accesses[i]) by {
                    if i < earlier.len() {
                        assert(polled_accesses[i] == earlier[i]);
                    } else {
                        assert(polled_accesses[i] == poll.drop_last()[i - earlier.len()]);
                    }
                }
            }
            if data_error_status(interrupts) {
                let ghost before_ack = self.trace@;
                let error = if interrupts & INT_DATA_CRC != 0 {
                    self.clear_interrupts(INT_DATA_CRC | INT_DATA_OVER);
                    MmcError::CrcError
                } else if interrupts & INT_DATA_TIMEOUT != 0 {
                    self.clear_interrupts(INT_DATA_TIMEOUT | INT_DATA_OVER);
                    MmcError::Timeout
                } else if interrupts & INT_FIFO_UNDERRUN != 0 {
                    self.clear_interrupts(INT_FIFO_UNDERRUN | INT_DATA_OVER);
                    MmcError::FifoUnderrun
                } else {
                    self.clear_interrupts(INT_FIFO_OVERRUN | INT_DATA_OVER);
                    MmcError::FifoOverrun
                };
                proof {
                    let accesses = self.trace@.skip(start);
                    let k = polled_accesses.len() - 1;
                    assert(accesses =~= polled_accesses.push(RegisterAccess::Write(REG_RINTSTS, data_error_ack(interrupts))));
                    assert(accesses[k] == RegisterAccess::Read(REG_RINTSTS, interrupts));
                    assert(data_error_read(accesses[k]));
                    assert forall|i: int| 0 <= i < accesses.len() && #[trigger] data_error_read(accesses[i]) implies i == k by {
                        if i < k {
                            assert(accesses[i] == polled_accesses[i]);
                        }
                    }
                    assert(self.trace@.take(start) =~= before_ack.take(start));
                }
                return Err(error);
            }
            proof {
                let accesses = self.trace@.skip(start);
                assert forall|i: int| 0 <= i < accesses.len() implies !#[trigger] data_error_read(accesses[i]) by {
                    if i == accesses.len() - 1 {
                        assert(accesses[i] == RegisterAccess::Read(REG_RINTSTS, interrupts));
                    }
                }
            }
            // Drain the FIFO; data may arrive in several batches.
            while received < words
                invariant
                    self.wf(),
                    received <= words,
                    words * 4 == output@.len(),
                    output@.len() <= usize::MAX,
                    output@.len() == old(output)@.len(),
                    self.fifo_offset == old(self).fifo_offset,
                    self.fifo_depth == old(self).fifo_depth,
                    self.ciu_frequency_hz == old(self).ciu_frequency_hz,
                    self.host_events == old(self).host_events,
                    fifo == self.fifo_offset,
                    start == old(self).trace@.len(),
                    self.trace@.len() >= start,
                    self.trace@.take(start) == old(self).trace@,
                    fifo_reads(self.trace@.skip(start), fifo).len() == received,
                    forall|k: int| 0 <= k < received * 4 ==> #[trigger] output@[k] == le_byte(
                        fifo_reads(self.trace@.skip(start), fifo)[k / 4], k % 4),
                    no_data_error(self.trace@.skip(start)),
                decreases words - received,
            {
                let ghost before_status = self.trace@;
                let empty = self.fifo_empty();
                proof {
                    let access = self.trace@.last();
                    assert(self.trace@.take(start) =~= before_status.take(start));
                    assert(self.trace@.skip(start) =~= before_status.skip(start).push(access));
                    lemma_fifo_reads_push(before_status.skip(start), access, fifo);
                    assert(!data_error_read(access));
                    assert forall|i: int| 0 <= i < self.trace@.skip(start).len() implies
                        !#[trigger] data_error_read(self.trace@.skip(start)[i]) by {
                        if i < before_status.skip(start).len() {
                            assert(self.trace@.skip(start)[i] == before_status.skip(start)[i]);
                        }
                    }
                }
                if empty {
                    break;
                }
                let ghost before_read = self.trace@;
                let ghost reads_before = fifo_reads(before_read.skip(start), fifo);
                let word = self.read_register(self.fifo_offset);
                proof {
                    assert(self.trace@.take(start) =~= before_read.take(start));
                    assert(self.trace@.skip(start) =~= before_read.skip(start).push(RegisterAccess::Read(fifo, word)));
                    lemma_fifo_reads_push(before_read.skip(start), RegisterAccess::Read(fifo, word), fifo);
                    assert(fifo_reads(self.trace@.skip(start), fifo) == reads_before.push(word));
                    assert forall|i: int| 0 <= i < self.trace@.skip(start).len() implies
                        !#[trigger] data_error_read(self.trace@.skip(start)[i]) by {
                        if i < before_read.skip(start).len() {
                            assert(self.trace@.skip(start)[i] == before_read.skip(start)[i]);
                        }
                    }
                }
                assert(received * 4 + 4 <= words * 4) by (nonlinear_arith)
                    requires
                        received < words,
                ;
                let offset = received * 4;
                output[offset] = (word & 0xff) as u8;
                output[offset + 1] = ((word >> 8u32) & 0xff) as u8;
                output[offset + 2] = ((word >> 16u32) & 0xff) as u8;
                output[offset + 3] = ((word >> 24u32) & 0xff) as u8;
                proof {
                    let reads = fifo_reads(self.trace@.skip(start), fifo);
                    assert forall|k: int| 0 <= k < (received + 1) * 4 implies #[trigger] output@[k] == le_byte(
                        reads[k / 4], k % 4) by {
                        if k < received * 4 {
                            assert(k / 4 < received);
                            assert(reads[k / 4] == reads_before[k / 4]);
                        } else {
                            assert(k / 4 == received);
                            assert(reads[k / 4] == word);
                        }
                    }
                }
                received = received + 1;
            }
            let ghost before_ack = self.trace@;
            self.write_register(REG_RINTSTS, INT_RX_DATA_REQ);
            proof {
                assert(self.trace@.take(start) =~= before_ack.take(start));
                assert(self.trace@.skip(start) =~= before_ack.skip(start).push(RegisterAccess::Write(REG_RINTSTS, INT_RX_DATA_REQ)));
                lemma_fifo_reads_push(before_ack.skip(start), RegisterAccess::Write(REG_RINTSTS, INT_RX_DATA_REQ), fifo);
                assert forall|i: int| 0 <= i < self.trace@.skip(start).len() implies
                    !#[trigger] data_error_read(self.trace@.skip(start)[i]) by {
                    if i < before_ack.skip(start).len() {
                        assert(self.trace@.skip(start)[i] == before_ack.skip(start)[i]);
                    }
                }
            }
            if interrupts & INT_DATA_OVER != 0 {
                break;
            }
        }
        let ghost before_final = self.trace@;
        self.write_register(REG_RINTSTS, INT_DATA_OVER | INT_RX_DATA_REQ);
        proof {
            assert(self.trace@.take(start) =~= before_final.take(start));
            assert(self.trace@.skip(start) =~= before_final.skip(start).push(
                RegisterAccess::Write(REG_RINTSTS, INT_DATA_OVER | INT_RX_DATA_REQ)));
            lemma_fifo_reads_push(before_final.skip(start), RegisterAccess::Write(REG_RINTSTS, INT_DATA_OVER | INT_RX_DATA_REQ), fifo);
            assert forall|i: int| 0 <= i < self.trace@.skip(start).len() implies
                !#[trigger] data_error_read(self.trace@.skip(start)[i]) by {
                if i < before_final.skip(start).len() {
                    assert(self.trace@.skip(start)[i] == before_final.skip(start)[i]);
                }
            }
        }
        if received < words {
            return Err(MmcError::Timeout);
        }
        Ok(())
    }

    /// Waits for command completion or a command error and acknowledges it.
    fn poll_command_done(&mut self) -> (result: Result<(), MmcError>)
        ensures
            result is Ok || result matches Err(MmcError::Timeout) || result matches Err(MmcError::CrcError),
            exists|poll: Seq<RegisterAccess>| #[trigger] is_poll(poll, REG_RINTSTS, command_wait_mask(), true)
                && final(self).trace@ == old(self).trace@ + poll + done_ack(poll) && result == done_status(poll),
            final(self).fifo_offset == old(self).fifo_offset,
            final(self).fifo_depth == old(self).fifo_depth,
            final(self).ciu_frequency_hz == old(self).ciu_frequency_hz,
            final(self).host_events == old(self).host_events,
    {
        let mask = INT_CMD_DONE | INT_RESP_CRC | INT_RESP_TIMEOUT | INT_START_BIT | INT_END_BIT;
        let polled = self.poll_for(REG_RINTSTS, mask, true);
        let ghost poll = self.trace@.skip(old(self).trace@.len() as int);
        proof {
            assert(self.trace@ =~= old(self).trace@ + poll);
            assert(is_poll(poll, REG_RINTSTS, command_wait_mask(), true));
        }
        let interrupts = match polled {
            Ok(interrupts) => interrupts,
            Err(error) => {
                return Err(error);
            },
        };
        let ghost polled_trace = self.trace@;
        if interrupts & INT_CMD_DONE != 0 {
            self.write_register(REG_RINTSTS, INT_CMD_DONE);
            proof {
                assert(self.trace@ =~= old(self).trace@ + poll + done_ack(poll));
            }
            return Ok(());
        }
        if interrupts & (INT_RESP_CRC | INT_START_BIT | INT_END_BIT) != 0 {
            self.clear_interrupts(interrupts & mask);
            proof {
                assert(self.trace@ =~= old(self).trace@ + poll + done_ack(poll));
            }
            return Err(MmcError::CrcError);
        }
        self.write_register(REG_RINTSTS, INT_RESP_TIMEOUT);
        proof {
            assert(self.trace@ =~= old(self).trace@ + poll + done_ack(poll));
        }
        Err(MmcError::Timeout)
    }

    fn wait_data_busy_clear(&mut self) -> (result: Result<(), MmcError>)
        ensures
            result is Ok || result matches Err(MmcError::Timeout),
            final(self).trace@.len() >= old(self).trace@.len(),
            final(self).trace@.take(old(self).trace@.len() as int) == old(self).trace@,
            is_poll(final(self).trace@.skip(old(self).trace@.len() as int), REG_STATUS, STATUS_BUSY, false),
            result is Ok <==> poll_result(final(self).trace@.skip(old(self).trace@.len() as int), STATUS_BUSY, false) is Ok,
            final(self).fifo_offset == old(self).fifo_offset,
            final(self).fifo_depth == old(self).fifo_depth,
            final(self).ciu_frequency_hz == old(self).ciu_frequency_hz,
            final(self).host_events == old(self).host_events,
    {
        match self.poll_for(REG_STATUS, STATUS_BUSY, false) {
            Ok(_) => Ok(()),
            Err(error) => Err(error),
        }
    }

    /// The FIFO count field of STATUS is zero.
    fn fifo_empty(&mut self) -> (empty: bool)
        ensures
            final(self).trace@ == old(self).trace@.push(RegisterAccess::Read(REG_STATUS, read_value(final(self).trace@.last()))),
            empty == ((read_value(final(self).trace@.last()) >> STATUS_FIFO_COUNT_SHIFT) & STATUS_FIFO_COUNT_MASK == 0),
            final(self).fifo_offset == old(self).fifo_offset,
            final(self).fifo_depth == old(self).fifo_depth,
            final(self).ciu_frequency_hz == old(self).ciu_frequency_hz,
            final(self).host_events == old(self).host_events,
    {
        let status = self.read_register(REG_STATUS);
        (status >> STATUS_FIFO_COUNT_SHIFT) & STATUS_FIFO_COUNT_MASK == 0
    }

    /// The register I/O (test inspection of the simulated command trace).
    pub fn io_ref(&self) -> (io: &I)
        ensures
            *io == self.io,
    {
        &self.io
    }

    /// The FIFO offset chosen at construction.
    pub fn fifo_offset(&self) -> (offset: usize)
        ensures
            offset == self.fifo_offset,
    {
        self.fifo_offset
    }

    fn clear_interrupts(&mut self, bits: u32)
        ensures
            final(self).trace@ == old(self).trace@.push(RegisterAccess::Write(REG_RINTSTS, bits)),
            final(self).fifo_offset == old(self).fifo_offset,
            final(self).fifo_depth == old(self).fifo_depth,
            final(self).ciu_frequency_hz == old(self).ciu_frequency_hz,
            final(self).host_events == old(self).host_events,
    {
        self.write_register(REG_RINTSTS, bits);
    }

    /// Polls `register` until `value & mask` is non-zero (`until_set`) or
    /// zero (otherwise), within the deadline and the iteration cap.
    fn poll_for(&mut self, register: usize, mask: u32, until_set: bool) -> (result: Result<u32, MmcError>)
        ensures
            result matches Ok(value) ==> (if until_set { value & mask != 0 } else { value & mask == 0 }),
            result is Err ==> result == Err::<u32, MmcError>(MmcError::Timeout),
            final(self).trace@.len() >= old(self).trace@.len(),
            final(self).trace@.take(old(self).trace@.len() as int) == old(self).trace@,
            is_poll(final(self).trace@.skip(old(self).trace@.len() as int), register, mask, until_set),
            result == poll_result(final(self).trace@.skip(old(self).trace@.len() as int), mask, until_set),
            final(self).fifo_offset == old(self).fifo_offset,
            final(self).fifo_depth == old(self).fifo_depth,
            final(self).ciu_frequency_hz == old(self).ciu_frequency_hz,
            final(self).host_events == old(self).host_events,
    {
        let cycles_per_ms = self.io.counter_frequency_hz() / 1000;
        let start = self.read_counter();
        let deadline = start.saturating_add(saturating_mul_u64(cycles_per_ms, POLL_DEADLINE_MS));
        let mut count: usize = 0;
        let ghost before = old(self).trace@;
        proof {
            assert(self.trace@.take(before.len() as int) =~= before);
            assert(self.trace@.skip(before.len() as int) =~= seq![RegisterAccess::Counter(start)]);
        }
        while count < POLL_COUNT_CAP
            invariant
                count <= POLL_COUNT_CAP,
                before == old(self).trace@,
                self.trace@.len() >= before.len(),
                self.trace@.take(before.len() as int) == before,
                unmet_poll(self.trace@.skip(before.len() as int), register, mask, until_set),
                self.trace@.skip(before.len() as int).len() > 0,
                !(self.trace@.last() is Read && poll_satisfied(read_value(self.trace@.last()), mask, until_set)),
                self.fifo_offset == old(self).fifo_offset,
                self.fifo_depth == old(self).fifo_depth,
                self.ciu_frequency_hz == old(self).ciu_frequency_hz,
                self.host_events == old(self).host_events,
            decreases POLL_COUNT_CAP - count,
        {
            let ghost earlier = self.trace@;
            let value = self.read_register(register);
            proof {
                assert(self.trace@.take(before.len() as int) =~= before);
                assert(self.trace@.skip(before.len() as int) =~= earlier.skip(before.len() as int).push(
                    RegisterAccess::Read(register, value)));
                assert(self.trace@.skip(before.len() as int).drop_last() =~= earlier.skip(before.len() as int));
            }
            let satisfied = if until_set { value & mask != 0 } else { value & mask == 0 };
            if satisfied {
                return Ok(value);
            }
            count = count + 1;
            if count & 0x1f == 0 {
                let ghost earlier = self.trace@;
                let now = self.read_counter();
                proof {
                    assert(self.trace@.take(before.len() as int) =~= before);
                    assert(self.trace@.skip(before.len() as int) =~= earlier.skip(before.len() as int).push(
                        RegisterAccess::Counter(now)));
                }
                if now >= deadline {
                    return Err(MmcError::Timeout);
                }
            }
        }
        Err(MmcError::Timeout)
    }
}

impl<I: MmcRegisterIo> MmcHost for DwMmcController<I> {
    open spec fn spec_configuration(&self) -> (usize, u32, u64) {
        (self.fifo_offset, self.fifo_depth, self.ciu_frequency_hz)
    }

    open spec fn spec_events(&self) -> Seq<HostEvent> {
        self.host_events@
    }

    fn send_command(&mut self, command: MmcCommand) -> (result: Result<MmcResponse, MmcError>) {
        let ghost events = self.host_events@;
        let result = DwMmcController::send_command(self, command);
        proof {
            self.host_events@ = events.push(HostEvent::Command(command, result));
        }
        result
    }

    fn read_block_data(&mut self, output: &mut [u8]) -> (result: Result<(), MmcError>) {
        let ghost events = self.host_events@;
        if !(self.fifo_offset == DATA_OFFSET || self.fifo_offset == DATA_240A_OFFSET) || self.fifo_depth < 1 {
            proof {
                self.host_events@ = events.push(HostEvent::ReadData(output@, Err(MmcError::NotReady)));
            }
            return Err(MmcError::NotReady);
        }
        let result = DwMmcController::read_block_data(self, output);
        proof {
            self.host_events@ = events.push(HostEvent::ReadData(output@, result));
        }
        result
    }

    fn set_clock(&mut self, frequency_hz: u64) -> (result: Result<(), MmcError>) {
        let ghost events = self.host_events@;
        let result = DwMmcController::set_clock(self, frequency_hz);
        proof {
            self.host_events@ = events.push(HostEvent::Clock(frequency_hz, result));
        }
        result
    }

    fn set_bus_width(&mut self, bus_width: u8) -> (result: Result<(), MmcError>) {
        let ghost events = self.host_events@;
        let result = DwMmcController::set_bus_width(self, bus_width);
        proof {
            self.host_events@ = events.push(HostEvent::BusWidth(bus_width, result));
        }
        result
    }

    fn counter(&mut self) -> (cycles: u64) {
        let ghost events = self.host_events@;
        let cycles = self.read_counter();
        proof {
            self.host_events@ = events.push(HostEvent::Counter(cycles));
        }
        cycles
    }

    fn counter_frequency_hz(&self) -> (frequency: u64) {
        self.io.counter_frequency_hz()
    }
}

/// CMD register value for `command`, without the start bit.
pub fn build_command_value(command: &MmcCommand) -> (value: u32)
    ensures
        value == command_bits(*command),
{
    let index = (command.index as u32) & CMD_INDEX_MASK;
    let response: u32 = match command.response_type {
        MmcResponseType::NoResponse => 0,
        MmcResponseType::R2 => CMD_RESP_EXP | CMD_RESP_LONG,
        MmcResponseType::R1 | MmcResponseType::R1b | MmcResponseType::R6 | MmcResponseType::R7 => CMD_RESP_EXP | CMD_RESP_CRC,
        MmcResponseType::R3 => CMD_RESP_EXP,
    };
    let data: u32 = if command.data_present {
        if command.read { CMD_DATA_EXPECTED } else { CMD_DATA_EXPECTED | CMD_DATA_WRITE }
    } else {
        0
    };
    let init: u32 = if command.init { CMD_SEND_INIT } else { 0 };
    let clock: u32 = if command.update_clock { CMD_UPDATE_CLOCK } else { 0 };
    index | response | data | init | clock
}

/// `a * b`, saturated at `u64::MAX`.
pub fn saturating_mul_u64(a: u64, b: u64) -> (product: u64)
    ensures
        product == (if a * b > u64::MAX { u64::MAX as int } else { a * b }),
{
    match a.checked_mul(b) {
        Some(product) => product,
        None => u64::MAX,
    }
}

/// FIFO watermark in words for a data phase of `data_length` bytes.
pub fn fifo_watermark(data_length: usize, fifo_depth: u32) -> (watermark: u32)
    requires
        data_length > 0,
    ensures
        watermark == watermark_spec(data_length as int, fifo_depth as int),
        1 <= watermark,
        fifo_depth >= 2 ==> watermark < fifo_depth,
{
    let words_full = data_length / 4 + (if data_length % 4 == 0 { 0usize } else { 1usize });
    let below_depth: usize = if fifo_depth == 0 { 0 } else { (fifo_depth - 1) as usize };
    let capped: usize = if words_full < below_depth { words_full } else { below_depth };
    let watermark = if capped < 1 { 1 } else { capped as u32 };
    watermark
}

} // verus!
