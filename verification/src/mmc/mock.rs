//! Simulated DW-MMC register file for controller and card-protocol tests.
//!
//! Writing CMD records a trace entry and completes (or fails, by injected
//! fault) the command; RESP0..3 return the next configured response; the
//! FIFO serves configured words, optionally in batches that reappear each
//! time the driver acknowledges the RX-request interrupt.
use vstd::prelude::*;

use super::dw_mmc::MmcRegisterIo;
use super::registers::{
    CMD_DATA_EXPECTED, CMD_DATA_WRITE, CMD_INDEX_MASK, CMD_START, CMD_UPDATE_CLOCK, CTRL_FIFO_RESET,
    CTRL_RESET, DATA_240A_OFFSET, DATA_OFFSET, DW_MMC_240A, INT_CMD_DONE, INT_DATA_OVER,
    INT_DATA_TIMEOUT, INT_FIFO_OVERRUN, INT_RESP_CRC, INT_RESP_TIMEOUT, INT_RX_DATA_REQ, REG_BYTCNT,
    REG_CMD, REG_CMDARG, REG_CTRL, REG_FIFOTH, REG_RESP0, REG_RESP1, REG_RESP2, REG_RESP3,
    REG_RINTSTS, REG_STATUS, REG_VERID, STATUS_FIFO_COUNT_SHIFT,
};

verus! {

/// Number of simulated 32-bit registers (offsets `0x000..0x100`).
pub const MOCK_REGISTERS: usize = 64;

/// Injected controller faults.
#[derive(Clone, Copy, Debug, PartialEq, Eq, Structural)]
pub enum MockFailure {
    /// Command response timeout.
    ResponseTimeout,
    /// Response CRC error.
    ResponseCrc,
    /// The data phase of a data command times out.
    DataTimeout,
    /// The FIFO overruns during a data command.
    FifoOverrun,
    /// The controller reset bits never clear.
    ResetHang,
    /// The command never completes (no completion interrupt).
    CommandHang,
}

/// What the simulated controller saw for one CMD write.
#[derive(Clone, Copy, Debug, PartialEq, Eq, Structural)]
pub struct MockCommandTrace {
    pub index: u8,
    pub argument: u32,
    pub data_present: bool,
    pub read: bool,
    pub update_clock: bool,
    pub cmd_start: bool,
    /// Byte count programmed for a data command.
    pub data_length: Option<usize>,
    /// FIFOTH value programmed for a data command; its receive watermark
    /// stays below the FIFO depth and is at least one word.
    pub fifo_threshold: Option<u32>,
}

/// Simulated registers; `regs[offset / 4]` backs the plain registers.
pub struct MockRegisterIo {
    pub regs: Vec<u32>,
    /// Four words (RESP0..RESP3) per command, in command order.
    pub responses: Vec<u32>,
    pub response_index: usize,
    pub failure: Option<MockFailure>,
    /// A fault that applies once, to the given command index.
    pub one_shot_failure: Option<(MockFailure, u8)>,
    pub fifo_words: Vec<u32>,
    pub fifo_index: usize,
    /// Words served in the current RX-request window.
    pub batch_served: usize,
    /// Words visible per RX-request window; 0 means all at once.
    pub fifo_batch: usize,
    pub data_active: bool,
    pub commands: Vec<MockCommandTrace>,
}

impl MockRegisterIo {
    pub open spec fn wf(&self) -> bool {
        self.regs@.len() == MOCK_REGISTERS
    }

    pub fn new() -> (io: Self)
        ensures
            io.wf(),
            forall|i: int| 0 <= i < MOCK_REGISTERS ==> #[trigger] io.regs@[i] == 0,
            io.responses@.len() == 0,
            io.failure.is_none(),
            io.one_shot_failure.is_none(),
            io.fifo_words@.len() == 0,
            io.fifo_batch == 0,
            io.commands@.len() == 0,
            !io.data_active,
    {
        let mut regs: Vec<u32> = Vec::new();
        let mut i: usize = 0;
        while i < MOCK_REGISTERS
            invariant
                i <= MOCK_REGISTERS,
                regs@.len() == i,
                forall|k: int| 0 <= k < i ==> #[trigger] regs@[k] == 0,
            decreases MOCK_REGISTERS - i,
        {
            regs.push(0);
            i = i + 1;
        }
        MockRegisterIo {
            regs,
            responses: Vec::new(),
            response_index: 0,
            failure: None,
            one_shot_failure: None,
            fifo_words: Vec::new(),
            fifo_index: 0,
            batch_served: 0,
            fifo_batch: 0,
            data_active: false,
            commands: Vec::new(),
        }
    }

    /// Sets the response words (four per command, RESP0..RESP3).
    pub fn with_responses(self, responses: Vec<u32>) -> (io: Self)
        ensures
            io == (MockRegisterIo { responses, ..self }),
    {
        MockRegisterIo { responses, ..self }
    }

    /// Injects a persistent fault.
    pub fn with_failure(self, failure: MockFailure) -> (io: Self)
        ensures
            io == (MockRegisterIo { failure: Some(failure), ..self }),
    {
        MockRegisterIo { failure: Some(failure), ..self }
    }

    /// Injects a fault for the next command with index `command_index` only.
    pub fn with_failure_once(self, failure: MockFailure, command_index: u8) -> (io: Self)
        ensures
            io == (MockRegisterIo { one_shot_failure: Some((failure, command_index)), ..self }),
    {
        MockRegisterIo { one_shot_failure: Some((failure, command_index)), ..self }
    }

    /// Sets the words a data read delivers through the FIFO.
    pub fn with_fifo_data(self, words: Vec<u32>) -> (io: Self)
        ensures
            io == (MockRegisterIo { fifo_words: words, ..self }),
    {
        MockRegisterIo { fifo_words: words, ..self }
    }

    /// Sets how many FIFO words become visible per RX-request window.
    pub fn with_fifo_batch(self, batch: usize) -> (io: Self)
        ensures
            io == (MockRegisterIo { fifo_batch: batch, ..self }),
    {
        MockRegisterIo { fifo_batch: batch, ..self }
    }

    /// Sets the VERID register, which selects the FIFO offset.
    pub fn with_verid(self, verid: u32) -> (io: Self)
        requires
            self.wf(),
        ensures
            io.wf(),
            io.regs@ == self.regs@.update((REG_VERID / 4) as int, verid),
            io.responses == self.responses,
            io.failure == self.failure,
            io.fifo_words == self.fifo_words,
            io.fifo_batch == self.fifo_batch,
            io.commands == self.commands,
    {
        let mut io = self;
        io.regs.set(Self::index(REG_VERID), verid);
        io
    }

    /// Changes the persistent fault (error-recovery tests).
    pub fn set_failure(&mut self, failure: Option<MockFailure>)
        ensures
            *final(self) == (MockRegisterIo { failure, ..*old(self) }),
    {
        self.failure = failure;
    }

    fn index(offset: usize) -> (index: usize)
        ensures
            index == offset / 4,
    {
        offset / 4
    }

    /// FIFO offset implied by the simulated VERID.
    fn fifo_offset(&self) -> (offset: usize)
        requires
            self.wf(),
        ensures
            offset == (if self.regs@[(REG_VERID / 4) as int] & 0xffff >= DW_MMC_240A { DATA_240A_OFFSET } else { DATA_OFFSET }),
    {
        let verid = self.regs[Self::index(REG_VERID)] & 0xffff;
        if verid >= DW_MMC_240A {
            DATA_240A_OFFSET
        } else {
            DATA_OFFSET
        }
    }

    /// The FIFO reads empty when its data is used up or, in batch mode,
    /// when the current window has been fully read.
    fn fifo_empty_now(&self) -> (empty: bool)
        ensures
            empty == (self.fifo_index >= self.fifo_words@.len()
                || (self.fifo_batch > 0 && self.batch_served > 0 && self.batch_served % self.fifo_batch == 0)),
    {
        if self.fifo_index >= self.fifo_words.len() {
            return true;
        }
        if self.fifo_batch > 0 {
            return self.batch_served > 0 && self.batch_served % self.fifo_batch == 0;
        }
        false
    }
}

impl MockRegisterIo {
    /// RESP0..RESP3.
    pub open spec fn is_response_register(offset: usize) -> bool {
        offset == REG_RESP0 || offset == REG_RESP1 || offset == REG_RESP2 || offset == REG_RESP3
    }

    /// The word a response register gives: that register's word of the
    /// latest command's four, 0 when none was configured.
    pub open spec fn response_word(&self, offset: usize) -> u32 {
        let command = if self.response_index == 0 { 0 } else { self.response_index - 1 };
        let position = command * 4 + (offset - REG_RESP0) / 4;
        if position < self.responses@.len() { self.responses@[position] } else { 0 }
    }

    /// The FIFO offset the simulated VERID selects.
    pub open spec fn spec_fifo_offset(&self) -> usize {
        if self.regs@[(REG_VERID / 4) as int] & 0xffff >= DW_MMC_240A { DATA_240A_OFFSET } else { DATA_OFFSET }
    }

    /// The FIFO reads empty.
    pub open spec fn spec_fifo_empty(&self) -> bool {
        self.fifo_index >= self.fifo_words@.len() || (self.fifo_batch > 0 && self.batch_served > 0
            && self.batch_served % self.fifo_batch == 0)
    }

    /// The fault that applies to a command with index `index`: a pending
    /// one-shot fault for that index, else the persistent one.
    pub open spec fn active_failure(&self, index: u8) -> Option<MockFailure> {
        match self.one_shot_failure {
            Some((failure, target)) => if target == index { Some(failure) } else { self.failure },
            None => self.failure,
        }
    }

    /// The trace entry a write of `value` to CMD records.
    pub open spec fn command_trace(&self, value: u32) -> MockCommandTrace {
        let data_present = value & CMD_DATA_EXPECTED != 0;
        MockCommandTrace {
            index: (value & CMD_INDEX_MASK) as u8,
            argument: self.regs@[(REG_CMDARG / 4) as int],
            data_present,
            read: data_present && value & CMD_DATA_WRITE == 0,
            update_clock: value & CMD_UPDATE_CLOCK != 0,
            cmd_start: value & CMD_START != 0,
            data_length: if data_present { Some(self.regs@[(REG_BYTCNT / 4) as int] as usize) } else { None },
            fifo_threshold: if data_present { Some(self.regs@[(REG_FIFOTH / 4) as int]) } else { None },
        }
    }

    /// `after` is this register file after a write of `value` to CMD: the
    /// command traced, the response index advanced, a matching one-shot fault
    /// used up, CMD read back with its start bit cleared (kept while the
    /// command hangs), and RINTSTS raising what the fault in force, or the
    /// command, earns: a response timeout or CRC error, nothing for a hang,
    /// completion with a data timeout or FIFO overrun for a faulted data
    /// command, else completion (except for a clock update) and, for a read,
    /// the start of its data phase.
    pub open spec fn recorded_command(&self, after: &Self, value: u32) -> bool {
        let trace = self.command_trace(value);
        let failure = self.active_failure(trace.index);
        let status = self.regs@[(REG_RINTSTS / 4) as int];
        let data_fault = trace.data_present && (failure == Some(MockFailure::DataTimeout)
            || failure == Some(MockFailure::FifoOverrun));
        let command_fault = failure == Some(MockFailure::ResponseTimeout) || failure == Some(MockFailure::ResponseCrc)
            || failure == Some(MockFailure::CommandHang);
        let starts_read = !command_fault && !data_fault && trace.data_present && trace.read;
        let completed = if value & CMD_UPDATE_CLOCK == 0 { status | INT_CMD_DONE } else { status };
        let new_status = if failure == Some(MockFailure::ResponseTimeout) {
            status | INT_RESP_TIMEOUT
        } else if failure == Some(MockFailure::ResponseCrc) {
            status | INT_RESP_CRC
        } else if failure == Some(MockFailure::CommandHang) {
            status
        } else if data_fault {
            if failure == Some(MockFailure::DataTimeout) {
                status | INT_CMD_DONE | INT_DATA_TIMEOUT
            } else {
                status | INT_CMD_DONE | INT_FIFO_OVERRUN
            }
        } else if starts_read {
            if self.fifo_words@.len() == 0 { completed | INT_DATA_OVER } else { completed | INT_RX_DATA_REQ }
        } else {
            completed
        };
        &&& after.commands@ == self.commands@.push(trace)
        &&& after.response_index == vstd::wrapping::usize_specs::wrapping_add(self.response_index, 1)
        &&& after.one_shot_failure == (match self.one_shot_failure {
            Some((_, target)) => if target == trace.index { None } else { self.one_shot_failure },
            None => None,
        })
        &&& after.regs@ == self.regs@.update((REG_CMD / 4) as int,
            if failure == Some(MockFailure::CommandHang) { value } else { value & !CMD_START }).update(
            (REG_RINTSTS / 4) as int, new_status)
        &&& after.data_active == (if starts_read { self.fifo_words@.len() != 0 } else { self.data_active })
        &&& after.fifo_index == (if starts_read { 0 } else { self.fifo_index })
        &&& after.batch_served == (if starts_read { 0 } else { self.batch_served })
        &&& after.responses == self.responses
        &&& after.failure == self.failure
        &&& after.fifo_words == self.fifo_words
        &&& after.fifo_batch == self.fifo_batch
    }

    /// Everything but the registers, the data phase flag and the window count agree.
    pub open spec fn same_apart_from_registers(&self, other: &Self) -> bool {
        &&& self.responses == other.responses
        &&& self.response_index == other.response_index
        &&& self.failure == other.failure
        &&& self.one_shot_failure == other.one_shot_failure
        &&& self.fifo_words == other.fifo_words
        &&& self.fifo_index == other.fifo_index
        &&& self.fifo_batch == other.fifo_batch
        &&& self.commands == other.commands
    }
}

impl MmcRegisterIo for MockRegisterIo {
    fn read32(&mut self, offset: usize) -> (value: u32)
        ensures
            !old(self).wf() ==> value == 0 && *final(self) == *old(self),
            old(self).wf() && Self::is_response_register(offset) ==> value == old(self).response_word(offset)
                && *final(self) == *old(self),
            old(self).wf() && !Self::is_response_register(offset) && offset == old(self).spec_fifo_offset() ==> if old(
                self,
            ).fifo_index < old(self).fifo_words@.len() {
                &&& value == old(self).fifo_words@[old(self).fifo_index as int]
                &&& *final(self) == (MockRegisterIo {
                    fifo_index: (old(self).fifo_index + 1) as usize,
                    batch_served: vstd::wrapping::usize_specs::wrapping_add(old(self).batch_served, 1),
                    ..*old(self)
                })
            } else {
                value == 0 && *final(self) == *old(self)
            },
            old(self).wf() && !Self::is_response_register(offset) && offset != old(self).spec_fifo_offset() ==> {
                &&& *final(self) == *old(self)
                &&& value == if offset == REG_STATUS {
                    if old(self).spec_fifo_empty() { 0 } else { 1u32 << STATUS_FIFO_COUNT_SHIFT }
                } else if offset / 4 >= MOCK_REGISTERS {
                    0
                } else if offset == REG_CTRL && old(self).failure == Some(MockFailure::ResetHang) {
                    CTRL_RESET | CTRL_FIFO_RESET
                } else {
                    old(self).regs@[(offset / 4) as int]
                }
            },
    {
        if !(self.regs.len() == MOCK_REGISTERS) {
            return 0;
        }
        if offset == REG_RESP0 || offset == REG_RESP1 || offset == REG_RESP2 || offset == REG_RESP3 {
            let resp_index = (offset - REG_RESP0) / 4;
            let command = if self.response_index == 0 { 0 } else { self.response_index - 1 };
            if command <= (usize::MAX - resp_index) / 4 {
                let position = command * 4 + resp_index;
                if position < self.responses.len() {
                    return self.responses[position];
                }
            } else {
                let ghost limit = usize::MAX - resp_index;
                assert(command * 4 > limit) by (nonlinear_arith)
                    requires
                        command > limit / 4,
                        limit >= 0,
                ;
                assert(command * 4 + resp_index > usize::MAX);
            }
            let configured = self.responses.len();
            assert(command * 4 + resp_index >= configured);
            return 0;
        }
        if offset == self.fifo_offset() {
            if self.fifo_index < self.fifo_words.len() {
                let word = self.fifo_words[self.fifo_index];
                self.fifo_index = self.fifo_index + 1;
                self.batch_served = self.batch_served.wrapping_add(1);
                return word;
            }
            return 0;
        }
        if offset == REG_STATUS {
            return if self.fifo_empty_now() { 0 } else { 1u32 << STATUS_FIFO_COUNT_SHIFT };
        }
        let index = Self::index(offset);
        if index >= MOCK_REGISTERS {
            return 0;
        }
        if offset == REG_CTRL && self.failure == Some(MockFailure::ResetHang) {
            return CTRL_RESET | CTRL_FIFO_RESET;
        }
        self.regs[index]
    }

    fn write32(&mut self, offset: usize, value: u32)
        ensures
            !old(self).wf() || offset / 4 >= MOCK_REGISTERS ==> *final(self) == *old(self),
            old(self).wf() && offset / 4 < MOCK_REGISTERS && offset != REG_CMD ==> {
                let index = (offset / 4) as int;
                let status = old(self).regs@[index] & !value;
                &&& final(self).same_apart_from_registers(&*old(self))
                &&& offset == REG_CTRL ==> final(self).regs@ == old(self).regs@.update(index,
                    if old(self).failure == Some(MockFailure::ResetHang) {
                        value & (CTRL_RESET | CTRL_FIFO_RESET)
                    } else {
                        value & !(CTRL_RESET | CTRL_FIFO_RESET)
                    }) && final(self).data_active == old(self).data_active
                    && final(self).batch_served == old(self).batch_served
                &&& offset == REG_RINTSTS ==> if old(self).data_active && old(self).fifo_index >= old(self).fifo_words@.len() {
                    final(self).regs@ == old(self).regs@.update(index, (status | INT_DATA_OVER) & !INT_RX_DATA_REQ)
                        && !final(self).data_active && final(self).batch_served == old(self).batch_served
                } else if old(self).data_active && status & INT_RX_DATA_REQ == 0 {
                    final(self).regs@ == old(self).regs@.update(index, status | INT_RX_DATA_REQ)
                        && final(self).data_active && final(self).batch_served == 0
                } else {
                    final(self).regs@ == old(self).regs@.update(index, status)
                        && final(self).data_active == old(self).data_active
                        && final(self).batch_served == old(self).batch_served
                }
                &&& offset != REG_CTRL && offset != REG_RINTSTS ==> final(self).regs@ == old(self).regs@.update(index, value)
                    && final(self).data_active == old(self).data_active
                    && final(self).batch_served == old(self).batch_served
            },
            old(self).wf() && offset == REG_CMD ==> final(self).wf() && old(self).recorded_command(&*final(self), value),
    {
        if !(self.regs.len() == MOCK_REGISTERS) {
            return;
        }
        let index = Self::index(offset);
        if index >= MOCK_REGISTERS {
            return;
        }
        if offset == REG_CTRL {
            // Reset bits self-clear, except while the reset hangs.
            if self.failure == Some(MockFailure::ResetHang) {
                self.regs.set(index, value & (CTRL_RESET | CTRL_FIFO_RESET));
            } else {
                self.regs.set(index, value & !(CTRL_RESET | CTRL_FIFO_RESET));
            }
        } else if offset == REG_CMD {
            self.record_command(value);
        } else if offset == REG_RINTSTS {
            let mut status = self.regs[index] & !value;
            // After the driver acknowledges RX-request: re-raise it while
            // data remains (next batch), or signal data-over once drained.
            if self.data_active {
                if self.fifo_index >= self.fifo_words.len() {
                    status = (status | INT_DATA_OVER) & !INT_RX_DATA_REQ;
                    self.data_active = false;
                } else if status & INT_RX_DATA_REQ == 0 {
                    status = status | INT_RX_DATA_REQ;
                    self.batch_served = 0;
                }
            }
            self.regs.set(index, status);
        } else {
            self.regs.set(index, value);
        }
    }

    fn counter(&mut self) -> (cycles: u64) {
        0
    }

    fn counter_frequency_hz(&self) -> (frequency: u64) {
        1_000
    }
}

impl MockRegisterIo {
    /// Simulates a write of `value` to CMD: traces the command and raises
    /// the completion or fault interrupts it earns.
    fn record_command(&mut self, value: u32)
        requires
            old(self).wf(),
        ensures
            final(self).wf(),
            old(self).recorded_command(&*final(self), value),
    {
        let data_present = value & CMD_DATA_EXPECTED != 0;
        let trace = MockCommandTrace {
            index: (value & CMD_INDEX_MASK) as u8,
            argument: self.regs[Self::index(REG_CMDARG)],
            data_present,
            read: data_present && value & CMD_DATA_WRITE == 0,
            update_clock: value & CMD_UPDATE_CLOCK != 0,
            cmd_start: value & CMD_START != 0,
            data_length: if data_present { Some(self.regs[Self::index(REG_BYTCNT)] as usize) } else { None },
            fifo_threshold: if data_present { Some(self.regs[Self::index(REG_FIFOTH)]) } else { None },
        };
        self.commands.push(trace);
        self.response_index = self.response_index.wrapping_add(1);

        let command_index = (value & CMD_INDEX_MASK) as u8;
        let active_failure = match self.one_shot_failure {
            Some((failure, index)) => {
                if index == command_index {
                    self.one_shot_failure = None;
                    Some(failure)
                } else {
                    self.failure
                }
            },
            None => self.failure,
        };
        // The start bit self-clears on completion, never while hung.
        let cmd = match active_failure {
            Some(MockFailure::CommandHang) => value,
            _ => value & !CMD_START,
        };
        self.regs.set(Self::index(REG_CMD), cmd);

        let mut status = self.regs[Self::index(REG_RINTSTS)];
        match active_failure {
            Some(MockFailure::ResponseTimeout) => {
                status = status | INT_RESP_TIMEOUT;
            },
            Some(MockFailure::ResponseCrc) => {
                status = status | INT_RESP_CRC;
            },
            Some(MockFailure::CommandHang) => {},
            _ => {
                let data_fault = match active_failure {
                    Some(MockFailure::DataTimeout) => data_present,
                    Some(MockFailure::FifoOverrun) => data_present,
                    _ => false,
                };
                if data_fault {
                    // The command completes; only its data phase fails.
                    if active_failure == Some(MockFailure::DataTimeout) {
                        status = status | INT_CMD_DONE | INT_DATA_TIMEOUT;
                    } else {
                        status = status | INT_CMD_DONE | INT_FIFO_OVERRUN;
                    }
                } else {
                    // Clock updates complete by clearing the start bit only.
                    if value & CMD_UPDATE_CLOCK == 0 {
                        status = status | INT_CMD_DONE;
                    }
                    if data_present && trace.read {
                        self.data_active = true;
                        self.fifo_index = 0;
                        self.batch_served = 0;
                        if self.fifo_words.len() == 0 {
                            status = status | INT_DATA_OVER;
                            self.data_active = false;
                        } else {
                            status = status | INT_RX_DATA_REQ;
                        }
                    }
                }
            },
        }
        self.regs.set(Self::index(REG_RINTSTS), status);
    }
}

} // verus!
