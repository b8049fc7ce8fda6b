//! SD card initialisation and card-register decoding.
//!
//! On top of an `MmcHost` this runs the SD handshake (CMD0, CMD8,
//! ACMD41, CMD2, CMD3, CMD9, CMD7, CMD16, ACMD51, ACMD6, CMD13), decodes the
//! CSD v1/v2 capacity and the SCR bus widths, and supports both byte
//! addressing (SDSC) and block addressing (SDHC/SDXC).
use vstd::prelude::*;

use super::dw_mmc::{be_byte, HostEvent, MmcCommand, MmcError, MmcHost, MmcResponse, MmcResponseType};

verus! {

pub const SD_CMD0: u8 = 0;
pub const SD_CMD8: u8 = 8;
pub const SD_CMD55: u8 = 55;
pub const SD_ACMD41: u8 = 41;
pub const SD_CMD2: u8 = 2;
pub const SD_CMD3: u8 = 3;
pub const SD_CMD9: u8 = 9;
pub const SD_CMD7: u8 = 7;
pub const SD_CMD16: u8 = 16;
pub const SD_ACMD51: u8 = 51;
pub const SD_ACMD6: u8 = 6;
pub const SD_CMD13: u8 = 13;
pub const SD_CMD17: u8 = 17;

/// CMD8 check pattern (2.7-3.6 V, check byte 0xAA).
pub const SD_IF_COND_PATTERN: u32 = 0x1aa;
/// ACMD41 argument: host capacity support plus the full voltage window.
pub const SD_ACMD41_ARG: u32 = 0x40ff_8000;
pub const SD_OCR_CCS: u32 = 0x4000_0000;
pub const SD_OCR_POWER_UP: u32 = 0x8000_0000;
pub const SD_ACMD6_ARG_4BIT: u32 = 2;
pub const SD_BLOCK_LEN: u32 = 512;
/// ACMD41 polling: about one second overall, 5 ms between attempts, and a
/// retry cap in case the counter misbehaves.
pub const ACMD41_POLL_DEADLINE_MS: u64 = 1_000;
pub const ACMD41_POLL_INTERVAL_MS: u64 = 5;
pub const MAX_ACMD41_RETRIES: usize = 512;
/// Bound on the spins of one inter-attempt delay.
pub const ACMD41_INTERVAL_SPIN_CAP: usize = 2_000_000;

/// An initialised card.
#[derive(Clone, Copy, Debug, PartialEq, Eq)]
pub struct SdCardInfo {
    /// Relative card address.
    pub rca: u32,
    /// Block addressing (SDHC/SDXC); otherwise byte addressing (SDSC).
    pub is_sdhc: bool,
    /// Capacity in 512-byte blocks.
    pub block_count: u64,
    /// Data bus width in use (1 or 4).
    pub bus_width: u8,
    /// Card identification register.
    pub cid: [u8; 16],
}

/// Bit `bit` of a 128-bit big-endian card register (bit 127 is the most
/// significant bit of byte 0).
pub open spec fn register_bit(csd: Seq<u8>, bit: int) -> int {
    ((csd[15 - bit / 8] >> ((7 - bit % 8) as u8)) & 1) as int
}

/// The unsigned field spanning bits `hi` down to `lo`.
pub open spec fn register_field(csd: Seq<u8>, hi: int, lo: int) -> int
    decreases hi - lo + 1,
{
    if hi < lo {
        0
    } else {
        register_field(csd, hi, lo + 1) * 2 + register_bit(csd, lo)
    }
}

proof fn lemma_field_bound(csd: Seq<u8>, hi: int, lo: int)
    requires
        lo <= hi + 1,
        0 <= lo,
        hi < 128,
    ensures
        0 <= register_field(csd, hi, lo) < vstd::arithmetic::power2::pow2((hi - lo + 1) as nat),
    decreases hi - lo + 1,
{
    if hi < lo {
        vstd::arithmetic::power2::lemma2_to64();
    } else {
        lemma_field_bound(csd, hi, lo + 1);
        vstd::arithmetic::power2::lemma_pow2_unfold((hi - lo + 1) as nat);
        let b = csd[15 - lo / 8];
        let s = (7 - lo % 8) as u8;
        assert((b >> s) & 1 <= 1) by (bit_vector);
    }
}

/// Extracts bits `hi..=lo` of a 16-byte big-endian card register.
pub fn csd_field(csd: &[u8; 16], hi: usize, lo: usize) -> (value: u64)
    requires
        lo <= hi < 128,
        hi - lo < 63,
    ensures
        value == register_field(csd@, hi as int, lo as int),
{
    let mut value: u64 = 0;
    let mut bit: usize = hi + 1;
    while bit > lo
        invariant
            lo <= bit <= hi + 1,
            hi < 128,
            hi - lo < 63,
            value == register_field(csd@, hi as int, bit as int),
        decreases bit,
    {
        bit = bit - 1;
        let byte = 15 - bit / 8;
        let bit_in_byte = (7 - bit % 8) as u8;
        let flag = ((csd[byte] >> bit_in_byte) & 1) as u64;
        proof {
            lemma_field_bound(csd@, hi as int, bit as int + 1);
            vstd::arithmetic::power2::lemma_pow2_strictly_increases((hi - bit) as nat, 63);
            vstd::arithmetic::power2::lemma2_to64_rest();
            let b = csd@[15 - bit / 8];
            assert((b >> bit_in_byte) & 1 <= 1) by (bit_vector);
        }
        value = value * 2 + flag;
    }
    value
}

/// Capacity decoded from a CSD: `(512-byte blocks, native block size)`.
pub open spec fn csd_capacity(csd: Seq<u8>, is_sdhc: bool) -> Option<(u64, u64)> {
    if is_sdhc {
        Some((((register_field(csd, 69, 48) + 1) * 1024) as u64, 512))
    } else {
        let block_size = vstd::arithmetic::power2::pow2(register_field(csd, 83, 80) as nat);
        let multiplier = vstd::arithmetic::power2::pow2((register_field(csd, 49, 47) + 2) as nat);
        let bytes = (register_field(csd, 73, 62) + 1) * multiplier * block_size;
        let blocks = bytes / 512;
        if blocks == 0 { None } else { Some((blocks as u64, block_size as u64)) }
    }
}

/// Decodes the capacity of a CSD register: version 2 (SDHC/SDXC) gives
/// `(C_SIZE + 1) * 1024` blocks of 512 bytes; version 1 (SDSC) gives
/// `(C_SIZE + 1) << (C_SIZE_MULT + 2)` blocks of `1 << READ_BL_LEN` bytes.
pub fn parse_csd(csd: &[u8; 16], is_sdhc: bool) -> (result: Result<(u64, u64), MmcError>)
    ensures
        match csd_capacity(csd@, is_sdhc) {
            Some(capacity) => result == Ok::<(u64, u64), MmcError>(capacity),
            None => result == Err::<(u64, u64), MmcError>(MmcError::InvalidArgument),
        },
{
    if is_sdhc {
        let c_size = csd_field(csd, 69, 48);
        proof {
            lemma_field_bound(csd@, 69, 48);
            vstd::arithmetic::power2::lemma2_to64();
        }
        assert(c_size < 0x40_0000);
        let blocks = (c_size + 1) * 1024;
        Ok((blocks, SD_BLOCK_LEN as u64))
    } else {
        let read_bl_len = csd_field(csd, 83, 80);
        let c_size = csd_field(csd, 73, 62);
        let c_size_mult = csd_field(csd, 49, 47);
        proof {
            lemma_field_bound(csd@, 83, 80);
            lemma_field_bound(csd@, 73, 62);
            lemma_field_bound(csd@, 49, 47);
            vstd::arithmetic::power2::lemma2_to64();
        }
        assert(read_bl_len < 16 && c_size < 4096 && c_size_mult < 8);
        let block_size: u64 = 1u64 << read_bl_len;
        let multiplier: u64 = 1u64 << (c_size_mult + 2);
        proof {
            vstd::bits::lemma_u64_shl_is_mul(1, read_bl_len);
            vstd::bits::lemma_u64_shl_is_mul(1, (c_size_mult + 2) as u64);
            vstd::arithmetic::power2::lemma_pow2_strictly_increases(read_bl_len as nat, 16);
            vstd::arithmetic::power2::lemma_pow2_strictly_increases((c_size_mult + 2) as nat, 10);
            vstd::arithmetic::power2::lemma2_to64();
        }
        assert(block_size <= 0x8000 && multiplier <= 0x200);
        assert((c_size + 1) * multiplier <= 4096 * 0x200) by (nonlinear_arith)
            requires
                c_size < 4096,
                multiplier <= 0x200,
        ;
        assert((c_size + 1) * multiplier * block_size <= 4096 * 0x200 * 0x8000) by (nonlinear_arith)
            requires
                (c_size + 1) * multiplier <= 4096 * 0x200,
                block_size <= 0x8000,
        ;
        let byte_capacity = (c_size + 1) * multiplier * block_size;
        let blocks = byte_capacity / SD_BLOCK_LEN as u64;
        if blocks == 0 {
            return Err(MmcError::InvalidArgument);
        }
        Ok((blocks, block_size))
    }
}

/// The SCR advertises 4-bit bus support (SD_BUS_WIDTHS bit 2, in byte 1).
pub fn scr_supports_4bit(scr: &[u8; 8]) -> (supported: bool)
    ensures
        supported == (scr@[1] & 0x04 != 0),
{
    scr[1] & 0x04 != 0
}

/// A command without data phase.
pub open spec fn sd_command(index: u8, argument: u32, response_type: MmcResponseType) -> MmcCommand {
    MmcCommand {
        index,
        argument,
        response_type,
        data_present: false,
        read: false,
        init: false,
        update_clock: false,
        data_length: None,
    }
}

/// `event` is `command`, answered without error.
pub open spec fn answered(event: HostEvent, command: MmcCommand) -> bool {
    &&& event is Command
    &&& event->Command_0 == command
    &&& event->Command_1 is Ok
}

/// The response of an answered command.
pub open spec fn answer(event: HostEvent) -> MmcResponse {
    event->Command_1->Ok_0
}

/// The 16 payload bytes of a 136-bit response: RESP3, RESP2, RESP1, RESP0,
/// each big-endian.
pub open spec fn response_card_data(response: MmcResponse) -> Seq<u8> {
    Seq::new(16, |j: int| if j < 4 {
        be_byte(response.r3, j)
    } else if j < 8 {
        be_byte(response.r2, j - 4)
    } else if j < 12 {
        be_byte(response.r1, j - 8)
    } else {
        be_byte(response.r0, j - 12)
    })
}

proof fn lemma_card_data(bytes: Seq<u8>, response: MmcResponse)
    requires
        bytes.len() == 16,
        forall|j: int| 0 <= j < 4 ==> {
            &&& #[trigger] bytes[j] == be_byte(response.r3, j)
            &&& bytes[4 + j] == be_byte(response.r2, j)
            &&& bytes[8 + j] == be_byte(response.r1, j)
            &&& bytes[12 + j] == be_byte(response.r0, j)
        },
    ensures
        bytes == response_card_data(response),
{
    assert forall|j: int| 0 <= j < 16 implies bytes[j] == response_card_data(response)[j] by {
        let t = j % 4;
        assert(bytes[t] == be_byte(response.r3, t));
    }
    assert(bytes =~= response_card_data(response));
}

/// The CMD8 answer of a version 2 card echoes the check pattern.
pub open spec fn version2_answer(event: HostEvent) -> bool {
    event->Command_1 is Ok && event->Command_1->Ok_0.r0 & 0x0fff == SD_IF_COND_PATTERN
}

/// From position `j` of `events`: the SCR read (CMD55, ACMD51 and its
/// 8 data bytes), the switch to the 4-bit bus when the SCR offers it, the
/// status check and the 25 MHz clock, which end the handshake.
#[verifier::opaque]
pub open spec fn bus_setup_from(events: Seq<HostEvent>, j: int, argument: u32, info: SdCardInfo) -> bool {
    let scr = events[j + 2]->ReadData_0;
    let k = if info.bus_width == 4 { j + 6 } else { j + 3 };
    &&& answered(events[j], sd_command(SD_CMD55, argument, MmcResponseType::R1))
    &&& answered(events[j + 1], MmcCommand {
        data_present: true,
        read: true,
        data_length: Some(8),
        ..sd_command(SD_ACMD51, 0, MmcResponseType::R1)
    })
    &&& events[j + 2] is ReadData && events[j + 2]->ReadData_1 is Ok && scr.len() == 8
    &&& info.bus_width == (if scr[1] & 0x04 != 0 { 4u8 } else { 1u8 })
    &&& info.bus_width == 4 ==> {
        &&& answered(events[j + 3], sd_command(SD_CMD55, argument, MmcResponseType::R1))
        &&& answered(events[j + 4], sd_command(SD_ACMD6, SD_ACMD6_ARG_4BIT, MmcResponseType::R1))
        &&& events[j + 5] is BusWidth && events[j + 5]->BusWidth_0 == 4 && events[j + 5]->BusWidth_1 is Ok
    }
    &&& answered(events[k], sd_command(SD_CMD13, argument, MmcResponseType::R1))
    &&& events[k + 1] is Clock && events[k + 1]->Clock_0 == 25_000_000 && events[k + 1]->Clock_1 is Ok
    &&& events.len() == k + 2
}

/// From position `i` of `events`: the ACMD41 answer that reported power-up
/// just before, then CMD2 (CID), CMD3 (RCA), CMD9 (CSD, the capacity), CMD7,
/// CMD16 for a byte-addressed card, and the bus setup; `info` is what these
/// answers say.
#[verifier::opaque]
pub open spec fn identification_from(events: Seq<HostEvent>, i: int, is_v2: bool, info: SdCardInfo) -> bool {
    let argument = info.rca << 16u32;
    let ocr = answer(events[i - 1]).r0;
    &&& 4 <= i
    &&& answered(events[i - 1], sd_command(SD_ACMD41, SD_ACMD41_ARG, MmcResponseType::R3))
    &&& ocr & SD_OCR_POWER_UP != 0
    &&& info.is_sdhc == (is_v2 && ocr & SD_OCR_CCS != 0)
    &&& answered(events[i], sd_command(SD_CMD2, 0, MmcResponseType::R2))
    &&& info.cid@ == response_card_data(answer(events[i]))
    &&& answered(events[i + 1], sd_command(SD_CMD3, 0, MmcResponseType::R6))
    &&& info.rca == answer(events[i + 1]).r0 >> 16u32
    &&& answered(events[i + 2], sd_command(SD_CMD9, argument, MmcResponseType::R2))
    &&& csd_capacity(response_card_data(answer(events[i + 2])), info.is_sdhc) matches Some(capacity)
    &&& capacity.0 == info.block_count
    &&& answered(events[i + 3], sd_command(SD_CMD7, argument, MmcResponseType::R1b))
    &&& !info.is_sdhc ==> answered(events[i + 4], sd_command(SD_CMD16, SD_BLOCK_LEN, MmcResponseType::R1))
    &&& bus_setup_from(events, if info.is_sdhc { i + 4 } else { i + 5 }, argument, info)
}

/// `after` is `before` followed by a whole SD handshake that gave `info`:
/// the 1-bit bus, CMD0, CMD8 (answered, or timed out for a version 1 card),
/// ACMD41 until power-up, and the identification from there on.
pub open spec fn card_setup(before: Seq<HostEvent>, after: Seq<HostEvent>, info: SdCardInfo) -> bool {
    let events = after.skip(before.len() as int);
    &&& after.len() >= before.len() + 3
    &&& after.take(before.len() as int) == before
    &&& events[0] is BusWidth && events[0]->BusWidth_0 == 1 && events[0]->BusWidth_1 is Ok
    &&& answered(events[1], MmcCommand { init: true, ..sd_command(SD_CMD0, 0, MmcResponseType::NoResponse) })
    &&& events[2] is Command
    &&& events[2]->Command_0 == sd_command(SD_CMD8, SD_IF_COND_PATTERN, MmcResponseType::R7)
    &&& (events[2]->Command_1 is Ok || events[2]->Command_1 == Err::<MmcResponse, MmcError>(MmcError::Timeout))
    &&& exists|i: int| #[trigger] identification_from(events, i, version2_answer(events[2]), info)
}

/// The operation `event`, step `step` of a handshake, went through: its
/// result is `Ok`, or it is the CMD8 (step 2) that a version 1 card lets time out.
pub open spec fn step_succeeded(event: HostEvent, step: int) -> bool {
    match event {
        HostEvent::Command(_, result) => result is Ok || (step == 2 && result == Err::<MmcResponse, MmcError>(MmcError::Timeout)),
        HostEvent::ReadData(_, result) => result is Ok,
        HostEvent::Clock(_, result) => result is Ok,
        HostEvent::BusWidth(_, result) => result is Ok,
        HostEvent::Counter(_) => true,
    }
}

/// Every operation of `events` from position `from` up to `to` went through.
pub open spec fn steps_succeeded(events: Seq<HostEvent>, from: int, to: int) -> bool {
    forall|i: int| from <= i < to ==> step_succeeded(#[trigger] events[i], i - from)
}

/// The operation `event` failed with `error`.
pub open spec fn failed_with(event: HostEvent, error: MmcError) -> bool {
    match event {
        HostEvent::Command(_, result) => result == Err::<MmcResponse, MmcError>(error),
        HostEvent::ReadData(_, result) => result == Err::<(), MmcError>(error),
        HostEvent::Clock(_, result) => result == Err::<(), MmcError>(error),
        HostEvent::BusWidth(_, result) => result == Err::<(), MmcError>(error),
        HostEvent::Counter(_) => false,
    }
}

/// `event` is an ACMD41 (operating condition) request.
pub open spec fn is_acmd41(event: HostEvent) -> bool {
    event is Command && event->Command_0 == sd_command(SD_ACMD41, SD_ACMD41_ARG, MmcResponseType::R3)
}

/// How many ACMD41 requests `events` holds from position `from` on.
#[verifier::opaque]
pub open spec fn acmd41_count(events: Seq<HostEvent>, from: int) -> int
    decreases events.len(),
{
    if events.len() <= from || events.len() == 0 {
        0
    } else {
        acmd41_count(events.drop_last(), from) + (if is_acmd41(events.last()) { 1int } else { 0int })
    }
}

/// `event` is an ACMD41 answer that reports the card still busy.
pub open spec fn busy_answer(event: HostEvent) -> bool {
    answered(event, sd_command(SD_ACMD41, SD_ACMD41_ARG, MmcResponseType::R3)) && answer(event).r0 & SD_OCR_POWER_UP == 0
}

proof fn lemma_acmd41_push(events: Seq<HostEvent>, event: HostEvent, from: int)
    requires
        events.len() >= from,
    ensures
        acmd41_count(events.push(event), from) == acmd41_count(events, from) + (if is_acmd41(event) { 1int } else { 0int }),
{
    reveal(acmd41_count);
    assert(events.push(event).drop_last() =~= events);
}

/// No ACMD41 request lies past the end of `events`.
proof fn lemma_acmd41_none(events: Seq<HostEvent>)
    ensures
        acmd41_count(events, events.len() as int) == 0,
{
    reveal(acmd41_count);
}

/// A CSD that gives no capacity, whichever addressing the card uses.
pub open spec fn csd_without_capacity(csd: Seq<u8>, is_sdhc: bool) -> bool {
    csd_capacity(csd, is_sdhc) is None || csd_capacity(csd, is_sdhc)->Some_0.0 == 0
}

/// Why a handshake stops at `event`, step `step`, with `error`: the
/// operation failed with it (a CMD8 timeout excepted); or the card stayed
/// busy, `event` being the last of `MAX_ACMD41_RETRIES` ACMD41 answers
/// (`acmd41_answers` of them so far) or the counter reading, after a busy
/// answer (`previous`), that found the polling deadline passed (a timeout);
/// or it is a zero RCA, or a CSD without capacity (an invalid argument).
pub open spec fn stop_cause(event: HostEvent, error: MmcError, step: int, acmd41_answers: int, previous: HostEvent) -> bool {
    ||| failed_with(event, error) && !(step == 2 && error == MmcError::Timeout)
    ||| error == MmcError::Timeout && busy_answer(event) && acmd41_answers == MAX_ACMD41_RETRIES
    ||| error == MmcError::Timeout && event is Counter && busy_answer(previous)
    ||| error == MmcError::InvalidArgument && answered(event, sd_command(SD_CMD3, 0, MmcResponseType::R6))
        && answer(event).r0 >> 16u32 == 0
    ||| error == MmcError::InvalidArgument && event is Command && event->Command_0.index == SD_CMD9
        && event->Command_1 is Ok && (csd_without_capacity(response_card_data(answer(event)), true)
        || csd_without_capacity(response_card_data(answer(event)), false))
}

/// `events` is `before` followed by a handshake under way: it began with the
/// 1-bit bus and every operation so far went through.
#[verifier::opaque]
pub open spec fn handshake_going(before: Seq<HostEvent>, events: Seq<HostEvent>) -> bool {
    let n = before.len() as int;
    &&& events.len() > n
    &&& forall|x: int| 0 <= x < n ==> events[x] == before[x]
    &&& events[n] is BusWidth && events[n]->BusWidth_0 == 1
    &&& steps_succeeded(events, n, events.len() as int)
}

/// `after` is `before` followed by a handshake that stopped with `error`:
/// it began with the 1-bit bus, every operation but the last went through,
/// and the last one is why it stopped.
#[verifier::opaque]
pub open spec fn setup_failure(before: Seq<HostEvent>, after: Seq<HostEvent>, error: MmcError) -> bool {
    let n = before.len() as int;
    &&& after.len() > n
    &&& forall|x: int| 0 <= x < n ==> after[x] == before[x]
    &&& after[n] is BusWidth && after[n]->BusWidth_0 == 1
    &&& steps_succeeded(after, n, after.len() - 1)
    &&& stop_cause(after.last(), error, after.len() - 1 - n, acmd41_count(after, n), after[after.len() - 2])
}

proof fn lemma_steps_push(events: Seq<HostEvent>, event: HostEvent, from: int)
    requires
        0 <= from,
        steps_succeeded(events, from, events.len() as int),
        step_succeeded(event, events.len() - from),
    ensures
        steps_succeeded(events.push(event), from, events.len() + 1int),
{
    assert forall|i: int| from <= i < events.len() + 1 implies step_succeeded(#[trigger] events.push(event)[i], i - from) by {
        if i < events.len() {
            assert(events.push(event)[i] == events[i]);
        }
    }
}

proof fn lemma_going_push(before: Seq<HostEvent>, events: Seq<HostEvent>, event: HostEvent)
    requires
        handshake_going(before, events),
        step_succeeded(event, events.len() - before.len()),
    ensures
        handshake_going(before, events.push(event)),
{
    reveal(handshake_going);
    let n = before.len() as int;
    assert(events.push(event)[n] == events[n]);
    assert forall|x: int| 0 <= x < n implies events.push(event)[x] == before[x] by {
        assert(events.push(event)[x] == events[x]);
    }
    lemma_steps_push(events, event, n);
}

proof fn lemma_stop(before: Seq<HostEvent>, events: Seq<HostEvent>, event: HostEvent, error: MmcError)
    requires
        handshake_going(before, events),
        stop_cause(event, error, events.len() - before.len(), acmd41_count(events.push(event), before.len() as int),
            events.last()),
    ensures
        setup_failure(before, events.push(event), error),
{
    reveal(handshake_going);
    reveal(setup_failure);
    let n = before.len() as int;
    let after = events.push(event);
    assert(after[n] == events[n]);
    assert forall|x: int| 0 <= x < n implies after[x] == before[x] by {
        assert(after[x] == events[x]);
    }
    assert forall|i: int| n <= i < after.len() - 1 implies step_succeeded(#[trigger] after[i], i - n) by {
        assert(after[i] == events[i]);
    }
}

/// A handshake under way whose last operation is why it stops.
proof fn lemma_stop_last(before: Seq<HostEvent>, events: Seq<HostEvent>, error: MmcError)
    requires
        handshake_going(before, events),
        events.len() > before.len() + 1,
        stop_cause(events.last(), error, events.len() - 1 - before.len(), acmd41_count(events, before.len() as int),
            events[events.len() - 2]),
    ensures
        setup_failure(before, events, error),
{
    reveal(handshake_going);
    reveal(setup_failure);
}

/// ACMD41 (after CMD55) until the card reports power-up, at most
/// `MAX_ACMD41_RETRIES` times and until the polling deadline, pausing
/// between attempts; returns whether the card is block-addressed.
fn await_power_up<H: MmcHost>(host: &mut H, is_v2: bool, Ghost(before): Ghost<Seq<HostEvent>>) -> (result: Result<bool, MmcError>)
    requires
        handshake_going(before, old(host).spec_events()),
        old(host).spec_events().len() >= before.len() + 3,
        acmd41_count(old(host).spec_events(), before.len() as int) == 0,
    ensures
        final(host).spec_configuration() == old(host).spec_configuration(),
        final(host).spec_events().len() > old(host).spec_events().len(),
        forall|x: int| 0 <= x < old(host).spec_events().len() ==> final(host).spec_events()[x] == old(host).spec_events()[x],
        result matches Ok(is_sdhc) ==> {
            &&& handshake_going(before, final(host).spec_events())
            &&& answered(final(host).spec_events().last(), sd_command(SD_ACMD41, SD_ACMD41_ARG, MmcResponseType::R3))
            &&& answer(final(host).spec_events().last()).r0 & SD_OCR_POWER_UP != 0
            &&& is_sdhc == (is_v2 && answer(final(host).spec_events().last()).r0 & SD_OCR_CCS != 0)
        },
        result matches Err(error) ==> setup_failure(before, final(host).spec_events(), error),
{
    let ghost n = before.len() as int;
    let ghost opening = host.spec_events();
    let mut is_sdhc = false;
    let mut powered_up = false;
    let frequency = host.counter_frequency_hz();
    let cycles_per_ms = frequency / 1000;
    let ghost timing = host.spec_events();
    let start = host.counter();
    proof {
        lemma_going_push(before, timing, host.spec_events().last());
        lemma_acmd41_push(timing, host.spec_events().last(), n);
    }
    let deadline = start.saturating_add(
        crate::mmc::dw_mmc::saturating_mul_u64(cycles_per_ms, ACMD41_POLL_DEADLINE_MS),
    );
    let mut retries: usize = 0;
    while !powered_up && retries < MAX_ACMD41_RETRIES
        invariant_except_break
            !powered_up,
            retries < MAX_ACMD41_RETRIES,
        invariant
            retries <= MAX_ACMD41_RETRIES,
            host.spec_configuration() == old(host).spec_configuration(),
            opening == old(host).spec_events(),
            opening.len() >= before.len() + 3,
            host.spec_events().len() > opening.len(),
            forall|x: int| 0 <= x < opening.len() ==> host.spec_events()[x] == opening[x],
            n == before.len(),
            handshake_going(before, host.spec_events()),
            acmd41_count(host.spec_events(), n) == retries + (if powered_up { 1int } else { 0int }),
            powered_up ==> {
                &&& host.spec_events().len() > opening.len()
                &&& answered(host.spec_events().last(), sd_command(SD_ACMD41, SD_ACMD41_ARG, MmcResponseType::R3))
                &&& answer(host.spec_events().last()).r0 & SD_OCR_POWER_UP != 0
                &&& is_sdhc == (is_v2 && answer(host.spec_events().last()).r0 & SD_OCR_CCS != 0)
            },
        ensures
            !powered_up ==> host.spec_events().len() >= n + 2 && (busy_answer(host.spec_events().last())
                && acmd41_count(host.spec_events(), n) == MAX_ACMD41_RETRIES || host.spec_events().last() is Counter
                && busy_answer(host.spec_events()[host.spec_events().len() - 2])),
        decreases MAX_ACMD41_RETRIES - retries,
    {
        let ghost polling = host.spec_events();
        match host.send_command(MmcCommand::new(SD_CMD55, 0, MmcResponseType::R1)) {
            Ok(value) => value,
            Err(error) => {
                proof {
                    lemma_stop(before, polling, host.spec_events().last(), error);
                }
                return Err(error);
            },
        };
        proof {
            lemma_going_push(before, polling, host.spec_events().last());
            lemma_acmd41_push(polling, host.spec_events().last(), n);
        }
        let ghost asked = host.spec_events();
        let ocr = match host.send_command(MmcCommand::new(SD_ACMD41, SD_ACMD41_ARG, MmcResponseType::R3)) {
            Ok(value) => value,
            Err(error) => {
                proof {
                    lemma_stop(before, asked, host.spec_events().last(), error);
                }
                return Err(error);
            },
        };
        proof {
            lemma_going_push(before, asked, host.spec_events().last());
            lemma_acmd41_push(asked, host.spec_events().last(), n);
        }
        if ocr.r0 & SD_OCR_POWER_UP != 0 {
            is_sdhc = is_v2 && ocr.r0 & SD_OCR_CCS != 0;
            powered_up = true;
            break;
        }
        retries = retries + 1;
        if retries >= MAX_ACMD41_RETRIES {
            break;
        }
        let ghost checking = host.spec_events();
        let reading = host.counter();
        proof {
            lemma_going_push(before, checking, host.spec_events().last());
            lemma_acmd41_push(checking, host.spec_events().last(), n);
            assert(host.spec_events()[host.spec_events().len() - 2] == checking.last());
        }
        if reading >= deadline {
            break;
        }
        // Pause between attempts instead of hammering the card.
        let ghost pausing = host.spec_events();
        let now = host.counter();
        proof {
            lemma_going_push(before, pausing, host.spec_events().last());
            lemma_acmd41_push(pausing, host.spec_events().last(), n);
        }
        let interval = now.saturating_add(
            crate::mmc::dw_mmc::saturating_mul_u64(cycles_per_ms, ACMD41_POLL_INTERVAL_MS),
        );
        let mut spins: usize = 0;
        while spins < ACMD41_INTERVAL_SPIN_CAP
            invariant
                spins <= ACMD41_INTERVAL_SPIN_CAP,
                host.spec_configuration() == old(host).spec_configuration(),
                opening.len() >= before.len() + 3,
                host.spec_events().len() > opening.len(),
                forall|x: int| 0 <= x < opening.len() ==> host.spec_events()[x] == opening[x],
                n == before.len(),
                handshake_going(before, host.spec_events()),
                acmd41_count(host.spec_events(), n) == retries,
            decreases ACMD41_INTERVAL_SPIN_CAP - spins,
        {
            let ghost spinning = host.spec_events();
            let reading = host.counter();
            proof {
                lemma_going_push(before, spinning, host.spec_events().last());
                lemma_acmd41_push(spinning, host.spec_events().last(), n);
            }
            if reading >= interval {
                break;
            }
            spins = spins + 1;
        }
    }
    if !powered_up {
        proof {
            lemma_stop_last(before, host.spec_events(), MmcError::Timeout);
        }
        return Err(MmcError::Timeout);
    }
    Ok(is_sdhc)

}

/// Runs the SD handshake on a host that was reset and set to the 400 kHz
/// identification clock.
#[verifier::rlimit(100)]
#[verifier::spinoff_prover]
pub fn initialize_card<H: MmcHost>(host: &mut H) -> (result: Result<SdCardInfo, MmcError>)
    ensures
        final(host).spec_configuration() == old(host).spec_configuration(),
        result matches Ok(info) ==> {
            &&& info.rca != 0
            &&& info.block_count > 0
            &&& (info.bus_width == 1 || info.bus_width == 4)
            &&& card_setup(old(host).spec_events(), final(host).spec_events(), info)
        },
        result matches Err(error) ==> setup_failure(old(host).spec_events(), final(host).spec_events(), error),
{
    let ghost before = old(host).spec_events();
    let ghost n = before.len() as int;
    match host.set_bus_width(1) {
        Ok(()) => {},
        Err(error) => {
            proof {
                reveal(setup_failure);
                let after = host.spec_events();
                assert(after[n] == HostEvent::BusWidth(1, Err(error)));
                assert forall|x: int| 0 <= x < n implies after[x] == before[x] by {
                    assert(after[x] == before.push(after.last())[x]);
                }
            }
            return Err(error);
        },
    }
    let ghost narrowed = host.spec_events();
    proof {
        assert(narrowed[n] is BusWidth && narrowed[n]->BusWidth_0 == 1 && narrowed[n]->BusWidth_1 is Ok);
        lemma_acmd41_none(before);
        lemma_acmd41_push(before, narrowed.last(), n);
        assert forall|x: int| 0 <= x < n implies narrowed[x] == before[x] by {
            assert(narrowed[x] == before.push(narrowed.last())[x]);
        }
        assert forall|i: int| n <= i < narrowed.len() implies step_succeeded(#[trigger] narrowed[i], i - n) by {}
        assert(handshake_going(before, narrowed)) by {
            reveal(handshake_going);
        }
    }

    // CMD0: go idle.
    match host.send_command(MmcCommand {
        index: SD_CMD0,
        argument: 0,
        response_type: MmcResponseType::NoResponse,
        data_present: false,
        read: false,
        init: true,
        update_clock: false,
        data_length: None,
    }) {
        Ok(_) => {},
        Err(error) => {
            proof {
                lemma_stop(before, narrowed, host.spec_events().last(), error);
            }
            return Err(error);
        },
    }
    proof {
        lemma_going_push(before, narrowed, host.spec_events().last());
        lemma_acmd41_push(narrowed, host.spec_events().last(), n);
    }
    let ghost idled = host.spec_events();

    // CMD8: interface condition. Version 1 cards do not answer.
    let interface_condition = match host.send_command(MmcCommand::new(SD_CMD8, SD_IF_COND_PATTERN, MmcResponseType::R7)) {
        Ok(response) => response,
        Err(MmcError::Timeout) => MmcResponse::zeroed(),
        Err(error) => {
            proof {
                lemma_stop(before, idled, host.spec_events().last(), error);
            }
            return Err(error);
        },
    };
    proof {
        lemma_going_push(before, idled, host.spec_events().last());
        lemma_acmd41_push(idled, host.spec_events().last(), n);
    }
    let is_v2 = interface_condition.r0 & 0x0fff == SD_IF_COND_PATTERN;
    let ghost opening = host.spec_events();
    proof {
        assert(0u32 & 0x0fff == 0u32) by (bit_vector);
        assert(is_v2 == version2_answer(opening[before.len() + 2int]));
        assert(forall|x: int| 0 <= x < before.len() ==> opening[x] == before[x]);
        assert(narrowed[before.len() as int] is BusWidth && narrowed[before.len() as int]->BusWidth_0 == 1);
        assert(opening[before.len() as int] == narrowed[before.len() as int]);
        assert(answered(opening[before.len() + 1int], MmcCommand {
            init: true,
            ..sd_command(SD_CMD0, 0, MmcResponseType::NoResponse)
        }));
        assert(opening[before.len() + 2int]->Command_0 == sd_command(SD_CMD8, SD_IF_COND_PATTERN, MmcResponseType::R7));
    }

    // CMD55 + ACMD41 until the card reports power-up; then read CCS.
    let is_sdhc = match await_power_up(host, is_v2, Ghost(before)) {
        Ok(is_sdhc) => is_sdhc,
        Err(error) => {
            return Err(error);
        },
    };

    let ghost i = host.spec_events().len() - before.len();
    let ghost identified = host.spec_events();
    proof {
        assert(forall|x: int| 0 <= x < before.len() ==> identified[x] == before[x]);
    }
    // CMD2: CID.
    let ghost at_cmd2 = host.spec_events();
    let cid_response = match host.send_command(MmcCommand::new(SD_CMD2, 0, MmcResponseType::R2)) {
        Ok(value) => value,
        Err(error) => {
            proof {
                lemma_stop(before, at_cmd2, host.spec_events().last(), error);
            }
            return Err(error);
        },
    };
    proof {
        lemma_going_push(before, at_cmd2, host.spec_events().last());
    }
    let cid = cid_response.card_data();

    // CMD3: relative card address.
    let ghost at_cmd3 = host.spec_events();
    let rca_response = match host.send_command(MmcCommand::new(SD_CMD3, 0, MmcResponseType::R6)) {
        Ok(value) => value,
        Err(error) => {
            proof {
                lemma_stop(before, at_cmd3, host.spec_events().last(), error);
            }
            return Err(error);
        },
    };
    proof {
        lemma_going_push(before, at_cmd3, host.spec_events().last());
    }
    let rca = rca_response.r0 >> 16u32;
    if rca == 0 {
        proof {
            lemma_stop_last(before, host.spec_events(), MmcError::InvalidArgument);
        }
        return Err(MmcError::InvalidArgument);
    }
    let rca_argument = rca << 16u32;

    // CMD9: CSD, hence the capacity.
    let ghost at_cmd9 = host.spec_events();
    let csd_response = match host.send_command(MmcCommand::new(SD_CMD9, rca_argument, MmcResponseType::R2)) {
        Ok(value) => value,
        Err(error) => {
            proof {
                lemma_stop(before, at_cmd9, host.spec_events().last(), error);
            }
            return Err(error);
        },
    };
    proof {
        lemma_going_push(before, at_cmd9, host.spec_events().last());
    }
    let csd = csd_response.card_data();
    proof {
        lemma_card_data(csd@, csd_response);
    }
    let (block_count, _block_size) = match parse_csd(&csd, is_sdhc) {
        Ok(capacity) => capacity,
        Err(error) => {
            proof {
                lemma_stop_last(before, host.spec_events(), error);
            }
            return Err(error);
        },
    };
    if block_count == 0 {
        proof {
            lemma_stop_last(before, host.spec_events(), MmcError::InvalidArgument);
        }
        return Err(MmcError::InvalidArgument);
    }

    // CMD7: select the card (R1b: wait out the busy phase).
    let ghost at_cmd7 = host.spec_events();
    match host.send_command(MmcCommand::new(SD_CMD7, rca_argument, MmcResponseType::R1b)) {
        Ok(value) => value,
        Err(error) => {
            proof {
                lemma_stop(before, at_cmd7, host.spec_events().last(), error);
            }
            return Err(error);
        },
    };
    proof {
        lemma_going_push(before, at_cmd7, host.spec_events().last());
    }

    // CMD16: only byte-addressed cards need the block length.
    if !is_sdhc {
        let ghost at_cmd16 = host.spec_events();
        match host.send_command(MmcCommand::new(SD_CMD16, SD_BLOCK_LEN, MmcResponseType::R1)) {
            Ok(value) => value,
            Err(error) => {
                proof {
                    lemma_stop(before, at_cmd16, host.spec_events().last(), error);
                }
                return Err(error);
            },
        };
        proof {
            lemma_going_push(before, at_cmd16, host.spec_events().last());
        }
    }

    // ACMD51: SCR (8 bytes), hence the supported bus widths.
    let ghost at_scr55 = host.spec_events();
    match host.send_command(MmcCommand::new(SD_CMD55, rca_argument, MmcResponseType::R1)) {
        Ok(value) => value,
        Err(error) => {
            proof {
                lemma_stop(before, at_scr55, host.spec_events().last(), error);
            }
            return Err(error);
        },
    };
    proof {
        lemma_going_push(before, at_scr55, host.spec_events().last());
    }
    let ghost at_acmd51 = host.spec_events();
    match host.send_command(MmcCommand::new(SD_ACMD51, 0, MmcResponseType::R1).with_data_length(true, 8)) {
        Ok(value) => value,
        Err(error) => {
            proof {
                lemma_stop(before, at_acmd51, host.spec_events().last(), error);
            }
            return Err(error);
        },
    };
    proof {
        lemma_going_push(before, at_acmd51, host.spec_events().last());
    }
    let mut scr: [u8; 8] = [0u8; 8];
    let ghost at_scr = host.spec_events();
    match host.read_block_data(&mut scr) {
        Ok(value) => value,
        Err(error) => {
            proof {
                lemma_stop(before, at_scr, host.spec_events().last(), error);
            }
            return Err(error);
        },
    };
    proof {
        lemma_going_push(before, at_scr, host.spec_events().last());
    }
    if scr.len() != 8 {
        return Err(MmcError::Io);
    }

    let mut bus_width: u8 = 1;
    let scr_bytes: [u8; 8] = [scr[0], scr[1], scr[2], scr[3], scr[4], scr[5], scr[6], scr[7]];
    if scr_supports_4bit(&scr_bytes) {
        bus_width = 4;
        // ACMD6: switch to the 4-bit bus.
        let ghost at_wide55 = host.spec_events();
        match host.send_command(MmcCommand::new(SD_CMD55, rca_argument, MmcResponseType::R1)) {
            Ok(value) => value,
            Err(error) => {
                proof {
                    lemma_stop(before, at_wide55, host.spec_events().last(), error);
                }
                return Err(error);
            },
        };
        proof {
            lemma_going_push(before, at_wide55, host.spec_events().last());
        }
        let ghost at_acmd6 = host.spec_events();
        match host.send_command(MmcCommand::new(SD_ACMD6, SD_ACMD6_ARG_4BIT, MmcResponseType::R1)) {
            Ok(value) => value,
            Err(error) => {
                proof {
                    lemma_stop(before, at_acmd6, host.spec_events().last(), error);
                }
                return Err(error);
            },
        };
        proof {
            lemma_going_push(before, at_acmd6, host.spec_events().last());
        }
        let ghost at_wide = host.spec_events();
        match host.set_bus_width(4) {
            Ok(value) => value,
            Err(error) => {
                proof {
                    lemma_stop(before, at_wide, host.spec_events().last(), error);
                }
                return Err(error);
            },
        };
        proof {
            lemma_going_push(before, at_wide, host.spec_events().last());
        }
    }

    // CMD13: status check.
    let ghost at_cmd13 = host.spec_events();
    match host.send_command(MmcCommand::new(SD_CMD13, rca_argument, MmcResponseType::R1)) {
        Ok(value) => value,
        Err(error) => {
            proof {
                lemma_stop(before, at_cmd13, host.spec_events().last(), error);
            }
            return Err(error);
        },
    };
    proof {
        lemma_going_push(before, at_cmd13, host.spec_events().last());
    }

    // Switch to the 25 MHz transfer clock.
    let ghost at_clock = host.spec_events();
    match host.set_clock(25_000_000) {
        Ok(()) => {},
        Err(error) => {
            proof {
                lemma_stop(before, at_clock, host.spec_events().last(), error);
            }
            return Err(error);
        },
    }

    let info = SdCardInfo { rca, is_sdhc, block_count, bus_width, cid };
    proof {
        let after = host.spec_events();
        let events = after.skip(before.len() as int);
        assert(forall|x: int| 0 <= x < identified.len() ==> after[x] == identified[x]);
        assert(events[0] == opening[before.len() as int]);
        assert(events[1] == opening[before.len() + 1int]);
        assert(events[2] == opening[before.len() + 2int]);
        assert(after.take(before.len() as int) =~= before);
        lemma_card_data(cid@, cid_response);
        lemma_card_data(csd@, csd_response);
        assert(identification_from(events, i, version2_answer(events[2]), info)) by {
            reveal(identification_from);
            reveal(bus_setup_from);
            reveal(handshake_going);
        }
    }
    Ok(info)
}

} // verus!
