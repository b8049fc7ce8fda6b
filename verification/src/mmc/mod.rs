//! MMC/SD storage: the DesignWare host controller, the SD card protocol and
//! the read-only SD block device.
pub mod block;
pub mod dw_mmc;
pub mod registers;
pub mod mock;
pub mod sd;

use vstd::prelude::*;

use dw_mmc::{
    clock_divider_spec, clock_sequence, is_poll, poll_result, DwMmcController, HostEvent, MmcError, MmcRegisterIo,
    RegisterAccess,
};
use registers::{CTRL_FIFO_RESET, CTRL_RESET, REG_CTRL, REG_INTMASK, REG_PWREN, REG_RINTSTS};
use sd::{card_setup, initialize_card, setup_failure, SdCardInfo};

verus! {

/// The step of card bring-up that failed.
#[derive(Clone, Copy, Debug, PartialEq, Eq, Structural)]
pub enum BringUpStage {
    Power,
    Reset,
    /// Setting the 400 kHz identification clock.
    InitClock,
    /// The SD handshake.
    Init,
}

/// The identification clock of the SD handshake.
pub const IDENTIFICATION_CLOCK_HZ: u64 = 400_000;

/// What bring-up does from the register trace `before` and host events
/// `events_before` on: PWREN set; the controller reset and its poll, a
/// timeout of which stops at the reset; the interrupts masked; the
/// identification clock programmed, a failure of which stops there; then the
/// SD handshake on the controller as a host, whose outcome is the result.
pub open spec fn bring_up_outcome(before: Seq<RegisterAccess>, after: Seq<RegisterAccess>, events_before: Seq<HostEvent>,
    events_after: Seq<HostEvent>, ciu_frequency_hz: u64, result: Result<SdCardInfo, (BringUpStage, MmcError)>) -> bool {
    let reset_started = before.push(RegisterAccess::Write(REG_PWREN, 1)).push(
        RegisterAccess::Write(REG_CTRL, CTRL_RESET | CTRL_FIFO_RESET));
    exists|reset_poll: Seq<RegisterAccess>| #[trigger] is_poll(reset_poll, REG_CTRL, CTRL_RESET | CTRL_FIFO_RESET, false) && {
        if poll_result(reset_poll, CTRL_RESET | CTRL_FIFO_RESET, false) is Err {
            &&& after == reset_started + reset_poll
            &&& events_after == events_before
            &&& result == Err::<SdCardInfo, (BringUpStage, MmcError)>((BringUpStage::Reset, MmcError::Timeout))
        } else {
            let masked = (reset_started + reset_poll).push(RegisterAccess::Write(REG_INTMASK, 0)).push(
                RegisterAccess::Write(REG_RINTSTS, u32::MAX));
            exists|busy: Seq<RegisterAccess>, first: Seq<RegisterAccess>, second: Seq<RegisterAccess>,
                clocked: Seq<RegisterAccess>, clock: Result<(), MmcError>|
                #[trigger] clock_sequence(masked, busy, first, second, clocked,
                    clock_divider_spec(ciu_frequency_hz, IDENTIFICATION_CLOCK_HZ), clock) && {
                    if clock is Err {
                        &&& after == clocked
                        &&& events_after == events_before
                        &&& result == Err::<SdCardInfo, (BringUpStage, MmcError)>((BringUpStage::InitClock, clock->Err_0))
                    } else {
                        match result {
                            Ok(info) => card_setup(events_before, events_after, info),
                            Err((stage, error)) => stage is Init && setup_failure(events_before, events_after, error),
                        }
                    }
                }
        }
    }
}

/// Brings a removable card up on `controller`: power on, reset, mask the
/// interrupts, switch to the identification clock and run the SD
/// handshake. A failure names the step that failed; the steps after it
/// are not tried.
pub fn bring_up_card<I: MmcRegisterIo>(controller: &mut DwMmcController<I>) -> (result: Result<SdCardInfo, (BringUpStage, MmcError)>)
    ensures
        final(controller).fifo_offset == old(controller).fifo_offset,
        final(controller).fifo_depth == old(controller).fifo_depth,
        final(controller).ciu_frequency_hz == old(controller).ciu_frequency_hz,
        result matches Ok(info) ==> info.rca != 0 && info.block_count > 0 && (info.bus_width == 1 || info.bus_width == 4),
        result matches Err((stage, error)) ==> !(stage is Power) && (stage is Reset ==> error is Timeout)
            && (stage is InitClock ==> error is Timeout || error is CrcError),
        bring_up_outcome(old(controller).trace@, final(controller).trace@, old(controller).host_events@,
            final(controller).host_events@, old(controller).ciu_frequency_hz, result),
{
    let ghost before = controller.trace@;
    match controller.power_on() {
        Ok(()) => {},
        Err(error) => {
            return Err((BringUpStage::Power, error));
        },
    }
    let ghost reset_at = controller.trace@;
    let reset = controller.reset();
    let ghost reset_poll = controller.trace@.skip(reset_at.len() + 1int);
    let ghost reset_started = before.push(RegisterAccess::Write(REG_PWREN, 1)).push(
        RegisterAccess::Write(REG_CTRL, CTRL_RESET | CTRL_FIFO_RESET));
    proof {
        assert(controller.trace@ =~= controller.trace@.take(reset_at.len() + 1int) + reset_poll);
        assert(controller.trace@ =~= reset_started + reset_poll);
    }
    match reset {
        Ok(()) => {},
        Err(error) => {
            proof {
                assert(is_poll(reset_poll, REG_CTRL, CTRL_RESET | CTRL_FIFO_RESET, false));
            }
            return Err((BringUpStage::Reset, error));
        },
    }
    controller.disable_interrupts();
    let ghost masked = controller.trace@;
    let clock = controller.set_clock(IDENTIFICATION_CLOCK_HZ);
    let ghost clocked = controller.trace@;
    let ghost (busy, first, second) = choose|busy: Seq<RegisterAccess>, first: Seq<RegisterAccess>, second: Seq<RegisterAccess>|
        #[trigger] clock_sequence(masked, busy, first, second, clocked,
            clock_divider_spec(controller.ciu_frequency_hz, IDENTIFICATION_CLOCK_HZ), clock);
    proof {
        assert(is_poll(reset_poll, REG_CTRL, CTRL_RESET | CTRL_FIFO_RESET, false));
        assert(clock_sequence(masked, busy, first, second, clocked,
            clock_divider_spec(controller.ciu_frequency_hz, IDENTIFICATION_CLOCK_HZ), clock));
    }
    match clock {
        Ok(()) => {},
        Err(error) => {
            return Err((BringUpStage::InitClock, error));
        },
    }
    match initialize_card(controller) {
        Ok(info) => Ok(info),
        Err(error) => Err((BringUpStage::Init, error)),
    }
}

/// A DesignWare MMC host as the device tree describes it.
#[derive(Clone, Copy, Debug, PartialEq, Eq)]
pub struct MmcHostConfig {
    /// `n` of the `mmcN` alias, where there is one.
    pub alias_index: Option<u8>,
    pub base: usize,
    pub size: usize,
    pub bus_width: u32,
    pub irq: u32,
    pub fifo_depth: Option<u32>,
    pub max_frequency_hz: Option<u64>,
    pub ciu_frequency_hz: Option<u64>,
    /// Soldered-on storage (eMMC) rather than a card slot.
    pub non_removable: bool,
}

/// The first host aliased `mmc1`, where there is one.
pub open spec fn first_mmc1(hosts: Seq<MmcHostConfig>) -> Option<MmcHostConfig>
    decreases hosts.len(),
{
    if hosts.len() == 0 {
        None
    } else if hosts[0].alias_index == Some(1u8) {
        Some(hosts[0])
    } else {
        first_mmc1(hosts.drop_first())
    }
}

/// The first removable host, where there is one.
pub open spec fn first_removable(hosts: Seq<MmcHostConfig>) -> Option<MmcHostConfig>
    decreases hosts.len(),
{
    if hosts.len() == 0 {
        None
    } else if !hosts[0].non_removable {
        Some(hosts[0])
    } else {
        first_removable(hosts.drop_first())
    }
}

/// Picks the host of the TF card slot: the host aliased `mmc1` (the slot of
/// the VisionFive 2), else the first removable host, else none. The
/// alias wins even over a removable host listed before it.
pub fn select_tf_host(hosts: &[MmcHostConfig]) -> (host: Option<MmcHostConfig>)
    ensures
        host == (match first_mmc1(hosts@) {
            Some(aliased) => Some(aliased),
            None => first_removable(hosts@),
        }),
{
    let mut i: usize = 0;
    proof {
        assert(hosts@.subrange(0, hosts@.len() as int) =~= hosts@);
    }
    while i < hosts.len()
        invariant
            i <= hosts@.len(),
            first_mmc1(hosts@.subrange(i as int, hosts@.len() as int)) == first_mmc1(hosts@),
        decreases hosts@.len() - i,
    {
        proof {
            assert(hosts@.subrange(i as int, hosts@.len() as int).drop_first()
                =~= hosts@.subrange(i + 1, hosts@.len() as int));
        }
        match hosts[i].alias_index {
            Some(1) => {
                return Some(hosts[i]);
            },
            _ => {},
        }
        i = i + 1;
    }
    proof {
        assert(hosts@.subrange(i as int, hosts@.len() as int) =~= Seq::<MmcHostConfig>::empty());
        assert(hosts@.subrange(0, hosts@.len() as int) =~= hosts@);
    }
    let mut j: usize = 0;
    while j < hosts.len()
        invariant
            j <= hosts@.len(),
            first_mmc1(hosts@) is None,
            first_removable(hosts@.subrange(j as int, hosts@.len() as int)) == first_removable(hosts@),
        decreases hosts@.len() - j,
    {
        proof {
            assert(hosts@.subrange(j as int, hosts@.len() as int).drop_first()
                =~= hosts@.subrange(j + 1, hosts@.len() as int));
        }
        if !hosts[j].non_removable {
            return Some(hosts[j]);
        }
        j = j + 1;
    }
    proof {
        assert(hosts@.subrange(j as int, hosts@.len() as int) =~= Seq::<MmcHostConfig>::empty());
    }
    None
}

} // verus!
