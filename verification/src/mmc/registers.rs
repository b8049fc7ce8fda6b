//! DesignWare Mobile Storage Host Controller register layout and bits
//! (layout of controllers of version 2.40a and later: FIFO at `0x200`).
use vstd::prelude::*;

verus! {

pub const REG_CTRL: usize = 0x000;
pub const REG_PWREN: usize = 0x004;
pub const REG_CLKDIV: usize = 0x008;
pub const REG_CLKSRC: usize = 0x00c;
pub const REG_CLKENA: usize = 0x010;
pub const REG_TMOUT: usize = 0x014;
pub const REG_CTYPE: usize = 0x018;
pub const REG_BLKSIZ: usize = 0x01c;
pub const REG_BYTCNT: usize = 0x020;
pub const REG_INTMASK: usize = 0x024;
pub const REG_CMDARG: usize = 0x028;
pub const REG_CMD: usize = 0x02c;
pub const REG_RESP0: usize = 0x030;
pub const REG_RESP1: usize = 0x034;
pub const REG_RESP2: usize = 0x038;
pub const REG_RESP3: usize = 0x03c;
pub const REG_MINTSTS: usize = 0x040;
pub const REG_RINTSTS: usize = 0x044;
pub const REG_STATUS: usize = 0x048;
pub const REG_FIFOTH: usize = 0x04c;
pub const REG_CDETECT: usize = 0x050;
pub const REG_WRTPRT: usize = 0x054;
pub const REG_VERID: usize = 0x06c;
pub const REG_HCON: usize = 0x070;
pub const REG_RST_N: usize = 0x078;

pub const DATA_OFFSET: usize = 0x100;
pub const DATA_240A_OFFSET: usize = 0x200;
pub const DW_MMC_240A: u32 = 0x240a;

pub const CTRL_USE_IDMAC: u32 = 0x2000000;
pub const CTRL_ABORT_READ_DATA: u32 = 0x100;
pub const CTRL_DMA_RESET: u32 = 0x4;
pub const CTRL_FIFO_RESET: u32 = 0x2;
pub const CTRL_RESET: u32 = 0x1;

pub const CLKENA_ENABLE: u32 = 0x1;

pub const CMD_INDEX_MASK: u32 = 0x3f;
pub const CMD_RESP_EXP: u32 = 0x40;
pub const CMD_RESP_LONG: u32 = 0x80;
pub const CMD_RESP_CRC: u32 = 0x100;
pub const CMD_DATA_EXPECTED: u32 = 0x200;
pub const CMD_DATA_WRITE: u32 = 0x400;
pub const CMD_SEND_INIT: u32 = 0x8000;
pub const CMD_UPDATE_CLOCK: u32 = 0x200000;
pub const CMD_START: u32 = 0x80000000;

pub const INT_CARD_DETECT: u32 = 0x1;
pub const INT_RESP_ERR: u32 = 0x2;
pub const INT_CMD_DONE: u32 = 0x4;
pub const INT_DATA_OVER: u32 = 0x8;
pub const INT_TX_DATA_REQ: u32 = 0x10;
pub const INT_RX_DATA_REQ: u32 = 0x20;
pub const INT_RESP_CRC: u32 = 0x40;
pub const INT_DATA_CRC: u32 = 0x80;
pub const INT_RESP_TIMEOUT: u32 = 0x100;
pub const INT_DATA_TIMEOUT: u32 = 0x200;
pub const INT_HOST_TIMEOUT: u32 = 0x400;
pub const INT_FIFO_UNDERRUN: u32 = 0x800;
pub const INT_FIFO_OVERRUN: u32 = 0x1000;
pub const INT_START_BIT: u32 = 0x2000;
pub const INT_END_BIT: u32 = 0x8000;

/// Every command/data completion or error bit.
pub const INT_CMD_AND_DATA: u32 = 0xbbcc;

pub const STATUS_BUSY: u32 = 0x200;
pub const STATUS_FIFO_COUNT_SHIFT: u32 = 17;
pub const STATUS_FIFO_COUNT_MASK: u32 = 0x1fff;

/// FIFOTH value for an RX watermark: `rx << 16 | tx`, each 12 bits wide.
pub fn fifoth_for(rx_watermark: u32) -> (value: u32)
    ensures
        value == ((rx_watermark & 0xfff) << 16u32) | (rx_watermark & 0xfff),
{
    ((rx_watermark & 0xfff) << 16u32) | (rx_watermark & 0xfff)
}

/// CTYPE encoding of a bus width: 8-bit sets bit 16, 4-bit sets bit 0,
/// anything else selects 1-bit.
pub fn ctype_for_width(bus_width: u8) -> (value: u32)
    ensures
        value == (if bus_width == 8 { 0x1_0000u32 } else if bus_width == 4 { 1u32 } else { 0u32 }),
{
    match bus_width {
        8 => 0x1_0000,
        4 => 1,
        _ => 0,
    }
}

} // verus!
