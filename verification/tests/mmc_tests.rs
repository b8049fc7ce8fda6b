use kernel::block::{BlockDevice, BlockError};
use kernel::mmc::block::{mmc_to_block, sd_block_address, sd_block_size, SdBlockDevice, SD_BLOCK_SIZE};
use kernel::mmc::dw_mmc::{clock_divider, fifo_watermark, r1_has_error, DwMmcController, MmcCommand, MmcError, MmcResponseType};
use kernel::mmc::mock::{MockFailure, MockRegisterIo};
use kernel::mmc::registers::{fifoth_for, DATA_240A_OFFSET, DATA_OFFSET};
use kernel::mmc::{bring_up_card, select_tf_host, BringUpStage, MmcHostConfig};
use kernel::mmc::sd::{initialize_card, parse_csd, scr_supports_4bit, SD_CMD17};

fn controller(mock: MockRegisterIo) -> DwMmcController<MockRegisterIo> {
    DwMmcController::new(mock, 25_000_000, 32)
}

fn words_of(csd: [u8; 16]) -> Vec<u32> {
    vec![
        u32::from_be_bytes([csd[12], csd[13], csd[14], csd[15]]),
        u32::from_be_bytes([csd[8], csd[9], csd[10], csd[11]]),
        u32::from_be_bytes([csd[4], csd[5], csd[6], csd[7]]),
        u32::from_be_bytes([csd[0], csd[1], csd[2], csd[3]]),
    ]
}

fn set_bit(csd: &mut [u8; 16], bit: usize) {
    let byte = 15 - bit / 8;
    let bit_in_byte = 7 - (bit % 8);
    csd[byte] |= 1 << bit_in_byte;
}

fn csd_v2_words(c_size: u64) -> Vec<u32> {
    let mut csd = [0_u8; 16];
    for bit in 48..=69usize {
        if c_size & (1_u64 << (bit - 48)) != 0 {
            set_bit(&mut csd, bit);
        }
    }
    words_of(csd)
}

fn csd_v1_words() -> Vec<u32> {
    let mut csd = [0_u8; 16];
    set_bit(&mut csd, 80);
    set_bit(&mut csd, 83);
    for bit in 62..=73usize {
        if 0x1ff_u16 & (1 << (bit - 62)) != 0 {
            set_bit(&mut csd, bit);
        }
    }
    for bit in 47..=49usize {
        set_bit(&mut csd, bit);
    }
    words_of(csd)
}

#[test]
fn command_completes_with_cmd_start() {
    let mock = MockRegisterIo::new().with_responses(vec![0x1a2b_3c4d, 0, 0, 0]);
    let mut controller = controller(mock);
    let response = controller.send_command(MmcCommand::new(8, 0x1aa, MmcResponseType::R7)).expect("command 8 completed");
    assert_eq!(response.r0, 0x1a2b_3c4d);
    let trace = &controller.io_ref().commands;
    assert_eq!(trace[0].index, 8);
    assert!(trace[0].cmd_start);
}

#[test]
fn controller_failures_are_reported() {
    let mut timeout = controller(MockRegisterIo::new().with_failure(MockFailure::ResponseTimeout));
    assert_eq!(timeout.send_command(MmcCommand::new(8, 0x1aa, MmcResponseType::R7)), Err(MmcError::Timeout));

    let mut crc = controller(MockRegisterIo::new().with_failure(MockFailure::ResponseCrc));
    assert_eq!(crc.send_command(MmcCommand::new(55, 0, MmcResponseType::R1)), Err(MmcError::CrcError));

    let mut data_timeout = controller(MockRegisterIo::new().with_failure(MockFailure::DataTimeout));
    data_timeout
        .send_command(MmcCommand::new(17, 0, MmcResponseType::R1).with_data_length(true, 512))
        .expect("data command accepted");
    let mut block = [0_u8; 512];
    assert_eq!(data_timeout.read_block_data(&mut block), Err(MmcError::Timeout));

    let mut overrun = controller(MockRegisterIo::new().with_failure(MockFailure::FifoOverrun));
    overrun
        .send_command(MmcCommand::new(17, 0, MmcResponseType::R1).with_data_length(true, 512))
        .expect("data command accepted");
    assert_eq!(overrun.read_block_data(&mut block), Err(MmcError::FifoOverrun));

    let mut hang = controller(MockRegisterIo::new().with_failure(MockFailure::ResetHang));
    assert_eq!(hang.reset(), Err(MmcError::Timeout));
}

#[test]
fn batched_fifo_data_is_read_in_order() {
    let mock = MockRegisterIo::new()
        .with_fifo_data(vec![0x0302_0100, 0x0706_0504, 0x0b0a_0908, 0x0f0e_0d0c])
        .with_fifo_batch(2);
    let mut controller = controller(mock);
    assert_eq!(controller.fifo_offset(), DATA_OFFSET);
    controller
        .send_command(MmcCommand::new(17, 0, MmcResponseType::R1).with_data_length(true, 16))
        .expect("data command accepted");
    let mut block = [0_u8; 16];
    controller.read_block_data(&mut block).expect("batched fifo read");
    assert_eq!(block, [0, 1, 2, 3, 4, 5, 6, 7, 8, 9, 10, 11, 12, 13, 14, 15]);
}

#[test]
fn new_controller_versions_move_the_fifo() {
    let controller = controller(MockRegisterIo::new().with_verid(0x291a));
    assert_eq!(controller.fifo_offset(), DATA_240A_OFFSET);
}

#[test]
fn controller_recovers_after_fault_is_cleared() {
    let mut mock = MockRegisterIo::new().with_failure(MockFailure::ResponseTimeout);
    mock.set_failure(None);
    let mut controller = controller(mock);
    let response = controller.send_command(MmcCommand::new(13, 0x1234, MmcResponseType::R1)).expect("recovered");
    assert_eq!(response.r0, 0);
}

#[test]
fn fatal_card_status_is_an_error() {
    let mut controller = controller(MockRegisterIo::new().with_responses(vec![1 << 19, 0, 0, 0]));
    assert_eq!(controller.send_command(MmcCommand::new(13, 0, MmcResponseType::R1)), Err(MmcError::CardError));
    assert!(r1_has_error(1 << 19));
    assert!(!r1_has_error(0x900));
}

#[test]
fn clock_bus_width_and_power() {
    let mut controller = controller(MockRegisterIo::new());
    controller.set_clock(400_000).expect("400 kHz clock");
    controller.set_clock(25_000_000).expect("25 MHz clock");
    controller.set_bus_width(4).expect("4-bit bus width");
    assert_eq!(controller.set_bus_width(3), Err(MmcError::InvalidArgument));
    controller.power_on().expect("power on");
    controller.reset().expect("reset");
    controller.disable_interrupts();
    assert_eq!(clock_divider(25_000_000, 25_000_000), 1);
    assert_eq!(clock_divider(25_000_000, 400_000), 31);
    assert_eq!(clock_divider(25_000_000, 10), 125);
}

fn sdhc_responses(cid_words: [u32; 4], c_size: u64) -> Vec<u32> {
    let mut responses: Vec<u32> = Vec::new();
    responses.extend([0, 0, 0, 0]);
    responses.extend([0x1aa, 0, 0, 0]);
    responses.extend([0, 0, 0, 0]);
    responses.extend([0x00ff_8000, 0, 0, 0]);
    responses.extend([0, 0, 0, 0]);
    responses.extend([0xc0ff_8000, 0, 0, 0]);
    responses.extend(cid_words);
    responses.extend([0x1234_0000, 0, 0, 0]);
    responses.extend(csd_v2_words(c_size));
    for _ in 0..6 {
        responses.extend([0, 0, 0, 0]);
    }
    responses
}

#[test]
fn sdhc_card_initialisation() {
    let cid_payload = [
        0x01, 0x23, 0x45, 0x67, 0x89, 0xab, 0xcd, 0xef, 0xfe, 0xdc, 0xba, 0x98, 0x76, 0x54, 0x32, 0x10,
    ];
    let cid_words = [
        u32::from_be_bytes([cid_payload[12], cid_payload[13], cid_payload[14], cid_payload[15]]),
        u32::from_be_bytes([cid_payload[8], cid_payload[9], cid_payload[10], cid_payload[11]]),
        u32::from_be_bytes([cid_payload[4], cid_payload[5], cid_payload[6], cid_payload[7]]),
        u32::from_be_bytes([cid_payload[0], cid_payload[1], cid_payload[2], cid_payload[3]]),
    ];
    let mock = MockRegisterIo::new()
        .with_responses(sdhc_responses(cid_words, 0x12345))
        .with_fifo_data(vec![0x0000_0400, 0]);
    let mut controller = controller(mock);
    let info = initialize_card(&mut controller).expect("SDHC init");
    assert!(info.is_sdhc);
    assert_eq!(info.bus_width, 4);
    assert_eq!(info.rca, 0x1234);
    assert_eq!(info.block_count, (0x12345 + 1) * 1024);
    assert_eq!(info.cid, cid_payload);

    controller
        .send_command(MmcCommand::new(SD_CMD17, 5, MmcResponseType::R1).with_data_length(true, 512))
        .expect("CMD17");
    let cmd17 = controller.io_ref().commands.iter().find(|c| c.index == SD_CMD17).copied().expect("CMD17 sent");
    assert_eq!(cmd17.argument, 5);
    assert_eq!(cmd17.data_length, Some(512));
    assert!(cmd17.cmd_start);

    let device = SdBlockDevice::new(controller, info).expect("block device");
    assert_eq!(device.block_size(), 512);
    assert_eq!(device.block_count(), (0x12345 + 1) * 1024);
    assert!(device.is_read_only());
}

fn sdsc_responses() -> Vec<u32> {
    let mut responses: Vec<u32> = Vec::new();
    responses.extend([0, 0, 0, 0]);
    responses.extend([0, 0, 0, 0]);
    responses.extend([0, 0, 0, 0]);
    responses.extend([0x80ff_8000, 0, 0, 0]);
    responses.extend([0, 0, 0, 0]);
    responses.extend([0x4321_0000, 0, 0, 0]);
    responses.extend(csd_v1_words());
    for _ in 0..5 {
        responses.extend([0, 0, 0, 0]);
    }
    responses
}

#[test]
fn sdsc_card_initialisation_without_cmd8() {
    let mock = MockRegisterIo::new()
        .with_failure_once(MockFailure::ResponseTimeout, 8)
        .with_responses(sdsc_responses())
        .with_fifo_data(vec![0, 0]);
    let mut controller = controller(mock);
    let info = initialize_card(&mut controller).expect("SDSC init");
    assert!(!info.is_sdhc);
    assert_eq!(info.bus_width, 1);
    assert_eq!(info.rca, 0x4321);
    let byte_address = 7 * 512;
    controller
        .send_command(MmcCommand::new(SD_CMD17, byte_address, MmcResponseType::R1).with_data_length(true, 512))
        .expect("CMD17");
    let cmd17 = controller.io_ref().commands.iter().find(|c| c.index == SD_CMD17).copied().expect("CMD17 sent");
    assert_eq!(cmd17.argument, byte_address);
    assert!(cmd17.cmd_start);
}

#[test]
fn zero_rca_is_refused() {
    let mut responses: Vec<u32> = Vec::new();
    responses.extend([0, 0, 0, 0]);
    responses.extend([0x1aa, 0, 0, 0]);
    responses.extend([0, 0, 0, 0]);
    responses.extend([0xc0ff_8000, 0, 0, 0]);
    responses.extend([0, 0, 0, 0]);
    responses.extend([0, 0, 0, 0]);
    let mut controller = controller(MockRegisterIo::new().with_responses(responses));
    assert_eq!(initialize_card(&mut controller), Err(MmcError::InvalidArgument));
}

#[test]
fn csd_capacity_limits() {
    assert_eq!(parse_csd(&[0; 16], false), Err(MmcError::InvalidArgument));
    assert_eq!(parse_csd(&[0xff; 16], true), Ok((0x1_0000_0000, 512)));
    assert!(scr_supports_4bit(&[0x00, 0x04, 0, 0, 0, 0, 0, 0]));
    assert!(!scr_supports_4bit(&[0x00, 0x01, 0, 0, 0, 0, 0, 0]));
}

#[test]
fn sd_block_addressing() {
    assert_eq!(sd_block_address(true, 5, SD_BLOCK_SIZE), Ok(5));
    assert_eq!(sd_block_address(false, 7, SD_BLOCK_SIZE), Ok(7 * SD_BLOCK_SIZE as u64));
    assert_eq!(sd_block_address(false, u64::MAX, SD_BLOCK_SIZE), Err(BlockError::AddressOverflow));
    assert_eq!(sd_block_size(), 512);
    assert_eq!(mmc_to_block(MmcError::InvalidArgument), BlockError::InvalidArgument);
}

#[test]
fn card_bring_up_reports_the_failing_step() {
    let mut hung = controller(MockRegisterIo::new().with_failure(MockFailure::ResetHang));
    assert_eq!(bring_up_card(&mut hung), Err((BringUpStage::Reset, MmcError::Timeout)));
    let mut no_rca = controller(MockRegisterIo::new());
    assert_eq!(bring_up_card(&mut no_rca), Err((BringUpStage::Init, MmcError::Timeout)));
    // The identification clock takes two clock-update commands first.
    let mut responses = vec![0; 8];
    responses.extend(sdhc_responses([0x1111_1111, 0, 0, 0], 0x1000));
    let mock = MockRegisterIo::new().with_responses(responses).with_fifo_data(vec![0x0000_0400, 0]);
    let mut card = controller(mock);
    let info = bring_up_card(&mut card).expect("bring-up");
    assert!(info.is_sdhc);
    assert_eq!(info.block_count, (0x1000 + 1) * 1024);
}

fn host(alias_index: Option<u8>, base: usize, irq: u32, bus_width: u32, non_removable: bool) -> MmcHostConfig {
    MmcHostConfig {
        alias_index,
        base,
        size: 0x1_0000,
        bus_width,
        irq,
        fifo_depth: Some(32),
        max_frequency_hz: None,
        ciu_frequency_hz: None,
        non_removable,
    }
}

#[test]
fn tf_host_selection_prefers_the_mmc1_alias() {
    let emmc = host(Some(0), 0x1601_0000, 74, 8, false);
    let tf = host(Some(1), 0x1602_0000, 75, 4, false);
    assert_eq!(select_tf_host(&[emmc, tf]), Some(tf));
    let anonymous = host(None, 0x1602_0000, 75, 4, false);
    assert_eq!(select_tf_host(&[anonymous]), Some(anonymous));
    assert_eq!(select_tf_host(&[emmc]), Some(emmc));
    let fixed = host(None, 0x1602_0000, 75, 4, true);
    assert_eq!(select_tf_host(&[fixed]), None);
    let emmc_fixed = host(Some(0), 0x1601_0000, 74, 8, true);
    assert_eq!(select_tf_host(&[emmc_fixed, tf]), Some(tf));
    assert_eq!(select_tf_host(&[]), None);
}

#[test]
fn data_command_watermark_stays_below_fifo_depth() {
    let mut c = controller(MockRegisterIo::new());
    let read = MmcCommand::new(SD_CMD17, 0, MmcResponseType::R1).with_data_length(true, 512);
    assert!(c.send_command(read).is_ok());
    let trace = *c.io_ref().commands.last().expect("traced");
    assert_eq!(trace.data_length, Some(512));
    assert_eq!(trace.fifo_threshold, Some(fifoth_for(31)));
    let mut small = DwMmcController::new(MockRegisterIo::new(), 25_000_000, 4);
    let short = MmcCommand::new(SD_CMD17, 0, MmcResponseType::R1).with_data_length(true, 8);
    assert!(small.send_command(short).is_ok());
    assert_eq!(small.io_ref().commands.last().expect("traced").fifo_threshold, Some(fifoth_for(2)));
    assert_eq!(fifo_watermark(512, 32), 31);
    assert_eq!(fifo_watermark(8, 32), 2);
    assert_eq!(fifo_watermark(4, 1), 1);
    assert_eq!(fifo_watermark(512, 2), 1);
}
