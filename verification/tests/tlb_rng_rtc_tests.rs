use kernel::rng::{
    entropy_available, fallback_seed_bytes, fill_random, fill_random_blocking, quarter_round, register_hardware_source,
    ChaCha20, EntropyPool,
};
use kernel::rtc::{
    civil_from_days, days_from_civil, is_rtc_rd_time, read_rtc_time, register_rtc, rtc_ioctl, rtc_time_bytes,
    uptime_seconds, RtcHardware, RtcRegistry, RtcTime, RTC_RD_TIME,
};
use kernel::smp::CpuId;
use kernel::syscall::errno::Errno;
use kernel::time::MonotonicInstant;
use kernel::tlb::{
    completed_shootdowns, cpu_bit, deadline_reached, describe_flush, flush_kind_name, flush_scope, plan_range_flush,
    remote_flush_count, target_mask, validate_flush, RangeFlushPlan, TlbFlush, TlbInboxes, TlbRequest, TlbScope,
};

#[test]
fn flush_validation_and_targets() {
    let page = TlbFlush::Page { scope: TlbScope::AllCpus, address: 0x2000 };
    assert!(validate_flush(page));
    assert!(!validate_flush(TlbFlush::Page { scope: TlbScope::AllCpus, address: 0x2001 }));
    assert!(!validate_flush(TlbFlush::All { scope: TlbScope::AddressSpace(5) }));
    assert!(validate_flush(TlbFlush::All { scope: TlbScope::AddressSpace(0) }));
    assert!(!validate_flush(TlbFlush::Range { scope: TlbScope::Local, start: 0x3000, end: 0x2000 }));
    assert_eq!(flush_scope(page), TlbScope::AllCpus);
    assert_eq!(target_mask(page, 0b1011, 0b0010), 0b1001);
    assert_eq!(target_mask(TlbFlush::All { scope: TlbScope::Local }, 0b1011, 0b0010), 0);
    assert_eq!(describe_flush(page), (2, 0x2000, 0x3000));
    assert_eq!(describe_flush(TlbFlush::Page { scope: TlbScope::Local, address: usize::MAX - 10 }).2, usize::MAX);
    assert_eq!(describe_flush(TlbFlush::All { scope: TlbScope::Local }), (1, 0, 0));
    assert_eq!(flush_kind_name(1), "all");
    assert_eq!(flush_kind_name(3), "range");
    assert_eq!(flush_kind_name(9), "unknown");
    assert_eq!(cpu_bit(CpuId(3)), 8);
    assert!(deadline_reached(10, 10));
    assert!(!deadline_reached(9, 10));
    assert!(deadline_reached(2, u64::MAX));
}

#[test]
fn range_flush_plans() {
    assert_eq!(plan_range_flush(0x1000, 0x1000), RangeFlushPlan::Nothing);
    assert_eq!(plan_range_flush(0x1000, 0x4000), RangeFlushPlan::Pages { start: 0x1000, count: 3 });
    assert_eq!(plan_range_flush(0, 33 * 4096), RangeFlushPlan::Everything);
    assert_eq!(plan_range_flush(0, 32 * 4096), RangeFlushPlan::Pages { start: 0, count: 32 });
}

#[test]
fn shootdown_request_protocol() {
    let mut inboxes = TlbInboxes::new();
    let id = inboxes.next_request_id();
    assert_eq!(id, 1);
    let flush = TlbFlush::Page { scope: TlbScope::AddressSpace(0), address: 0x5000 };
    let target = CpuId(1);
    let slot = inboxes.acquire_slot(target).expect("slot");
    assert_eq!(slot, 0);
    let request = TlbRequest { flush, targets: 0b10, id };
    inboxes.publish(target, slot, request);
    let mut slots = vec![0_u8; kernel::smp::MAX_CPUS];
    slots[1] = slot;
    assert_eq!(inboxes.completed_mask(0b10, &slots), 0);
    let flushes = inboxes.handle_shootdown_ipi(target);
    assert_eq!(flushes, vec![flush]);
    assert_eq!(remote_flush_count(&inboxes, target), 1);
    assert_eq!(inboxes.completed_mask(0b10, &slots), 0b10);
    assert!(inboxes.handle_shootdown_ipi(target).is_empty());
    inboxes.free_slot(target, slot);
    inboxes.record_completed();
    assert_eq!(completed_shootdowns(&inboxes), 1);
    for expected in 0..4_u8 {
        assert_eq!(inboxes.acquire_slot(CpuId(2)), Some(expected));
    }
    assert_eq!(inboxes.acquire_slot(CpuId(2)), None);
}

#[test]
fn chacha_quarter_round_matches_rfc_7539() {
    let mut state = [0_u32; 16];
    state[0] = 0x1111_1111;
    state[1] = 0x0102_0304;
    state[2] = 0x9b8d_6f43;
    state[3] = 0x0123_4567;
    quarter_round(&mut state, 0, 1, 2, 3);
    assert_eq!(&state[0..4], &[0xea2a_92f4, 0xcb1c_f8ce, 0x4581_472e, 0x5881_c4bb]);
}

#[test]
fn chacha_block_matches_rfc_7539() {
    let mut key = [0_u8; 32];
    for (i, byte) in key.iter_mut().enumerate() {
        *byte = i as u8;
    }
    // RFC 7539 2.3.2 uses a 96-bit nonce 00:00:00:09:00:00:00:4a:00:00:00:00 and
    // block counter 1; in the 64-bit counter / 64-bit nonce layout that is
    // counter 0x0900_0000_0000_0001 and nonce 00:00:00:4a:00:00:00:00.
    let nonce = [0, 0, 0, 0x4a, 0, 0, 0, 0];
    let mut chacha = ChaCha20::new(&key, &nonce, 0x0900_0000_0000_0001);
    let mut block = [0_u8; 64];
    chacha.next_block(&mut block);
    let expected: [u8; 16] = [
        0x10, 0xf1, 0xe7, 0xe4, 0xd1, 0x3b, 0x59, 0x15, 0x50, 0x0f, 0xdd, 0x1f, 0xa3, 0x20, 0x71, 0xc4,
    ];
    assert_eq!(&block[0..16], &expected);
    let mut next = [0_u8; 64];
    chacha.next_block(&mut next);
    assert_ne!(block, next);
}

#[test]
fn pool_output_varies_and_is_not_zero() {
    let mut pool = EntropyPool::new();
    assert_eq!(entropy_available(&pool), 0);
    let mut first = [0_u8; 64];
    let mut second = [0_u8; 64];
    fill_random(&mut pool, &mut first, 1000, 5, 0xdead_beef);
    fill_random(&mut pool, &mut second, 1000, 5, 0xdead_beef);
    assert_ne!(first, second);
    assert!(!first.iter().all(|b| *b == 0));
    let unique: std::collections::BTreeSet<u8> = first.iter().copied().collect();
    assert!(unique.len() > 4);
    assert_eq!(pool.entropy_available(), 256);
    let mut buffer = [0_u8; 100];
    assert_eq!(fill_random_blocking(&mut pool, &mut buffer, 1, 2, 3), 100);
}

#[test]
fn pools_seeded_alike_generate_alike() {
    let seed = [7_u8; 32];
    let mut a = EntropyPool::new();
    let mut b = EntropyPool::new();
    register_hardware_source(&mut a, &seed, 32);
    register_hardware_source(&mut b, &seed, 32);
    let mut out_a = [0_u8; 80];
    let mut out_b = [0_u8; 80];
    a.generate(&mut out_a, 0, 0, 0);
    b.generate(&mut out_b, 99, 99, 99);
    assert_eq!(out_a, out_b);
    assert_ne!(fallback_seed_bytes(1, 2, 3), fallback_seed_bytes(1, 2, 4));
}

#[test]
fn calendar_conversions() {
    assert_eq!(civil_from_days(0), (1970, 0, 1));
    assert_eq!(civil_from_days(59), (1970, 2, 1));
    assert_eq!(civil_from_days(10957), (2000, 0, 1));
    assert_eq!(civil_from_days(19723), (2024, 0, 1));
    assert_eq!(civil_from_days(-1), (1969, 11, 31));
    assert_eq!(days_from_civil(0, 2, 1), 0);
    assert_eq!(days_from_civil(1970, 0, 1), 719468);
    assert_eq!(days_from_civil(1970, 1, 28), 719526);
    assert_eq!(days_from_civil(2024, 0, 1), 19723 + 719468);
    assert_eq!(days_from_civil(1970, 2, 1), 719527);
    for z in [-719468, -1, 0, 58, 59, 10957, 11016, 19723, 100_000] {
        let (y, m, d) = civil_from_days(z);
        assert_eq!(days_from_civil(y, m, d), z + 719468);
    }
    assert_eq!(days_from_civil(2000, 5, 15), 730591);
}

fn fields(bytes: &[u8; 36]) -> Vec<i32> {
    bytes.chunks(4).map(|c| i32::from_le_bytes([c[0], c[1], c[2], c[3]])).collect()
}

#[test]
fn rtc_time_answer_layout() {
    let bytes = rtc_time_bytes(RtcTime { unix_seconds: 1_700_000_000 });
    assert_eq!(fields(&bytes), vec![20, 13, 22, 14, 10, 123, 2, 317, 0]);
    let epoch = rtc_time_bytes(RtcTime { unix_seconds: 86_400 + 3_661 });
    assert_eq!(fields(&epoch), vec![1, 1, 1, 2, 0, 70, 5, 1, 0]);
}

struct FixedClock;

impl RtcHardware for FixedClock {
    fn read_time(&self) -> Option<RtcTime> {
        Some(RtcTime { unix_seconds: 42 })
    }
}

#[test]
fn rtc_reading_and_ioctl() {
    assert!(is_rtc_rd_time(RTC_RD_TIME));
    assert!(is_rtc_rd_time(0x7009));
    assert!(!is_rtc_rd_time(0x7008));
    assert_eq!(uptime_seconds(MonotonicInstant(30), 10).unix_seconds, 3);
    assert_eq!(uptime_seconds(MonotonicInstant(30), 0).unix_seconds, 0);
    let mut registry: RtcRegistry<FixedClock> = RtcRegistry::new();
    assert_eq!(read_rtc_time(&registry, MonotonicInstant(50), 10), Some(RtcTime { unix_seconds: 5 }));
    register_rtc(&mut registry, FixedClock);
    assert_eq!(read_rtc_time(&registry, MonotonicInstant(50), 10), Some(RtcTime { unix_seconds: 42 }));
    assert_eq!(rtc_ioctl(1, Some(RtcTime { unix_seconds: 0 })), Err(Errno::Enotty));
    let answer = rtc_ioctl(RTC_RD_TIME, Some(RtcTime { unix_seconds: 0 })).expect("rtc read");
    assert_eq!(fields(&answer), vec![0, 0, 0, 1, 0, 70, 4, 0, 0]);
}
