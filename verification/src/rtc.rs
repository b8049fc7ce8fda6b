//! The real-time clock: Unix time from a hardware clock, or the time since
//! boot without one, and the `RTC_RD_TIME` view of it as a calendar date.
use vstd::prelude::*;

use crate::syscall::errno::Errno;
use crate::time::MonotonicInstant;

verus! {

pub const RTC_RD_TIME: usize = 0x8024_7009;

/// A clock reading in Unix seconds.
#[derive(Clone, Copy, Debug, PartialEq, Eq, Structural)]
pub struct RtcTime {
    pub unix_seconds: i64,
}

/// A hardware real-time clock, implemented by drivers.
pub trait RtcHardware {
    fn read_time(&self) -> Option<RtcTime>;
}

/// Whether `cmd` is `RTC_RD_TIME`: the exact value, or any encoding with
/// type `'p'` and number 9.
pub open spec fn is_rtc_rd_time_spec(cmd: usize) -> bool {
    cmd == RTC_RD_TIME || ((cmd >> 8usize) & 0xff == 0x70 && cmd & 0xff == 0x09)
}

pub fn is_rtc_rd_time(cmd: usize) -> (matches_command: bool)
    ensures
        matches_command == is_rtc_rd_time_spec(cmd),
{
    if cmd == RTC_RD_TIME {
        return true;
    }
    let kind = (cmd >> 8usize) & 0xff;
    let number = cmd & 0xff;
    kind == 0x70 && number == 0x09
}

/// Rust's `/` on integers: rounds towards zero.
pub open spec fn div_trunc(a: int, b: int) -> int {
    if a >= 0 { a / b } else { -((-a) / b) }
}

/// Rust's `%` on integers: the remainder takes the sign of `a`.
pub open spec fn rem_trunc(a: int, b: int) -> int {
    a - div_trunc(a, b) * b
}

/// The days from 0000-03-01 to year `y`, month `m` (0 to 11), day `d` of
/// the proleptic Gregorian calendar, the year taken to start in March.
pub open spec fn days_from_civil_spec(y: int, m: int, d: int) -> int {
    let y = if m <= 1 { y - 1 } else { y };
    let era = if y >= 0 { div_trunc(y, 400) } else { div_trunc(y - 399, 400) };
    let yoe = y - era * 400;
    let doy = if m <= 1 { div_trunc(153 * (m + 10) + 2, 5) + d - 1 } else { div_trunc(153 * (m - 2) + 2, 5) + d - 1 };
    era * 146097 + yoe * 365 + div_trunc(yoe, 4) - div_trunc(yoe, 100) + doy
}

/// Inputs on which no step of `days_from_civil` leaves `i32`.
pub open spec fn days_from_civil_fits(y: i32, m: i32, d: i32) -> bool {
    let y1: int = if m <= 1 { y - 1 } else { y as int };
    let era: int = if y1 >= 0 { div_trunc(y1, 400) } else { div_trunc(y1 - 399, 400) };
    &&& i32::MIN <= y1 - 399
    &&& 0 <= m <= 11
    &&& -50000 <= d <= 50000
    &&& i32::MIN + 200000 <= era * 146097 <= i32::MAX - 200000
}

/// Days from 0000-03-01 to (year, month 0-11, day).
pub fn days_from_civil(y: i32, m: i32, d: i32) -> (days: i32)
    requires
        days_from_civil_fits(y, m, d),
    ensures
        days == days_from_civil_spec(y as int, m as int, d as int),
{
    let y = if m <= 1 { y - 1 } else { y };
    let era = if y >= 0 { y / 400 } else { (y - 399) / 400 };
    proof {
        assert(-399 <= (y as int) - era * 400 <= 399) by (nonlinear_arith)
            requires era == (if y >= 0 { div_trunc(y as int, 400) } else { div_trunc(y - 399, 400) });
    }
    let yoe = y - era * 400;
    let doy = if m <= 1 { (153 * (m + 10) + 2) / 5 + d - 1 } else { (153 * (m - 2) + 2) / 5 + d - 1 };
    era * 146097 + yoe * 365 + yoe / 4 - yoe / 100 + doy
}

/// The (year, month 0-11, day) that `civil_from_days` computes for `z` days
/// since 1970-01-01.
pub open spec fn civil_from_days_spec(z: int) -> (int, int, int) {
    let z = z + 719468;
    let era = if z >= 0 { div_trunc(z, 146097) } else { div_trunc(z - 146096, 146097) };
    let doe = z - era * 146097;
    let yoe = div_trunc(doe - div_trunc(doe, 1460) + div_trunc(doe, 36524) - div_trunc(doe, 146096), 365);
    let y = yoe + era * 400;
    let doy = doe - (365 * yoe + div_trunc(yoe, 4) - div_trunc(yoe, 100));
    let mp = div_trunc(5 * doy + 2, 153);
    let d = doy - div_trunc(153 * mp + 2, 5) + 1;
    let m = if mp < 10 { mp + 3 } else { mp - 9 };
    let y = if m <= 2 { y + 1 } else { y };
    (y, m - 1, d)
}

proof fn lemma_civil_steps(z: int)
    requires
        0 <= z <= i32::MAX,
    ensures
        ({
            let era = div_trunc(z, 146097);
            let doe = z - era * 146097;
            let t = doe - div_trunc(doe, 1460) + div_trunc(doe, 36524) - div_trunc(doe, 146096);
            let yoe = div_trunc(t, 365);
            let doy = doe - (365 * yoe + div_trunc(yoe, 4) - div_trunc(yoe, 100));
            let mp = div_trunc(5 * doy + 2, 153);
            &&& 0 <= era <= 14700
            &&& 0 <= doe < 146097
            &&& 0 <= t <= 146100
            &&& 0 <= yoe <= 400
            &&& -146100 <= doy <= 146096
            &&& -4800 <= mp <= 4800
        }),
{
    let era = z / 146097;
    assert(0 <= z - era * 146097 < 146097) by (nonlinear_arith) requires era == z / 146097, z >= 0;
    assert(0 <= era <= 14700) by (nonlinear_arith) requires era == z / 146097, 0 <= z <= 2147483647;
    let doe = z - era * 146097;
    let t = doe - doe / 1460 + doe / 36524 - doe / 146096;
    assert(0 <= t <= 146100) by (nonlinear_arith) requires 0 <= doe < 146097, t == doe - doe / 1460 + doe / 36524 - doe / 146096;
    let yoe = t / 365;
    assert(0 <= yoe <= 400) by (nonlinear_arith) requires yoe == t / 365, 0 <= t <= 146100;
    let doy = doe - (365 * yoe + yoe / 4 - yoe / 100);
    let mp = div_trunc(5 * doy + 2, 153);
    assert(-4800 <= mp <= 4800) by (nonlinear_arith)
        requires mp == div_trunc(5 * doy + 2, 153), -146100 <= doy <= 146096;
}

/// The steps of `civil_from_days_spec` on a day `doe` of a 400-year era
/// stay in range: the year of the era below 400, the day of the
/// March-based year below 366, the March-based month below 12.
proof fn lemma_era_steps(doe: int)
    requires
        0 <= doe < 146097,
    ensures
        ({
            let t = doe - doe / 1460 + doe / 36524 - doe / 146096;
            let yoe = t / 365;
            let doy = doe - (365 * yoe + yoe / 4 - yoe / 100);
            &&& 0 <= yoe <= 399
            &&& 0 <= doy <= 365
            &&& 0 <= (5 * doy + 2) / 153 <= 11
        }),
{
    let a = doe / 1460;
    let b = doe / 36524;
    let e = doe / 146096;
    let t = doe - a + b - e;
    let yoe = t / 365;
    let g = yoe / 4;
    let h = yoe / 100;
    let doy = doe - (365 * yoe + g - h);
    assert(0 <= yoe <= 399 && 0 <= doy <= 365);
    let mp = (5 * doy + 2) / 153;
    assert(0 <= mp <= 11);
}

/// `days_from_civil` inverts `civil_from_days`: the date `z` days after
/// 1970-01-01 lies `z + 719468` days after 0000-03-01.
#[verifier::spinoff_prover]
pub proof fn lemma_civil_round_trip(z: int)
    requires
        -719468 <= z <= i32::MAX - 719468,
    ensures
        ({
            let (y, m, d) = civil_from_days_spec(z);
            days_from_civil_spec(y, m, d) == z + 719468
        }),
{
    let zz = z + 719468;
    let era = zz / 146097;
    assert(0 <= zz - era * 146097 < 146097 && era >= 0) by (nonlinear_arith)
        requires
            era == zz / 146097,
            zz >= 0,
    ;
    let doe = zz - era * 146097;
    lemma_era_steps(doe);
    assert(div_trunc(zz, 146097) == era);
    let t = doe - doe / 1460 + doe / 36524 - doe / 146096;
    assert(t == doe - div_trunc(doe, 1460) + div_trunc(doe, 36524) - div_trunc(doe, 146096));
    let yoe = t / 365;
    assert(div_trunc(t, 365) == yoe);
    let doy = doe - (365 * yoe + yoe / 4 - yoe / 100);
    assert(doy == doe - (365 * yoe + div_trunc(yoe, 4) - div_trunc(yoe, 100)));
    let mp = (5 * doy + 2) / 153;
    assert(div_trunc(5 * doy + 2, 153) == mp);
    let d = doy - (153 * mp + 2) / 5 + 1;
    assert(d == doy - div_trunc(153 * mp + 2, 5) + 1);
    let m1 = if mp < 10 { mp + 3 } else { mp - 9 };
    let y0 = yoe + era * 400;
    let y = if m1 <= 2 { y0 + 1 } else { y0 };
    assert(civil_from_days_spec(z) == (y, m1 - 1, d));
    // Back again: the year, era and year of the era come out as they went in.
    let month = m1 - 1;
    let year = if month <= 1 { y - 1 } else { y };
    assert(year == y0);
    assert(y0 >= 0);
    assert(y0 / 400 == era) by (nonlinear_arith)
        requires
            y0 == yoe + era * 400,
            0 <= yoe <= 399,
    ;
    assert(div_trunc(year, 400) == era);
    let back_doy = if month <= 1 {
        div_trunc(153 * (month + 10) + 2, 5) + d - 1
    } else {
        div_trunc(153 * (month - 2) + 2, 5) + d - 1
    };
    assert(back_doy == doy);
    assert(div_trunc(yoe, 4) == yoe / 4 && div_trunc(yoe, 100) == yoe / 100);
    assert(days_from_civil_spec(y, month, d) == era * 146097 + yoe * 365 + div_trunc(yoe, 4) - div_trunc(yoe, 100) + doy);
}

/// Calendar (year, month 0-11, day 1-31) of `z` days since 1970-01-01;
/// the days must not run past `i32` when shifted to 0000-03-01.
pub fn civil_from_days(z: i32) -> (civil: (i32, i32, i32))
    requires
        -719468 <= z <= i32::MAX - 719468,
    ensures
        (civil.0 as int, civil.1 as int, civil.2 as int) == civil_from_days_spec(z as int),
{
    let z = z + 719468;
    proof {
        lemma_civil_steps(z as int);
    }
    let era = if z >= 0 { z / 146097 } else { (z - 146096) / 146097 };
    let doe = z - era * 146097;
    let yoe = (doe - doe / 1460 + doe / 36524 - doe / 146096) / 365;
    let y = yoe + era * 400;
    let doy = doe - (365 * yoe + yoe / 4 - yoe / 100);
    let mp = (5 * doy + 2) / 153;
    let d = doy - (153 * mp + 2) / 5 + 1;
    let m = if mp < 10 { mp + 3 } else { mp - 9 };
    let y = if m <= 2 { y + 1 } else { y };
    (y, m - 1, d)
}

/// The `struct rtc_time` fields (sec, min, hour, mday, mon, year - 1900,
/// wday, yday, isdst) of a reading, as the kernel fills them.
pub open spec fn rtc_fields_spec(seconds: i64) -> Seq<int> {
    let day_seconds: int = (seconds as int) % 86400;
    let days = div_trunc(seconds as int, 86400) as i32;
    let (year, month, day) = civil_from_days_spec(days as int);
    seq![day_seconds % 60, (day_seconds / 60) % 60, day_seconds / 3600, day, month, year - 1900,
        rem_trunc(days + 4, 7),
        days + 719468 - days_from_civil_spec(year, 0, 1), 0]
}

/// Readings whose calendar conversion stays within `i32`.
pub open spec fn rtc_fields_fit(seconds: i64) -> bool {
    let days = div_trunc(seconds as int, 86400) as i32;
    let (year, month, day) = civil_from_days_spec(days as int);
    &&& -719468 <= days <= i32::MAX - 719468
    &&& i32::MIN <= year <= i32::MAX
    &&& i32::MIN <= year - 1900
    &&& days_from_civil_fits(year as i32, 0, 1)
    &&& i32::MIN <= days + 719468 - days_from_civil_spec(year, 0, 1) <= i32::MAX
}

/// The 36 bytes (nine little-endian `i32`) of the `RTC_RD_TIME` answer.
pub fn rtc_time_bytes(time: RtcTime) -> (bytes: [u8; 36])
    requires
        rtc_fields_fit(time.unix_seconds),
    ensures
        forall|i: int| 0 <= i < 9 ==> #[trigger] le_i32(bytes@, 4 * i) == rtc_fields_spec(time.unix_seconds)[i],
{
    let seconds = time.unix_seconds;
    let day_seconds = seconds % 86400;
    let day_seconds = if day_seconds < 0 { day_seconds + 86400 } else { day_seconds };
    let tm_sec = (day_seconds % 60) as i32;
    let tm_min = ((day_seconds / 60) % 60) as i32;
    let tm_hour = (day_seconds / 3600) as i32;
    let days = #[verifier::truncate] ((seconds / 86400) as i32);
    let (tm_year, tm_mon, tm_mday) = civil_from_days(days);
    let wrapped = (days + 4) % 7;
    let tm_wday = wrapped;
    // Day of the year: both counts taken from 0000-03-01.
    let tm_yday = days + 719468 - days_from_civil(tm_year, 0, 1);
    let fields: [i32; 9] = [tm_sec, tm_min, tm_hour, tm_mday, tm_mon, tm_year - 1900, tm_wday, tm_yday, 0];
    let mut bytes: [u8; 36] = [0; 36];
    let mut i: usize = 0;
    while i < 9
        invariant
            i <= 9,
            forall|k: int| 0 <= k < i ==> #[trigger] le_i32(bytes@, 4 * k) == fields@[k],
        decreases 9 - i,
    {
        let value = #[verifier::truncate] (fields[i] as u32);
        let ghost before = bytes@;
        bytes[4 * i] = (value & 0xff) as u8;
        bytes[4 * i + 1] = ((value >> 8u32) & 0xff) as u8;
        bytes[4 * i + 2] = ((value >> 16u32) & 0xff) as u8;
        bytes[4 * i + 3] = ((value >> 24u32) & 0xff) as u8;
        proof {
            lemma_le_i32_bytes(fields@[i as int], bytes@, 4 * i);
            assert forall|k: int| 0 <= k < i implies #[trigger] le_i32(bytes@, 4 * k) == fields@[k] by {
                assert(bytes@[4 * k] == before[4 * k]);
                assert(bytes@[4 * k + 1] == before[4 * k + 1]);
                assert(bytes@[4 * k + 2] == before[4 * k + 2]);
                assert(bytes@[4 * k + 3] == before[4 * k + 3]);
                assert(le_i32(before, 4 * k) == fields@[k]);
            }
        }
        i = i + 1;
    }
    bytes
}

/// The little-endian `i32` at byte `at`.
pub open spec fn le_i32(bytes: Seq<u8>, at: int) -> int {
    (((bytes[at] as u32) | ((bytes[at + 1] as u32) << 8u32) | ((bytes[at + 2] as u32) << 16u32)
        | ((bytes[at + 3] as u32) << 24u32)) as i32) as int
}

proof fn lemma_le_i32_bytes(value: i32, bytes: Seq<u8>, at: int)
    requires
        0 <= at,
        at + 4 <= bytes.len(),
        bytes[at] == ((value as u32) & 0xff) as u8,
        bytes[at + 1] == (((value as u32) >> 8u32) & 0xff) as u8,
        bytes[at + 2] == (((value as u32) >> 16u32) & 0xff) as u8,
        bytes[at + 3] == (((value as u32) >> 24u32) & 0xff) as u8,
    ensures
        le_i32(bytes, at) == value,
{
    let v = value as u32;
    let b0 = bytes[at];
    let b1 = bytes[at + 1];
    let b2 = bytes[at + 2];
    let b3 = bytes[at + 3];
    assert(((b0 as u32) | ((b1 as u32) << 8u32) | ((b2 as u32) << 16u32) | ((b3 as u32) << 24u32)) == v) by (bit_vector)
        requires
            b0 == (v & 0xff) as u8,
            b1 == ((v >> 8u32) & 0xff) as u8,
            b2 == ((v >> 16u32) & 0xff) as u8,
            b3 == ((v >> 24u32) & 0xff) as u8;
    assert((v as i32) == value) by (bit_vector) requires v == value as u32;
}

/// The time since boot, in whole seconds, standing in for a missing
/// hardware clock.
pub fn uptime_seconds(now: MonotonicInstant, frequency: u64) -> (time: RtcTime)
    ensures
        time.unix_seconds == (if frequency != 0 { ((now.0 / frequency) as i64) as int } else { 0 }),
{
    let seconds = if frequency != 0 { (now.0 / frequency) as i64 } else { 0 };
    RtcTime { unix_seconds: seconds }
}

/// The registered hardware clock, if any.
pub struct RtcRegistry<H: RtcHardware> {
    device: Option<H>,
}

impl<H: RtcHardware> RtcRegistry<H> {
    pub closed spec fn spec_device(&self) -> Option<H> {
        self.device
    }

    pub fn new() -> (registry: Self)
        ensures
            registry.spec_device() is None,
    {
        RtcRegistry { device: None }
    }
}

/// Registers the hardware clock.
pub fn register_rtc<H: RtcHardware>(registry: &mut RtcRegistry<H>, device: H)
    ensures
        final(registry).spec_device() == Some(device),
{
    registry.device = Some(device);
}

/// The clock reading: the hardware clock's when one is registered, else
/// the time since boot.
pub fn read_rtc_time<H: RtcHardware>(registry: &RtcRegistry<H>, now: MonotonicInstant, frequency: u64) -> (time: Option<RtcTime>)
    ensures
        registry.spec_device() is None ==> time == Some(RtcTime {
            unix_seconds: if frequency != 0 { (now.0 / frequency) as i64 } else { 0 },
        }),
{
    match &registry.device {
        Some(device) => device.read_time(),
        None => Some(uptime_seconds(now, frequency)),
    }
}

/// Answers an RTC ioctl: `RTC_RD_TIME` gives the calendar bytes to copy to
/// the caller, any other command `ENOTTY`.
pub fn rtc_ioctl(cmd: usize, time: Option<RtcTime>) -> (answer: Result<[u8; 36], Errno>)
    requires
        rtc_fields_fit(match time {
            Some(t) => t.unix_seconds,
            None => 0,
        }),
    ensures
        !is_rtc_rd_time_spec(cmd) ==> answer == Err::<[u8; 36], Errno>(Errno::Enotty),
        is_rtc_rd_time_spec(cmd) ==> answer is Ok && forall|i: int| 0 <= i < 9 ==> #[trigger] le_i32(answer->Ok_0@, 4 * i)
            == rtc_fields_spec(match time {
                Some(t) => t.unix_seconds,
                None => 0,
            })[i],
{
    if !is_rtc_rd_time(cmd) {
        return Err(Errno::Enotty);
    }
    let reading = match time {
        Some(t) => t,
        None => RtcTime { unix_seconds: 0 },
    };
    Ok(rtc_time_bytes(reading))
}

} // verus!
