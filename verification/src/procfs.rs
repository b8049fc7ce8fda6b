//! The contents of `/proc` files, generated from a snapshot of process data
//! taken while no filesystem lock is held.
use vstd::prelude::*;
use vstd::string::StringExecFns;
use vstd::utf8::{decode_utf8, valid_utf8};

use crate::text::{append_decimal, append_padded_decimal, append_signed_decimal, decimal, signed_decimal};

verus! {

/// What `/proc/<pid>` shows of one process.
pub struct ProcMeta {
    pub pid: usize,
    pub ppid: Option<usize>,
    pub pgrp: isize,
    pub session: isize,
    pub uid: u32,
    pub gid: u32,
    /// The Linux state letter: `R` running, `S` sleeping, `Z` zombie.
    pub state: u8,
    pub thread_count: usize,
    /// The contents of `/proc/<pid>/comm` (the basename of `argv[0]`).
    pub comm: Vec<u8>,
    /// The contents of `/proc/<pid>/cmdline` (`argv`, NUL-separated).
    pub cmdline: Vec<u8>,
}

/// The state letter of a process: `Z` once no thread is left, `R` for the
/// process asking, `S` otherwise.
pub fn process_state_letter(thread_count: usize, pid: usize, current_pid: usize) -> (letter: u8)
    ensures
        letter == if thread_count == 0 {
            STATE_ZOMBIE
        } else if pid == current_pid {
            STATE_RUNNING
        } else {
            STATE_SLEEPING
        },
{
    if thread_count == 0 {
        STATE_ZOMBIE
    } else if pid == current_pid {
        STATE_RUNNING
    } else {
        STATE_SLEEPING
    }
}

/// `R`.
pub const STATE_RUNNING: u8 = 82;
/// `S`.
pub const STATE_SLEEPING: u8 = 83;
/// `Z`.
pub const STATE_ZOMBIE: u8 = 90;

/// What `String::from_utf8_lossy` makes of a byte sequence.
pub uninterp spec fn utf8_lossy(bytes: Seq<u8>) -> Seq<char>;

/// `String::from_utf8_lossy`, owned. The contract names its result and
/// states what std documents: valid UTF-8 comes out decoded as it is.
/// Which replacement characters stand for invalid input is left unsaid.
#[verifier::external_body]
fn text_of_bytes(bytes: &[u8]) -> (text: String)
    ensures
        text@ == utf8_lossy(bytes@),
        valid_utf8(bytes@) ==> text@ == decode_utf8(bytes@),
{
    String::from_utf8_lossy(bytes).into_owned()
}

/// `String::push`: the character is appended.
#[verifier::external_body]
fn push_char(text: &mut String, c: char)
    ensures
        final(text)@ == old(text)@.push(c),
{
    text.push(c)
}

/// The `/proc/version` text.
pub fn version_text() -> (text: String)
    ensures
        text@ == "SudoOS 0.16 (M16)\n"@,
{
    String::from_str("SudoOS 0.16 (M16)\n")
}

/// The `hart` lines of `/proc/cpuinfo` for CPUs `0..count`.
pub open spec fn cpu_lines(count: nat) -> Seq<char>
    decreases count,
{
    if count == 0 {
        Seq::empty()
    } else {
        let cpu = (count - 1) as nat;
        cpu_lines(cpu) + "\nprocessor\t: "@ + decimal(cpu) + "\nhart\t: "@ + decimal(cpu) + "\n"@
    }
}

/// The `/proc/cpuinfo` text for `cpu_count` CPUs of architecture `arch`.
pub open spec fn cpuinfo_spec(cpu_count: nat, arch: Seq<char>) -> Seq<char> {
    "processor\t: 0\n"@ + "cpu architecture\t: "@ + arch + "\n"@ + "cpu count\t: "@ + decimal(cpu_count) + "\n"@
        + "BogoMIPS\t: 100.00\n"@ + cpu_lines(cpu_count) + "\n"@
}

pub fn cpuinfo_text(cpu_count: usize, arch: &str) -> (text: String)
    ensures
        text@ == cpuinfo_spec(cpu_count as nat, arch@),
{
    let mut text = String::from_str("processor\t: 0\n");
    text.append("cpu architecture\t: ");
    text.append(arch);
    text.append("\n");
    text.append("cpu count\t: ");
    append_decimal(&mut text, cpu_count as u64);
    text.append("\n");
    text.append("BogoMIPS\t: 100.00\n");
    let ghost head = text@;
    let mut cpu: usize = 0;
    while cpu < cpu_count
        invariant
            cpu <= cpu_count,
            text@ == head + cpu_lines(cpu as nat),
        decreases cpu_count - cpu,
    {
        text.append("\nprocessor\t: ");
        append_decimal(&mut text, cpu as u64);
        text.append("\nhart\t: ");
        append_decimal(&mut text, cpu as u64);
        text.append("\n");
        proof {
            assert(head + cpu_lines((cpu + 1) as nat) =~= head + cpu_lines(cpu as nat) + "\nprocessor\t: "@ + decimal(
                cpu as nat,
            ) + "\nhart\t: "@ + decimal(cpu as nat) + "\n"@);
        }
        cpu = cpu + 1;
    }
    text.append("\n");
    proof {
        assert(text@ =~= cpuinfo_spec(cpu_count as nat, arch@));
    }
    text
}

/// The page size in KiB.
pub const PAGE_SIZE_KB: usize = 4;
/// What `/proc/meminfo` adds to the free memory as an estimate of what is
/// allocated, in KiB.
pub const ALLOCATED_ESTIMATE_KB: usize = 16384;

/// A `/proc/meminfo` line: the label, the value right-aligned in 8
/// columns, then ` kB`.
pub open spec fn meminfo_line(label: Seq<char>, kib: nat) -> Seq<char> {
    label + Seq::new(if decimal(kib).len() < 8 { (8 - decimal(kib).len()) as nat } else { 0 }, |i: int| ' ')
        + decimal(kib) + " kB\n"@
}

/// The `/proc/meminfo` text for `free_pages` free pages.
pub open spec fn meminfo_spec(free_pages: nat) -> Seq<char> {
    let free = (free_pages * PAGE_SIZE_KB) as nat;
    meminfo_line("MemTotal:       "@, (free + ALLOCATED_ESTIMATE_KB) as nat) + meminfo_line("MemFree:        "@, free)
        + meminfo_line("MemAvailable:   "@, free) + meminfo_line("PageSize:       "@, PAGE_SIZE_KB as nat)
}

fn append_meminfo_line(text: &mut String, label: &str, kib: usize)
    ensures
        final(text)@ == old(text)@ + meminfo_line(label@, kib as nat),
{
    text.append(label);
    append_padded_decimal(text, kib as u64, 8);
    text.append(" kB\n");
    proof {
        assert(final(text)@ =~= old(text)@ + meminfo_line(label@, kib as nat));
    }
}

pub fn meminfo_text(free_pages: usize) -> (text: String)
    requires
        free_pages * PAGE_SIZE_KB + ALLOCATED_ESTIMATE_KB <= usize::MAX,
    ensures
        text@ == meminfo_spec(free_pages as nat),
{
    let free = free_pages * PAGE_SIZE_KB;
    let total = free + ALLOCATED_ESTIMATE_KB;
    let mut text = String::new();
    append_meminfo_line(&mut text, "MemTotal:       ", total);
    append_meminfo_line(&mut text, "MemFree:        ", free);
    append_meminfo_line(&mut text, "MemAvailable:   ", free);
    append_meminfo_line(&mut text, "PageSize:       ", PAGE_SIZE_KB);
    proof {
        assert(text@ =~= meminfo_spec(free_pages as nat));
    }
    text
}

/// The `/proc/uptime` text: whole seconds since boot (0 without a clock
/// frequency), and an idle time of 0.
pub fn uptime_text(now_cycles: u64, frequency: u64) -> (text: String)
    ensures
        text@ == decimal(if frequency != 0 { (now_cycles / frequency) as nat } else { 0 }) + ".00 0.00\n"@,
{
    let seconds = if frequency != 0 {
        now_cycles / frequency
    } else {
        0
    };
    let mut text = String::new();
    append_decimal(&mut text, seconds);
    text.append(".00 0.00\n");
    proof {
        assert(text@ =~= decimal(seconds as nat) + ".00 0.00\n"@);
    }
    text
}

/// `/proc/<pid>/comm`: the name and a newline.
pub fn pid_comm_bytes(meta: &ProcMeta) -> (bytes: Vec<u8>)
    ensures
        bytes@ == meta.comm@.push(10u8),
{
    let mut bytes = copy_bytes(&meta.comm);
    bytes.push(10u8);
    bytes
}

/// `/proc/<pid>/cmdline`: the arguments as they are.
pub fn pid_cmdline_bytes(meta: &ProcMeta) -> (bytes: Vec<u8>)
    ensures
        bytes@ == meta.cmdline@,
{
    copy_bytes(&meta.cmdline)
}

fn copy_bytes(source: &Vec<u8>) -> (copy: Vec<u8>)
    ensures
        copy@ == source@,
{
    let mut copy: Vec<u8> = Vec::new();
    let mut i: usize = 0;
    while i < source.len()
        invariant
            i <= source@.len(),
            copy@ == source@.subrange(0, i as int),
        decreases source@.len() - i,
    {
        copy.push(source[i]);
        i = i + 1;
        proof {
            assert(copy@ =~= source@.subrange(0, i as int));
        }
    }
    proof {
        assert(source@.subrange(0, source@.len() as int) =~= source@);
    }
    copy
}

/// The parent pid shown: 0 without a parent.
pub open spec fn shown_ppid(meta: &ProcMeta) -> nat {
    match meta.ppid {
        Some(ppid) => ppid as nat,
        None => 0,
    }
}

/// A value repeated in the four columns of a `Uid:`/`Gid:` line.
pub open spec fn four_columns(value: nat) -> Seq<char> {
    decimal(value) + "\t"@ + decimal(value) + "\t"@ + decimal(value) + "\t"@ + decimal(value)
}

/// The `/proc/<pid>/status` text.
pub open spec fn status_spec(meta: &ProcMeta) -> Seq<char> {
    "Name:\t"@ + utf8_lossy(meta.comm@) + "\nState:\t"@ + seq![meta.state as char] + "\nTgid:\t"@ + decimal(
        meta.pid as nat,
    ) + "\nPid:\t"@ + decimal(meta.pid as nat) + "\nPPid:\t"@ + decimal(shown_ppid(meta)) + "\nUid:\t"@
        + four_columns(meta.uid as nat) + "\nGid:\t"@ + four_columns(meta.gid as nat) + "\nThreads:\t"@ + decimal(
        meta.thread_count as nat,
    ) + "\n"@
}

fn append_four_columns(text: &mut String, value: u32)
    ensures
        final(text)@ == old(text)@ + four_columns(value as nat),
{
    append_decimal(text, value as u64);
    text.append("\t");
    append_decimal(text, value as u64);
    text.append("\t");
    append_decimal(text, value as u64);
    text.append("\t");
    append_decimal(text, value as u64);
    proof {
        assert(final(text)@ =~= old(text)@ + four_columns(value as nat));
    }
}

fn ppid_value(meta: &ProcMeta) -> (ppid: usize)
    ensures
        ppid == shown_ppid(meta),
{
    match meta.ppid {
        Some(ppid) => ppid,
        None => 0,
    }
}

pub fn pid_status_text(meta: &ProcMeta) -> (text: String)
    ensures
        text@ == status_spec(meta),
{
    let mut text = String::from_str("Name:\t");
    let name = text_of_bytes(meta.comm.as_slice());
    text.append(name.as_str());
    text.append("\nState:\t");
    push_char(&mut text, meta.state as char);
    text.append("\nTgid:\t");
    append_decimal(&mut text, meta.pid as u64);
    text.append("\nPid:\t");
    append_decimal(&mut text, meta.pid as u64);
    text.append("\nPPid:\t");
    append_decimal(&mut text, ppid_value(meta) as u64);
    text.append("\nUid:\t");
    append_four_columns(&mut text, meta.uid);
    text.append("\nGid:\t");
    append_four_columns(&mut text, meta.gid);
    text.append("\nThreads:\t");
    append_decimal(&mut text, meta.thread_count as u64);
    text.append("\n");
    proof {
        assert(text@ =~= status_spec(meta));
    }
    text
}

/// `count` zero fields, each after a space.
pub open spec fn zero_fields(count: nat) -> Seq<char>
    decreases count,
{
    if count == 0 {
        Seq::empty()
    } else {
        zero_fields((count - 1) as nat) + " 0"@
    }
}

fn append_zero_fields(text: &mut String, count: usize)
    ensures
        final(text)@ == old(text)@ + zero_fields(count as nat),
{
    let mut written: usize = 0;
    while written < count
        invariant
            written <= count,
            text@ == old(text)@ + zero_fields(written as nat),
        decreases count - written,
    {
        text.append(" 0");
        written = written + 1;
        proof {
            assert(old(text)@ + zero_fields(written as nat) =~= old(text)@ + zero_fields((written - 1) as nat)
                + " 0"@);
        }
    }
}

/// The `/proc/<pid>/stat` line: pid, name in parentheses, state, ppid,
/// process group, session, thread count in field 20, and zeros for the 46
/// fields that are not tracked, separated by spaces.
pub open spec fn stat_spec(meta: &ProcMeta) -> Seq<char> {
    decimal(meta.pid as nat) + " ("@ + utf8_lossy(meta.comm@) + ") "@ + seq![meta.state as char] + " "@ + decimal(
        shown_ppid(meta),
    ) + " "@ + signed_decimal(meta.pgrp as int) + " "@ + signed_decimal(meta.session as int) + zero_fields(13) + " "@
        + decimal(meta.thread_count as nat) + zero_fields(32) + "\n"@
}

pub fn pid_stat_text(meta: &ProcMeta) -> (text: String)
    ensures
        text@ == stat_spec(meta),
{
    let mut text = String::new();
    append_decimal(&mut text, meta.pid as u64);
    text.append(" (");
    let name = text_of_bytes(meta.comm.as_slice());
    text.append(name.as_str());
    text.append(") ");
    push_char(&mut text, meta.state as char);
    text.append(" ");
    append_decimal(&mut text, ppid_value(meta) as u64);
    text.append(" ");
    append_signed_decimal(&mut text, meta.pgrp as i64);
    text.append(" ");
    append_signed_decimal(&mut text, meta.session as i64);
    append_zero_fields(&mut text, 13);
    text.append(" ");
    append_decimal(&mut text, meta.thread_count as u64);
    append_zero_fields(&mut text, 32);
    text.append("\n");
    proof {
        assert(text@ =~= stat_spec(meta));
    }
    text
}

} // verus!
