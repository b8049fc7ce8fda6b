use kernel::procfs::{
    cpuinfo_text, meminfo_text, pid_cmdline_bytes, pid_comm_bytes, pid_stat_text, pid_status_text,
    process_state_letter, uptime_text, version_text, ProcMeta,
};
use kernel::sysfs::{block_class_text, kernel_ostype_text, kernel_version_text, net_class_text};
use kernel::text::{append_decimal, append_padded_decimal, append_signed_decimal, decimal_length};

fn meta(comm: &[u8]) -> ProcMeta {
    ProcMeta {
        pid: 42,
        ppid: Some(1),
        pgrp: 42,
        session: -3,
        uid: 1000,
        gid: 100,
        state: b'S',
        thread_count: 2,
        comm: comm.to_vec(),
        cmdline: b"sh\0-c\0true\0".to_vec(),
    }
}

#[test]
fn state_letters() {
    assert_eq!(process_state_letter(0, 5, 5), b'Z');
    assert_eq!(process_state_letter(1, 5, 5), b'R');
    assert_eq!(process_state_letter(3, 5, 6), b'S');
}

#[test]
fn stat_line_has_fifty_two_fields() {
    let text = pid_stat_text(&meta(b"busybox"));
    let expected_tail = " 0".repeat(32);
    let expected = format!("42 (busybox) S 1 42 -3{} 2{}\n", " 0".repeat(13), expected_tail);
    assert_eq!(text, expected);
    assert_eq!(text.trim_end().split(' ').count(), 52);
}

#[test]
fn stat_line_of_orphan_shows_parent_zero() {
    let mut orphan = meta(b"init");
    orphan.ppid = None;
    orphan.pid = 1;
    orphan.session = 1;
    orphan.pgrp = 1;
    let text = pid_stat_text(&orphan);
    assert!(text.starts_with("1 (init) S 0 1 1 0"));
}

#[test]
fn status_text() {
    let text = pid_status_text(&meta(b"sh"));
    assert_eq!(
        text,
        "Name:\tsh\nState:\tS\nTgid:\t42\nPid:\t42\nPPid:\t1\nUid:\t1000\t1000\t1000\t1000\nGid:\t100\t100\t100\t100\nThreads:\t2\n"
    );
}

#[test]
fn invalid_utf8_name_is_replaced() {
    let text = pid_status_text(&meta(&[b'a', 0xff, b'b']));
    assert!(text.starts_with("Name:\ta\u{FFFD}b\n"));
    let stat = pid_stat_text(&meta(&[0xc3]));
    assert!(stat.starts_with("42 (\u{FFFD}) S"));
}

#[test]
fn comm_and_cmdline_bytes() {
    let m = meta(b"ls");
    assert_eq!(pid_comm_bytes(&m), b"ls\n".to_vec());
    assert_eq!(pid_cmdline_bytes(&m), b"sh\0-c\0true\0".to_vec());
}

#[test]
fn fixed_proc_files() {
    assert_eq!(version_text(), "SudoOS 0.16 (M16)\n");
    assert_eq!(uptime_text(30_000_000, 10_000_000), "3.00 0.00\n");
    assert_eq!(uptime_text(30_000_000, 0), "0.00 0.00\n");
    assert_eq!(
        cpuinfo_text(2, "riscv64"),
        "processor\t: 0\ncpu architecture\t: riscv64\ncpu count\t: 2\nBogoMIPS\t: 100.00\n\nprocessor\t: 0\nhart\t: 0\n\nprocessor\t: 1\nhart\t: 1\n\n"
    );
    assert_eq!(
        meminfo_text(1000),
        "MemTotal:          20384 kB\nMemFree:            4000 kB\nMemAvailable:       4000 kB\nPageSize:              4 kB\n"
    );
}

#[test]
fn sys_files() {
    assert_eq!(kernel_version_text(), "SudoOS\n");
    assert_eq!(kernel_ostype_text("riscv64"), "SudoOS (riscv64)\n");
    assert_eq!(block_class_text(&[]), "vda\n");
    assert_eq!(block_class_text(&["mmcblk1", "mmcblk1p1"]), "mmcblk1\nmmcblk1p1\n");
    assert_eq!(net_class_text(&["eth0"]), "eth0\n");
    assert_eq!(net_class_text(&[]), "");
}

#[test]
fn decimal_text() {
    let mut text = String::new();
    append_decimal(&mut text, 0);
    append_decimal(&mut text, 1234567890123);
    append_signed_decimal(&mut text, -45);
    append_signed_decimal(&mut text, i64::MIN);
    assert_eq!(text, "01234567890123-45-9223372036854775808");
    let mut padded = String::new();
    append_padded_decimal(&mut padded, 42, 5);
    append_padded_decimal(&mut padded, 123456, 3);
    assert_eq!(padded, "   42123456");
    assert_eq!(decimal_length(u64::MAX), 20);
    assert_eq!(decimal_length(9), 1);
}

