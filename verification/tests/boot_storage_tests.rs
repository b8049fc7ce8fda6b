use kernel::block::{BlockDevice, MemoryBlockDevice};
use kernel::bootargs::{equals_at, equals_ignore_case_at, is_whitespace, next_word, starts_with_at};
use kernel::oscomp::{
    active_mode, final_image_markers, looks_like_final_image, mode_from_bootargs, select_mode, set_active_mode,
    verdict_word, ActiveMode, ContestVerdict, RunMode,
};
use kernel::storage::{
    config_from_bootargs, contest_source_path, contest_storage_mounted, contest_storage_name, mount_selected,
    select_from_candidates, ContestStorage, ContestStorageConfig, StorageError,
};

fn ext4_device() -> MemoryBlockDevice {
    let mut device = MemoryBlockDevice::new(512, 16).expect("ext4 fixture");
    let mut super_sector = [0_u8; 512];
    super_sector[56..58].copy_from_slice(&0xef53_u16.to_le_bytes());
    device.write_block(2, &super_sector).expect("write magic");
    device
}

fn blank_device() -> MemoryBlockDevice {
    MemoryBlockDevice::new(512, 16).expect("blank fixture")
}

fn named(name: &str) -> ContestStorageConfig {
    ContestStorageConfig { device_name: Some(String::from(name)), required: false }
}

#[test]
fn contest_storage_boot_arguments() {
    assert_eq!(config_from_bootargs(None).device_name, None);
    assert_eq!(config_from_bootargs(Some("console=ttyS0 root=/dev/sda1")).device_name, None);
    assert_eq!(
        config_from_bootargs(Some("console=ttyS0 sudoos.contest.dev=mmcblk1 maxcpus=1")).device_name.as_deref(),
        Some("mmcblk1")
    );
    assert_eq!(config_from_bootargs(Some("sudoos.contest.dev=")).device_name, None);
    assert!(config_from_bootargs(Some("sudoos.contest.dev=sda sudoos.contest.required=1")).required);
    assert!(!config_from_bootargs(Some("sudoos.contest.dev=sda sudoos.contest.required=0")).required);
    assert!(config_from_bootargs(Some("sudoos.contest.required=true console=ttyS0")).required);
    assert!(config_from_bootargs(Some("sudoos.contest.required=TRUE")).required);
    assert!(!config_from_bootargs(Some("console=ttyS0")).required);
    assert!(!config_from_bootargs(None).required);
    assert_eq!(
        config_from_bootargs(Some("sudoos.contest.dev=sda  sudoos.contest.dev=sdb")).device_name.as_deref(),
        Some("sdb")
    );
}

#[test]
fn explicit_ext4_device_is_selected() {
    let candidates = vec![(String::from("contest-ext4"), ext4_device())];
    let selected = select_from_candidates(&named("contest-ext4"), candidates)
        .expect("explicit device selection should succeed")
        .expect("explicit ext4 device should be selected");
    assert_eq!(selected.name(), "contest-ext4");
}

#[test]
fn missing_named_device_is_skipped() {
    let candidates = vec![(String::from("contest-ext4"), ext4_device())];
    let missing = select_from_candidates(&named("ghost-disk"), candidates).expect("missing device should not error");
    assert!(missing.is_none());
}

#[test]
fn scan_picks_the_first_ext4_device() {
    let candidates = vec![(String::from("disk-blank"), blank_device()), (String::from("contest-ext4"), ext4_device())];
    let scanned = select_from_candidates(&ContestStorageConfig::new(), candidates)
        .expect("auto-scan should succeed")
        .expect("auto-scan should pick the ext4 device");
    assert_eq!(scanned.name(), "contest-ext4");
}

#[test]
fn named_device_without_ext4_is_refused() {
    let candidates = vec![(String::from("disk-blank"), blank_device()), (String::from("contest-ext4"), ext4_device())];
    assert_eq!(select_from_candidates(&named("disk-blank"), candidates).err(), Some(StorageError::NotExt4));
}

#[test]
fn no_candidates_select_nothing() {
    let empty: Vec<(String, MemoryBlockDevice)> = Vec::new();
    assert!(select_from_candidates(&ContestStorageConfig::new(), empty).expect("empty scan").is_none());
}

#[test]
fn mounting_records_the_source_path() {
    let candidates = vec![(String::from("mmcblk1"), ext4_device())];
    let selected = select_from_candidates(&ContestStorageConfig::new(), candidates).unwrap().unwrap();
    let mut state = ContestStorage::new();
    assert!(!contest_storage_mounted(&state));
    assert_eq!(contest_source_path(&state), None);
    mount_selected(&mut state, selected, true).expect("mount");
    assert!(contest_storage_mounted(&state));
    assert_eq!(contest_storage_name(&state).as_deref(), Some("mmcblk1"));
    assert_eq!(contest_source_path(&state).as_deref(), Some("/dev/mmcblk1"));

    let candidates = vec![(String::from("sdb"), ext4_device())];
    let other = select_from_candidates(&ContestStorageConfig::new(), candidates).unwrap().unwrap();
    let mut refused = ContestStorage::new();
    assert_eq!(mount_selected(&mut refused, other, false), Err(StorageError::NotExt4));
    assert!(!contest_storage_mounted(&refused));
}

#[test]
fn contest_mode_selection() {
    assert_eq!(mode_from_bootargs(None), None);
    assert_eq!(mode_from_bootargs(Some("console=ttyS0")), None);
    assert_eq!(mode_from_bootargs(Some("a sudoos.oscomp=final-cagent b")), Some(RunMode::FinalCagent));
    assert_eq!(mode_from_bootargs(Some("oscomp.mode=lifecycle-stress")), Some(RunMode::LifecycleStress));
    assert_eq!(mode_from_bootargs(Some("oscomp.mode=bogus sudoos.oscomp=final-all")), None);
    assert_eq!(select_mode(Some(RunMode::FinalBuildstorm), true, true), RunMode::FinalBuildstorm);
    assert_eq!(select_mode(None, true, false), RunMode::FinalAll);
    assert_eq!(select_mode(None, false, true), RunMode::FinalAll);
    assert_eq!(select_mode(None, false, false), RunMode::Preliminary);
    for mode in [
        RunMode::Preliminary,
        RunMode::FinalCagent,
        RunMode::FinalBuildstorm,
        RunMode::FinalBuildstormDiag,
        RunMode::LifecycleStress,
        RunMode::FinalAll,
    ] {
        let text = format!("sudoos.oscomp={}", mode.name());
        assert_eq!(mode_from_bootargs(Some(&text)), Some(mode));
    }
    assert_eq!(RunMode::FinalBuildstormDiag.name(), "final-buildstorm-diag");
    assert_eq!(final_image_markers().len(), 5);
    assert!(!looks_like_final_image(&[false, false]));
    assert!(looks_like_final_image(&[false, true]));
    assert_eq!(verdict_word(ContestVerdict::Passed), "pass");
    assert_eq!(verdict_word(ContestVerdict::TimedOut), "timeout");
    let mut active = ActiveMode::new();
    assert_eq!(active_mode(&active), "unknown");
    set_active_mode(&mut active, "final-all");
    assert_eq!(active_mode(&active), "final-all");
}

#[test]
fn boot_argument_words() {
    let text = "  a=1\tbb  ccc ";
    let length = text.chars().count();
    assert_eq!(next_word(text, length, 0), Some((2, 5)));
    assert_eq!(next_word(text, length, 5), Some((6, 8)));
    assert_eq!(next_word(text, length, 8), Some((10, 13)));
    assert_eq!(next_word(text, length, 13), None);
    assert!(is_whitespace(' '));
    assert!(is_whitespace('\u{3000}'));
    assert!(!is_whitespace('x'));
    assert!(starts_with_at(text, 2, 5, "a="));
    assert!(!starts_with_at(text, 2, 5, "a=12"));
    assert!(equals_at(text, 6, 8, "bb"));
    assert!(!equals_at(text, 6, 8, "b"));
    assert!(equals_ignore_case_at("TrUe", 0, 4, "true"));
    assert!(!equals_ignore_case_at("tru", 0, 3, "true"));
}

#[test]
fn every_mode_word_selects_its_mode() {
    let modes = [
        RunMode::Preliminary,
        RunMode::FinalCagent,
        RunMode::FinalBuildstorm,
        RunMode::FinalBuildstormDiag,
        RunMode::LifecycleStress,
        RunMode::FinalAll,
    ];
    for mode in modes {
        let text = format!("oscomp.mode={}", mode.name());
        assert_eq!(mode_from_bootargs(Some(&text)), Some(mode));
        for other in modes {
            if other != mode {
                assert_ne!(mode.name(), other.name());
            }
        }
    }
}
