use kernel::net::{find_interface, register_interface, registered_interfaces, InterfaceRegistry};
use kernel::page_alloc::{
    allocate, decrement_reference, free, free_many, free_unreferenced_frame, increment_reference,
    increment_reference_many, install, is_initialized, reference_count, release_many_unreferenced,
    total_free_pages, AllocationClass, FrameMemory, FrameTable, GlobalPageAllocator, GlobalPageAllocatorError,
    PageAllocation, PageAllocationOptions,
};
use kernel::smp::CpuId;
use kernel::syscall::abi::{advance, decode, set_result, Arch, TrapFrame};
use kernel::syscall::errno::{encode, is_error, Errno, EINVAL, MAX_ERRNO};
use kernel::syscall::{number, verify_contract};
use kernel::tracked_spin::{
    held_diagnostic, preemptible_lock_depth, record_acquire, record_preemptible_acquire,
    record_preemptible_release, record_release, HeldLocks,
};

#[test]
fn syscall_numbers_and_registers() {
    verify_contract();
    assert_eq!(number::GETCWD, 17);
    assert_eq!(number::WAIT4, 260);
    let mut frame = TrapFrame { gpr: [0; 32], pc: 0x1000 };
    frame.gpr[17] = number::WRITE;
    for i in 0..6 {
        frame.gpr[10 + i] = 100 + i;
    }
    let request = decode(&frame, Arch::RiscV64);
    assert_eq!(request.number, 64);
    assert_eq!(request.arguments, [100, 101, 102, 103, 104, 105]);
    set_result(&mut frame, Arch::RiscV64, -22);
    assert_eq!(frame.gpr[10], (-22_isize) as usize);
    advance(&mut frame);
    assert_eq!(frame.pc, 0x1004);
    let mut loong = TrapFrame { gpr: [0; 32], pc: 0 };
    loong.gpr[11] = number::GETPID;
    loong.gpr[4] = 9;
    let request = decode(&loong, Arch::LoongArch64);
    assert_eq!(request.number, 172);
    assert_eq!(request.arguments[0], 9);
    set_result(&mut loong, Arch::LoongArch64, 5);
    assert_eq!(loong.gpr[4], 5);
}

#[test]
fn errno_encoding() {
    assert_eq!(encode(EINVAL), -22);
    assert!(is_error(-22));
    assert!(is_error(-MAX_ERRNO));
    assert!(!is_error(-MAX_ERRNO - 1));
    assert!(!is_error(0));
    assert_eq!(Errno::Enotsock.code(), 88);
    assert_eq!(Errno::Eafnosupport.code(), 97);
    assert_eq!(Errno::Eexist.code(), 17);
    assert_eq!(Errno::Eagain.code(), 11);
}

#[test]
fn interface_registry() {
    let mut registry: InterfaceRegistry<u32> = InterfaceRegistry::new();
    assert_eq!(find_interface(&registry, "eth0"), None);
    register_interface(&mut registry, "eth0", 7).expect("register");
    register_interface(&mut registry, "eth1", 8).expect("register");
    register_interface(&mut registry, "eth0", 9).expect("register");
    assert_eq!(find_interface(&registry, "eth0"), Some(7));
    assert_eq!(find_interface(&registry, "eth1"), Some(8));
    let listed = registered_interfaces(&registry);
    let names: Vec<&str> = listed.iter().map(|i| i.name.as_str()).collect();
    assert_eq!(names, vec!["eth0", "eth1", "eth0"]);
    assert_eq!(listed[2].device, 9);
}

#[test]
fn lock_tracking() {
    let mut held = HeldLocks::new();
    let cpu = CpuId(1);
    assert_eq!(held_diagnostic(&held, cpu), (0, 0));
    record_acquire(&mut held, cpu, 3, 7);
    record_acquire(&mut held, cpu, 5, 1);
    assert_eq!(held_diagnostic(&held, cpu), (2, 5 * 1024 + 1));
    record_release(&mut held, cpu);
    assert_eq!(held_diagnostic(&held, cpu), (1, 3 * 1024 + 7));
    assert_eq!(held_diagnostic(&held, CpuId(0)), (0, 0));
    for _ in 0..5 {
        record_acquire(&mut held, cpu, 1, 1);
    }
    assert_eq!(held_diagnostic(&held, cpu), (6, 0));
    record_preemptible_acquire(&mut held, cpu);
    assert_eq!(preemptible_lock_depth(&held, cpu), 1);
    record_preemptible_release(&mut held, cpu);
    assert_eq!(preemptible_lock_depth(&held, cpu), 0);
}

struct TestMemory {
    fail: bool,
    filled: Vec<(u64, u8)>,
}

impl FrameMemory for TestMemory {
    fn fill(&mut self, allocation: &PageAllocation, value: u8) -> Result<(), GlobalPageAllocatorError> {
        if self.fail {
            return Err(GlobalPageAllocatorError::PhysicalMemoryNotAccessible);
        }
        self.filled.push((allocation.start_frame, value));
        Ok(())
    }
}

fn memory() -> TestMemory {
    TestMemory { fail: false, filled: vec![] }
}

/// A slot holding a table of `frames` frames, the first `used` of them
/// allocated with one reference each.
fn slot_with(frames: usize, used: u64) -> GlobalPageAllocator<FrameTable> {
    let mut slot = GlobalPageAllocator::new();
    install(&mut slot, FrameTable::new(frames, frames as u64)).expect("install");
    for frame in 0..used {
        let allocation = allocate(&mut slot, &mut memory(), 0, PageAllocationOptions::kernel()).expect("frame");
        assert_eq!(allocation.start_frame, frame);
    }
    slot
}

#[test]
fn page_allocation_options() {
    assert_eq!(PageAllocationOptions::kernel().class(), AllocationClass::Any);
    assert!(!PageAllocationOptions::kernel().is_zeroed());
    assert!(PageAllocationOptions::kernel_zeroed().is_zeroed());
    assert_eq!(PageAllocationOptions::dma32_zeroed().class(), AllocationClass::Dma32);
}

#[test]
fn global_allocator_slot() {
    let mut slot: GlobalPageAllocator<FrameTable> = GlobalPageAllocator::new();
    assert!(!is_initialized(&slot));
    assert_eq!(total_free_pages(&slot), Err(GlobalPageAllocatorError::NotInitialized));
    assert_eq!(reference_count(&slot, 0), Err(GlobalPageAllocatorError::NotInitialized));
    assert_eq!(increment_reference(&mut slot, 0), Err(GlobalPageAllocatorError::NotInitialized));
    assert_eq!(decrement_reference(&mut slot, 0), Err(GlobalPageAllocatorError::NotInitialized));
    assert_eq!(increment_reference_many(&mut slot, &[0]), Err(GlobalPageAllocatorError::NotInitialized));
    install(&mut slot, FrameTable::new(4, 4)).expect("install");
    assert_eq!(install(&mut slot, FrameTable::new(1, 1)), Err(GlobalPageAllocatorError::AlreadyInitialized));
    assert!(is_initialized(&slot));
    assert_eq!(total_free_pages(&slot), Ok(4));
    let frame = allocate(&mut slot, &mut memory(), 0, PageAllocationOptions::kernel()).expect("frame");
    assert_eq!(frame, PageAllocation { start_frame: 0, order: 0 });
    assert_eq!(reference_count(&slot, 0), Ok(1));
    assert_eq!(increment_reference(&mut slot, 0), Ok(2));
    assert_eq!(decrement_reference(&mut slot, 0), Ok(1));
    assert_eq!(reference_count(&slot, 1), Err(GlobalPageAllocatorError::Frame));
    assert_eq!(increment_reference(&mut slot, 1), Err(GlobalPageAllocatorError::Frame));
}

#[test]
fn batch_increment_is_all_or_nothing() {
    let mut slot = slot_with(4, 4);
    free(&mut slot, PageAllocation { start_frame: 2, order: 0 }).expect("free frame 2");
    assert_eq!(increment_reference_many(&mut slot, &[0, 1, 2, 3]), Err(GlobalPageAllocatorError::Frame));
    for frame in [0, 1, 3] {
        assert_eq!(reference_count(&slot, frame), Ok(1));
    }
    assert_eq!(increment_reference_many(&mut slot, &[0, 1, 0]), Ok(()));
    assert_eq!(reference_count(&slot, 0), Ok(3));
    assert_eq!(reference_count(&slot, 1), Ok(2));
    assert_eq!(increment_reference_many(&mut slot, &[]), Ok(()));
}

#[test]
fn batch_release_frees_frames_that_reach_zero() {
    let mut slot = slot_with(3, 3);
    assert_eq!(increment_reference(&mut slot, 1), Ok(2));
    let mut scratch = vec![PageAllocation { start_frame: 99, order: 3 }];
    assert_eq!(release_many_unreferenced(&mut slot, &[0, 1, 2], &mut scratch), Ok(2));
    assert_eq!(scratch, vec![PageAllocation { start_frame: 0, order: 0 }, PageAllocation { start_frame: 2, order: 0 }]);
    assert_eq!(reference_count(&slot, 1), Ok(1));
    assert_eq!(total_free_pages(&slot), Ok(2));
    let mut empty_slot: GlobalPageAllocator<FrameTable> = GlobalPageAllocator::new();
    assert_eq!(
        release_many_unreferenced(&mut empty_slot, &[0], &mut scratch),
        Err(GlobalPageAllocatorError::NotInitialized)
    );
    assert!(scratch.is_empty());
}

#[test]
fn allocation_zeroes_and_gives_back_on_failure() {
    let mut plain_memory = memory();
    let mut slot: GlobalPageAllocator<FrameTable> = GlobalPageAllocator::new();
    assert_eq!(allocate(&mut slot, &mut plain_memory, 0, PageAllocationOptions::kernel()), Err(GlobalPageAllocatorError::NotInitialized));
    assert_eq!(free(&mut slot, PageAllocation { start_frame: 0, order: 0 }), Err(GlobalPageAllocatorError::NotInitialized));
    assert_eq!(free_unreferenced_frame(&mut slot, 0), Err(GlobalPageAllocatorError::NotInitialized));
    assert_eq!(free_many(&mut slot, vec![]), Err(GlobalPageAllocatorError::NotInitialized));
    let mut slot = slot_with(3, 1);
    let zeroed = allocate(&mut slot, &mut plain_memory, 0, PageAllocationOptions::kernel_zeroed()).expect("zeroed");
    assert_eq!(zeroed, PageAllocation { start_frame: 1, order: 0 });
    assert_eq!(plain_memory.filled, vec![(1, 0)]);
    let plain = allocate(&mut slot, &mut plain_memory, 0, PageAllocationOptions::kernel()).expect("plain");
    assert_eq!(plain.start_frame, 2);
    assert_eq!(plain_memory.filled.len(), 1);
    assert_eq!(allocate(&mut slot, &mut plain_memory, 0, PageAllocationOptions::kernel()), Err(GlobalPageAllocatorError::Frame));
    assert_eq!(free(&mut slot, plain), Ok(()));
    let mut broken = TestMemory { fail: true, filled: vec![] };
    assert_eq!(
        allocate(&mut slot, &mut broken, 0, PageAllocationOptions::dma32_zeroed()),
        Err(GlobalPageAllocatorError::PhysicalMemoryNotAccessible)
    );
    assert_eq!(total_free_pages(&slot), Ok(1));
    assert_eq!(free_unreferenced_frame(&mut slot, 1), Err(GlobalPageAllocatorError::Frame));
    assert_eq!(decrement_reference(&mut slot, 1), Ok(0));
    assert_eq!(free_unreferenced_frame(&mut slot, 1), Ok(()));
    assert_eq!(total_free_pages(&slot), Ok(2));
}

#[test]
fn batch_free_starts_all_or_none() {
    let mut slot = slot_with(4, 4);
    free(&mut slot, PageAllocation { start_frame: 2, order: 0 }).expect("free frame 2");
    let batch: Vec<PageAllocation> = (0..4).map(|frame| PageAllocation { start_frame: frame, order: 0 }).collect();
    assert_eq!(free_many(&mut slot, batch), Err(GlobalPageAllocatorError::Frame));
    assert_eq!(total_free_pages(&slot), Ok(1));
    assert_eq!(reference_count(&slot, 0), Ok(1));
    assert_eq!(free_many(&mut slot, vec![]), Ok(()));
    let pair = vec![PageAllocation { start_frame: 0, order: 0 }, PageAllocation { start_frame: 3, order: 0 }];
    assert_eq!(free_many(&mut slot, pair), Ok(()));
    assert_eq!(total_free_pages(&slot), Ok(3));
}

#[test]
fn runs_are_aligned_and_dma32_stays_low() {
    let mut slot: GlobalPageAllocator<FrameTable> = GlobalPageAllocator::new();
    install(&mut slot, FrameTable::new(8, 4)).expect("install");
    let low = allocate(&mut slot, &mut memory(), 2, PageAllocationOptions::dma32_zeroed()).expect("dma32 run");
    assert_eq!(low, PageAllocation { start_frame: 0, order: 2 });
    assert_eq!(allocate(&mut slot, &mut memory(), 1, PageAllocationOptions::dma32_zeroed()), Err(GlobalPageAllocatorError::Frame));
    let high = allocate(&mut slot, &mut memory(), 2, PageAllocationOptions::kernel()).expect("run");
    assert_eq!(high, PageAllocation { start_frame: 4, order: 2 });
    assert_eq!(total_free_pages(&slot), Ok(0));
    assert_eq!(free(&mut slot, low), Ok(()));
    assert_eq!(total_free_pages(&slot), Ok(4));
    assert_eq!(allocate(&mut slot, &mut memory(), 4, PageAllocationOptions::kernel()), Err(GlobalPageAllocatorError::Frame));
}
