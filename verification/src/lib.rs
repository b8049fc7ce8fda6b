use vstd::prelude::*;

pub mod syscall;
pub mod text;
pub mod task;
pub mod block;
pub mod block_registry;
pub mod bootargs;
pub mod mmc;
pub mod net;
pub mod page_alloc;
pub mod oscomp;
pub mod partition;
pub mod pipe;
pub mod process;
pub mod procfs;
pub mod rng;
pub mod rtc;
pub mod runtime_page_table;
pub mod signal;
pub mod smp;
pub mod storage;
pub mod sysfs;
pub mod time;
pub mod timer;
pub mod tlb;
pub mod tracked_spin;

verus! {
} // verus!
