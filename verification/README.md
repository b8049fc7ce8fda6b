# kernel

The decision-making core of a small RISC-V and LoongArch kernel built for
an operating-systems contest, verified with Verus.

`src/` holds the logic, each function with a contract that Verus proves:

- `syscall`: syscall numbers, errno values and the trap-frame ABI.
- `time`, `timer`, `rtc`: monotonic instants and deadlines, per-CPU timer
  queues, the RTC `ioctl` encoding.
- `smp`, `tlb`, `tracked_spin`: CPU discovery and lifecycle masks, TLB
  shootdown inboxes and range plans, lock-nesting bookkeeping.
- `task`: the scheduler's run queues, switch planning (yield, preemption,
  blocking, exit), interrupt and preemption nesting, wait queues and
  completions.
- `process`, `signal`: processes (family relations, zombies, groups and
  sessions, thread groups), signal sets and actions.
- `pipe`, `net`: the pipe buffer and the local socket table.
- `block`, `partition`, `storage`: block devices, MBR/GPT scanning, partition
  windows and the contest-storage choice.
- `mmc`: the DesignWare MMC host controller, the SD card handshake and the SD
  block device, over a register interface (with a register-level mock).
  The controller keeps a ghost trace of its register accesses and, as an
  MMC host, a ghost log of the operations asked of it; their contracts say
  what is written, what is read and what each answer leads to.
- `page_alloc`, `runtime_page_table`: the global frame-allocator slot and the
  decisions of each walk over the page-table tree.
- `procfs`, `sysfs`, `text`, `bootargs`, `oscomp`, `rng`: the text of
  `/proc` and `/sys` files, decimal formatting, boot arguments, contest run
  modes and ChaCha20.

`app/` is the code around it that Verus does not see: memory-mapped
registers, the socket system calls over user memory, `/proc` generators, the
block-device registry, the page-table walks over physical memory and the
boot-time storage report.

`tests/` exercises the library on concrete values.
