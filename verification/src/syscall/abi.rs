//! Register-level syscall ABI: where the number, arguments and result live.
use vstd::prelude::*;

use super::Request;

verus! {

/// Width in bytes of the syscall instruction (`ecall` / `syscall 0`).
pub const SYSCALL_INSTRUCTION_BYTES: usize = 4;

/// The instruction-set architectures whose syscall register layout is known.
#[derive(Clone, Copy, Debug, PartialEq, Eq, Structural)]
pub enum Arch {
    RiscV64,
    LoongArch64,
}

/// General-purpose registers and program counter saved on trap entry.
#[derive(Clone, Copy, Debug)]
pub struct TrapFrame {
    pub gpr: [usize; 32],
    pub pc: usize,
}

/// Register holding the syscall number on `arch`.
pub open spec fn number_register(arch: Arch) -> int {
    match arch {
        Arch::RiscV64 => 17,
        Arch::LoongArch64 => 11,
    }
}

/// Register holding the first syscall argument (and the result) on `arch`.
pub open spec fn first_argument_register(arch: Arch) -> int {
    match arch {
        Arch::RiscV64 => 10,
        Arch::LoongArch64 => 4,
    }
}

/// Reads the syscall number and its six arguments out of a trap frame.
pub fn decode(frame: &TrapFrame, arch: Arch) -> (request: Request)
    ensures
        request.number == frame.gpr@[number_register(arch)],
        forall|i: int|
            0 <= i < 6 ==> #[trigger] request.arguments@[i] == frame.gpr@[first_argument_register(arch) + i],
{
    match arch {
        Arch::RiscV64 => Request {
            number: frame.gpr[17],
            arguments: [frame.gpr[10], frame.gpr[11], frame.gpr[12], frame.gpr[13], frame.gpr[14], frame.gpr[15]],
        },
        Arch::LoongArch64 => Request {
            number: frame.gpr[11],
            arguments: [frame.gpr[4], frame.gpr[5], frame.gpr[6], frame.gpr[7], frame.gpr[8], frame.gpr[9]],
        },
    }
}

/// Moves the program counter past the syscall instruction.
pub fn advance(frame: &mut TrapFrame)
    requires
        old(frame).pc + SYSCALL_INSTRUCTION_BYTES <= usize::MAX,
    ensures
        final(frame).pc == old(frame).pc + SYSCALL_INSTRUCTION_BYTES,
        final(frame).gpr@ == old(frame).gpr@,
{
    frame.pc = frame.pc + SYSCALL_INSTRUCTION_BYTES;
}

/// Stores a syscall result into the return-value register.
pub fn set_result(frame: &mut TrapFrame, arch: Arch, result: isize)
    ensures
        final(frame).gpr@ == old(frame).gpr@.update(first_argument_register(arch), result as usize),
        final(frame).pc == old(frame).pc,
{
    match arch {
        Arch::RiscV64 => { frame.gpr[10] = result as usize; },
        Arch::LoongArch64 => { frame.gpr[4] = result as usize; },
    }
}

} // verus!
