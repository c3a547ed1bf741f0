use vstd::prelude::*;
use crate::flags::{with_flag, Flag, RFlags};
use crate::registers::{merge_width, Gpr, RegisterFile};
use crate::width::Width;

verus! {

/// Where a directly booted x86-64 program starts and where its stack begins.
#[derive(Clone, Copy, Debug, PartialEq, Eq, Structural)]
pub struct DirectX64BootState {
    pub entry: u64,
    pub stack_top: u64,
}

/// Puts the CPU at the boot entry point with RSP at the stack top and interrupts off.
pub fn apply_direct_x64_boot_state(
    registers: &mut RegisterFile,
    flags: &mut RFlags,
    boot: DirectX64BootState,
)
    ensures
        final(registers).rip_value() == boot.entry,
        final(registers)@.0 == old(registers)@.0.update(
            Gpr::Rsp.spec_index() as int,
            merge_width(old(registers).value(Gpr::Rsp), Width::U64, boot.stack_top),
        ),
        final(registers).value(Gpr::Rsp) == boot.stack_top,
        final(flags)@ == with_flag(old(flags)@, Flag::InterruptEnable, false),
{
    broadcast use RegisterFile::lemma_shape;

    registers.set_rip(boot.entry);
    registers.write_width(Gpr::Rsp, Width::U64, boot.stack_top);
    flags.set(Flag::InterruptEnable, false);
}

} // verus!
