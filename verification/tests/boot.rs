use bxr::boot::{apply_direct_x64_boot_state, DirectX64BootState};
use bxr::flags::{Flag, RFlags};
use bxr::registers::{Gpr, RegisterFile};

#[test]
fn direct_boot_sets_entry_and_stack() {
    let mut registers = RegisterFile::default();
    let mut flags = RFlags::new();
    flags.set(Flag::InterruptEnable, true);

    apply_direct_x64_boot_state(
        &mut registers,
        &mut flags,
        DirectX64BootState {
            entry: 0x100000,
            stack_top: 0x800000,
        },
    );

    assert_eq!(registers.rip(), 0x100000);
    assert_eq!(registers.read(Gpr::Rsp), 0x800000);
    assert!(!flags.get(Flag::InterruptEnable));
}
