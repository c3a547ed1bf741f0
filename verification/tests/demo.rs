use bxr::decode::MAX_INSTRUCTION_LEN;
use bxr::demo::{
    byte_within, control_register, create_demo_machine, demo_program_bytes, gpr_from_index,
    minimal_profile_id, run_demo, run_state_code,
};
use bxr::mmu::AccessType;
use bxr::system::ControlRegisters;
use bxr::machine::MachineRunState;
use bxr::registers::Gpr;

#[test]
fn demo_runs_core_machine() {
    let result = run_demo().unwrap();
    assert_eq!(result.steps, 11);
    assert!(result.halted);
    assert_eq!(result.rax, u64::from(b'\n'));
    assert_eq!(result.serial_len, 5);
    assert_eq!(result.serial, b"WASM\n".to_vec());
}

#[test]
fn demo_machine_starts_paused_at_program() {
    let mut machine = create_demo_machine().unwrap();
    assert_eq!(machine.run_state, MachineRunState::Paused);
    assert_eq!(machine.cpu.registers.rip(), 0x100);
    assert_eq!(machine.memory.read_u8(0x100), Ok(0x48));
    machine.step().unwrap();
    assert_eq!(machine.cpu.registers.read(Gpr::Rax), u64::from(b'W'));
    assert_eq!(machine.decode_cache_stats().entries, 1);
    assert_eq!(machine.decode_cache_stats().misses, 1);
}

#[test]
fn demo_program_is_mov_out_pairs_then_hlt() {
    assert_eq!(
        demo_program_bytes(b"Z"),
        vec![0x48, 0xb8, b'Z', 0, 0, 0, 0, 0, 0, 0, 0xe6, 0xe9, 0xf4]
    );
    assert_eq!(demo_program_bytes(b""), vec![0xf4]);
}

#[test]
fn gpr_indexes_and_profile_name() {
    assert_eq!(gpr_from_index(0), Some(Gpr::Rax));
    assert_eq!(gpr_from_index(15), Some(Gpr::R15));
    assert_eq!(gpr_from_index(16), None);
    assert_eq!(minimal_profile_id(), "bxr-minimal-x64-v1");
}

#[test]
fn persistent_machine_steps_and_snapshots() {
    let mut machine = create_demo_machine().unwrap();
    assert_eq!(run_state_code(machine.run_state), 1);
    machine.step().unwrap();
    assert_eq!(machine.cpu.registers.read(Gpr::Rax), u64::from(b'W'));
    assert_eq!(machine.decode_cache_stats().entries, 1);
    assert_eq!(machine.decode_cache_stats().misses, 1);
    let snapshot = machine.capture_snapshot("bxr-wasm");
    assert_eq!(machine.run_until_halt(64), Ok(10));
    assert_eq!(run_state_code(machine.run_state), 3);
    assert_eq!(machine.serial.output().len(), 5);

    let restored = bxr::machine::Machine::restore_snapshot(snapshot);
    assert_eq!(run_state_code(restored.run_state), 1);
    assert_eq!(restored.serial.output().len(), 0);
    assert_eq!(restored.cpu.registers.rip(), 0x10a);
    assert_eq!(restored.decode_cache_stats().entries, 0);

    let mut probe = restored.clone();
    let instruction = probe.fetch_instruction().unwrap();
    assert_eq!(instruction.len, 2);
    assert_eq!(instruction.operation_code(), 11);
    assert_eq!(byte_within(&instruction.bytes, instruction.len, 0), 0xe6);
    assert_eq!(restored.memory.read_u8(0x100), Ok(0x48));
    let mut probe = restored.clone();
    assert_eq!(probe.translate_address(0x100, AccessType::Execute), Ok(0x100));

    let events = restored.trace.events();
    assert_eq!(events.len(), 1);
    assert_eq!(events[0].operation_code, 6);
    assert_eq!(events[0].instruction_len, 10);
    assert_eq!(byte_within(&events[0].instruction_bytes, events[0].instruction_len, 0), 0x48);
}

#[test]
fn instruction_byte_bounds_are_zero() {

    let mut machine = create_demo_machine().unwrap();
    let instruction = machine.fetch_instruction().unwrap();
    assert_eq!(instruction.len, 10);
    assert_eq!(byte_within(&instruction.bytes, instruction.len, 9), 0);
    assert_eq!(byte_within(&instruction.bytes, instruction.len, 2), u32::from(b'W'));
    assert_eq!(byte_within(&instruction.bytes, instruction.len, 10), 0);
    assert_eq!(byte_within(&instruction.bytes, instruction.len, MAX_INSTRUCTION_LEN as u32), 0);
}

#[test]
fn run_state_codes_follow_the_interface() {
    assert_eq!(run_state_code(MachineRunState::Paused), 1);
    assert_eq!(run_state_code(MachineRunState::Running), 2);
    assert_eq!(run_state_code(MachineRunState::Halted), 3);
    assert_eq!(run_state_code(MachineRunState::Faulted), 4);
}

#[test]
fn control_registers_by_number() {
    let controls = ControlRegisters { cr0: 1, cr2: 2, cr3: 3, cr4: 4, efer: 5 };
    assert_eq!(control_register(&controls, 0), 1);
    assert_eq!(control_register(&controls, 1), 0);
    assert_eq!(control_register(&controls, 2), 2);
    assert_eq!(control_register(&controls, 3), 3);
    assert_eq!(control_register(&controls, 4), 4);
    assert_eq!(control_register(&controls, 0x0efe), 5);
    assert_eq!(control_register(&controls, 0x0eff), 0);
}

#[test]
fn identical_machines_run_identically() {
    let mut first = create_demo_machine().unwrap();
    let mut second = create_demo_machine().unwrap();
    assert_eq!(first.run_until_halt(64), second.run_until_halt(64));
    assert_eq!(first.cpu, second.cpu);
    assert_eq!(first.serial.output(), second.serial.output());
    assert_eq!(first.virtual_clock, second.virtual_clock);
    assert_eq!(first.run_state, second.run_state);
    assert_eq!(first.trace.events(), second.trace.events());
    assert_eq!(first.decode_cache_stats(), second.decode_cache_stats());
}
