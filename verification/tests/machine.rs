use bxr::decode::{DecodeError, Operation};
use bxr::flags::Flag;
use bxr::devices::SerialDevice;
use bxr::execute::{ExecuteError, X86StackMemory};
use bxr::machine::{Machine, MachineBus, MachineError, MachineRunState};
use bxr::memory::PhysicalMemory;
use bxr::width::Width;
use bxr::memory::PAGE_SIZE;
use bxr::mmu::{AccessType, MmuError};
use bxr::registers::Gpr;
use bxr::snapshot::ChunkKind;
use bxr::system::ControlRegisters;

#[test]
fn minimal_machine_starts_paused() {
    let machine = Machine::new_minimal(PAGE_SIZE).unwrap();
    assert_eq!(machine.profile.id, "bxr-minimal-x64-v1");
    assert_eq!(machine.run_state, MachineRunState::Paused);
    assert_eq!(machine.virtual_clock.ticks(), 0);
}

#[test]
fn resume_and_pause_transitions_are_explicit() {
    let mut machine = Machine::new_minimal(PAGE_SIZE).unwrap();
    machine.resume();
    assert_eq!(machine.run_state, MachineRunState::Running);
    machine.pause();
    assert_eq!(machine.run_state, MachineRunState::Paused);
}

#[test]
fn steps_program_loaded_in_guest_memory() {
    let mut machine = Machine::new_minimal(PAGE_SIZE).unwrap();
    machine.cpu.registers.set_rip(0x100);
    machine
        .load_program(
            0x100,
            &[
                0x48, 0xb8, 0x2a, 0, 0, 0, 0, 0, 0, 0, // mov rax, 42
                0x48, 0x05, 0x01, 0, 0, 0, // add rax, 1
                0xf4, // hlt
            ],
        )
        .unwrap();

    let steps = machine.run_until_halt(8).unwrap();

    assert_eq!(steps, 3);
    assert_eq!(machine.run_state, MachineRunState::Halted);
    assert_eq!(machine.cpu.registers.read(Gpr::Rax), 43);
    assert!(!machine.cpu.rflags.get(Flag::Zero));
    assert_eq!(machine.virtual_clock.ticks(), 3);
    assert_eq!(machine.trace.events().len(), 3);
    assert_eq!(machine.trace.events()[0].rip_before, 0x100);
    assert_eq!(machine.trace.events()[0].virtual_ticks_after, 1);
    assert_eq!(machine.trace.events()[2].outcome_code, 2);
}

#[test]
fn reports_decode_errors_from_guest_memory() {
    let mut machine = Machine::new_minimal(PAGE_SIZE).unwrap();
    machine.cpu.registers.set_rip(0x20);
    machine.load_program(0x20, &[0x0f, 0xff]).unwrap();

    assert_eq!(
        machine.step(),
        Err(MachineError::Decode(DecodeError::UnsupportedOpcode {
            opcode: 0xff,
            offset: 1
        }))
    );
    assert_eq!(machine.run_state, MachineRunState::Faulted);
}

fn long_mode_controls() -> ControlRegisters {
    ControlRegisters {
        cr0: ControlRegisters::CR0_PG,
        cr3: 0x1000,
        cr4: ControlRegisters::CR4_PAE,
        efer: ControlRegisters::EFER_LME | ControlRegisters::EFER_LMA,
        ..ControlRegisters::default()
    }
}

#[test]
fn machine_fetch_uses_long_mode_page_tables() {
    let mut machine = Machine::new_minimal(PAGE_SIZE * 16).unwrap();
    machine.memory.write_u64_le(0x1000, 0x2000 | 0b111).unwrap();
    machine.memory.write_u64_le(0x2000, 0x3000 | 0b111).unwrap();
    machine
        .memory
        .write_u64_le(0x3000 + 2 * 8, 0x4000 | 0b111)
        .unwrap();
    machine.memory.write_u64_le(0x4000, 0x8000 | 0b111).unwrap();
    machine.cpu.controls = long_mode_controls();
    machine.cpu.registers.set_rip(0x400000);
    machine.load_program(0x8000, &[0xf4]).unwrap();

    let steps = machine.run_until_halt(4).unwrap();

    assert_eq!(steps, 1);
    assert_eq!(machine.run_state, MachineRunState::Halted);
}

#[test]
fn fetch_instruction_reuses_decode_cache() {
    let mut machine = Machine::new_minimal(PAGE_SIZE).unwrap();
    machine.cpu.registers.set_rip(0x100);
    machine.load_program(0x100, &[0x90, 0xf4]).unwrap();

    let first = machine.fetch_instruction().unwrap();
    let first_stats = machine.decode_cache_stats();
    let second = machine.fetch_instruction().unwrap();
    let second_stats = machine.decode_cache_stats();

    assert_eq!(first.operation, Operation::Nop);
    assert_eq!(second.operation, Operation::Nop);
    assert_eq!(first_stats.entries, 1);
    assert_eq!(first_stats.misses, 1);
    assert_eq!(first_stats.hits, 0);
    assert_eq!(second_stats.entries, 1);
    assert_eq!(second_stats.misses, 1);
    assert_eq!(second_stats.hits, 1);
}

#[test]
fn executable_write_invalidates_decode_cache() {
    let mut machine = Machine::new_minimal(PAGE_SIZE).unwrap();
    machine.cpu.registers.set_rip(0x100);
    machine.load_program(0x100, &[0x90, 0xf4]).unwrap();
    assert_eq!(
        machine.fetch_instruction().unwrap().operation,
        Operation::Nop
    );
    assert_eq!(machine.decode_cache_stats().entries, 1);

    machine.load_program(0x100, &[0xf4]).unwrap();
    let after_write = machine.decode_cache_stats();
    let fetched = machine.fetch_instruction().unwrap();
    let after_fetch = machine.decode_cache_stats();

    assert_eq!(after_write.entries, 0);
    assert_eq!(after_write.invalidations, 1);
    assert_eq!(fetched.operation, Operation::Hlt);
    assert_eq!(after_fetch.entries, 1);
    assert_eq!(after_fetch.misses, 2);
}

#[test]
fn page_fault_records_cr2_and_faults_machine() {
    let mut machine = Machine::new_minimal(PAGE_SIZE * 4).unwrap();
    machine.cpu.controls = long_mode_controls();
    machine.cpu.registers.set_rip(0x400000);

    assert!(matches!(machine.step(), Err(MachineError::Mmu(_))));
    assert_eq!(machine.cpu.controls.cr2, 0x400000);
    assert_eq!(machine.run_state, MachineRunState::Faulted);
}

#[test]
fn machine_snapshot_round_trips_execution_state() {
    let mut machine = Machine::new_minimal(PAGE_SIZE).unwrap();
    machine.cpu.registers.set_rip(0x100);
    machine
        .load_program(
            0x100,
            &[
                0x48, 0xb8, b'A', 0, 0, 0, 0, 0, 0, 0, // mov rax, 'A'
                0xe6, 0xe9, // out 0xe9, al
                0xf4, // hlt
            ],
        )
        .unwrap();
    machine.step().unwrap();
    let snapshot = machine.capture_snapshot("test");

    machine.run_until_halt(8).unwrap();
    assert_eq!(machine.serial.output(), b"A");

    let mut restored = Machine::restore_snapshot(snapshot);
    assert_eq!(restored.decode_cache_stats().entries, 0);
    restored.run_until_halt(8).unwrap();

    assert_eq!(restored.serial.output(), b"A");
    assert_eq!(restored.run_state, MachineRunState::Halted);
    assert_eq!(restored.cpu.registers.rip(), 0x10d);
    assert_eq!(restored.virtual_clock.ticks(), 3);
    assert_eq!(restored.trace.events().len(), 3);
}

#[test]
fn snapshot_manifest_records_content_chunks() {
    let mut machine = Machine::new_minimal(PAGE_SIZE).unwrap();
    let before = machine.snapshot_manifest("test");

    machine.cpu.registers.set_rip(0x100);
    machine.load_program(0x100, &[0x90, 0xf4]).unwrap();
    machine.step().unwrap();
    let after = machine.snapshot_manifest("test");

    assert_eq!(before.chunks.len(), 4);
    assert_eq!(
        before
            .chunks
            .iter()
            .map(|chunk| chunk.kind)
            .collect::<Vec<_>>(),
        vec![
            ChunkKind::Cpu,
            ChunkKind::MemoryPage,
            ChunkKind::Device,
            ChunkKind::Scheduler
        ]
    );
    assert_ne!(before.chunks[0].hash, after.chunks[0].hash);
    assert_ne!(before.chunks[1].hash, after.chunks[1].hash);
    assert_ne!(before.chunks[3].hash, after.chunks[3].hash);
}

#[test]
fn halted_machine_refuses_to_step() {
    let mut machine = Machine::new_minimal(PAGE_SIZE).unwrap();
    machine.load_program(0, &[0xf4]).unwrap();
    machine.step().unwrap();
    assert_eq!(machine.run_state, MachineRunState::Halted);
    let ticks = machine.virtual_clock.ticks();
    assert_eq!(machine.step(), Err(MachineError::AlreadyHalted));
    assert_eq!(machine.virtual_clock.ticks(), ticks);
}

#[test]
fn failed_step_keeps_clock_and_trace() {
    let mut machine = Machine::new_minimal(PAGE_SIZE).unwrap();
    machine.load_program(0, &[0xcc]).unwrap();
    assert!(matches!(machine.step(), Err(MachineError::Execute(_))));
    assert_eq!(machine.virtual_clock.ticks(), 0);
    assert_eq!(machine.trace.events().len(), 0);
    assert_eq!(machine.run_state, MachineRunState::Faulted);
}

#[test]
fn run_stops_after_max_steps_and_pauses() {
    let mut machine = Machine::new_minimal(PAGE_SIZE).unwrap();
    machine
        .load_program(0x10, &[0x90, 0xe9, 0xfa, 0xff, 0xff, 0xff])
        .unwrap();
    machine.cpu.registers.set_rip(0x10);
    assert_eq!(machine.run_until_halt(5), Ok(5));
    assert_eq!(machine.run_state, MachineRunState::Paused);
    assert_eq!(machine.virtual_clock.ticks(), 5);
    assert_eq!(machine.trace.events().last().unwrap().sequence, 4);
}

#[test]
fn trace_keeps_the_most_recent_events() {
    let mut machine = Machine::new_minimal(PAGE_SIZE).unwrap();
    machine
        .load_program(0x10, &[0x90, 0xe9, 0xfa, 0xff, 0xff, 0xff])
        .unwrap();
    machine.cpu.registers.set_rip(0x10);
    assert_eq!(machine.run_until_halt(300), Ok(300));
    assert_eq!(machine.trace.events().len(), 256);
    assert_eq!(machine.trace.events()[0].sequence, 44);
    assert_eq!(machine.trace.events()[255].sequence, 299);
}

#[test]
fn translate_address_faults_set_cr2() {
    let mut machine = Machine::new_minimal(PAGE_SIZE * 4).unwrap();
    assert_eq!(machine.translate_address(0x1234, AccessType::Read), Ok(0x1234));
    machine.cpu.controls = long_mode_controls();
    let result = machine.translate_address(0x5000, AccessType::Write);
    assert!(matches!(result, Err(MachineError::Mmu(MmuError::PageFault(_)))));
    assert_eq!(machine.cpu.controls.cr2, 0x5000);
}

#[test]
fn push_through_unmapped_stack_faults_with_address() {
    let mut machine = Machine::new_minimal(PAGE_SIZE).unwrap();
    machine.load_program(0, &[0x50]).unwrap();
    machine.cpu.registers.write_width(Gpr::Rsp, bxr::width::Width::U64, 0);
    let result = machine.step();
    assert!(matches!(
        result,
        Err(MachineError::Execute(bxr::execute::ExecuteError::MemoryWrite { .. }))
    ));
    assert_eq!(machine.run_state, MachineRunState::Faulted);
}

#[test]
fn load_program_out_of_range_is_memory_error() {
    let mut machine = Machine::new_minimal(PAGE_SIZE).unwrap();
    assert_eq!(
        machine.load_program(PAGE_SIZE as u64, &[0x90]),
        Err(MachineError::Memory(bxr::memory::MemoryError::OutOfBounds {
            addr: PAGE_SIZE as u64,
            len: 1
        }))
    );
    assert!(Machine::new_minimal(PAGE_SIZE + 3).is_err());
}

#[test]
fn trace_keeps_the_newest_events_numbered_in_order() {
    let mut machine = Machine::new_minimal(PAGE_SIZE * 8).unwrap();
    machine.cpu.registers.set_rip(0x1000);
    machine
        .load_program(0x1000, &[0x90, 0xe9, 0xfa, 0xff, 0xff, 0xff])
        .unwrap();
    assert_eq!(machine.run_until_halt(300), Ok(300));
    let events = machine.trace.events();
    assert_eq!(events.len(), 256);
    assert_eq!(events[0].sequence, 44);
    assert_eq!(events[255].sequence, 299);
    for (i, event) in events.iter().enumerate() {
        assert_eq!(event.sequence, 44 + i as u64);
    }
    assert_eq!(machine.virtual_clock.ticks(), 300);
}

#[test]
fn out_to_an_unknown_port_faults_the_step() {
    let mut machine = Machine::new_minimal(PAGE_SIZE).unwrap();
    machine.cpu.registers.set_rip(0x100);
    machine.load_program(0x100, &[0xe6, 0x80]).unwrap();
    assert_eq!(
        machine.step(),
        Err(MachineError::Execute(ExecuteError::PortWrite {
            port: 0x80,
            width: Width::U8
        }))
    );
    assert_eq!(machine.run_state, MachineRunState::Faulted);
    assert_eq!(machine.cpu.registers.rip(), 0x100);
    assert_eq!(machine.virtual_clock.ticks(), 0);
}

#[test]
fn stack_write_through_missing_page_tables_is_an_address_error() {
    let memory = PhysicalMemory::new(PAGE_SIZE).unwrap();
    let controls = ControlRegisters {
        cr0: ControlRegisters::CR0_PG,
        cr3: 0x1000,
        cr4: ControlRegisters::CR4_PAE,
        efer: ControlRegisters::EFER_LME | ControlRegisters::EFER_LMA,
        ..ControlRegisters::default()
    };
    let mut bus = MachineBus {
        memory,
        serial: SerialDevice::default(),
        controls,
    };
    assert_eq!(
        bus.write_u64_le(0x2000, 7),
        Err(ExecuteError::Address(MmuError::PhysicalRead { addr: 0x1000 }))
    );
    assert_eq!(bus.read_u64_le(0x2000), Err(ExecuteError::Address(MmuError::PhysicalRead { addr: 0x1000 })));
}

#[test]
fn each_step_counts_one_fetch() {
    let mut machine = Machine::new_minimal(PAGE_SIZE * 8).unwrap();
    machine.cpu.registers.set_rip(0x1000);
    machine
        .load_program(0x1000, &[0x90, 0xe9, 0xfa, 0xff, 0xff, 0xff])
        .unwrap();
    assert_eq!(machine.run_until_halt(40), Ok(40));
    let stats = machine.decode_cache_stats();
    assert_eq!(stats.hits + stats.misses, 40);
    assert_eq!(stats.misses, 2);
    assert_eq!(stats.entries, 2);
    assert_eq!(machine.virtual_clock.ticks(), 40);
    let events = machine.trace.events();
    assert_eq!(events.len(), 40);
    for (i, event) in events.iter().enumerate() {
        assert_eq!(event.sequence, i as u64);
        assert_eq!(event.virtual_ticks_after, i as u64 + 1);
    }
}

#[test]
fn counters_ticks_and_trace_follow_a_mixed_history() {
    let mut machine = Machine::new_minimal(PAGE_SIZE * 2).unwrap();
    machine.cpu.registers.set_rip(0x100);
    machine.load_program(0x100, &[0x90, 0x90, 0xf4]).unwrap();
    let first = machine.fetch_instruction().unwrap();
    assert_eq!(first.operation, Operation::Nop);
    machine.step().unwrap();
    machine.pause();
    machine.resume();
    assert_eq!(machine.translate_address(0x100, AccessType::Execute), Ok(0x100));
    assert_eq!(machine.run_until_halt(10), Ok(2));
    assert_eq!(machine.step(), Err(MachineError::AlreadyHalted));
    let stats = machine.decode_cache_stats();
    assert_eq!(stats.hits + stats.misses, 4);
    assert!(stats.entries as u64 <= stats.misses);
    assert_eq!(machine.virtual_clock.ticks(), 3);
    let events = machine.trace.events();
    assert_eq!(events.len(), 3);
    for (i, event) in events.iter().enumerate() {
        assert_eq!(event.sequence, i as u64);
        assert_eq!(event.virtual_ticks_after, i as u64 + 1);
    }
}
