use bxr::decode::{decode_one, DecodeError, Operation};
use bxr::execute::{CpuState, ExecuteError, ExecuteOutcome, X86PortIo, X86StackMemory};
use bxr::flags::{Flag, RFlags, RESERVED_ALWAYS_ONE};
use bxr::mmu::{
    page_fault, translate, AccessType, MmuError, PageFaultReason, PageSize, PageTableMemory,
    PrivilegeLevel, TranslateRequest,
};
use bxr::registers::{Gpr, RegisterFile};
use bxr::system::ControlRegisters;
use bxr::width::Width;
use std::collections::BTreeMap;

#[test]
fn writing_32_bits_zero_extends() {
    let mut regs = RegisterFile::default();
    regs.write_width(Gpr::Rax, Width::U64, u64::MAX);
    regs.write_width(Gpr::Rax, Width::U32, 0x1234_5678);
    assert_eq!(regs.read(Gpr::Rax), 0x1234_5678);
}

#[test]
fn writing_8_bits_preserves_upper_bits() {
    let mut regs = RegisterFile::default();
    regs.write_width(Gpr::Rax, Width::U64, 0xfeed_face_cafe_beef);
    regs.write_width(Gpr::Rax, Width::U8, 0x11);
    assert_eq!(regs.read(Gpr::Rax), 0xfeed_face_cafe_be11);
}

#[test]
fn rex_extension_selects_high_registers() {
    assert_eq!(Gpr::from_low3(0, false), Gpr::Rax);
    assert_eq!(Gpr::from_low3(0, true), Gpr::R8);
    assert_eq!(Gpr::from_low3(7, true), Gpr::R15);
}

#[test]
fn reserved_bit_stays_set() {
    let mut flags = RFlags::from_bits(0);
    flags.set(Flag::Carry, true);
    flags.set(Flag::Carry, false);
    assert_eq!(flags.bits() & RESERVED_ALWAYS_ONE, RESERVED_ALWAYS_ONE);
}

#[test]
fn add_sets_carry_and_zero() {
    let mut flags = RFlags::new();
    flags.update_add(Width::U8, 0xff, 0x01, 0x00);
    assert!(flags.get(Flag::Carry));
    assert!(flags.get(Flag::Zero));
    assert!(!flags.get(Flag::Sign));
}

#[test]
fn add_sets_signed_overflow() {
    let mut flags = RFlags::new();
    flags.update_add(Width::U8, 0x7f, 0x01, 0x80);
    assert!(flags.get(Flag::Overflow));
    assert!(flags.get(Flag::Sign));
}

#[test]
fn sub_sets_borrow() {
    let mut flags = RFlags::new();
    flags.update_sub(Width::U16, 0x0000, 0x0001, 0xffff);
    assert!(flags.get(Flag::Carry));
    assert!(flags.get(Flag::Sign));
}

#[test]
fn decodes_nop() {
    let inst = decode_one(&[0x90]).unwrap();
    assert_eq!(inst.len, 1);
    assert_eq!(inst.operation, Operation::Nop);
}

#[test]
fn decodes_mov_rax_imm64() {
    let inst = decode_one(&[0x48, 0xb8, 0x88, 0x77, 0x66, 0x55, 0x44, 0x33, 0x22, 0x11]).unwrap();
    assert_eq!(inst.len, 10);
    assert_eq!(
        inst.operation,
        Operation::MovImm {
            dst: Gpr::Rax,
            width: Width::U64,
            imm: 0x1122_3344_5566_7788
        }
    );
}

#[test]
fn decodes_mov_r8_imm64_with_rex_b() {
    let inst = decode_one(&[0x49, 0xb8, 1, 0, 0, 0, 0, 0, 0, 0]).unwrap();
    assert_eq!(
        inst.operation,
        Operation::MovImm {
            dst: Gpr::R8,
            width: Width::U64,
            imm: 1
        }
    );
}

#[test]
fn decodes_push_r15() {
    let inst = decode_one(&[0x41, 0x57]).unwrap();
    assert_eq!(inst.operation, Operation::Push { src: Gpr::R15 });
}

#[test]
fn incomplete_immediate_is_error() {
    assert_eq!(decode_one(&[0x48, 0xb8, 1]), Err(DecodeError::Incomplete));
}

#[test]
fn unsupported_opcode_is_error() {
    assert_eq!(
        decode_one(&[0x0f, 0xff]),
        Err(DecodeError::UnsupportedOpcode {
            opcode: 0xff,
            offset: 1
        })
    );
}

#[test]
fn decodes_out_imm8_al() {
    let inst = decode_one(&[0xe6, 0xe9]).unwrap();
    assert_eq!(inst.len, 2);
    assert_eq!(inst.operation, Operation::OutImm8Al { port: 0xe9 });
}

#[derive(Default)]
struct TestStackMemory {
    words: BTreeMap<u64, u64>,
}

impl X86StackMemory for TestStackMemory {
    fn read_u64_le(&mut self, addr: u64) -> Result<u64, ExecuteError> {
        self.words
            .get(&addr)
            .copied()
            .ok_or(ExecuteError::MemoryRead {
                addr,
                width: Width::U64,
            })
    }

    fn write_u64_le(&mut self, addr: u64, value: u64) -> Result<(), ExecuteError> {
        self.words.insert(addr, value);
        Ok(())
    }
}

impl X86PortIo for TestStackMemory {
    fn write_port_u8(&mut self, port: u16, value: u8) -> Result<(), ExecuteError> {
        self.words
            .insert(0xffff_0000 | u64::from(port), u64::from(value));
        Ok(())
    }
}

#[test]
fn executes_mov_rax_imm64() {
    let inst = decode_one(&[0x48, 0xb8, 0x78, 0x56, 0x34, 0x12, 0, 0, 0, 0]).unwrap();
    let mut cpu = CpuState::default();

    assert_eq!(cpu.execute_decoded(&inst), Ok(ExecuteOutcome::Continue));
    assert_eq!(cpu.registers.read(Gpr::Rax), 0x1234_5678);
    assert_eq!(cpu.registers.rip(), 10);
}

#[test]
fn executes_add_rax_imm32_with_sign_extension() {
    let mov = decode_one(&[0x48, 0xb8, 1, 0, 0, 0, 0, 0, 0, 0]).unwrap();
    let add = decode_one(&[0x48, 0x05, 0xff, 0xff, 0xff, 0xff]).unwrap();
    let mut cpu = CpuState::default();

    cpu.execute_decoded(&mov).unwrap();
    cpu.execute_decoded(&add).unwrap();

    assert_eq!(cpu.registers.read(Gpr::Rax), 0);
    assert!(cpu.rflags.get(Flag::Zero));
}

#[test]
fn executes_relative_jump_from_next_rip() {
    let jmp = decode_one(&[0xe9, 0x05, 0, 0, 0]).unwrap();
    let mut cpu = CpuState::default();
    cpu.registers.set_rip(0x1000);

    cpu.execute_decoded(&jmp).unwrap();

    assert_eq!(cpu.registers.rip(), 0x100a);
}

#[test]
fn executes_hlt() {
    let hlt = decode_one(&[0xf4]).unwrap();
    let mut cpu = CpuState::default();

    assert_eq!(cpu.execute_decoded(&hlt), Ok(ExecuteOutcome::Halted));
    assert!(cpu.halted);
    assert_eq!(cpu.registers.rip(), 1);
}

#[test]
fn executes_push_to_stack_memory() {
    let push = decode_one(&[0x50]).unwrap();
    let mut cpu = CpuState::default();
    let mut memory = TestStackMemory::default();
    cpu.registers.write_width(Gpr::Rax, Width::U64, 0xfeed);
    cpu.registers.write_width(Gpr::Rsp, Width::U64, 0x1000);

    cpu.execute_decoded_with_memory(&push, &mut memory).unwrap();

    assert_eq!(cpu.registers.read(Gpr::Rsp), 0x0ff8);
    assert_eq!(memory.words.get(&0x0ff8), Some(&0xfeed));
    assert_eq!(cpu.registers.rip(), 1);
}

#[test]
fn executes_pop_from_stack_memory() {
    let pop = decode_one(&[0x58]).unwrap();
    let mut cpu = CpuState::default();
    let mut memory = TestStackMemory::default();
    cpu.registers.write_width(Gpr::Rsp, Width::U64, 0x0ff8);
    memory.words.insert(0x0ff8, 0xfeed);

    cpu.execute_decoded_with_memory(&pop, &mut memory).unwrap();

    assert_eq!(cpu.registers.read(Gpr::Rax), 0xfeed);
    assert_eq!(cpu.registers.read(Gpr::Rsp), 0x1000);
    assert_eq!(cpu.registers.rip(), 1);
}

#[test]
fn executes_ret_from_stack_memory() {
    let ret = decode_one(&[0xc3]).unwrap();
    let mut cpu = CpuState::default();
    let mut memory = TestStackMemory::default();
    cpu.registers.write_width(Gpr::Rsp, Width::U64, 0x0ff8);
    memory.words.insert(0x0ff8, 0x1234);

    cpu.execute_decoded_with_memory(&ret, &mut memory).unwrap();

    assert_eq!(cpu.registers.rip(), 0x1234);
    assert_eq!(cpu.registers.read(Gpr::Rsp), 0x1000);
}

#[test]
fn executes_out_imm8_al() {
    let out = decode_one(&[0xe6, 0xe9]).unwrap();
    let mut cpu = CpuState::default();
    let mut bus = TestStackMemory::default();
    cpu.registers.write_width(Gpr::Rax, Width::U64, 0x1234);

    cpu.execute_decoded_with_bus(&out, &mut bus).unwrap();

    assert_eq!(bus.words.get(&(0xffff_0000 | 0xe9)), Some(&0x34));
    assert_eq!(cpu.registers.rip(), 2);
}

#[derive(Default)]
struct TestPageTables {
    entries: BTreeMap<u64, u64>,
}

impl TestPageTables {
    fn write_entry(&mut self, addr: u64, value: u64) {
        self.entries.insert(addr, value);
    }
}

impl PageTableMemory for TestPageTables {
    fn spec_read_u64_phys(&self, addr: u64) -> Result<u64, MmuError> {
        self.read_u64_phys(addr)
    }

    fn read_u64_phys(&self, addr: u64) -> Result<u64, MmuError> {
        self.entries
            .get(&addr)
            .copied()
            .ok_or(MmuError::PhysicalRead { addr })
    }
}

fn paging_controls() -> ControlRegisters {
    ControlRegisters {
        cr0: ControlRegisters::CR0_PG,
        cr3: 0x1000,
        cr4: ControlRegisters::CR4_PAE,
        efer: ControlRegisters::EFER_LME | ControlRegisters::EFER_LMA,
        ..ControlRegisters::default()
    }
}

#[test]
fn no_paging_uses_identity_translation() {
    let memory = TestPageTables::default();
    let translation = translate(
        ControlRegisters::default(),
        &memory,
        TranslateRequest {
            virtual_addr: 0x1234,
            access: AccessType::Execute,
            privilege: PrivilegeLevel::Supervisor,
        },
    )
    .unwrap();

    assert_eq!(translation.physical_addr, 0x1234);
}

#[test]
fn translates_4k_page_in_long_mode() {
    let mut memory = TestPageTables::default();
    memory.write_entry(0x1000, 0x2000 | 0b111);
    memory.write_entry(0x2000, 0x3000 | 0b111);
    memory.write_entry(0x3000, 0x4000 | 0b111);
    memory.write_entry(0x4008, 0x8000 | 0b111);

    let translation = translate(
        paging_controls(),
        &memory,
        TranslateRequest {
            virtual_addr: 0x1000,
            access: AccessType::Read,
            privilege: PrivilegeLevel::User,
        },
    )
    .unwrap();

    assert_eq!(translation.physical_addr, 0x8000);
    assert_eq!(translation.page_size, PageSize::Size4K);
}

#[test]
fn write_to_read_only_page_faults() {
    let mut memory = TestPageTables::default();
    memory.write_entry(0x1000, 0x2000 | 0b111);
    memory.write_entry(0x2000, 0x3000 | 0b111);
    memory.write_entry(0x3000, 0x4000 | 0b111);
    memory.write_entry(0x4008, 0x8000 | 0b101);

    let err = translate(
        paging_controls(),
        &memory,
        TranslateRequest {
            virtual_addr: 0x1000,
            access: AccessType::Write,
            privilege: PrivilegeLevel::User,
        },
    )
    .unwrap_err();

    assert_eq!(
        err,
        page_fault(
            TranslateRequest {
                virtual_addr: 0x1000,
                access: AccessType::Write,
                privilege: PrivilegeLevel::User,
            },
            true,
            PageFaultReason::WriteToReadOnly
        )
    );
}

#[test]
fn nx_page_execute_faults_when_enabled() {
    let mut memory = TestPageTables::default();
    memory.write_entry(0x1000, 0x2000 | 0b111);
    memory.write_entry(0x2000, 0x3000 | 0b111);
    memory.write_entry(0x3000, 0x4000 | 0b111);
    memory.write_entry(0x4008, (1_u64 << 63) | 0x8000 | 0b111);
    let mut controls = paging_controls();
    controls.efer |= ControlRegisters::EFER_NXE;

    let err = translate(
        controls,
        &memory,
        TranslateRequest {
            virtual_addr: 0x1000,
            access: AccessType::Execute,
            privilege: PrivilegeLevel::User,
        },
    )
    .unwrap_err();

    assert_eq!(
        err,
        page_fault(
            TranslateRequest {
                virtual_addr: 0x1000,
                access: AccessType::Execute,
                privilege: PrivilegeLevel::User,
            },
            true,
            PageFaultReason::ExecuteDisabled
        )
    );
}

#[test]
fn empty_input_is_error() {
    assert_eq!(decode_one(&[]), Err(DecodeError::EmptyInput));
}

#[test]
fn fifteen_prefixes_are_too_long() {
    let mut bytes = vec![0x66; 15];
    bytes.push(0x90);
    assert_eq!(decode_one(&bytes), Err(DecodeError::TooLong));
}

#[test]
fn instruction_past_fifteen_bytes_is_too_long() {
    let mut bytes = vec![0x66; 6];
    bytes.extend_from_slice(&[0x48, 0xb8, 1, 0, 0, 0, 0, 0, 0, 0]);
    assert_eq!(decode_one(&bytes), Err(DecodeError::TooLong));
}

#[test]
fn ret_without_stack_memory_is_unsupported() {
    let ret = decode_one(&[0xc3]).unwrap();
    let mut cpu = CpuState::default();
    assert_eq!(
        cpu.execute_decoded(&ret),
        Err(ExecuteError::UnsupportedOperation("ret requires stack memory"))
    );
    assert_eq!(cpu.registers.rip(), 0);
}

#[test]
fn pop_from_missing_word_fails_and_keeps_cpu() {
    let pop = decode_one(&[0x58]).unwrap();
    let mut cpu = CpuState::default();
    let mut memory = TestStackMemory::default();
    cpu.registers.write_width(Gpr::Rsp, Width::U64, 0x0ff8);
    assert_eq!(
        cpu.execute_decoded_with_memory(&pop, &mut memory),
        Err(ExecuteError::MemoryRead {
            addr: 0x0ff8,
            width: Width::U64
        })
    );
    assert_eq!(cpu.registers.read(Gpr::Rsp), 0x0ff8);
    assert_eq!(cpu.registers.rip(), 0);
}

fn user_read(virtual_addr: u64) -> TranslateRequest {
    TranslateRequest {
        virtual_addr,
        access: AccessType::Read,
        privilege: PrivilegeLevel::User,
    }
}

#[test]
fn paging_without_pae_is_unsupported() {
    let memory = TestPageTables::default();
    let controls = ControlRegisters {
        cr0: ControlRegisters::CR0_PG,
        ..ControlRegisters::default()
    };
    assert_eq!(
        translate(controls, &memory, user_read(0x1000)),
        Err(MmuError::Unsupported("x86-64 paging requires CR4.PAE"))
    );
}

#[test]
fn paging_outside_long_mode_is_unsupported() {
    let memory = TestPageTables::default();
    let controls = ControlRegisters {
        cr0: ControlRegisters::CR0_PG,
        cr4: ControlRegisters::CR4_PAE,
        ..ControlRegisters::default()
    };
    assert_eq!(
        translate(controls, &memory, user_read(0x1000)),
        Err(MmuError::Unsupported("only long-mode page walks are implemented"))
    );
}

#[test]
fn non_canonical_address_is_rejected() {
    let memory = TestPageTables::default();
    assert_eq!(
        translate(paging_controls(), &memory, user_read(0x0000_8000_0000_0000)),
        Err(MmuError::NonCanonical {
            addr: 0x0000_8000_0000_0000
        })
    );
}

#[test]
fn missing_table_is_a_physical_read_error() {
    let memory = TestPageTables::default();
    assert_eq!(
        translate(paging_controls(), &memory, user_read(0x1000)),
        Err(MmuError::PhysicalRead { addr: 0x1000 })
    );
}

#[test]
fn absent_entry_is_a_not_present_fault() {
    let mut memory = TestPageTables::default();
    memory.write_entry(0x1000, 0x2000 | 0b110);
    assert_eq!(
        translate(paging_controls(), &memory, user_read(0x1000)),
        Err(page_fault(user_read(0x1000), false, PageFaultReason::NotPresent))
    );
}

#[test]
fn user_access_to_supervisor_page_faults() {
    let mut memory = TestPageTables::default();
    memory.write_entry(0x1000, 0x2000 | 0b111);
    memory.write_entry(0x2000, 0x3000 | 0b111);
    memory.write_entry(0x3000, 0x4000 | 0b111);
    memory.write_entry(0x4008, 0x8000 | 0b011);
    assert_eq!(
        translate(paging_controls(), &memory, user_read(0x1000)),
        Err(page_fault(user_read(0x1000), true, PageFaultReason::UserToSupervisor))
    );
}

#[test]
fn large_page_keeps_its_offset() {
    let mut memory = TestPageTables::default();
    memory.write_entry(0x1000, 0x2000 | 0b111);
    memory.write_entry(0x2000, 0x3000 | 0b111);
    memory.write_entry(0x3000, 0x0040_0000 | 0x80 | 0b111);
    let translation = translate(paging_controls(), &memory, user_read(0x1234)).unwrap();
    assert_eq!(translation.physical_addr, 0x0040_1234);
    assert_eq!(translation.page_size, PageSize::Size2M);
}

#[test]
fn operand_size_prefix_before_mov_is_refused() {
    assert_eq!(
        decode_one(&[0x66, 0xb8, 0x34, 0x12, 0x90, 0x90]),
        Err(DecodeError::UnsupportedOpcode {
            opcode: 0xb8,
            offset: 1
        })
    );
}

#[test]
fn operand_size_prefix_before_add_push_and_jmp_is_refused() {
    assert_eq!(
        decode_one(&[0x66, 0x05, 0x34, 0x12, 0, 0]),
        Err(DecodeError::UnsupportedOpcode {
            opcode: 0x05,
            offset: 1
        })
    );
    assert_eq!(
        decode_one(&[0x66, 0x50]),
        Err(DecodeError::UnsupportedOpcode {
            opcode: 0x50,
            offset: 1
        })
    );
    assert_eq!(
        decode_one(&[0x66, 0xe9, 0, 0, 0, 0]),
        Err(DecodeError::UnsupportedOpcode {
            opcode: 0xe9,
            offset: 1
        })
    );
}

#[test]
fn rex_w_overrides_operand_size_prefix() {
    let inst = decode_one(&[0x66, 0x48, 0xb8, 1, 0, 0, 0, 0, 0, 0, 0]).unwrap();
    assert_eq!(inst.len, 11);
    assert_eq!(
        inst.operation,
        Operation::MovImm {
            dst: Gpr::Rax,
            width: Width::U64,
            imm: 1
        }
    );
}

#[test]
fn operand_size_prefix_leaves_byte_operations_alone() {
    assert_eq!(
        decode_one(&[0x66, 0xe6, 0xe9]).unwrap().operation,
        Operation::OutImm8Al { port: 0xe9 }
    );
    assert_eq!(decode_one(&[0x66, 0x90]).unwrap().operation, Operation::Nop);
}

#[test]
fn strict_prefixes_are_incomplete_and_extensions_decode_alike() {
    let bytes = [0x48, 0xb8, 0x88, 0x77, 0x66, 0x55, 0x44, 0x33, 0x22, 0x11];
    let inst = decode_one(&bytes).unwrap();
    assert_eq!(decode_one(&[]), Err(DecodeError::EmptyInput));
    for k in 1..bytes.len() {
        assert_eq!(decode_one(&bytes[..k]), Err(DecodeError::Incomplete));
    }
    let mut longer = bytes.to_vec();
    longer.extend_from_slice(&[0xf4, 0x90, 0xcc]);
    assert_eq!(decode_one(&longer), Ok(inst));
}
