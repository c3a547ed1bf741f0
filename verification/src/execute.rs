use vstd::prelude::*;
use crate::arith::{add_mod64, wrapping_add_signed_u64, wrapping_add_u64, wrapping_sub_u64};
use crate::decode::{spec_decode, Instruction, Operation};
use crate::flags::{add_flags, RFlags};
use crate::mmu::MmuError;
use crate::registers::{merge_width, Gpr, RegisterFile};
use crate::system::ControlRegisters;
use crate::width::Width;

verus! {

/// Architectural CPU state.
#[derive(Clone, Copy, Debug, PartialEq, Eq)]
pub struct CpuState {
    pub registers: RegisterFile,
    pub rflags: RFlags,
    pub controls: ControlRegisters,
    pub halted: bool,
}

/// The register-file view: sixteen registers and RIP.
pub type RegsView = (Seq<u64>, u64);

/// The CPU view: registers, RFLAGS, control registers and the halt flag.
pub type CpuView = (RegsView, u64, ControlRegisters, bool);

impl View for CpuState {
    type V = CpuView;

    open spec fn view(&self) -> CpuView {
        (self.registers@, self.rflags@, self.controls, self.halted)
    }
}

impl Default for CpuState {
    fn default() -> (r: CpuState)
        ensures
            r@.0.1 == 0,
            forall|i: int| 0 <= i < 16 ==> #[trigger] r@.0.0[i] == 0,
            r@.1 == crate::flags::RESERVED_ALWAYS_ONE,
            r@.2 == ControlRegisters::spec_zero(),
            !r@.3,
    {
        CpuState {
            registers: RegisterFile::default(),
            rflags: RFlags::new(),
            controls: ControlRegisters::default(),
            halted: false,
        }
    }
}

#[derive(Clone, Copy, Debug, PartialEq, Eq, Structural)]
pub enum ExecuteOutcome {
    Continue,
    Halted,
}

#[derive(Clone, Copy, Debug, PartialEq, Eq)]
pub enum ExecuteError {
    UnsupportedOperation(&'static str),
    MemoryRead { addr: u64, width: Width },
    MemoryWrite { addr: u64, width: Width },
    PortWrite { port: u16, width: Width },
    Address(MmuError),
}

/// Stack memory as seen by `push`, `pop` and `ret`. An implementation describes each
/// access by a relation between the memory before it, the memory after it and its
/// result.
pub trait X86StackMemory: Sized {
    /// What the memory holds before every access and keeps after it. An
    /// implementation that does not say holds nothing.
    open spec fn memory_wf(&self) -> bool {
        true
    }

    /// Whether reading the 64-bit word at `addr` may give `r` and leave `after`. An
    /// implementation that does not say allows every outcome.
    open spec fn read_u64_le_ensures(&self, addr: u64, after: Self, r: Result<u64, ExecuteError>) -> bool {
        true
    }

    /// Whether writing `value` as a 64-bit word at `addr` may give `r` and leave `after`.
    /// An implementation that does not say allows every outcome.
    open spec fn write_u64_le_ensures(
        &self,
        addr: u64,
        value: u64,
        after: Self,
        r: Result<(), ExecuteError>,
    ) -> bool {
        true
    }

    fn read_u64_le(&mut self, addr: u64) -> (r: Result<u64, ExecuteError>)
        requires
            old(self).memory_wf(),
        ensures
            final(self).memory_wf(),
            old(self).read_u64_le_ensures(addr, *final(self), r),
    ;

    fn write_u64_le(&mut self, addr: u64, value: u64) -> (r: Result<(), ExecuteError>)
        requires
            old(self).memory_wf(),
        ensures
            final(self).memory_wf(),
            old(self).write_u64_le_ensures(addr, value, *final(self), r),
    ;
}

/// Port output as seen by `out`.
pub trait X86PortIo: Sized {
    /// Whether writing `value` to `port` may give `r` and leave `after`. An
    /// implementation that does not say allows every outcome.
    open spec fn write_port_u8_ensures(
        &self,
        port: u16,
        value: u8,
        after: Self,
        r: Result<(), ExecuteError>,
    ) -> bool {
        true
    }

    fn write_port_u8(&mut self, port: u16, value: u8) -> (r: Result<(), ExecuteError>)
        ensures
            old(self).write_port_u8_ensures(port, value, *final(self), r),
    ;
}

/// A bus with both stack memory and port I/O.
pub trait X86SystemBus: X86StackMemory + X86PortIo {

}

impl<T> X86SystemBus for T where T: X86StackMemory + X86PortIo {

}

/// The register view after writing `value` at `width` into `reg`.
pub open spec fn regs_write(v: RegsView, reg: Gpr, width: Width, value: u64) -> RegsView {
    (
        v.0.update(reg.spec_index() as int, merge_width(v.0[reg.spec_index() as int], width, value)),
        v.1,
    )
}

/// The value of `reg` in a register view.
pub open spec fn regs_value(v: RegsView, reg: Gpr) -> u64 {
    v.0[reg.spec_index() as int]
}

/// The register view with RIP moved past an instruction of `len` bytes.
pub open spec fn regs_advance(v: RegsView, len: u8) -> RegsView {
    (v.0, add_mod64(v.1 as int, len as int))
}

/// The second operand of `add rax, imm32`: sign-extended at 64 bits, as is at 32.
pub open spec fn spec_add_immediate_operand(width: Width, imm32: u32) -> u64 {
    if width == Width::U64 && imm32 >= 0x8000_0000 {
        (imm32 as int + 0xffff_ffff_0000_0000) as u64
    } else {
        imm32 as u64
    }
}

/// The operations that `execute_decoded` can run: an accumulator add must be
/// 32 or 64 bits wide, as the decoder produces it.
pub open spec fn executable_operation(op: Operation) -> bool {
    match op {
        Operation::AddAccumulatorImm { width, .. } => width == Width::U32 || width == Width::U64,
        _ => true,
    }
}

pub open spec fn ret_needs_stack() -> &'static str {
    "ret requires stack memory"
}

pub open spec fn out_needs_bus() -> &'static str {
    "out requires port I/O bus"
}

pub open spec fn int3_needs_exceptions() -> &'static str {
    "int3 requires exception delivery"
}

pub open spec fn syscall_needs_privilege() -> &'static str {
    "syscall requires privilege transition state"
}

pub open spec fn push_pop_need_stack() -> &'static str {
    "push/pop require stack memory"
}

/// One instruction on the CPU alone: the new CPU view and the outcome. Operations
/// that need memory, ports, exceptions or privilege changes fail and change nothing.
pub open spec fn spec_execute(s: CpuView, inst: Instruction) -> (
    CpuView,
    Result<ExecuteOutcome, ExecuteError>,
) {
    let (regs, flags, controls, halted) = s;
    match inst.operation {
        Operation::Nop => ((regs_advance(regs, inst.len), flags, controls, halted), Ok(ExecuteOutcome::Continue)),
        Operation::MovImm { dst, width, imm } => (
            (regs_advance(regs_write(regs, dst, width, imm), inst.len), flags, controls, halted),
            Ok(ExecuteOutcome::Continue),
        ),
        Operation::AddAccumulatorImm { width, imm32 } => {
            let lhs = width.spec_truncate(regs_value(regs, Gpr::Rax));
            let rhs = spec_add_immediate_operand(width, imm32);
            let result = add_mod64(lhs as int, rhs as int);
            (
                (
                    regs_advance(regs_write(regs, Gpr::Rax, width, result), inst.len),
                    add_flags(flags, width, lhs, rhs, result),
                    controls,
                    halted,
                ),
                Ok(ExecuteOutcome::Continue),
            )
        },
        Operation::JmpRel32 { rel } => (
            (
                (regs.0, add_mod64(add_mod64(regs.1 as int, inst.len as int) as int, rel as int)),
                flags,
                controls,
                halted,
            ),
            Ok(ExecuteOutcome::Continue),
        ),
        Operation::Hlt => ((regs_advance(regs, inst.len), flags, controls, true), Ok(ExecuteOutcome::Halted)),
        Operation::Ret => (s, Err(ExecuteError::UnsupportedOperation(ret_needs_stack()))),
        Operation::OutImm8Al { .. } => (s, Err(ExecuteError::UnsupportedOperation(out_needs_bus()))),
        Operation::Int3 => (s, Err(ExecuteError::UnsupportedOperation(int3_needs_exceptions()))),
        Operation::Syscall => (s, Err(ExecuteError::UnsupportedOperation(syscall_needs_privilege()))),
        Operation::Push { .. } => (s, Err(ExecuteError::UnsupportedOperation(push_pop_need_stack()))),
        Operation::Pop { .. } => (s, Err(ExecuteError::UnsupportedOperation(push_pop_need_stack()))),
    }
}

/// One instruction with stack memory, as a relation between the CPU and memory before
/// and after it and the outcome: `push` writes the source register below RSP, `pop`
/// and `ret` read the word at RSP; a failed access returns its error and leaves the
/// CPU as it was. Everything else is `spec_execute` and leaves the memory alone.
pub open spec fn execute_with_memory_ensures<M: X86StackMemory>(
    s: CpuView,
    inst: Instruction,
    memory: M,
    s2: CpuView,
    memory2: M,
    r: Result<ExecuteOutcome, ExecuteError>,
) -> bool {
    let (regs, flags, controls, halted) = s;
    let rsp = regs_value(regs, Gpr::Rsp);
    match inst.operation {
        Operation::Push { src } => {
            let new_rsp = add_mod64(rsp as int, -8);
            let value = regs_value(regs, src);
            match r {
                Err(e) => memory.write_u64_le_ensures(new_rsp, value, memory2, Err(e)) && s2 == s,
                Ok(outcome) => {
                    &&& outcome == ExecuteOutcome::Continue
                    &&& memory.write_u64_le_ensures(new_rsp, value, memory2, Ok(()))
                    &&& s2 == (
                        regs_advance(regs_write(regs, Gpr::Rsp, Width::U64, new_rsp), inst.len),
                        flags,
                        controls,
                        halted,
                    )
                },
            }
        },
        Operation::Pop { dst } => {
            let value = regs_value(s2.0, dst);
            match r {
                Err(e) => memory.read_u64_le_ensures(rsp, memory2, Err(e)) && s2 == s,
                Ok(outcome) => {
                    &&& outcome == ExecuteOutcome::Continue
                    &&& memory.read_u64_le_ensures(rsp, memory2, Ok(value))
                    &&& s2 == (
                        regs_advance(
                            regs_write(
                                regs_write(regs, Gpr::Rsp, Width::U64, add_mod64(rsp as int, 8)),
                                dst,
                                Width::U64,
                                value,
                            ),
                            inst.len,
                        ),
                        flags,
                        controls,
                        halted,
                    )
                },
            }
        },
        Operation::Ret => {
            let target = s2.0.1;
            match r {
                Err(e) => memory.read_u64_le_ensures(rsp, memory2, Err(e)) && s2 == s,
                Ok(outcome) => {
                    &&& outcome == ExecuteOutcome::Continue
                    &&& memory.read_u64_le_ensures(rsp, memory2, Ok(target))
                    &&& s2 == (
                        (regs_write(regs, Gpr::Rsp, Width::U64, add_mod64(rsp as int, 8)).0, target),
                        flags,
                        controls,
                        halted,
                    )
                },
            }
        },
        _ => memory2 == memory && (s2, r) == spec_execute(s, inst),
    }
}

/// One instruction on a full bus: `out imm8, al` writes the low byte of RAX to the
/// port; everything else is `execute_with_memory_ensures`.
pub open spec fn execute_with_bus_ensures<B: X86SystemBus>(
    s: CpuView,
    inst: Instruction,
    bus: B,
    s2: CpuView,
    bus2: B,
    r: Result<ExecuteOutcome, ExecuteError>,
) -> bool {
    match inst.operation {
        Operation::OutImm8Al { port } => {
            let value = (regs_value(s.0, Gpr::Rax) & 0xff) as u8;
            match r {
                Err(e) => bus.write_port_u8_ensures(port as u16, value, bus2, Err(e)) && s2 == s,
                Ok(outcome) => {
                    &&& outcome == ExecuteOutcome::Continue
                    &&& bus.write_port_u8_ensures(port as u16, value, bus2, Ok(()))
                    &&& s2 == (regs_advance(s.0, inst.len), s.1, s.2, s.3)
                },
            }
        },
        _ => execute_with_memory_ensures(s, inst, bus, s2, bus2, r),
    }
}

impl CpuState {
    /// Runs one decoded instruction that needs neither memory nor ports.
    pub fn execute_decoded(&mut self, instruction: &Instruction) -> (r: Result<
        ExecuteOutcome,
        ExecuteError,
    >)
        requires
            executable_operation(instruction.operation),
        ensures
            (final(self)@, r) == spec_execute(old(self)@, *instruction),
    {
        match instruction.operation {
            Operation::Nop => {
                self.advance(instruction);
                Ok(ExecuteOutcome::Continue)
            },
            Operation::MovImm { dst, width, imm } => {
                self.registers.write_width(dst, width, imm);
                self.advance(instruction);
                Ok(ExecuteOutcome::Continue)
            },
            Operation::AddAccumulatorImm { width, imm32 } => {
                let lhs = self.registers.read_width(Gpr::Rax, width);
                let rhs = add_immediate_operand(width, imm32);
                let result = wrapping_add_u64(lhs, rhs);
                self.registers.write_width(Gpr::Rax, width, result);
                self.rflags.update_add(width, lhs, rhs, result);
                self.advance(instruction);
                Ok(ExecuteOutcome::Continue)
            },
            Operation::JmpRel32 { rel } => {
                let base = wrapping_add_u64(self.registers.rip(), instruction.len as u64);
                self.registers.set_rip(wrapping_add_signed_u64(base, rel as i64));
                Ok(ExecuteOutcome::Continue)
            },
            Operation::Hlt => {
                self.halted = true;
                self.advance(instruction);
                Ok(ExecuteOutcome::Halted)
            },
            Operation::Ret => Err(ExecuteError::UnsupportedOperation("ret requires stack memory")),
            Operation::OutImm8Al { .. } => Err(
                ExecuteError::UnsupportedOperation("out requires port I/O bus"),
            ),
            Operation::Int3 => Err(
                ExecuteError::UnsupportedOperation("int3 requires exception delivery"),
            ),
            Operation::Syscall => Err(
                ExecuteError::UnsupportedOperation("syscall requires privilege transition state"),
            ),
            Operation::Push { .. } => Err(
                ExecuteError::UnsupportedOperation("push/pop require stack memory"),
            ),
            Operation::Pop { .. } => Err(
                ExecuteError::UnsupportedOperation("push/pop require stack memory"),
            ),
        }
    }

    /// Runs one decoded instruction with stack memory for `push`, `pop` and `ret`.
    pub fn execute_decoded_with_memory<M: X86StackMemory>(
        &mut self,
        instruction: &Instruction,
        memory: &mut M,
    ) -> (r: Result<ExecuteOutcome, ExecuteError>)
        requires
            executable_operation(instruction.operation),
            old(memory).memory_wf(),
        ensures
            final(memory).memory_wf(),
            execute_with_memory_ensures(
                old(self)@,
                *instruction,
                *old(memory),
                final(self)@,
                *final(memory),
                r,
            ),
    {
        match instruction.operation {
            Operation::Push { src } => {
                let value = self.registers.read(src);
                let new_rsp = wrapping_sub_u64(self.registers.read(Gpr::Rsp), 8);
                let written = memory.write_u64_le(new_rsp, value);
                match written {
                    Ok(unit) => {
                        assert(unit == ());
                    },
                    Err(e) => return Err(e),
                }
                self.registers.write_width(Gpr::Rsp, Width::U64, new_rsp);
                self.advance(instruction);
                Ok(ExecuteOutcome::Continue)
            },
            Operation::Pop { dst } => {
                let old_rsp = self.registers.read(Gpr::Rsp);
                let value = match memory.read_u64_le(old_rsp) {
                    Ok(v) => v,
                    Err(e) => return Err(e),
                };
                self.registers.write_width(Gpr::Rsp, Width::U64, wrapping_add_u64(old_rsp, 8));
                self.registers.write_width(dst, Width::U64, value);
                self.advance(instruction);
                proof {
                    broadcast use RegisterFile::lemma_shape;

                    assert(regs_value(self@.0, dst) == value);
                }
                Ok(ExecuteOutcome::Continue)
            },
            Operation::Ret => {
                let old_rsp = self.registers.read(Gpr::Rsp);
                let target = match memory.read_u64_le(old_rsp) {
                    Ok(v) => v,
                    Err(e) => return Err(e),
                };
                self.registers.write_width(Gpr::Rsp, Width::U64, wrapping_add_u64(old_rsp, 8));
                self.registers.set_rip(target);
                Ok(ExecuteOutcome::Continue)
            },
            _ => self.execute_decoded(instruction),
        }
    }

    /// Runs one decoded instruction with stack memory and port I/O.
    pub fn execute_decoded_with_bus<B: X86SystemBus>(
        &mut self,
        instruction: &Instruction,
        bus: &mut B,
    ) -> (r: Result<ExecuteOutcome, ExecuteError>)
        requires
            executable_operation(instruction.operation),
            old(bus).memory_wf(),
        ensures
            execute_with_bus_ensures(old(self)@, *instruction, *old(bus), final(self)@, *final(bus), r),
            !(instruction.operation is OutImm8Al) ==> final(bus).memory_wf(),
    {
        match instruction.operation {
            Operation::OutImm8Al { port } => {
                let low = self.registers.read_width(Gpr::Rax, Width::U8);
                proof {
                    let x = self.registers.value(Gpr::Rax);
                    assert(x & 0xffu64 <= 0xffu64) by (bit_vector);
                }
                let value = low as u8;
                let written = bus.write_port_u8(port as u16, value);
                match written {
                    Ok(unit) => {
                        assert(unit == ());
                    },
                    Err(e) => return Err(e),
                }
                self.advance(instruction);
                Ok(ExecuteOutcome::Continue)
            },
            _ => self.execute_decoded_with_memory(instruction, bus),
        }
    }

    fn advance(&mut self, instruction: &Instruction)
        ensures
            final(self)@ == (regs_advance(old(self)@.0, instruction.len), old(self)@.1, old(
                self,
            )@.2, old(self)@.3),
    {
        self.registers.advance_rip(instruction.len);
    }
}

/// Every operation the decoder produces can be executed.
pub proof fn lemma_decoded_operations_are_executable(input: Seq<u8>)
    ensures
        spec_decode(input) matches Ok((_, _, _, op)) ==> executable_operation(op),
{
}

fn add_immediate_operand(width: Width, imm32: u32) -> (r: u64)
    requires
        width == Width::U32 || width == Width::U64,
    ensures
        r == spec_add_immediate_operand(width, imm32),
{
    match width {
        Width::U64 => if imm32 >= 0x8000_0000 {
            imm32 as u64 + 0xffff_ffff_0000_0000
        } else {
            imm32 as u64
        },
        _ => imm32 as u64,
    }
}

} // verus!
