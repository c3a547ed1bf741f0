use vstd::prelude::*;
use crate::arith::{add_mod64, wrapping_add_u64};
use crate::width::Width;

verus! {

/// The sixteen 64-bit general-purpose registers, in encoding order.
#[derive(Clone, Copy, Debug, PartialEq, Eq, Structural)]
pub enum Gpr {
    Rax,
    Rcx,
    Rdx,
    Rbx,
    Rsp,
    Rbp,
    Rsi,
    Rdi,
    R8,
    R9,
    R10,
    R11,
    R12,
    R13,
    R14,
    R15,
}

impl Gpr {
    /// The register's encoding number, 0 to 15.
    pub open spec fn spec_index(self) -> nat {
        match self {
            Gpr::Rax => 0,
            Gpr::Rcx => 1,
            Gpr::Rdx => 2,
            Gpr::Rbx => 3,
            Gpr::Rsp => 4,
            Gpr::Rbp => 5,
            Gpr::Rsi => 6,
            Gpr::Rdi => 7,
            Gpr::R8 => 8,
            Gpr::R9 => 9,
            Gpr::R10 => 10,
            Gpr::R11 => 11,
            Gpr::R12 => 12,
            Gpr::R13 => 13,
            Gpr::R14 => 14,
            Gpr::R15 => 15,
        }
    }

    /// The register with encoding number `n`; every number from 15 up names `R15`.
    pub open spec fn spec_from_number(n: int) -> Gpr {
        if n == 0 {
            Gpr::Rax
        } else if n == 1 {
            Gpr::Rcx
        } else if n == 2 {
            Gpr::Rdx
        } else if n == 3 {
            Gpr::Rbx
        } else if n == 4 {
            Gpr::Rsp
        } else if n == 5 {
            Gpr::Rbp
        } else if n == 6 {
            Gpr::Rsi
        } else if n == 7 {
            Gpr::Rdi
        } else if n == 8 {
            Gpr::R8
        } else if n == 9 {
            Gpr::R9
        } else if n == 10 {
            Gpr::R10
        } else if n == 11 {
            Gpr::R11
        } else if n == 12 {
            Gpr::R12
        } else if n == 13 {
            Gpr::R13
        } else if n == 14 {
            Gpr::R14
        } else {
            Gpr::R15
        }
    }

    /// The register number formed by three low bits and a REX extension bit.
    pub open spec fn spec_low3_number(low3: u8, rex_extension: bool) -> u8 {
        low3 | (if rex_extension { 8u8 } else { 0u8 })
    }

    pub fn index(self) -> (r: usize)
        ensures
            r == self.spec_index(),
            r < 16,
            Gpr::spec_from_number(r as int) == self,
    {
        match self {
            Gpr::Rax => 0,
            Gpr::Rcx => 1,
            Gpr::Rdx => 2,
            Gpr::Rbx => 3,
            Gpr::Rsp => 4,
            Gpr::Rbp => 5,
            Gpr::Rsi => 6,
            Gpr::Rdi => 7,
            Gpr::R8 => 8,
            Gpr::R9 => 9,
            Gpr::R10 => 10,
            Gpr::R11 => 11,
            Gpr::R12 => 12,
            Gpr::R13 => 13,
            Gpr::R14 => 14,
            Gpr::R15 => 15,
        }
    }

    pub fn from_low3(low3: u8, rex_extension: bool) -> (r: Gpr)
        ensures
            r == Gpr::spec_from_number(Gpr::spec_low3_number(low3, rex_extension) as int),
    {
        let extension: u8 = if rex_extension { 8 } else { 0 };
        match low3 | extension {
            0 => Gpr::Rax,
            1 => Gpr::Rcx,
            2 => Gpr::Rdx,
            3 => Gpr::Rbx,
            4 => Gpr::Rsp,
            5 => Gpr::Rbp,
            6 => Gpr::Rsi,
            7 => Gpr::Rdi,
            8 => Gpr::R8,
            9 => Gpr::R9,
            10 => Gpr::R10,
            11 => Gpr::R11,
            12 => Gpr::R12,
            13 => Gpr::R13,
            14 => Gpr::R14,
            _ => Gpr::R15,
        }
    }
}

/// The value a register holds after a write of `value` at `width` into a register
/// that held `old`: 8- and 16-bit writes keep the upper bits, 32-bit writes clear
/// them, 64-bit writes replace the register.
pub open spec fn merge_width(old: u64, width: Width, value: u64) -> u64 {
    match width {
        Width::U8 => (old & !0xffu64) | (value & 0xff),
        Width::U16 => (old & !0xffffu64) | (value & 0xffff),
        Width::U32 => value & 0xffff_ffff,
        Width::U64 => value,
    }
}

/// General-purpose registers and the instruction pointer.
#[derive(Clone, Copy, Debug, PartialEq, Eq)]
pub struct RegisterFile {
    gprs: [u64; 16],
    rip: u64,
}

impl View for RegisterFile {
    /// The sixteen register values, by encoding number, and RIP.
    type V = (Seq<u64>, u64);

    closed spec fn view(&self) -> (Seq<u64>, u64) {
        (self.gprs@, self.rip)
    }
}

impl RegisterFile {
    /// The value of register `reg`.
    pub open spec fn value(&self, reg: Gpr) -> u64 {
        self@.0[reg.spec_index() as int]
    }

    /// The value of RIP.
    pub open spec fn rip_value(&self) -> u64 {
        self@.1
    }

    /// Every register file holds sixteen registers.
    pub broadcast proof fn lemma_shape(regs: RegisterFile)
        ensures
            #[trigger] regs@.0.len() == 16,
    {
    }

    pub fn read(&self, reg: Gpr) -> (r: u64)
        ensures
            r == self.value(reg),
    {
        self.gprs[reg.index()]
    }

    pub fn read_width(&self, reg: Gpr, width: Width) -> (r: u64)
        ensures
            r == width.spec_truncate(self.value(reg)),
    {
        width.truncate(self.read(reg))
    }

    pub fn write_width(&mut self, reg: Gpr, width: Width, value: u64)
        ensures
            final(self)@.0 == old(self)@.0.update(
                reg.spec_index() as int,
                merge_width(old(self).value(reg), width, value),
            ),
            final(self)@.1 == old(self)@.1,
    {
        let index = reg.index();
        let old = self.gprs[index];
        let new_value = match width {
            Width::U8 => (old & !0xff) | (value & 0xff),
            Width::U16 => (old & !0xffff) | (value & 0xffff),
            Width::U32 => value & 0xffff_ffff,
            Width::U64 => value,
        };
        self.gprs[index] = new_value;
    }

    pub fn rip(&self) -> (r: u64)
        ensures
            r == self.rip_value(),
    {
        self.rip
    }

    pub fn set_rip(&mut self, rip: u64)
        ensures
            final(self)@ == (old(self)@.0, rip),
    {
        self.rip = rip;
    }

    pub fn advance_rip(&mut self, len: u8)
        ensures
            final(self)@ == (old(self)@.0, add_mod64(old(self).rip_value() as int, len as int)),
    {
        self.rip = wrapping_add_u64(self.rip, len as u64);
    }
}

impl Default for RegisterFile {
    fn default() -> (r: RegisterFile)
        ensures
            r@.1 == 0,
            forall|i: int| 0 <= i < 16 ==> #[trigger] r@.0[i] == 0,
    {
        RegisterFile { gprs: [0u64; 16], rip: 0 }
    }
}

/// Reading a register back at the width it was written gives the written value cut
/// to that width; 8- and 16-bit writes keep the bits above the width, and a write
/// leaves every other register and RIP as they were.
pub proof fn lemma_read_after_write(
    before: RegisterFile,
    after: RegisterFile,
    reg: Gpr,
    width: Width,
    value: u64,
    other: Gpr,
)
    requires
        after@.0 == before@.0.update(
            reg.spec_index() as int,
            merge_width(before.value(reg), width, value),
        ),
        after@.1 == before@.1,
    ensures
        width.spec_truncate(after.value(reg)) == width.spec_truncate(value),
        width == Width::U8 ==> after.value(reg) & !0xffu64 == before.value(reg) & !0xffu64,
        width == Width::U16 ==> after.value(reg) & !0xffffu64 == before.value(reg)
            & !0xffffu64,
        width == Width::U32 ==> after.value(reg) == value & 0xffff_ffff,
        width == Width::U64 ==> after.value(reg) == value,
        other != reg ==> after.value(other) == before.value(other),
        after.rip_value() == before.rip_value(),
{
    broadcast use RegisterFile::lemma_shape;

    let o = before.value(reg);
    let n = after.value(reg);
    if other != reg {
        assert(other.spec_index() != reg.spec_index());
    }
    match width {
        Width::U8 => {
            assert(((o & !0xffu64) | (value & 0xff)) & 0xff == value & 0xff && ((o & !0xffu64) | (
            value & 0xff)) & !0xffu64 == o & !0xffu64) by (bit_vector);
        },
        Width::U16 => {
            assert(((o & !0xffffu64) | (value & 0xffff)) & 0xffff == value & 0xffff && ((o
                & !0xffffu64) | (value & 0xffff)) & !0xffffu64 == o & !0xffffu64) by (bit_vector);
        },
        Width::U32 => {
            assert((value & 0xffff_ffff) & 0xffff_ffff == value & 0xffff_ffff) by (bit_vector);
        },
        Width::U64 => {},
    }
}

/// The low three bits of a byte are its remainder by eight, and setting bit 3 of a
/// number below eight adds eight.
pub proof fn lemma_low3_bits(x: u8)
    ensures
        x & 7u8 == x % 8,
        x < 8 ==> (x | 8u8) == x + 8 && (x | 0u8) == x,
{
    assert(x & 7u8 == x % 8 && (x < 8 ==> (x | 8u8) == x + 8 && (x | 0u8) == x)) by (bit_vector);
}

} // verus!
