use vstd::prelude::*;

verus! {

/// CR0.PG: paging enabled.
pub const CR0_PG: u64 = 0x8000_0000;

/// CR4.PAE: physical address extension.
pub const CR4_PAE: u64 = 0x20;

/// EFER.LME: long mode enabled.
pub const EFER_LME: u64 = 0x100;

/// EFER.LMA: long mode active.
pub const EFER_LMA: u64 = 0x400;

/// EFER.NXE: no-execute enabled.
pub const EFER_NXE: u64 = 0x800;

/// Bits 12 to 51 of CR3: the physical address of the top-level page table.
pub const CR3_BASE_MASK: u64 = 0x000f_ffff_ffff_f000;

/// The system registers of the first system-register surface.
#[derive(Clone, Copy, Debug, PartialEq, Eq, Structural)]
pub struct ControlRegisters {
    pub cr0: u64,
    pub cr2: u64,
    pub cr3: u64,
    pub cr4: u64,
    pub efer: u64,
}

impl Default for ControlRegisters {
    fn default() -> (r: ControlRegisters)
        ensures
            r == ControlRegisters::spec_zero(),
    {
        ControlRegisters { cr0: 0, cr2: 0, cr3: 0, cr4: 0, efer: 0 }
    }
}

impl ControlRegisters {
    pub const CR0_PG: u64 = 0x8000_0000;
    pub const CR4_PAE: u64 = 0x20;
    pub const EFER_LME: u64 = 0x100;
    pub const EFER_LMA: u64 = 0x400;
    pub const EFER_NXE: u64 = 0x800;

    pub open spec fn spec_paging_enabled(self) -> bool {
        self.cr0 & CR0_PG != 0
    }

    pub open spec fn spec_pae_enabled(self) -> bool {
        self.cr4 & CR4_PAE != 0
    }

    pub open spec fn spec_long_mode_enabled(self) -> bool {
        self.efer & EFER_LME != 0
    }

    pub open spec fn spec_long_mode_active(self) -> bool {
        self.efer & EFER_LMA != 0
    }

    pub open spec fn spec_nx_enabled(self) -> bool {
        self.efer & EFER_NXE != 0
    }

    pub open spec fn spec_cr3_base(self) -> u64 {
        self.cr3 & CR3_BASE_MASK
    }

    /// All control registers zero: paging off, real-address view of memory.
    pub open spec fn spec_zero() -> ControlRegisters {
        ControlRegisters { cr0: 0, cr2: 0, cr3: 0, cr4: 0, efer: 0 }
    }

    pub fn paging_enabled(self) -> (r: bool)
        ensures
            r == self.spec_paging_enabled(),
    {
        (self.cr0 & CR0_PG) != 0
    }

    pub fn pae_enabled(self) -> (r: bool)
        ensures
            r == self.spec_pae_enabled(),
    {
        (self.cr4 & CR4_PAE) != 0
    }

    pub fn long_mode_enabled(self) -> (r: bool)
        ensures
            r == self.spec_long_mode_enabled(),
    {
        (self.efer & EFER_LME) != 0
    }

    pub fn long_mode_active(self) -> (r: bool)
        ensures
            r == self.spec_long_mode_active(),
    {
        (self.efer & EFER_LMA) != 0
    }

    pub fn nx_enabled(self) -> (r: bool)
        ensures
            r == self.spec_nx_enabled(),
    {
        (self.efer & EFER_NXE) != 0
    }

    pub fn cr3_base(self) -> (r: u64)
        ensures
            r == self.spec_cr3_base(),
            r % 4096 == 0,
    {
        let r = self.cr3 & CR3_BASE_MASK;
        proof {
            let c = self.cr3;
            assert((c & 0x000f_ffff_ffff_f000u64) % 4096 == 0) by (bit_vector);
        }
        r
    }

    pub fn set_page_fault_address(&mut self, addr: u64)
        ensures
            *final(self) == (ControlRegisters { cr2: addr, ..*old(self) }),
    {
        self.cr2 = addr;
    }
}

} // verus!
