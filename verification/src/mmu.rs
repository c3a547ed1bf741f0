use vstd::prelude::*;
use crate::system::ControlRegisters;

verus! {

#[derive(Clone, Copy, Debug, PartialEq, Eq, Structural)]
pub enum AccessType {
    Read,
    Write,
    Execute,
}

#[derive(Clone, Copy, Debug, PartialEq, Eq, Structural)]
pub enum PrivilegeLevel {
    Supervisor,
    User,
}

/// A linear address to translate, with the kind of access and its privilege.
#[derive(Clone, Copy, Debug, PartialEq, Eq, Structural)]
pub struct TranslateRequest {
    pub virtual_addr: u64,
    pub access: AccessType,
    pub privilege: PrivilegeLevel,
}

/// A successful translation and the rights along its page walk.
#[derive(Clone, Copy, Debug, PartialEq, Eq, Structural)]
pub struct Translation {
    pub physical_addr: u64,
    pub page_size: PageSize,
    pub writable: bool,
    pub user: bool,
    pub executable: bool,
}

#[derive(Clone, Copy, Debug, PartialEq, Eq, Structural)]
pub enum PageSize {
    Size4K,
    Size2M,
    Size1G,
}

/// A page fault: the faulting linear address, the architectural error code and the
/// reason.
#[derive(Clone, Copy, Debug, PartialEq, Eq, Structural)]
pub struct PageFault {
    pub addr: u64,
    pub error_code: u32,
    pub reason: PageFaultReason,
}

#[derive(Clone, Copy, Debug, PartialEq, Eq, Structural)]
pub enum PageFaultReason {
    NotPresent,
    WriteToReadOnly,
    UserToSupervisor,
    ExecuteDisabled,
}

#[derive(Clone, Copy, Debug, PartialEq, Eq)]
pub enum MmuError {
    NonCanonical { addr: u64 },
    PageFault(PageFault),
    PhysicalRead { addr: u64 },
    Unsupported(&'static str),
}

/// Physical memory as the page walker reads it.
pub trait PageTableMemory {
    /// What reading the 64-bit little-endian word at physical `addr` gives.
    spec fn spec_read_u64_phys(&self, addr: u64) -> Result<u64, MmuError>;

    fn read_u64_phys(&self, addr: u64) -> (r: Result<u64, MmuError>)
        ensures
            r == self.spec_read_u64_phys(addr),
    ;
}

/// The message of the error for paging without CR4.PAE.
pub open spec fn pae_required_message() -> &'static str {
    "x86-64 paging requires CR4.PAE"
}

/// The message of the error for paging outside long mode.
pub open spec fn long_mode_required_message() -> &'static str {
    "only long-mode page walks are implemented"
}

/// Whether `addr` is canonical with 48 implemented bits: bits 63 to 47 all equal.
pub open spec fn spec_is_canonical_48(addr: u64) -> bool {
    addr < 0x0000_8000_0000_0000 || addr >= 0xffff_8000_0000_0000
}

/// The 9-bit table index of `addr` at the level whose index starts at bit `shift`.
pub open spec fn table_index(addr: u64, shift: u64) -> u64 {
    (addr >> shift) & 0x1ff
}

/// Bits 12 to 51 of an entry: the next table or the 4 KiB frame.
pub open spec fn spec_entry_addr_4k(entry: u64) -> u64 {
    entry & 0x000f_ffff_ffff_f000
}

pub open spec fn spec_entry_present(entry: u64) -> bool {
    entry & 1 != 0
}

pub open spec fn spec_entry_writable(entry: u64) -> bool {
    entry & 2 != 0
}

pub open spec fn spec_entry_user(entry: u64) -> bool {
    entry & 4 != 0
}

pub open spec fn spec_entry_large_page(entry: u64) -> bool {
    entry & 0x80 != 0
}

/// Whether an entry allows instruction fetches: always without EFER.NXE, else when
/// bit 63 is clear.
pub open spec fn spec_entry_executable(controls: ControlRegisters, entry: u64) -> bool {
    !controls.spec_nx_enabled() || entry & 0x8000_0000_0000_0000 == 0
}

/// The architectural page-fault error code: P (bit 0), W/R (bit 1), U/S (bit 2) and
/// I/D (bit 4).
pub open spec fn fault_error_code(request: TranslateRequest, present: bool) -> u32 {
    ((if present { 1u32 } else { 0u32 }) + (if request.access == AccessType::Write {
        2u32
    } else {
        0u32
    }) + (if request.privilege == PrivilegeLevel::User {
        4u32
    } else {
        0u32
    }) + (if request.access == AccessType::Execute {
        16u32
    } else {
        0u32
    })) as u32
}

pub open spec fn spec_page_fault(
    request: TranslateRequest,
    present: bool,
    reason: PageFaultReason,
) -> MmuError {
    MmuError::PageFault(
        PageFault {
            addr: request.virtual_addr,
            error_code: fault_error_code(request, present),
            reason,
        },
    )
}

/// Writable, user and executable rights accumulated along a walk.
pub type Rights = (bool, bool, bool);

/// The rights after one more entry: each right survives only if the entry grants it.
pub open spec fn restrict_rights(controls: ControlRegisters, entry: u64, rights: Rights) -> Rights {
    (
        rights.0 && spec_entry_writable(entry),
        rights.1 && spec_entry_user(entry),
        rights.2 && spec_entry_executable(controls, entry),
    )
}

/// A page-table memory as a function from physical addresses to read results.
pub open spec fn reader_of<M: PageTableMemory>(memory: &M) -> spec_fn(u64) -> Result<u64, MmuError> {
    |addr: u64| memory.spec_read_u64_phys(addr)
}

/// Reading the entry at `index` of the table at `table` and checking it is present.
pub open spec fn walk_entry(
    read: spec_fn(u64) -> Result<u64, MmuError>,
    request: TranslateRequest,
    table: u64,
    index: u64,
) -> Result<u64, MmuError> {
    match read((table + index * 8) as u64) {
        Err(e) => Err(e),
        Ok(entry) => if spec_entry_present(entry) {
            Ok(entry)
        } else {
            Err(spec_page_fault(request, false, PageFaultReason::NotPresent))
        },
    }
}

/// The end of a walk: the access is checked against the rights, then the frame base
/// and the page offset form the physical address.
pub open spec fn spec_finalize(
    request: TranslateRequest,
    base: u64,
    offset: u64,
    page_size: PageSize,
    rights: Rights,
) -> Result<Translation, MmuError> {
    match spec_check_rights(request, rights) {
        Err(e) => Err(e),
        Ok(_) => Ok(
            Translation {
                physical_addr: base | offset,
                page_size,
                writable: rights.0,
                user: rights.1,
                executable: rights.2,
            },
        ),
    }
}

/// The translation of a request with the page tables of `memory`.
pub open spec fn spec_translate<M: PageTableMemory>(
    controls: ControlRegisters,
    memory: &M,
    request: TranslateRequest,
) -> Result<Translation, MmuError> {
    translate_with(controls, reader_of(memory), request)
}

/// The translation of a request when physical reads give `memory`: identity without
/// paging; otherwise a four-level long-mode walk from CR3 that stops early at 1 GiB
/// and 2 MiB pages.
pub open spec fn translate_with(
    controls: ControlRegisters,
    memory: spec_fn(u64) -> Result<u64, MmuError>,
    request: TranslateRequest,
) -> Result<Translation, MmuError> {
    let va = request.virtual_addr;
    if !controls.spec_paging_enabled() {
        Ok(
            Translation {
                physical_addr: va,
                page_size: PageSize::Size4K,
                writable: true,
                user: true,
                executable: true,
            },
        )
    } else if !controls.spec_pae_enabled() {
        Err(MmuError::Unsupported(pae_required_message()))
    } else if !controls.spec_long_mode_enabled() {
        Err(MmuError::Unsupported(long_mode_required_message()))
    } else if !spec_is_canonical_48(va) {
        Err(MmuError::NonCanonical { addr: va })
    } else {
        match walk_entry(memory, request, controls.spec_cr3_base(), table_index(va, 39)) {
            Err(e) => Err(e),
            Ok(pml4e) => {
                let r4 = restrict_rights(controls, pml4e, (true, true, true));
                match walk_entry(memory, request, spec_entry_addr_4k(pml4e), table_index(va, 30)) {
                    Err(e) => Err(e),
                    Ok(pdpte) => {
                        let r3 = restrict_rights(controls, pdpte, r4);
                        if spec_entry_large_page(pdpte) {
                            spec_finalize(
                                request,
                                pdpte & 0x000f_ffff_c000_0000,
                                va & 0x3fff_ffff,
                                PageSize::Size1G,
                                r3,
                            )
                        } else {
                            match walk_entry(
                                memory,
                                request,
                                spec_entry_addr_4k(pdpte),
                                table_index(va, 21),
                            ) {
                                Err(e) => Err(e),
                                Ok(pde) => {
                                    let r2 = restrict_rights(controls, pde, r3);
                                    if spec_entry_large_page(pde) {
                                        spec_finalize(
                                            request,
                                            pde & 0x000f_ffff_ffe0_0000,
                                            va & 0x1f_ffff,
                                            PageSize::Size2M,
                                            r2,
                                        )
                                    } else {
                                        match walk_entry(
                                            memory,
                                            request,
                                            spec_entry_addr_4k(pde),
                                            table_index(va, 12),
                                        ) {
                                            Err(e) => Err(e),
                                            Ok(pte) => spec_finalize(
                                                request,
                                                spec_entry_addr_4k(pte),
                                                va & 0xfff,
                                                PageSize::Size4K,
                                                restrict_rights(controls, pte, r2),
                                            ),
                                        }
                                    }
                                },
                            }
                        }
                    },
                }
            },
        }
    }
}

#[derive(Clone, Copy)]
struct AccessRights {
    writable: bool,
    user: bool,
    executable: bool,
}

impl AccessRights {
    spec fn as_tuple(self) -> Rights {
        (self.writable, self.user, self.executable)
    }
}

/// Translates a linear address with the page tables that `controls` select.
pub fn translate(
    controls: ControlRegisters,
    memory: &impl PageTableMemory,
    request: TranslateRequest,
) -> (r: Result<Translation, MmuError>)
    ensures
        r == spec_translate(controls, memory, request),
        r matches Ok(t) ==> t.physical_addr & 0xfff == request.virtual_addr & 0xfff,
        r matches Ok(t) ==> (request.access == AccessType::Write ==> t.writable) && (
        request.privilege == PrivilegeLevel::User ==> t.user) && (request.access
            == AccessType::Execute ==> t.executable),
{
    if !controls.paging_enabled() {
        return Ok(
            Translation {
                physical_addr: request.virtual_addr,
                page_size: PageSize::Size4K,
                writable: true,
                user: true,
                executable: true,
            },
        );
    }
    if !controls.pae_enabled() {
        return Err(MmuError::Unsupported("x86-64 paging requires CR4.PAE"));
    }
    if !controls.long_mode_enabled() {
        return Err(MmuError::Unsupported("only long-mode page walks are implemented"));
    }
    if !is_canonical_48(request.virtual_addr) {
        return Err(MmuError::NonCanonical { addr: request.virtual_addr });
    }
    let va = request.virtual_addr;
    let i4 = index_at(va, 39);
    let i3 = index_at(va, 30);
    let i2 = index_at(va, 21);
    let i1 = index_at(va, 12);
    let mut table = controls.cr3_base();
    proof {
        let c = controls.cr3;
        assert(c & 0x000f_ffff_ffff_f000u64 <= 0x000f_ffff_ffff_f000u64) by (bit_vector);
    }
    let mut rights = AccessRights { writable: true, user: true, executable: true };

    let pml4e = match read_entry(memory, request, table, i4) {
        Ok(e) => e,
        Err(e) => return Err(e),
    };
    apply_entry_rights(controls, pml4e, &mut rights);

    table = entry_addr_4k(pml4e);
    let pdpte = match read_entry(memory, request, table, i3) {
        Ok(e) => e,
        Err(e) => return Err(e),
    };
    apply_entry_rights(controls, pdpte, &mut rights);
    if entry_large_page(pdpte) {
        proof {
            assert(((pdpte & 0x000f_ffff_c000_0000u64) | (va & 0x3fff_ffffu64)) & 0xfffu64 == va
                & 0xfffu64) by (bit_vector);
        }
        return finalize_translation(
            request,
            pdpte & 0x000f_ffff_c000_0000,
            va & 0x3fff_ffff,
            PageSize::Size1G,
            rights,
        );
    }
    table = entry_addr_4k(pdpte);
    let pde = match read_entry(memory, request, table, i2) {
        Ok(e) => e,
        Err(e) => return Err(e),
    };
    apply_entry_rights(controls, pde, &mut rights);
    if entry_large_page(pde) {
        proof {
            assert(((pde & 0x000f_ffff_ffe0_0000u64) | (va & 0x1f_ffffu64)) & 0xfffu64 == va
                & 0xfffu64) by (bit_vector);
        }
        return finalize_translation(
            request,
            pde & 0x000f_ffff_ffe0_0000,
            va & 0x1f_ffff,
            PageSize::Size2M,
            rights,
        );
    }
    table = entry_addr_4k(pde);
    let pte = match read_entry(memory, request, table, i1) {
        Ok(e) => e,
        Err(e) => return Err(e),
    };
    apply_entry_rights(controls, pte, &mut rights);
    proof {
        assert(((pte & 0x000f_ffff_ffff_f000u64) | (va & 0xfffu64)) & 0xfffu64 == va & 0xfffu64)
            by (bit_vector);
    }
    finalize_translation(request, entry_addr_4k(pte), va & 0xfff, PageSize::Size4K, rights)
}

fn index_at(addr: u64, shift: u64) -> (r: u64)
    requires
        shift < 64,
    ensures
        r == table_index(addr, shift),
        r < 512,
{
    proof {
        assert((addr >> shift) & 0x1ffu64 < 512) by (bit_vector);
    }
    (addr >> shift) & 0x1ff
}

fn apply_entry_rights(controls: ControlRegisters, entry: u64, rights: &mut AccessRights)
    ensures
        final(rights).as_tuple() == restrict_rights(controls, entry, old(rights).as_tuple()),
{
    rights.writable = rights.writable && entry_writable(entry);
    rights.user = rights.user && entry_user(entry);
    rights.executable = rights.executable && entry_executable(controls, entry);
}

/// The check of the access against the rights accumulated along the walk.
pub open spec fn spec_check_rights(request: TranslateRequest, rights: Rights) -> Result<(), MmuError> {
    if request.access == AccessType::Write && !rights.0 {
        Err(spec_page_fault(request, true, PageFaultReason::WriteToReadOnly))
    } else if request.privilege == PrivilegeLevel::User && !rights.1 {
        Err(spec_page_fault(request, true, PageFaultReason::UserToSupervisor))
    } else if request.access == AccessType::Execute && !rights.2 {
        Err(spec_page_fault(request, true, PageFaultReason::ExecuteDisabled))
    } else {
        Ok(())
    }
}

fn check_rights(request: TranslateRequest, rights: AccessRights) -> (r: Result<(), MmuError>)
    ensures
        r == spec_check_rights(request, rights.as_tuple()),
{
    if request.access == AccessType::Write && !rights.writable {
        return Err(page_fault(request, true, PageFaultReason::WriteToReadOnly));
    }
    if request.privilege == PrivilegeLevel::User && !rights.user {
        return Err(page_fault(request, true, PageFaultReason::UserToSupervisor));
    }
    if request.access == AccessType::Execute && !rights.executable {
        return Err(page_fault(request, true, PageFaultReason::ExecuteDisabled));
    }
    Ok(())
}

fn finalize_translation(
    request: TranslateRequest,
    base: u64,
    offset: u64,
    page_size: PageSize,
    rights: AccessRights,
) -> (r: Result<Translation, MmuError>)
    ensures
        r == spec_finalize(request, base, offset, page_size, rights.as_tuple()),
{
    match check_rights(request, rights) {
        Err(e) => Err(e),
        Ok(()) => Ok(
            Translation {
                physical_addr: base | offset,
                page_size,
                writable: rights.writable,
                user: rights.user,
                executable: rights.executable,
            },
        ),
    }
}

fn read_entry(
    memory: &impl PageTableMemory,
    request: TranslateRequest,
    table: u64,
    index: u64,
) -> (r: Result<u64, MmuError>)
    requires
        table <= 0x000f_ffff_ffff_f000,
        index < 512,
    ensures
        r == walk_entry(reader_of(memory), request, table, index),
        r matches Ok(e) ==> spec_entry_addr_4k(e) <= 0x000f_ffff_ffff_f000,
{
    let addr = table + index * 8;
    let entry = match memory.read_u64_phys(addr) {
        Ok(e) => e,
        Err(e) => return Err(e),
    };
    if !check_present(entry) {
        return Err(page_fault(request, false, PageFaultReason::NotPresent));
    }
    proof {
        assert(entry & 0x000f_ffff_ffff_f000u64 <= 0x000f_ffff_ffff_f000u64) by (bit_vector);
    }
    Ok(entry)
}

fn check_present(entry: u64) -> (r: bool)
    ensures
        r == spec_entry_present(entry),
{
    (entry & 1) != 0
}

pub fn page_fault(request: TranslateRequest, present: bool, reason: PageFaultReason) -> (r: MmuError)
    ensures
        r == spec_page_fault(request, present, reason),
{
    let mut error_code: u32 = 0;
    if present {
        error_code = error_code + 1;
    }
    if request.access == AccessType::Write {
        error_code = error_code + 2;
    }
    if request.privilege == PrivilegeLevel::User {
        error_code = error_code + 4;
    }
    if request.access == AccessType::Execute {
        error_code = error_code + 16;
    }
    MmuError::PageFault(PageFault { addr: request.virtual_addr, error_code, reason })
}

fn entry_addr_4k(entry: u64) -> (r: u64)
    ensures
        r == spec_entry_addr_4k(entry),
        r <= 0x000f_ffff_ffff_f000,
{
    proof {
        assert(entry & 0x000f_ffff_ffff_f000u64 <= 0x000f_ffff_ffff_f000u64) by (bit_vector);
    }
    entry & 0x000f_ffff_ffff_f000
}

fn entry_writable(entry: u64) -> (r: bool)
    ensures
        r == spec_entry_writable(entry),
{
    (entry & 2) != 0
}

fn entry_user(entry: u64) -> (r: bool)
    ensures
        r == spec_entry_user(entry),
{
    (entry & 4) != 0
}

fn entry_large_page(entry: u64) -> (r: bool)
    ensures
        r == spec_entry_large_page(entry),
{
    (entry & 0x80) != 0
}

fn entry_executable(controls: ControlRegisters, entry: u64) -> (r: bool)
    ensures
        r == spec_entry_executable(controls, entry),
{
    !controls.nx_enabled() || (entry & 0x8000_0000_0000_0000) == 0
}

fn is_canonical_48(addr: u64) -> (r: bool)
    ensures
        r == spec_is_canonical_48(addr),
{
    let sign = (addr >> 47) & 1;
    let upper = addr >> 48;
    proof {
        assert(((((addr >> 47u64) & 1u64) == 0 && (addr >> 48u64) == 0) || (((addr >> 47u64) & 1u64)
            == 1 && (addr >> 48u64) == 0xffff)) == (addr < 0x0000_8000_0000_0000u64 || addr
            >= 0xffff_8000_0000_0000u64)) by (bit_vector);
    }
    (sign == 0 && upper == 0) || (sign == 1 && upper == 0xffff)
}

} // verus!
