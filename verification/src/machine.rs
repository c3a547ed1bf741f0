use vstd::prelude::*;
use crate::arith::{add_mod64, le_bytes_u64, le_u64_at, u64_from_le_bytes, u64_to_le_bytes, wrapping_add_u64};
use crate::decode::{decode_one, decoded_from, spec_decode, DecodeError, Instruction, MAX_INSTRUCTION_LEN};
use crate::devices::{serial_payload, Device, SerialDevice};
use crate::execute::{
    executable_operation, execute_with_bus_ensures, lemma_decoded_operations_are_executable,
    CpuState, CpuView, ExecuteError, ExecuteOutcome, X86PortIo, X86StackMemory,
};
use crate::memory::{in_bounds, MemoryError, MemoryView, PhysicalMemory, PAGE_SIZE};
use crate::registers::Gpr;
use crate::snapshot::{content_hash_text, ChunkKind, ChunkRef, SnapshotManifest, SNAPSHOT_FORMAT_VERSION};
use crate::mmu::{
    reader_of, translate, translate_with, AccessType, MmuError, PageTableMemory, PrivilegeLevel,
    TranslateRequest,
};
use crate::system::ControlRegisters;
use crate::width::Width;

verus! {

/// Number of trace events the trace log keeps.
pub const TRACE_CAPACITY: usize = 256;

/// Number of slots of the decode cache.
pub const DECODE_CACHE_CAPACITY: usize = 1024;

// ---------------------------------------------------------------------------
// Trace log
// ---------------------------------------------------------------------------

/// One executed instruction as the trace records it.
#[derive(Clone, Copy, Debug, PartialEq, Eq)]
pub struct TraceEvent {
    pub sequence: u64,
    pub rip_before: u64,
    pub rip_after: u64,
    pub virtual_ticks_after: u64,
    pub instruction_len: u8,
    pub instruction_bytes: [u8; 15],
    pub operation_code: u32,
    pub outcome_code: u32,
    pub rax_after: u64,
    pub rsp_after: u64,
    pub serial_len_after: usize,
}

/// The most recent executed instructions, numbered in execution order.
#[derive(Clone, Debug, PartialEq, Eq)]
pub struct TraceLog {
    next_sequence: u64,
    events: Vec<TraceEvent>,
}

/// The trace log as a value: the next sequence number and the kept events, oldest
/// first.
pub struct TraceView {
    pub next_sequence: u64,
    pub events: Seq<TraceEvent>,
}

impl TraceView {
    /// The log after recording `event`: it gets the next sequence number, and the
    /// oldest event goes when the log is full.
    pub open spec fn push(self, event: TraceEvent) -> TraceView {
        let kept = if self.events.len() >= TRACE_CAPACITY {
            self.events.drop_first()
        } else {
            self.events
        };
        TraceView {
            next_sequence: add_mod64(self.next_sequence as int, 1),
            events: kept.push(TraceEvent { sequence: self.next_sequence, ..event }),
        }
    }
}

impl View for TraceLog {
    type V = TraceView;

    closed spec fn view(&self) -> TraceView {
        TraceView { next_sequence: self.next_sequence, events: self.events@ }
    }
}

impl Default for TraceLog {
    fn default() -> (r: TraceLog)
        ensures
            r@.next_sequence == 0,
            r@.events == Seq::<TraceEvent>::empty(),
    {
        TraceLog { next_sequence: 0, events: Vec::new() }
    }
}

impl TraceLog {
    pub fn events(&self) -> (r: &[TraceEvent])
        ensures
            r@ == self@.events,
    {
        self.events.as_slice()
    }

    fn push(&mut self, event: TraceEvent)
        requires
            old(self)@.events.len() <= TRACE_CAPACITY,
        ensures
            final(self)@ == old(self)@.push(event),
            final(self)@.events.len() <= TRACE_CAPACITY,
    {
        let mut event = event;
        event.sequence = self.next_sequence;
        self.next_sequence = wrapping_add_u64(self.next_sequence, 1);
        if self.events.len() == TRACE_CAPACITY {
            self.events.remove(0);
        }
        self.events.push(event);
        proof {
            assert(self@.events =~= old(self)@.push(event).events);
        }
    }

    /// A copy of the log.
    pub fn duplicate(&self) -> (r: TraceLog)
        ensures
            r@ == self@,
    {
        let mut events: Vec<TraceEvent> = Vec::new();
        let mut i: usize = 0;
        while i < self.events.len()
            invariant
                i <= self.events@.len(),
                events@ == self.events@.take(i as int),
            decreases self.events@.len() - i,
        {
            events.push(self.events[i]);
            i += 1;
            assert(events@ =~= self.events@.take(i as int));
        }
        assert(events@ =~= self.events@);
        TraceLog { next_sequence: self.next_sequence, events }
    }
}

// ---------------------------------------------------------------------------
// Decode cache
// ---------------------------------------------------------------------------

/// Counters of the decode cache.
#[derive(Clone, Copy, Debug, Default, PartialEq, Eq, Structural)]
pub struct DecodeCacheStats {
    pub entries: usize,
    pub hits: u64,
    pub misses: u64,
    pub invalidations: u64,
}

/// A cached decode: the physical address of the instruction, its page, the page's
/// generation when it was decoded, and the instruction.
#[derive(Clone, Copy, Debug, PartialEq, Eq)]
pub struct DecodeCacheEntry {
    pub physical_rip: u64,
    pub page_index: usize,
    pub page_generation: u32,
    pub instruction: Instruction,
}

/// A direct-mapped cache of decoded instructions keyed by physical address.
#[derive(Clone, Debug, PartialEq, Eq)]
pub struct DecodeCache {
    slots: Vec<Option<DecodeCacheEntry>>,
    entries: usize,
    hits: u64,
    misses: u64,
    invalidations: u64,
}

/// The decode cache as a value: its slots and counters.
pub struct CacheView {
    pub slots: Seq<Option<DecodeCacheEntry>>,
    pub entries: usize,
    pub hits: u64,
    pub misses: u64,
    pub invalidations: u64,
}

/// Number of filled slots.
pub open spec fn count_some(s: Seq<Option<DecodeCacheEntry>>) -> nat
    decreases s.len(),
{
    if s.len() == 0 {
        0
    } else {
        count_some(s.drop_last()) + if s.last() is Some {
            1nat
        } else {
            0nat
        }
    }
}

/// The slot of a physical address.
pub open spec fn slot_of(physical_rip: u64) -> int {
    (physical_rip % (DECODE_CACHE_CAPACITY as u64)) as int
}

/// Whether two half-open ranges overlap.
pub open spec fn spec_ranges_overlap(a_start: int, a_end: int, b_start: int, b_end: int) -> bool {
    a_start < b_end && b_start < a_end
}

/// `a` as a `usize`, when it fits.
pub open spec fn to_usize(a: u64) -> Option<usize> {
    if a <= usize::MAX {
        Some(a as usize)
    } else {
        None
    }
}

/// Whether a write of the range `[start, end)` invalidates an entry: its instruction
/// bytes overlap the range, or its address does not fit a `usize`.
pub open spec fn entry_overlaps(e: DecodeCacheEntry, start: int, end: int) -> bool {
    match to_usize(e.physical_rip) {
        None => true,
        Some(s) => {
            let entry_end = if s + e.instruction.len > usize::MAX {
                usize::MAX as int
            } else {
                s + e.instruction.len
            };
            spec_ranges_overlap(start, end, s as int, entry_end)
        },
    }
}

impl CacheView {
    /// A full set of slots, the entry count matching the filled slots, and only
    /// instructions that can be executed.
    pub open spec fn wf(self) -> bool {
        &&& self.slots.len() == DECODE_CACHE_CAPACITY
        &&& self.entries == count_some(self.slots)
        &&& forall|i: int|
            0 <= i < self.slots.len() ==> (#[trigger] self.slots[i] matches Some(e)
                ==> executable_operation(e.instruction.operation))
    }

    pub open spec fn stats(self) -> DecodeCacheStats {
        DecodeCacheStats {
            entries: self.entries,
            hits: self.hits,
            misses: self.misses,
            invalidations: self.invalidations,
        }
    }

    /// An empty cache with zero counters.
    pub open spec fn empty() -> CacheView {
        CacheView {
            slots: Seq::new(DECODE_CACHE_CAPACITY as nat, |i: int| None),
            entries: 0,
            hits: 0,
            misses: 0,
            invalidations: 0,
        }
    }

    /// Looking up a key: a hit when the slot holds the same address, page and
    /// generation; a stale entry for the same address with another page or generation
    /// is dropped and counted as an invalidation.
    pub open spec fn lookup(self, physical_rip: u64, page_index: usize, page_generation: u32) -> (
        CacheView,
        Option<Instruction>,
    ) {
        let i = slot_of(physical_rip);
        match self.slots[i] {
            None => (self, None),
            Some(e) => if e.physical_rip != physical_rip {
                (self, None)
            } else if e.page_index == page_index && e.page_generation == page_generation {
                (CacheView { hits: add_mod64(self.hits as int, 1), ..self }, Some(e.instruction))
            } else {
                (
                    CacheView {
                        slots: self.slots.update(i, None),
                        entries: if self.entries == 0 {
                            0
                        } else {
                            (self.entries - 1) as usize
                        },
                        invalidations: add_mod64(self.invalidations as int, 1),
                        ..self
                    },
                    None,
                )
            },
        }
    }

    /// The cache with one more miss counted.
    pub open spec fn missed(self) -> CacheView {
        CacheView { misses: add_mod64(self.misses as int, 1), ..self }
    }

    /// The cache with `instruction` stored under the key, replacing the slot's entry.
    pub open spec fn insert(
        self,
        physical_rip: u64,
        page_index: usize,
        page_generation: u32,
        instruction: Instruction,
    ) -> CacheView {
        let i = slot_of(physical_rip);
        CacheView {
            slots: self.slots.update(
                i,
                Some(DecodeCacheEntry { physical_rip, page_index, page_generation, instruction }),
            ),
            entries: if self.slots[i] is None {
                (self.entries + 1) as usize
            } else {
                self.entries
            },
            ..self
        }
    }

    /// The cache after dropping every entry that a write of `len` bytes at
    /// `start_addr` may have changed; each dropped entry counts as an invalidation.
    pub open spec fn invalidate_range(self, start_addr: u64, len: usize) -> CacheView {
        if len == 0 || self.entries == 0 {
            self
        } else if start_addr as int + len as int > usize::MAX {
            CacheView {
                slots: Seq::new(self.slots.len(), |i: int| None),
                entries: 0,
                invalidations: add_mod64(self.invalidations as int, self.entries as int),
                ..self
            }
        } else {
            let start = start_addr as int;
            let end = start_addr as int + len as int;
            let kept = Seq::new(
                self.slots.len(),
                |i: int|
                    match self.slots[i] {
                        Some(e) => if entry_overlaps(e, start, end) {
                            None
                        } else {
                            Some(e)
                        },
                        None => None,
                    },
            );
            let removed = count_some(self.slots) - count_some(kept);
            CacheView {
                slots: kept,
                entries: count_some(kept) as usize,
                invalidations: add_mod64(self.invalidations as int, removed),
                ..self
            }
        }
    }
}

/// Filling or emptying one slot changes the count by one.
pub proof fn lemma_count_some_update(
    s: Seq<Option<DecodeCacheEntry>>,
    i: int,
    v: Option<DecodeCacheEntry>,
)
    requires
        0 <= i < s.len(),
    ensures
        count_some(s.update(i, v)) + (if s[i] is Some {
            1int
        } else {
            0int
        }) == count_some(s) + (if v is Some {
            1int
        } else {
            0int
        }),
    decreases s.len(),
{
    let t = s.update(i, v);
    if i == s.len() - 1 {
        assert(t.drop_last() =~= s.drop_last());
    } else {
        assert(t.drop_last() =~= s.drop_last().update(i, v));
        lemma_count_some_update(s.drop_last(), i, v);
    }
}

/// A sequence with no filled slot holds only empty slots.
pub proof fn lemma_count_some_zero(s: Seq<Option<DecodeCacheEntry>>)
    requires
        count_some(s) == 0,
    ensures
        forall|i: int| 0 <= i < s.len() ==> s[i] is None,
    decreases s.len(),
{
    if s.len() > 0 {
        lemma_count_some_zero(s.drop_last());
        assert forall|i: int| 0 <= i < s.len() implies s[i] is None by {
            if i < s.len() - 1 {
                assert(s[i] == s.drop_last()[i]);
            }
        }
    }
}

/// The empty cache is well formed.
pub proof fn lemma_empty_cache_wf()
    ensures
        CacheView::empty().wf(),
{
    lemma_count_some_none(DECODE_CACHE_CAPACITY as nat);
}

/// A sequence has at most as many filled slots as it has slots.
pub proof fn lemma_count_some_le(s: Seq<Option<DecodeCacheEntry>>)
    ensures
        count_some(s) <= s.len(),
    decreases s.len(),
{
    if s.len() > 0 {
        lemma_count_some_le(s.drop_last());
    }
}

/// A sequence of empty slots has no filled slot.
pub proof fn lemma_count_some_none(n: nat)
    ensures
        count_some(Seq::new(n, |i: int| None::<DecodeCacheEntry>)) == 0,
    decreases n,
{
    if n > 0 {
        assert(Seq::new(n, |i: int| None::<DecodeCacheEntry>).drop_last() =~= Seq::new(
            (n - 1) as nat,
            |i: int| None::<DecodeCacheEntry>,
        ));
        lemma_count_some_none((n - 1) as nat);
    }
}

/// Dropping entries never adds filled slots.
pub proof fn lemma_count_some_kept(s: Seq<Option<DecodeCacheEntry>>, k: Seq<Option<DecodeCacheEntry>>)
    requires
        s.len() == k.len(),
        forall|i: int| 0 <= i < s.len() ==> (#[trigger] k[i] is Some ==> k[i] == s[i]),
    ensures
        count_some(k) <= count_some(s),
    decreases s.len(),
{
    if s.len() > 0 {
        lemma_count_some_kept(s.drop_last(), k.drop_last());
    }
}

impl View for DecodeCache {
    type V = CacheView;

    closed spec fn view(&self) -> CacheView {
        CacheView {
            slots: self.slots@,
            entries: self.entries,
            hits: self.hits,
            misses: self.misses,
            invalidations: self.invalidations,
        }
    }
}

impl Default for DecodeCache {
    /// An empty cache with zeroed counters.
    fn default() -> (r: DecodeCache)
        ensures
            r@ == CacheView::empty(),
            r@.wf(),
    {
        let mut slots: Vec<Option<DecodeCacheEntry>> = Vec::new();
        let mut i: usize = 0;
        while i < DECODE_CACHE_CAPACITY
            invariant
                i <= DECODE_CACHE_CAPACITY,
                slots@ == Seq::new(i as nat, |j: int| None::<DecodeCacheEntry>),
            decreases DECODE_CACHE_CAPACITY - i,
        {
            slots.push(None);
            i += 1;
            assert(slots@ =~= Seq::new(i as nat, |j: int| None::<DecodeCacheEntry>));
        }
        proof {
            lemma_count_some_none(DECODE_CACHE_CAPACITY as nat);
        }
        let r = DecodeCache { slots, entries: 0, hits: 0, misses: 0, invalidations: 0 };
        assert(r@ =~= CacheView::empty());
        r
    }
}

impl DecodeCache {
    fn stats(&self) -> (r: DecodeCacheStats)
        ensures
            r == self@.stats(),
    {
        DecodeCacheStats {
            entries: self.entries,
            hits: self.hits,
            misses: self.misses,
            invalidations: self.invalidations,
        }
    }

    fn slot_index(&self, physical_rip: u64) -> (r: usize)
        requires
            self.slots@.len() == DECODE_CACHE_CAPACITY,
        ensures
            r == slot_of(physical_rip),
            r < DECODE_CACHE_CAPACITY,
    {
        (physical_rip % (DECODE_CACHE_CAPACITY as u64)) as usize
    }

    fn get(&mut self, physical_rip: u64, page_index: usize, page_generation: u32) -> (r: Option<
        Instruction,
    >)
        requires
            old(self)@.wf(),
        ensures
            final(self)@.wf(),
            (final(self)@, r) == old(self)@.lookup(physical_rip, page_index, page_generation),
            r matches Some(inst) ==> executable_operation(inst.operation),
    {
        let slot_index = self.slot_index(physical_rip);
        let entry = match self.slots[slot_index] {
            Some(e) => e,
            None => return None,
        };
        if entry.physical_rip != physical_rip {
            return None;
        }
        if entry.page_index == page_index && entry.page_generation == page_generation {
            self.hits = wrapping_add_u64(self.hits, 1);
            return Some(entry.instruction);
        }
        proof {
            lemma_count_some_update(self.slots@, slot_index as int, None);
        }
        self.invalidations = wrapping_add_u64(self.invalidations, 1);
        self.slots.set(slot_index, None);
        self.entries = if self.entries == 0 {
            0
        } else {
            self.entries - 1
        };
        None
    }

    fn record_miss(&mut self)
        ensures
            final(self)@ == old(self)@.missed(),
    {
        self.misses = wrapping_add_u64(self.misses, 1);
    }

    fn insert(
        &mut self,
        physical_rip: u64,
        page_index: usize,
        page_generation: u32,
        instruction: Instruction,
    )
        requires
            old(self)@.wf(),
            executable_operation(instruction.operation),
        ensures
            final(self)@.wf(),
            final(self)@ == old(self)@.insert(physical_rip, page_index, page_generation, instruction),
    {
        let slot_index = self.slot_index(physical_rip);
        let entry = DecodeCacheEntry { physical_rip, page_index, page_generation, instruction };
        proof {
            lemma_count_some_update(self.slots@, slot_index as int, Some(entry));
            lemma_count_some_le(self.slots@.update(slot_index as int, Some(entry)));
        }
        if self.slots[slot_index].is_none() {
            self.entries += 1;
        }
        self.slots.set(slot_index, Some(entry));
    }

    fn clear_entries(&mut self)
        requires
            old(self)@.slots.len() == DECODE_CACHE_CAPACITY,
        ensures
            final(self)@ == (CacheView {
                slots: Seq::new(DECODE_CACHE_CAPACITY as nat, |i: int| None),
                entries: 0,
                ..old(self)@
            }),
            final(self)@.wf(),
    {
        let mut i: usize = 0;
        while i < self.slots.len()
            invariant
                self.slots@.len() == DECODE_CACHE_CAPACITY,
                i <= DECODE_CACHE_CAPACITY,
                forall|j: int| 0 <= j < i ==> self.slots@[j] is None,
                self.entries == old(self).entries,
                self.hits == old(self).hits,
                self.misses == old(self).misses,
                self.invalidations == old(self).invalidations,
            decreases DECODE_CACHE_CAPACITY - i,
        {
            self.slots.set(i, None);
            i += 1;
        }
        self.entries = 0;
        assert(self.slots@ =~= Seq::new(DECODE_CACHE_CAPACITY as nat, |i: int| None));
        proof {
            lemma_count_some_none(DECODE_CACHE_CAPACITY as nat);
        }
    }

    fn invalidate_range(&mut self, start_addr: u64, len: usize)
        requires
            old(self)@.wf(),
        ensures
            final(self)@.wf(),
            final(self)@ == old(self)@.invalidate_range(start_addr, len),
    {
        if len == 0 || self.entries == 0 {
            return;
        }
        if start_addr > usize::MAX as u64 || len > usize::MAX - start_addr as usize {
            let removed = self.entries as u64;
            self.clear_entries();
            self.invalidations = wrapping_add_u64(self.invalidations, removed);
            return;
        }
        let start = start_addr as usize;
        let end = start + len;
        let ghost before = self.slots@;
        let ghost kept = Seq::new(
            before.len(),
            |i: int|
                match before[i] {
                    Some(e) => if entry_overlaps(e, start as int, end as int) {
                        None
                    } else {
                        Some(e)
                    },
                    None => None,
                },
        );
        let mut removed: u64 = 0;
        let mut i: usize = 0;
        while i < self.slots.len()
            invariant
                self.slots@.len() == DECODE_CACHE_CAPACITY,
                before.len() == DECODE_CACHE_CAPACITY,
                kept.len() == DECODE_CACHE_CAPACITY,
                start as int == start_addr as int,
                end as int == start as int + len as int,
                i <= DECODE_CACHE_CAPACITY,
                forall|j: int| 0 <= j < i ==> self.slots@[j] == kept[j],
                forall|j: int| i <= j < DECODE_CACHE_CAPACITY ==> self.slots@[j] == before[j],
                count_some(self.slots@) + removed == count_some(before),
                self.entries == old(self).entries,
                self.hits == old(self).hits,
                self.misses == old(self).misses,
                self.invalidations == old(self).invalidations,
                kept == Seq::new(
                    before.len(),
                    |i: int|
                        match before[i] {
                            Some(e) => if entry_overlaps(e, start as int, end as int) {
                                None
                            } else {
                                Some(e)
                            },
                            None => None,
                        },
                ),
            decreases DECODE_CACHE_CAPACITY - i,
        {
            let remove = match self.slots[i] {
                Some(entry) => {
                    if entry.physical_rip > usize::MAX as u64 {
                        true
                    } else {
                        let entry_start = entry.physical_rip as usize;
                        let entry_end = entry_start.saturating_add(entry.instruction.len as usize);
                        ranges_overlap(start, end, entry_start, entry_end)
                    }
                },
                None => false,
            };
            if remove {
                proof {
                    lemma_count_some_update(self.slots@, i as int, None);
                    lemma_count_some_le(before);
                }
                self.slots.set(i, None);
                removed = removed + 1;
            }
            i += 1;
        }
        assert(self.slots@ =~= kept);
        proof {
            lemma_count_some_kept(before, kept);
        }
        self.entries = if self.entries < removed as usize {
            0
        } else {
            self.entries - removed as usize
        };
        self.invalidations = wrapping_add_u64(self.invalidations, removed);
    }
}

fn ranges_overlap(a_start: usize, a_end: usize, b_start: usize, b_end: usize) -> (r: bool)
    ensures
        r == spec_ranges_overlap(a_start as int, a_end as int, b_start as int, b_end as int),
{
    a_start < b_end && b_start < a_end
}

// ---------------------------------------------------------------------------
// Physical reads and the machine bus
// ---------------------------------------------------------------------------

/// Reading the 64-bit little-endian word at physical `addr` of `bytes`.
pub open spec fn phys_read(bytes: Seq<u8>, addr: u64) -> Result<u64, MmuError> {
    if in_bounds(addr, 8, bytes.len() as int) {
        Ok(le_u64_at(bytes, addr as int))
    } else {
        Err(MmuError::PhysicalRead { addr })
    }
}

/// Physical reads of `bytes` as a function.
pub open spec fn phys_reader(bytes: Seq<u8>) -> spec_fn(u64) -> Result<u64, MmuError> {
    |addr: u64| phys_read(bytes, addr)
}

/// A supervisor-mode request of the given access.
pub open spec fn supervisor_request(virtual_addr: u64, access: AccessType) -> TranslateRequest {
    TranslateRequest { virtual_addr, access, privilege: PrivilegeLevel::Supervisor }
}

/// The physical address a supervisor access to `virtual_addr` reaches in `memory`.
#[verifier::opaque]
pub open spec fn machine_translate(
    controls: ControlRegisters,
    memory: MemoryView,
    virtual_addr: u64,
    access: AccessType,
) -> Result<u64, MmuError> {
    match translate_with(controls, phys_reader(memory.bytes), supervisor_request(virtual_addr, access)) {
        Ok(t) => Ok(t.physical_addr),
        Err(e) => Err(e),
    }
}

/// The page walker's view of a physical memory.
struct MachinePageTableMemory<'a> {
    memory: &'a PhysicalMemory,
}

impl<'a> PageTableMemory for MachinePageTableMemory<'a> {
    closed spec fn spec_read_u64_phys(&self, addr: u64) -> Result<u64, MmuError> {
        phys_read(self.memory@.bytes, addr)
    }

    fn read_u64_phys(&self, addr: u64) -> (r: Result<u64, MmuError>) {
        match self.memory.read_u64_le(addr) {
            Ok(v) => Ok(v),
            Err(_) => Err(MmuError::PhysicalRead { addr }),
        }
    }
}

/// Translates a supervisor access with the page tables in `memory`.
fn translate_in(
    controls: ControlRegisters,
    memory: &PhysicalMemory,
    virtual_addr: u64,
    access: AccessType,
) -> (r: Result<u64, MmuError>)
    ensures
        r == machine_translate(controls, memory@, virtual_addr, access),
{
    let page_tables = MachinePageTableMemory { memory };
    proof {
        reveal(machine_translate);
        assert(reader_of(&page_tables) =~= phys_reader(memory@.bytes));
    }
    match translate(
        controls,
        &page_tables,
        TranslateRequest { virtual_addr, access, privilege: PrivilegeLevel::Supervisor },
    ) {
        Ok(translation) => Ok(translation.physical_addr),
        Err(e) => Err(e),
    }
}

/// The first `k` bytes of a supervisor read of the eight bytes at virtual `addr`, each
/// translated on its own; the first failure ends the read.
pub open spec fn bus_read_bytes(
    memory: MemoryView,
    controls: ControlRegisters,
    addr: u64,
    k: nat,
) -> Result<Seq<u8>, ExecuteError>
    decreases k,
{
    if k == 0 {
        Ok(Seq::empty())
    } else {
        match bus_read_bytes(memory, controls, addr, (k - 1) as nat) {
            Err(e) => Err(e),
            Ok(bytes) => {
                let va = add_mod64(addr as int, k - 1);
                match machine_translate(controls, memory, va, AccessType::Read) {
                    Err(e) => Err(ExecuteError::Address(e)),
                    Ok(pa) => if in_bounds(pa, 1, memory.bytes.len() as int) {
                        Ok(bytes.push(memory.bytes[pa as int]))
                    } else {
                        Err(ExecuteError::MemoryRead { addr: va, width: Width::U8 })
                    },
                }
            },
        }
    }
}

/// A supervisor read of the 64-bit little-endian word at virtual `addr`.
pub open spec fn bus_read_u64(memory: MemoryView, controls: ControlRegisters, addr: u64) -> Result<
    u64,
    ExecuteError,
> {
    match bus_read_bytes(memory, controls, addr, 8) {
        Ok(bytes) => Ok(le_u64_at(bytes, 0)),
        Err(e) => Err(e),
    }
}

/// The memory and result after writing the first `k` bytes of `data` at virtual
/// `addr`, each byte translated (with the page tables as the earlier bytes left them)
/// and written on its own; the first failure ends the write.
pub open spec fn bus_write_bytes(
    memory: MemoryView,
    controls: ControlRegisters,
    addr: u64,
    data: Seq<u8>,
    k: nat,
) -> (MemoryView, Result<(), ExecuteError>)
    decreases k,
{
    if k == 0 {
        (memory, Ok(()))
    } else {
        let (m, r) = bus_write_bytes(memory, controls, addr, data, (k - 1) as nat);
        match r {
            Err(e) => (m, Err(e)),
            Ok(_) => {
                let va = add_mod64(addr as int, k - 1);
                match machine_translate(controls, m, va, AccessType::Write) {
                    Err(e) => (m, Err(ExecuteError::Address(e))),
                    Ok(pa) => if in_bounds(pa, 1, m.bytes.len() as int) {
                        (m.write(pa as int, seq![data[k - 1]]), Ok(()))
                    } else {
                        (m, Err(ExecuteError::MemoryWrite { addr: va, width: Width::U8 }))
                    },
                }
            },
        }
    }
}

/// Once a read fails, the longer reads fail the same way.
pub proof fn lemma_bus_read_error_sticks(
    memory: MemoryView,
    controls: ControlRegisters,
    addr: u64,
    j: nat,
    k: nat,
)
    requires
        j <= k,
        bus_read_bytes(memory, controls, addr, j) is Err,
    ensures
        bus_read_bytes(memory, controls, addr, k) == bus_read_bytes(memory, controls, addr, j),
    decreases k - j,
{
    if j < k {
        lemma_bus_read_error_sticks(memory, controls, addr, j, (k - 1) as nat);
    }
}

/// Once a write fails, the longer writes fail the same way and leave the same memory.
pub proof fn lemma_bus_write_error_sticks(
    memory: MemoryView,
    controls: ControlRegisters,
    addr: u64,
    data: Seq<u8>,
    j: nat,
    k: nat,
)
    requires
        j <= k,
        bus_write_bytes(memory, controls, addr, data, j).1 is Err,
    ensures
        bus_write_bytes(memory, controls, addr, data, k) == bus_write_bytes(
            memory,
            controls,
            addr,
            data,
            j,
        ),
    decreases k - j,
{
    if j < k {
        lemma_bus_write_error_sticks(memory, controls, addr, data, j, (k - 1) as nat);
    }
}

/// Whether `port` reaches the serial device.
pub open spec fn is_serial_port(port: u16) -> bool {
    port == SerialDevice::DEBUG_CONSOLE_PORT || port == SerialDevice::COM1_DATA_PORT
}

/// The CPU's view of the machine while it executes: memory through the page tables,
/// and the serial device on its ports.
pub struct MachineBus {
    pub memory: PhysicalMemory,
    pub serial: SerialDevice,
    pub controls: ControlRegisters,
}

impl MachineBus {
    fn translate(&self, virtual_addr: u64, access: AccessType) -> (r: Result<u64, MmuError>)
        ensures
            r == machine_translate(self.controls, self.memory@, virtual_addr, access),
    {
        translate_in(self.controls, &self.memory, virtual_addr, access)
    }
}

impl X86StackMemory for MachineBus {
    open spec fn memory_wf(&self) -> bool {
        self.memory.wf()
    }

    open spec fn read_u64_le_ensures(
        &self,
        addr: u64,
        after: MachineBus,
        r: Result<u64, ExecuteError>,
    ) -> bool {
        after == *self && r == bus_read_u64(self.memory@, self.controls, addr)
    }

    open spec fn write_u64_le_ensures(
        &self,
        addr: u64,
        value: u64,
        after: MachineBus,
        r: Result<(), ExecuteError>,
    ) -> bool {
        &&& (after.memory@, r) == bus_write_bytes(
            self.memory@,
            self.controls,
            addr,
            le_bytes_u64(value),
            8,
        )
        &&& after.serial == self.serial
        &&& after.controls == self.controls
    }

    fn read_u64_le(&mut self, addr: u64) -> (r: Result<u64, ExecuteError>) {
        let mut bytes = [0u8; 8];
        let mut offset: usize = 0;
        assert(bytes@.take(0) =~= Seq::<u8>::empty());
        while offset < 8
            invariant
                offset <= 8,
                *self == *old(self),
                self.memory.wf(),
                bus_read_bytes(self.memory@, self.controls, addr, offset as nat) == Ok::<
                    Seq<u8>,
                    ExecuteError,
                >(bytes@.take(offset as int)),
            decreases 8 - offset,
        {
            let virtual_addr = wrapping_add_u64(addr, offset as u64);
            let physical_addr = match self.translate(virtual_addr, AccessType::Read) {
                Ok(pa) => pa,
                Err(e) => {
                    proof {
                        lemma_bus_read_error_sticks(
                            self.memory@,
                            self.controls,
                            addr,
                            (offset + 1) as nat,
                            8,
                        );
                    }
                    return Err(ExecuteError::Address(e));
                },
            };
            let byte = match self.memory.read_u8(physical_addr) {
                Ok(b) => b,
                Err(_) => {
                    proof {
                        lemma_bus_read_error_sticks(
                            self.memory@,
                            self.controls,
                            addr,
                            (offset + 1) as nat,
                            8,
                        );
                    }
                    return Err(ExecuteError::MemoryRead { addr: virtual_addr, width: Width::U8 });
                },
            };
            let ghost before = bytes@;
            bytes[offset] = byte;
            offset += 1;
            assert(bytes@.take(offset as int) =~= before.take(offset - 1).push(byte));
        }
        assert(bytes@.take(8) =~= bytes@);
        Ok(u64_from_le_bytes(bytes))
    }

    fn write_u64_le(&mut self, addr: u64, value: u64) -> (r: Result<(), ExecuteError>) {
        let bytes = u64_to_le_bytes(value);
        let ghost start = self.memory@;
        let mut offset: usize = 0;
        while offset < 8
            invariant
                offset <= 8,
                self.memory.wf(),
                bytes@ == le_bytes_u64(value),
                self.serial == old(self).serial,
                self.controls == old(self).controls,
                start == old(self).memory@,
                bus_write_bytes(start, self.controls, addr, bytes@, offset as nat) == (
                    self.memory@,
                    Ok::<(), ExecuteError>(()),
                ),
            decreases 8 - offset,
        {
            let virtual_addr = wrapping_add_u64(addr, offset as u64);
            let physical_addr = match self.translate(virtual_addr, AccessType::Write) {
                Ok(pa) => pa,
                Err(e) => {
                    proof {
                        lemma_bus_write_error_sticks(
                            start,
                            self.controls,
                            addr,
                            bytes@,
                            (offset + 1) as nat,
                            8,
                        );
                    }
                    return Err(ExecuteError::Address(e));
                },
            };
            match self.memory.write_u8(physical_addr, bytes[offset]) {
                Ok(()) => {},
                Err(_) => {
                    proof {
                        lemma_bus_write_error_sticks(
                            start,
                            self.controls,
                            addr,
                            bytes@,
                            (offset + 1) as nat,
                            8,
                        );
                    }
                    return Err(ExecuteError::MemoryWrite { addr: virtual_addr, width: Width::U8 });
                },
            }
            offset += 1;
        }
        Ok(())
    }
}

impl X86PortIo for MachineBus {
    open spec fn write_port_u8_ensures(
        &self,
        port: u16,
        value: u8,
        after: MachineBus,
        r: Result<(), ExecuteError>,
    ) -> bool {
        &&& after.memory == self.memory
        &&& after.controls == self.controls
        &&& after.serial.spec_input() == self.serial.spec_input()
        &&& if is_serial_port(port) {
            &&& r == Ok::<(), ExecuteError>(())
            &&& after.serial.spec_output() == self.serial.spec_output().push(value)
        } else {
            &&& r == Err::<(), ExecuteError>(ExecuteError::PortWrite { port, width: Width::U8 })
            &&& after.serial == self.serial
        }
    }

    fn write_port_u8(&mut self, port: u16, value: u8) -> (r: Result<(), ExecuteError>) {
        if port == SerialDevice::DEBUG_CONSOLE_PORT || port == SerialDevice::COM1_DATA_PORT {
            self.serial.write_byte(value);
            Ok(())
        } else {
            Err(ExecuteError::PortWrite { port, width: Width::U8 })
        }
    }
}

// ---------------------------------------------------------------------------
// The machine
// ---------------------------------------------------------------------------

/// A machine profile: its name, CPUID profile, default RAM size and devices.
#[derive(Clone, Copy, Debug, PartialEq, Eq)]
pub struct MachineProfile {
    pub id: &'static str,
    pub cpuid_profile: &'static str,
    pub default_ram_bytes: usize,
    pub devices: &'static [&'static str],
}

/// Whether `p` is the `bxr-minimal-x64-v1` profile.
pub open spec fn is_minimal_x64_v1(p: MachineProfile) -> bool {
    &&& p.id@ == "bxr-minimal-x64-v1"@
    &&& p.cpuid_profile@ == "bxr-x64-conservative-v1"@
    &&& p.default_ram_bytes == 128 * 1024 * 1024
    &&& p.devices@.len() == 2
    &&& p.devices@[0]@ == "serial0"@
    &&& p.devices@[1]@ == "virtual-clock0"@
}

/// The minimal x86-64 profile: one vCPU, direct boot, RAM, serial output and a
/// virtual clock.
pub fn minimal_x64_v1() -> (r: MachineProfile)
    ensures
        is_minimal_x64_v1(r),
{
    let devices: &'static [&'static str] = &["serial0", "virtual-clock0"];
    MachineProfile {
        id: "bxr-minimal-x64-v1",
        cpuid_profile: "bxr-x64-conservative-v1",
        default_ram_bytes: 128 * 1024 * 1024,
        devices,
    }
}

#[derive(Clone, Copy, Debug, PartialEq, Eq, Structural)]
pub enum MachineRunState {
    Paused,
    Running,
    Halted,
    Faulted,
}

/// Virtual time: one tick per successfully executed instruction.
#[derive(Clone, Copy, Debug, Default, PartialEq, Eq)]
pub struct VirtualClock {
    ticks: u64,
}

impl View for VirtualClock {
    type V = u64;

    closed spec fn view(&self) -> u64 {
        self.ticks
    }
}

impl VirtualClock {
    /// A clock at tick zero.
    pub fn zero() -> (r: VirtualClock)
        ensures
            r@ == 0,
    {
        VirtualClock { ticks: 0 }
    }

    pub fn ticks(self) -> (r: u64)
        ensures
            r == self@,
    {
        self.ticks
    }

    fn advance_instruction(&mut self)
        ensures
            final(self)@ == add_mod64(old(self)@ as int, 1),
    {
        self.ticks = wrapping_add_u64(self.ticks, 1);
    }
}

#[derive(Clone, Copy, Debug, PartialEq, Eq)]
pub enum MachineError {
    Memory(MemoryError),
    Decode(DecodeError),
    Execute(ExecuteError),
    Mmu(MmuError),
    AlreadyHalted,
}

impl From<MemoryError> for MachineError {
    fn from(error: MemoryError) -> (r: MachineError) {
        MachineError::Memory(error)
    }
}

impl vstd::std_specs::convert::FromSpecImpl<MemoryError> for MachineError {
    open spec fn obeys_from_spec() -> bool {
        true
    }

    open spec fn from_spec(error: MemoryError) -> MachineError {
        MachineError::Memory(error)
    }
}

impl From<DecodeError> for MachineError {
    fn from(error: DecodeError) -> (r: MachineError) {
        MachineError::Decode(error)
    }
}

impl vstd::std_specs::convert::FromSpecImpl<DecodeError> for MachineError {
    open spec fn obeys_from_spec() -> bool {
        true
    }

    open spec fn from_spec(error: DecodeError) -> MachineError {
        MachineError::Decode(error)
    }
}

impl From<ExecuteError> for MachineError {
    fn from(error: ExecuteError) -> (r: MachineError) {
        MachineError::Execute(error)
    }
}

impl vstd::std_specs::convert::FromSpecImpl<ExecuteError> for MachineError {
    open spec fn obeys_from_spec() -> bool {
        true
    }

    open spec fn from_spec(error: ExecuteError) -> MachineError {
        MachineError::Execute(error)
    }
}

impl From<MmuError> for MachineError {
    fn from(error: MmuError) -> (r: MachineError) {
        MachineError::Mmu(error)
    }
}

impl vstd::std_specs::convert::FromSpecImpl<MmuError> for MachineError {
    open spec fn obeys_from_spec() -> bool {
        true
    }

    open spec fn from_spec(error: MmuError) -> MachineError {
        MachineError::Mmu(error)
    }
}

/// What a successful step reports.
#[derive(Clone, Copy, Debug, PartialEq, Eq)]
pub struct StepReport {
    pub rip_before: u64,
    pub instruction: Instruction,
    pub outcome: ExecuteOutcome,
}

/// A captured machine: its manifest and the state needed to resume it.
#[derive(Clone, Debug, PartialEq, Eq)]
pub struct MachineSnapshot {
    pub manifest: SnapshotManifest,
    pub profile: MachineProfile,
    pub cpu: CpuState,
    pub memory: PhysicalMemory,
    pub serial: SerialDevice,
    pub virtual_clock: VirtualClock,
    pub run_state: MachineRunState,
    pub trace: TraceLog,
}

/// A single-vCPU machine: CPU, RAM, serial device, virtual clock, run state, trace
/// and decode cache.
#[derive(Clone, Debug)]
pub struct Machine {
    pub profile: MachineProfile,
    pub cpu: CpuState,
    pub memory: PhysicalMemory,
    pub serial: SerialDevice,
    pub virtual_clock: VirtualClock,
    pub run_state: MachineRunState,
    pub trace: TraceLog,
    pub decode_cache: DecodeCache,
}

/// The CPU view with CR2 replaced.
pub open spec fn with_cr2(v: CpuView, cr2: u64) -> CpuView {
    (v.0, v.1, ControlRegisters { cr2, ..v.2 }, v.3)
}

/// CR2 after an error: the faulting address of a page fault, met directly or during a
/// bus access; otherwise CR2 as it was.
pub open spec fn fault_cr2(cr2: u64, e: MachineError) -> u64 {
    match e {
        MachineError::Mmu(MmuError::PageFault(pf)) => pf.addr,
        MachineError::Execute(ExecuteError::Address(MmuError::PageFault(pf))) => pf.addr,
        _ => cr2,
    }
}

/// The translation of a supervisor access as the machine reports it.
pub open spec fn machine_translate_result(m: &Machine, virtual_addr: u64, access: AccessType) -> Result<
    u64,
    MachineError,
> {
    match machine_translate(m.cpu.controls, m.memory@, virtual_addr, access) {
        Ok(pa) => Ok(pa),
        Err(e) => Err(MachineError::Mmu(e)),
    }
}

/// The first `k` of the instruction bytes fetched from RIP, each through its own
/// execute translation; the first failure ends the fetch.
pub open spec fn fetch_bytes(m: &Machine, rip: u64, k: nat) -> Result<Seq<u8>, MachineError>
    decreases k,
{
    if k == 0 {
        Ok(Seq::empty())
    } else {
        match fetch_bytes(m, rip, (k - 1) as nat) {
            Err(e) => Err(e),
            Ok(bytes) => {
                let va = add_mod64(rip as int, k - 1);
                match machine_translate_result(m, va, AccessType::Execute) {
                    Err(e) => Err(e),
                    Ok(pa) => if in_bounds(pa, 1, m.memory@.bytes.len() as int) {
                        Ok(bytes.push(m.memory@.bytes[pa as int]))
                    } else {
                        Err(MachineError::Memory(MemoryError::OutOfBounds { addr: pa, len: 1 }))
                    },
                }
            },
        }
    }
}

/// The decode-cache key of an instruction at physical `phys`: its address, page and
/// page generation, when the whole longest instruction fits in the page and the page
/// exists.
pub open spec fn cache_key_for(memory: MemoryView, phys: u64) -> Option<(u64, usize, u32)> {
    if phys > usize::MAX {
        None
    } else if phys % (PAGE_SIZE as u64) + MAX_INSTRUCTION_LEN > PAGE_SIZE {
        None
    } else if phys >= memory.bytes.len() {
        None
    } else {
        let page = phys / (PAGE_SIZE as u64);
        if page >= memory.generations.len() {
            None
        } else {
            Some((phys, page as usize, memory.generations[page as int]))
        }
    }
}

/// Fetching the instruction at RIP, as a relation between the machine before, the
/// decode cache and CR2 after, and the result: a cache hit gives the cached
/// instruction; a miss reads fifteen bytes through the page tables, decodes them and
/// caches the instruction when its page allows.
pub open spec fn fetch_ensures(
    m: &Machine,
    cache2: CacheView,
    cr2: u64,
    r: Result<Instruction, MachineError>,
) -> bool {
    let controls = m.cpu.controls;
    let rip = m.cpu.registers.rip_value();
    let c = m.cache();
    match machine_translate_result(m, rip, AccessType::Execute) {
        Err(e) => r == Err::<Instruction, MachineError>(e) && cache2 == c && cr2 == fault_cr2(
            controls.cr2,
            e,
        ),
        Ok(phys) => {
            let key = cache_key_for(m.memory@, phys);
            let (c1, hit) = match key {
                Some((p, page, generation)) => c.lookup(p, page, generation),
                None => (c, None),
            };
            match hit {
                Some(inst) => r == Ok::<Instruction, MachineError>(inst) && cache2 == c1 && cr2
                    == controls.cr2,
                None => {
                    let c2 = c1.missed();
                    match fetch_bytes(m, rip, MAX_INSTRUCTION_LEN as nat) {
                        Err(e) => r == Err::<Instruction, MachineError>(e) && cache2 == c2 && cr2
                            == fault_cr2(controls.cr2, e),
                        Ok(bytes) => match spec_decode(bytes) {
                            Err(d) => r == Err::<Instruction, MachineError>(MachineError::Decode(d))
                                && cache2 == c2 && cr2 == controls.cr2,
                            Ok(_) => {
                                &&& r is Ok
                                &&& decoded_from(r->Ok_0, bytes)
                                &&& cr2 == controls.cr2
                                &&& cache2 == match key {
                                    Some((p, page, generation)) => c2.insert(
                                        p,
                                        page,
                                        generation,
                                        r->Ok_0,
                                    ),
                                    None => c2,
                                }
                            },
                        },
                    }
                },
            }
        },
    }
}

/// The bus a machine's CPU sees.
pub open spec fn bus_of(m: &Machine, controls: ControlRegisters) -> MachineBus {
    MachineBus { memory: m.memory, serial: m.serial, controls }
}

/// The trace event of a step, taken from the machine after it.
pub open spec fn trace_event(report: StepReport, after: &Machine) -> TraceEvent {
    TraceEvent {
        sequence: 0,
        rip_before: report.rip_before,
        rip_after: after.cpu.registers.rip_value(),
        virtual_ticks_after: after.virtual_clock@,
        instruction_len: report.instruction.len,
        instruction_bytes: report.instruction.bytes,
        operation_code: report.instruction.operation.spec_code(),
        outcome_code: match report.outcome {
            ExecuteOutcome::Continue => 1,
            ExecuteOutcome::Halted => 2,
        },
        rax_after: after.cpu.registers.value(Gpr::Rax),
        rsp_after: after.cpu.registers.value(Gpr::Rsp),
        serial_len_after: after.serial.spec_output().len() as usize,
    }
}

/// Whether two machines hold the same state apart from the run state.
pub open spec fn same_but_run_state(a: &Machine, b: &Machine) -> bool {
    &&& a.profile == b.profile
    &&& a.cpu == b.cpu
    &&& a.memory == b.memory
    &&& a.serial == b.serial
    &&& a.virtual_clock == b.virtual_clock
    &&& a.trace == b.trace
    &&& a.cache() == b.cache()
}

/// Whether two machines hold the same state.
pub open spec fn same_machine(a: &Machine, b: &Machine) -> bool {
    same_but_run_state(a, b) && a.run_state == b.run_state
}

/// One step, as a relation between the machine before and after and the result. A
/// halted machine refuses. Otherwise the instruction at RIP is fetched and executed
/// on the machine bus; success advances the virtual clock by one tick, halts the
/// machine on `hlt` and records a trace event; failure faults the machine, records a
/// page fault's address in CR2, and leaves the clock and trace alone.
pub open spec fn step_ensures(b: &Machine, a: &Machine, r: Result<StepReport, MachineError>) -> bool {
    if b.run_state == MachineRunState::Halted || b.cpu.halted {
        r == Err::<StepReport, MachineError>(MachineError::AlreadyHalted) && same_machine(a, b)
    } else {
        let controls = b.cpu.controls;
        &&& a.profile == b.profile
        &&& match r {
            Ok(report) => {
                &&& report.rip_before == b.cpu.registers.rip_value()
                &&& fetch_ensures(b, a.cache(), controls.cr2, Ok(report.instruction))
                &&& execute_with_bus_ensures(
                    b.cpu@,
                    report.instruction,
                    bus_of(b, controls),
                    a.cpu@,
                    bus_of(a, controls),
                    Ok(report.outcome),
                )
                &&& a.virtual_clock@ == add_mod64(b.virtual_clock@ as int, 1)
                &&& a.run_state == if report.outcome == ExecuteOutcome::Halted {
                    MachineRunState::Halted
                } else {
                    b.run_state
                }
                &&& a.trace@ == b.trace@.push(trace_event(report, a))
            },
            Err(e) => {
                &&& a.run_state == MachineRunState::Faulted
                &&& a.virtual_clock == b.virtual_clock
                &&& a.trace == b.trace
                &&& a.cpu@ == with_cr2(b.cpu@, fault_cr2(controls.cr2, e))
                &&& {
                    ||| (fetch_ensures(b, a.cache(), fault_cr2(controls.cr2, e), Err(e)) && a.memory
                        == b.memory && a.serial == b.serial)
                    ||| exists|inst: Instruction|
                        #![trigger fetch_ensures(b, a.cache(), controls.cr2, Ok(inst))]
                        fetch_ensures(b, a.cache(), controls.cr2, Ok(inst)) && (
                        e matches MachineError::Execute(ee) && execute_with_bus_ensures(
                            b.cpu@,
                            inst,
                            bus_of(b, controls),
                            b.cpu@,
                            bus_of(a, controls),
                            Err(ee),
                        ))
                }
            },
        }
    }
}

/// The part of a step before the run state and CR2 react to a failure: on success as
/// in `step_ensures`; on failure either the fetch failed (and set CR2 for a page
/// fault) or the fetched instruction failed on the bus with the CPU unchanged.
pub open spec fn step_attempt_ensures(
    b: &Machine,
    a: &Machine,
    r: Result<StepReport, MachineError>,
) -> bool {
    let controls = b.cpu.controls;
    &&& a.profile == b.profile
    &&& match r {
        Ok(report) => {
            &&& report.rip_before == b.cpu.registers.rip_value()
            &&& fetch_ensures(b, a.cache(), controls.cr2, Ok(report.instruction))
            &&& execute_with_bus_ensures(
                b.cpu@,
                report.instruction,
                bus_of(b, controls),
                a.cpu@,
                bus_of(a, controls),
                Ok(report.outcome),
            )
            &&& a.virtual_clock@ == add_mod64(b.virtual_clock@ as int, 1)
            &&& a.run_state == if report.outcome == ExecuteOutcome::Halted {
                MachineRunState::Halted
            } else {
                b.run_state
            }
            &&& a.trace@ == b.trace@.push(trace_event(report, a))
        },
        Err(e) => {
            &&& a.run_state == b.run_state
            &&& a.virtual_clock == b.virtual_clock
            &&& a.trace == b.trace
            &&& {
                ||| (fetch_ensures(b, a.cache(), a.cpu.controls.cr2, Err(e)) && a.cpu@ == with_cr2(
                    b.cpu@,
                    a.cpu.controls.cr2,
                ) && a.memory == b.memory && a.serial == b.serial)
                ||| (a.cpu@ == b.cpu@ && exists|inst: Instruction|
                    #![trigger fetch_ensures(b, a.cache(), controls.cr2, Ok(inst))]
                    fetch_ensures(b, a.cache(), controls.cr2, Ok(inst)) && (
                    e matches MachineError::Execute(ee) && execute_with_bus_ensures(
                        b.cpu@,
                        inst,
                        bus_of(b, controls),
                        b.cpu@,
                        bus_of(a, controls),
                        Err(ee),
                    )))
            }
        },
    }
}

/// A failed fetch leaves CR2 as `fault_cr2` says.
pub proof fn lemma_fetch_error_cr2(m: &Machine, cache2: CacheView, cr2: u64, e: MachineError)
    requires
        fetch_ensures(m, cache2, cr2, Err(e)),
    ensures
        cr2 == fault_cr2(m.cpu.controls.cr2, e),
{
}

/// Once a fetch fails, the longer fetches fail the same way.
pub proof fn lemma_fetch_error_sticks(m: &Machine, rip: u64, j: nat, k: nat)
    requires
        j <= k,
        fetch_bytes(m, rip, j) is Err,
    ensures
        fetch_bytes(m, rip, k) == fetch_bytes(m, rip, j),
    decreases k - j,
{
    if j < k {
        lemma_fetch_error_sticks(m, rip, j, (k - 1) as nat);
    }
}

/// The run state after `pause`.
pub open spec fn paused(s: MachineRunState) -> MachineRunState {
    if s == MachineRunState::Running {
        MachineRunState::Paused
    } else {
        s
    }
}

/// The run state after `resume`.
pub open spec fn resumed(s: MachineRunState) -> MachineRunState {
    if s == MachineRunState::Paused {
        MachineRunState::Running
    } else {
        s
    }
}

/// Running from `start` after `done` steps, at most `max` in all: while the machine is
/// running and steps remain, it steps; a failed step ends the run with the error; a
/// run that ends while still running leaves the machine paused.
pub open spec fn run_ensures(
    start: Machine,
    end: Machine,
    done: nat,
    max: nat,
    r: Result<usize, MachineError>,
) -> bool
    decreases max - done,
{
    if start.run_state != MachineRunState::Running || done >= max {
        &&& r == Ok::<usize, MachineError>(done as usize)
        &&& same_but_run_state(&end, &start)
        &&& end.run_state == paused(start.run_state)
    } else {
        exists|mid: Machine, sr: Result<StepReport, MachineError>|
            #[trigger] step_ensures(&start, &mid, sr) && mid.wf() && match sr {
                Err(e) => r == Err::<usize, MachineError>(e) && same_machine(&end, &mid),
                Ok(_) => run_ensures(mid, end, done + 1, max, r),
            }
    }
}

/// The bytes of all sixteen general-purpose registers, little-endian, in encoding order.
pub open spec fn gpr_bytes(regs: Seq<u64>, n: nat) -> Seq<u8>
    decreases n,
{
    if n == 0 {
        Seq::empty()
    } else {
        gpr_bytes(regs, (n - 1) as nat) + le_bytes_u64(regs[n - 1])
    }
}

/// The CPU chunk of a snapshot: the registers, RIP, RFLAGS, CR0, CR2, CR3, CR4 and
/// EFER as little-endian words, then the halt flag as one byte.
pub open spec fn cpu_chunk(cpu: CpuView) -> Seq<u8> {
    gpr_bytes(cpu.0.0, 16) + le_bytes_u64(cpu.0.1) + le_bytes_u64(cpu.1) + le_bytes_u64(cpu.2.cr0)
        + le_bytes_u64(cpu.2.cr2) + le_bytes_u64(cpu.2.cr3) + le_bytes_u64(cpu.2.cr4)
        + le_bytes_u64(cpu.2.efer) + seq![
        if cpu.3 {
            1u8
        } else {
            0u8
        },
    ]
}

/// Whether chunk `c` has kind `kind` and describes `content`.
pub open spec fn chunk_describes(c: ChunkRef, kind: ChunkKind, content: Seq<u8>) -> bool {
    c.kind == kind && c.hash@ == content_hash_text(content) && c.size_bytes == content.len()
}

/// Whether `manifest` is the snapshot manifest of `m` made by `created_by`: the
/// current format, the machine's profile, no parent, and the CPU, RAM, serial device
/// and virtual clock chunks in that order.
pub open spec fn manifest_of(m: &Machine, created_by: Seq<char>, manifest: SnapshotManifest) -> bool {
    &&& manifest.format_version == SNAPSHOT_FORMAT_VERSION
    &&& manifest.machine_profile@ == m.profile.id@
    &&& manifest.parent is None
    &&& manifest.created_by@ == created_by
    &&& manifest.chunks@.len() == 4
    &&& chunk_describes(manifest.chunks@[0], ChunkKind::Cpu, cpu_chunk(m.cpu@))
    &&& chunk_describes(manifest.chunks@[1], ChunkKind::MemoryPage, m.memory@.bytes)
    &&& chunk_describes(
        manifest.chunks@[2],
        ChunkKind::Device,
        serial_payload(m.serial.spec_output(), m.serial.spec_input()),
    )
    &&& chunk_describes(manifest.chunks@[3], ChunkKind::Scheduler, le_bytes_u64(m.virtual_clock@))
}

/// Whether `snap` is a capture of `m` made by `created_by`: its manifest, and copies of
/// the profile, CPU, RAM, serial device, clock, run state and trace.
pub open spec fn is_capture_of(m: &Machine, created_by: Seq<char>, snap: MachineSnapshot) -> bool {
    &&& manifest_of(m, created_by, snap.manifest)
    &&& snap.profile == m.profile
    &&& snap.cpu == m.cpu
    &&& snap.memory@ == m.memory@
    &&& snap.serial.spec_output() == m.serial.spec_output()
    &&& snap.serial.spec_input() == m.serial.spec_input()
    &&& snap.virtual_clock == m.virtual_clock
    &&& snap.run_state == m.run_state
    &&& snap.trace@ == m.trace@
}

/// Whether `m` is the machine restored from `snap`: the snapshot's state with an empty
/// decode cache, which is rebuilt as the machine runs.
pub open spec fn is_restore_of(snap: MachineSnapshot, m: &Machine) -> bool {
    &&& m.profile == snap.profile
    &&& m.cpu == snap.cpu
    &&& m.memory == snap.memory
    &&& m.serial == snap.serial
    &&& m.virtual_clock == snap.virtual_clock
    &&& m.run_state == snap.run_state
    &&& m.trace == snap.trace
    &&& m.cache() == CacheView::empty()
}

fn push_u64_le(bytes: &mut Vec<u8>, value: u64)
    ensures
        final(bytes)@ == old(bytes)@ + le_bytes_u64(value),
{
    let le = u64_to_le_bytes(value);
    let ghost start = bytes@;
    let mut i: usize = 0;
    while i < 8
        invariant
            i <= 8,
            le@ == le_bytes_u64(value),
            bytes@ == start + le@.take(i as int),
        decreases 8 - i,
    {
        bytes.push(le[i]);
        i += 1;
        assert(bytes@ =~= start + le@.take(i as int));
    }
    assert(le@.take(8) =~= le@);
}

impl Machine {
    /// The decode cache's slots and counters.
    pub open spec fn cache(&self) -> CacheView {
        self.decode_cache@
    }

    /// Page-shaped memory, a well-formed decode cache and a trace within its capacity.
    pub open spec fn wf(&self) -> bool {
        &&& self.memory.wf()
        &&& self.cache().wf()
        &&& self.trace@.events.len() <= TRACE_CAPACITY
    }

    pub fn new_minimal(ram_bytes: usize) -> (r: Result<Machine, MemoryError>)
        ensures
            ram_bytes % PAGE_SIZE != 0 <==> r == Err::<Machine, MemoryError>(
                MemoryError::SizeMustBePageAligned,
            ),
            ram_bytes % PAGE_SIZE == 0 <==> r is Ok,
            r matches Ok(m) ==> {
                &&& m.wf()
                &&& is_minimal_x64_v1(m.profile)
                &&& m.cpu@.0.1 == 0
                &&& (forall|i: int| 0 <= i < 16 ==> #[trigger] m.cpu@.0.0[i] == 0)
                &&& m.cpu@.1 == crate::flags::RESERVED_ALWAYS_ONE
                &&& m.cpu@.2 == ControlRegisters::spec_zero()
                &&& !m.cpu@.3
                &&& m.memory@.bytes == Seq::new(ram_bytes as nat, |i: int| 0u8)
                &&& m.memory@.dirty == Seq::new(m.memory@.pages(), |i: int| false)
                &&& m.memory@.executable == Seq::new(m.memory@.pages(), |i: int| false)
                &&& m.memory@.generations == Seq::new(m.memory@.pages(), |i: int| 0u32)
                &&& m.serial.spec_output() == Seq::<u8>::empty()
                &&& m.serial.spec_input() == Seq::<u8>::empty()
                &&& m.virtual_clock@ == 0
                &&& m.run_state == MachineRunState::Paused
                &&& m.trace@.next_sequence == 0
                &&& m.trace@.events == Seq::<TraceEvent>::empty()
                &&& m.cache() == CacheView::empty()
                &&& crate::history::fresh(m)
            },
    {
        let memory = match PhysicalMemory::new(ram_bytes) {
            Ok(m) => m,
            Err(e) => return Err(e),
        };
        Ok(
            Machine {
                profile: minimal_x64_v1(),
                cpu: CpuState::default(),
                memory,
                serial: SerialDevice::default(),
                virtual_clock: VirtualClock::zero(),
                run_state: MachineRunState::Paused,
                trace: TraceLog::default(),
                decode_cache: DecodeCache::default(),
            },
        )
    }

    /// A running machine becomes paused; any other state stays.
    pub fn pause(&mut self)
        ensures
            same_but_run_state(final(self), old(self)),
            final(self).run_state == paused(old(self).run_state),
            crate::history::op_ensures(*old(self), crate::history::MachineOp::Pause, *final(self)),
    {
        if self.run_state == MachineRunState::Running {
            self.run_state = MachineRunState::Paused;
        }
    }

    /// A paused machine becomes running; any other state stays.
    pub fn resume(&mut self)
        ensures
            same_but_run_state(final(self), old(self)),
            final(self).run_state == resumed(old(self).run_state),
            crate::history::op_ensures(*old(self), crate::history::MachineOp::Resume, *final(self)),
    {
        if self.run_state == MachineRunState::Paused {
            self.run_state = MachineRunState::Running;
        }
    }

    fn cpu_chunk_bytes(&self) -> (r: Vec<u8>)
        ensures
            r@ == cpu_chunk(self.cpu@),
    {
        broadcast use crate::registers::RegisterFile::lemma_shape;

        let mut bytes: Vec<u8> = Vec::new();
        let mut n: usize = 0;
        while n < 16
            invariant
                n <= 16,
                bytes@ == gpr_bytes(self.cpu@.0.0, n as nat),
            decreases 16 - n,
        {
            let gpr = Gpr::from_low3((n % 8) as u8, n >= 8);
            proof {
                crate::registers::lemma_low3_bits((n % 8) as u8);
            }
            push_u64_le(&mut bytes, self.cpu.registers.read(gpr));
            n += 1;
        }
        push_u64_le(&mut bytes, self.cpu.registers.rip());
        push_u64_le(&mut bytes, self.cpu.rflags.bits());
        push_u64_le(&mut bytes, self.cpu.controls.cr0);
        push_u64_le(&mut bytes, self.cpu.controls.cr2);
        push_u64_le(&mut bytes, self.cpu.controls.cr3);
        push_u64_le(&mut bytes, self.cpu.controls.cr4);
        push_u64_le(&mut bytes, self.cpu.controls.efer);
        bytes.push(if self.cpu.halted {
            1
        } else {
            0
        });
        assert(bytes@ =~= cpu_chunk(self.cpu@));
        bytes
    }

    pub fn snapshot_manifest(&self, created_by: &str) -> (r: SnapshotManifest)
        ensures
            manifest_of(self, created_by@, r),
    {
        let mut manifest = SnapshotManifest::new(self.profile.id, created_by);
        let cpu_bytes = self.cpu_chunk_bytes();
        manifest.add_chunk(ChunkRef::from_bytes(ChunkKind::Cpu, cpu_bytes.as_slice()));
        manifest.add_chunk(ChunkRef::from_bytes(ChunkKind::MemoryPage, self.memory.as_bytes()));
        let device = self.serial.snapshot();
        manifest.add_chunk(ChunkRef::from_bytes(ChunkKind::Device, device.payload.as_slice()));
        let ticks = u64_to_le_bytes(self.virtual_clock.ticks());
        manifest.add_chunk(ChunkRef::from_bytes(ChunkKind::Scheduler, &ticks));
        manifest
    }

    pub fn capture_snapshot(&self, created_by: &str) -> (r: MachineSnapshot)
        ensures
            is_capture_of(self, created_by@, r),
    {
        MachineSnapshot {
            manifest: self.snapshot_manifest(created_by),
            profile: self.profile,
            cpu: self.cpu,
            memory: self.memory.duplicate(),
            serial: self.serial.duplicate(),
            virtual_clock: self.virtual_clock,
            run_state: self.run_state,
            trace: self.trace.duplicate(),
        }
    }

    /// A machine with the snapshot's state and an empty decode cache.
    pub fn restore_snapshot(snapshot: MachineSnapshot) -> (r: Machine)
        ensures
            is_restore_of(snapshot, &r),
            snapshot.memory.wf() && snapshot.trace@.events.len() <= TRACE_CAPACITY ==> r.wf(),
    {
        Machine {
            profile: snapshot.profile,
            cpu: snapshot.cpu,
            memory: snapshot.memory,
            serial: snapshot.serial,
            virtual_clock: snapshot.virtual_clock,
            run_state: snapshot.run_state,
            trace: snapshot.trace,
            decode_cache: DecodeCache::default(),
        }
    }

    /// Writes a program into RAM, marks its pages executable and drops cached decodes
    /// that the write may have changed.
    pub fn load_program(&mut self, addr: u64, bytes: &[u8]) -> (r: Result<(), MachineError>)
        requires
            old(self).wf(),
        ensures
            final(self).wf(),
            in_bounds(addr, bytes@.len() as int, old(self).memory@.bytes.len() as int) ==> {
                &&& r is Ok
                &&& final(self).memory@ == (MemoryView {
                    executable: Seq::new(
                        old(self).memory@.pages(),
                        |p: int|
                            old(self).memory@.executable[p] || crate::memory::touches_page(
                                addr as int,
                                bytes@.len() as int,
                                p,
                            ),
                    ),
                    ..old(self).memory@.write(addr as int, bytes@)
                })
                &&& final(self).cache() == old(self).cache().invalidate_range(
                    addr,
                    bytes@.len() as usize,
                )
            },
            !in_bounds(addr, bytes@.len() as int, old(self).memory@.bytes.len() as int) ==> {
                &&& r == Err::<(), MachineError>(
                    MachineError::Memory(
                        MemoryError::OutOfBounds { addr, len: bytes@.len() as usize },
                    ),
                )
                &&& final(self).memory == old(self).memory
                &&& final(self).cache() == old(self).cache()
            },
            final(self).profile == old(self).profile,
            final(self).cpu == old(self).cpu,
            final(self).serial == old(self).serial,
            final(self).virtual_clock == old(self).virtual_clock,
            final(self).run_state == old(self).run_state,
            final(self).trace == old(self).trace,
            crate::history::op_ensures(
                *old(self),
                crate::history::MachineOp::LoadProgram(addr, bytes@, r),
                *final(self),
            ),
    {
        match self.memory.write(addr, bytes) {
            Ok(()) => {},
            Err(e) => return Err(MachineError::Memory(e)),
        }
        match self.memory.mark_executable_range(addr, bytes.len()) {
            Ok(()) => {},
            Err(e) => return Err(MachineError::Memory(e)),
        }
        self.decode_cache.invalidate_range(addr, bytes.len());
        Ok(())
    }

    pub fn decode_cache_stats(&self) -> (r: DecodeCacheStats)
        ensures
            r == self.cache().stats(),
    {
        self.decode_cache.stats()
    }

    /// Translates a supervisor access; a page fault records its address in CR2.
    pub fn translate_address(&mut self, virtual_addr: u64, access: AccessType) -> (r: Result<
        u64,
        MachineError,
    >)
        ensures
            r == machine_translate_result(old(self), virtual_addr, access),
            final(self).cpu == match r {
                Ok(_) => old(self).cpu,
                Err(e) => CpuState {
                    controls: ControlRegisters {
                        cr2: fault_cr2(old(self).cpu.controls.cr2, e),
                        ..old(self).cpu.controls
                    },
                    ..old(self).cpu
                },
            },
            final(self).profile == old(self).profile,
            final(self).memory == old(self).memory,
            final(self).serial == old(self).serial,
            final(self).virtual_clock == old(self).virtual_clock,
            final(self).run_state == old(self).run_state,
            final(self).trace == old(self).trace,
            final(self).cache() == old(self).cache(),
            crate::history::op_ensures(
                *old(self),
                crate::history::MachineOp::Translate(virtual_addr, access, r),
                *final(self),
            ),
    {
        match translate_in(self.cpu.controls, &self.memory, virtual_addr, access) {
            Ok(pa) => Ok(pa),
            Err(error) => {
                match error {
                    MmuError::PageFault(page_fault) => {
                        self.cpu.controls.set_page_fault_address(page_fault.addr);
                    },
                    _ => {},
                }
                Err(MachineError::Mmu(error))
            },
        }
    }

    /// Fetches the instruction at RIP through the decode cache.
    pub fn fetch_instruction(&mut self) -> (r: Result<Instruction, MachineError>)
        requires
            old(self).wf(),
        ensures
            final(self).wf(),
            fetch_ensures(old(self), final(self).cache(), final(self).cpu.controls.cr2, r),
            final(self).cpu@ == with_cr2(old(self).cpu@, final(self).cpu.controls.cr2),
            r matches Ok(inst) ==> executable_operation(inst.operation),
            final(self).profile == old(self).profile,
            final(self).memory == old(self).memory,
            final(self).serial == old(self).serial,
            final(self).virtual_clock == old(self).virtual_clock,
            final(self).run_state == old(self).run_state,
            final(self).trace == old(self).trace,
            crate::history::op_ensures(*old(self), crate::history::MachineOp::Fetch(r), *final(self)),
    {
        let ghost start = *self;
        let rip = self.cpu.registers.rip();
        let cache_key = match self.decode_cache_key(rip) {
            Ok(key) => key,
            Err(e) => return Err(e),
        };
        match cache_key {
            Some((physical_rip, page_index, page_generation)) => {
                match self.decode_cache.get(physical_rip, page_index, page_generation) {
                    Some(instruction) => return Ok(instruction),
                    None => {},
                }
            },
            None => {},
        }
        let ghost phys = machine_translate_result(&start, rip, AccessType::Execute)->Ok_0;
        self.decode_cache.record_miss();
        let mut bytes = [0u8; 15];
        let mut offset: usize = 0;
        assert(bytes@.take(0) =~= Seq::<u8>::empty());
        while offset < MAX_INSTRUCTION_LEN
            invariant
                offset <= MAX_INSTRUCTION_LEN,
                start == *old(self),
                self.wf(),
                self.cpu == start.cpu,
                self.memory == start.memory,
                self.profile == start.profile,
                self.serial == start.serial,
                self.virtual_clock == start.virtual_clock,
                self.run_state == start.run_state,
                self.trace == start.trace,
                self.cache() == ({
                    let c = start.cache();
                    let c1 = match cache_key {
                        Some((p, page, generation)) => c.lookup(p, page, generation).0,
                        None => c,
                    };
                    c1.missed()
                }),
                rip == start.cpu.registers.rip_value(),
                machine_translate_result(&start, rip, AccessType::Execute) == Ok::<u64, MachineError>(
                    phys,
                ),
                cache_key == cache_key_for(start.memory@, phys),
                match cache_key {
                    Some((p, page, generation)) => start.cache().lookup(p, page, generation).1 is None,
                    None => true,
                },
                fetch_bytes(&start, rip, offset as nat) == Ok::<Seq<u8>, MachineError>(
                    bytes@.take(offset as int),
                ),
            decreases MAX_INSTRUCTION_LEN - offset,
        {
            let virtual_addr = wrapping_add_u64(rip, offset as u64);
            let physical_addr = match self.translate_address(virtual_addr, AccessType::Execute) {
                Ok(pa) => pa,
                Err(e) => {
                    proof {
                        lemma_fetch_error_sticks(&start, rip, (offset + 1) as nat, 15);
                    }
                    return Err(e);
                },
            };
            let byte = match self.memory.read_u8(physical_addr) {
                Ok(b) => b,
                Err(e) => {
                    proof {
                        lemma_fetch_error_sticks(&start, rip, (offset + 1) as nat, 15);
                    }
                    return Err(MachineError::Memory(e));
                },
            };
            let ghost before = bytes@;
            bytes[offset] = byte;
            offset += 1;
            assert(bytes@.take(offset as int) =~= before.take(offset - 1).push(byte));
        }
        assert(bytes@.take(15) =~= bytes@);
        let instruction = match decode_one(&bytes) {
            Ok(inst) => inst,
            Err(e) => return Err(MachineError::Decode(e)),
        };
        proof {
            lemma_decoded_operations_are_executable(bytes@);
        }
        match cache_key {
            Some((physical_rip, page_index, page_generation)) => {
                self.decode_cache.insert(physical_rip, page_index, page_generation, instruction);
            },
            None => {},
        }
        Ok(instruction)
    }

    /// One instruction: fetch, execute on the machine bus, count a tick, trace.
    pub fn step(&mut self) -> (r: Result<StepReport, MachineError>)
        requires
            old(self).wf(),
        ensures
            final(self).wf(),
            step_ensures(old(self), final(self), r),
            crate::history::op_ensures(*old(self), crate::history::MachineOp::Step(r), *final(self)),
    {
        if self.run_state == MachineRunState::Halted || self.cpu.halted {
            return Err(MachineError::AlreadyHalted);
        }
        let ghost before = *self;
        let report = self.step_inner();
        match report {
            Ok(_) => {},
            Err(error) => {
                let ghost mid = *self;
                self.record_fault_address(&error);
                self.run_state = MachineRunState::Faulted;
                proof {
                    if fetch_ensures(&before, mid.cache(), mid.cpu.controls.cr2, Err(error)) {
                        lemma_fetch_error_cr2(&before, mid.cache(), mid.cpu.controls.cr2, error);
                    }
                }
            },
        }
        report
    }

    fn step_inner(&mut self) -> (r: Result<StepReport, MachineError>)
        requires
            old(self).wf(),
        ensures
            final(self).wf(),
            step_attempt_ensures(old(self), final(self), r),
    {
        let ghost before = *self;
        let rip_before = self.cpu.registers.rip();
        let instruction = match self.fetch_instruction() {
            Ok(inst) => inst,
            Err(e) => return Err(e),
        };
        let ghost fetched = *self;
        let mut memory = PhysicalMemory::empty();
        std::mem::swap(&mut memory, &mut self.memory);
        let mut serial = SerialDevice::default();
        std::mem::swap(&mut serial, &mut self.serial);
        let mut bus = MachineBus { memory, serial, controls: self.cpu.controls };
        let executed = self.cpu.execute_decoded_with_bus(&instruction, &mut bus);
        let MachineBus { memory, serial, .. } = bus;
        self.memory = memory;
        self.serial = serial;
        let outcome = match executed {
            Ok(outcome) => outcome,
            Err(e) => {
                proof {
                    assert(fetch_ensures(&before, self.cache(), before.cpu.controls.cr2, Ok(instruction)));
                }
                return Err(MachineError::Execute(e));
            },
        };
        self.virtual_clock.advance_instruction();
        if outcome == ExecuteOutcome::Halted {
            self.run_state = MachineRunState::Halted;
        }
        let report = StepReport { rip_before, instruction, outcome };
        self.record_trace(&report);
        Ok(report)
    }

    /// Runs until the machine halts, faults or has taken `max_steps` steps.
    pub fn run_until_halt(&mut self, max_steps: usize) -> (r: Result<usize, MachineError>)
        requires
            old(self).wf(),
        ensures
            final(self).wf(),
            exists|start: Machine|
                #![trigger run_ensures(start, *final(self), 0, max_steps as nat, r)]
                same_but_run_state(&start, old(self)) && start.run_state == resumed(
                    old(self).run_state,
                ) && run_ensures(start, *final(self), 0, max_steps as nat, r),
    {
        self.resume();
        let ghost start = *self;
        let mut steps: usize = 0;
        while self.run_state == MachineRunState::Running && steps < max_steps
            invariant
                same_but_run_state(&start, old(self)),
                start.run_state == resumed(old(self).run_state),
                self.wf(),
                steps <= max_steps,
                forall|e: Machine, res: Result<usize, MachineError>|
                    run_ensures(*self, e, steps as nat, max_steps as nat, res) ==> #[trigger] run_ensures(
                        start,
                        e,
                        0,
                        max_steps as nat,
                        res,
                    ),
            decreases max_steps - steps,
        {
            let ghost prev = *self;
            let result = self.step();
            match result {
                Ok(_) => {},
                Err(e) => {
                    proof {
                        assert(step_ensures(&prev, &*self, result) && self.wf());
                        assert(run_ensures(prev, *self, steps as nat, max_steps as nat, Err(e)));
                        assert(run_ensures(start, *self, 0, max_steps as nat, Err(e)));
                    }
                    return Err(e);
                },
            }
            steps += 1;
            proof {
                assert forall|e: Machine, res: Result<usize, MachineError>|
                    run_ensures(*self, e, steps as nat, max_steps as nat, res) implies #[trigger] run_ensures(
                        start,
                        e,
                        0,
                        max_steps as nat,
                        res,
                    ) by {
                    assert(step_ensures(&prev, &*self, result) && self.wf());
                    assert(run_ensures(prev, e, (steps - 1) as nat, max_steps as nat, res));
                }
            }
        }
        let ghost before_pause = *self;
        if self.run_state == MachineRunState::Running {
            self.pause();
        }
        proof {
            assert(run_ensures(before_pause, *self, steps as nat, max_steps as nat, Ok(steps)));
            assert(run_ensures(start, *self, 0, max_steps as nat, Ok(steps)));
        }
        Ok(steps)
    }

    fn record_fault_address(&mut self, error: &MachineError)
        ensures
            final(self).cpu@ == with_cr2(old(self).cpu@, fault_cr2(old(self).cpu.controls.cr2, *error)),
            final(self).profile == old(self).profile,
            final(self).memory == old(self).memory,
            final(self).serial == old(self).serial,
            final(self).virtual_clock == old(self).virtual_clock,
            final(self).run_state == old(self).run_state,
            final(self).trace == old(self).trace,
            final(self).decode_cache == old(self).decode_cache,
    {
        match error {
            MachineError::Mmu(MmuError::PageFault(page_fault)) => {
                self.cpu.controls.set_page_fault_address(page_fault.addr);
            },
            MachineError::Execute(ExecuteError::Address(MmuError::PageFault(page_fault))) => {
                self.cpu.controls.set_page_fault_address(page_fault.addr);
            },
            _ => {},
        }
    }

    fn record_trace(&mut self, report: &StepReport)
        requires
            old(self).trace@.events.len() <= TRACE_CAPACITY,
        ensures
            final(self).trace@ == old(self).trace@.push(trace_event(*report, old(self))),
            final(self).trace@.events.len() <= TRACE_CAPACITY,
            final(self).profile == old(self).profile,
            final(self).cpu == old(self).cpu,
            final(self).memory == old(self).memory,
            final(self).serial == old(self).serial,
            final(self).virtual_clock == old(self).virtual_clock,
            final(self).run_state == old(self).run_state,
            final(self).decode_cache == old(self).decode_cache,
    {
        let event = TraceEvent {
            sequence: 0,
            rip_before: report.rip_before,
            rip_after: self.cpu.registers.rip(),
            virtual_ticks_after: self.virtual_clock.ticks(),
            instruction_len: report.instruction.len,
            instruction_bytes: report.instruction.bytes,
            operation_code: report.instruction.operation_code(),
            outcome_code: match report.outcome {
                ExecuteOutcome::Continue => 1,
                ExecuteOutcome::Halted => 2,
            },
            rax_after: self.cpu.registers.read(Gpr::Rax),
            rsp_after: self.cpu.registers.read(Gpr::Rsp),
            serial_len_after: self.serial.output().len(),
        };
        self.trace.push(event);
    }

    fn decode_cache_key(&mut self, virtual_rip: u64) -> (r: Result<
        Option<(u64, usize, u32)>,
        MachineError,
    >)
        ensures
            match machine_translate_result(old(self), virtual_rip, AccessType::Execute) {
                Ok(phys) => r == Ok::<Option<(u64, usize, u32)>, MachineError>(
                    cache_key_for(old(self).memory@, phys),
                ),
                Err(e) => r == Err::<Option<(u64, usize, u32)>, MachineError>(e),
            },
            final(self).cpu == match r {
                Ok(_) => old(self).cpu,
                Err(e) => CpuState {
                    controls: ControlRegisters {
                        cr2: fault_cr2(old(self).cpu.controls.cr2, e),
                        ..old(self).cpu.controls
                    },
                    ..old(self).cpu
                },
            },
            final(self).profile == old(self).profile,
            final(self).memory == old(self).memory,
            final(self).serial == old(self).serial,
            final(self).virtual_clock == old(self).virtual_clock,
            final(self).run_state == old(self).run_state,
            final(self).trace == old(self).trace,
            final(self).cache() == old(self).cache(),
    {
        let physical_rip = match self.translate_address(virtual_rip, AccessType::Execute) {
            Ok(pa) => pa,
            Err(e) => return Err(e),
        };
        if physical_rip > usize::MAX as u64 {
            return Ok(None);
        }
        let physical_rip_usize = physical_rip as usize;
        if physical_rip_usize % PAGE_SIZE + MAX_INSTRUCTION_LEN > PAGE_SIZE {
            return Ok(None);
        }
        let page_index = match self.memory.page_index_for_addr(physical_rip) {
            Some(p) => p,
            None => return Ok(None),
        };
        let page_generation = match self.memory.page_generation(page_index) {
            Some(g) => g,
            None => return Ok(None),
        };
        Ok(Some((physical_rip, page_index, page_generation)))
    }
}

} // verus!
