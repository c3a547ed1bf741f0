use vstd::prelude::*;
use crate::arith::{le_bytes_u64, le_u64_at, lemma_le_u64_round_trip, u64_from_le_bytes, u64_to_le_bytes};

verus! {

/// Size of a guest page in bytes.
pub const PAGE_SIZE: usize = 4096;

#[derive(Clone, Copy, Debug, PartialEq, Eq, Structural)]
pub enum MemoryError {
    SizeMustBePageAligned,
    OutOfBounds { addr: u64, len: usize },
}

/// Page-backed guest physical memory that tracks dirty pages and, for pages marked
/// executable, a generation number that every write advances.
#[derive(Clone, Debug, PartialEq, Eq)]
pub struct PhysicalMemory {
    bytes: Vec<u8>,
    dirty_pages: Vec<bool>,
    executable_pages: Vec<bool>,
    page_generations: Vec<u32>,
}

/// Whether `len` bytes from `addr` lie inside a memory of `size` bytes.
pub open spec fn in_bounds(addr: u64, len: int, size: int) -> bool {
    addr as int + len <= size
}

/// Whether a write of `len` bytes from `start` touches page `page`.
pub open spec fn touches_page(start: int, len: int, page: int) -> bool {
    len > 0 && start / (PAGE_SIZE as int) <= page && page <= (start + len - 1) / (PAGE_SIZE as int)
}

/// `bytes` with `input` written from `start` on.
pub open spec fn splice(bytes: Seq<u8>, start: int, input: Seq<u8>) -> Seq<u8> {
    bytes.subrange(0, start) + input + bytes.subrange(start + input.len(), bytes.len() as int)
}

/// The next page generation: one more, wrapping at `2^32`.
pub open spec fn next_generation(g: u32) -> u32 {
    if g == u32::MAX {
        0
    } else {
        (g + 1) as u32
    }
}

/// The state of a physical memory: its bytes and, per page, the dirty bit, the
/// executable bit and the generation number.
pub struct MemoryView {
    pub bytes: Seq<u8>,
    pub dirty: Seq<bool>,
    pub executable: Seq<bool>,
    pub generations: Seq<u32>,
}

impl MemoryView {
    /// Number of pages.
    pub open spec fn pages(self) -> nat {
        self.bytes.len() / (PAGE_SIZE as nat)
    }

    /// A whole number of pages, with one dirty bit, one executable bit and one
    /// generation per page.
    pub open spec fn wf(self) -> bool {
        &&& self.bytes.len() % (PAGE_SIZE as nat) == 0
        &&& self.dirty.len() == self.pages()
        &&& self.executable.len() == self.pages()
        &&& self.generations.len() == self.pages()
    }

    /// The state after writing `input` at `start`: the bytes are replaced, every touched
    /// page becomes dirty, and every touched executable page advances its generation.
    pub open spec fn write(self, start: int, input: Seq<u8>) -> MemoryView {
        MemoryView {
            bytes: splice(self.bytes, start, input),
            dirty: Seq::new(
                self.dirty.len(),
                |p: int| self.dirty[p] || touches_page(start, input.len() as int, p),
            ),
            executable: self.executable,
            generations: Seq::new(
                self.generations.len(),
                |p: int|
                    if touches_page(start, input.len() as int, p) && self.executable[p] {
                        next_generation(self.generations[p])
                    } else {
                        self.generations[p]
                    },
            ),
        }
    }
}

impl View for PhysicalMemory {
    type V = MemoryView;

    closed spec fn view(&self) -> MemoryView {
        MemoryView {
            bytes: self.bytes@,
            dirty: self.dirty_pages@,
            executable: self.executable_pages@,
            generations: self.page_generations@,
        }
    }
}

impl PhysicalMemory {
    /// The memory's bytes.
    pub open spec fn spec_bytes(&self) -> Seq<u8> {
        self@.bytes
    }

    /// Per page: written since the last `clear_dirty`.
    pub open spec fn spec_dirty(&self) -> Seq<bool> {
        self@.dirty
    }

    /// Per page: marked executable.
    pub open spec fn spec_executable(&self) -> Seq<bool> {
        self@.executable
    }

    /// Per page: the generation number.
    pub open spec fn spec_generations(&self) -> Seq<u32> {
        self@.generations
    }

    /// Number of pages.
    pub open spec fn spec_pages(&self) -> nat {
        self@.pages()
    }

    pub open spec fn wf(&self) -> bool {
        self@.wf()
    }

    /// The dirty bits after a write of `len` bytes at `start`.
    pub open spec fn dirty_after_write(&self, start: int, len: int) -> Seq<bool> {
        Seq::new(
            self.spec_dirty().len(),
            |p: int| self.spec_dirty()[p] || touches_page(start, len, p),
        )
    }

    /// The generations after a write of `len` bytes at `start`: every touched
    /// executable page advances.
    pub open spec fn generations_after_write(&self, start: int, len: int) -> Seq<u32> {
        Seq::new(
            self.spec_generations().len(),
            |p: int|
                if touches_page(start, len, p) && self.spec_executable()[p] {
                    next_generation(self.spec_generations()[p])
                } else {
                    self.spec_generations()[p]
                },
        )
    }

    /// Whether `after` is this memory after a successful write of `input` at `addr`.
    pub open spec fn written(&self, after: &PhysicalMemory, addr: u64, input: Seq<u8>) -> bool {
        after@ == self@.write(addr as int, input)
    }

    pub fn new(size: usize) -> (r: Result<PhysicalMemory, MemoryError>)
        ensures
            size % PAGE_SIZE != 0 <==> r == Err::<PhysicalMemory, MemoryError>(
                MemoryError::SizeMustBePageAligned,
            ),
            size % PAGE_SIZE == 0 <==> r is Ok,
            r matches Ok(m) ==> {
                &&& m.wf()
                &&& m.spec_bytes() == Seq::new(size as nat, |i: int| 0u8)
                &&& m.spec_dirty() == Seq::new(m.spec_pages(), |i: int| false)
                &&& m.spec_executable() == Seq::new(m.spec_pages(), |i: int| false)
                &&& m.spec_generations() == Seq::new(m.spec_pages(), |i: int| 0u32)
            },
    {
        if size % PAGE_SIZE != 0 {
            return Err(MemoryError::SizeMustBePageAligned);
        }
        let pages = size / PAGE_SIZE;
        let mut bytes: Vec<u8> = Vec::new();
        let mut i: usize = 0;
        while i < size
            invariant
                i <= size,
                bytes@ == Seq::new(i as nat, |j: int| 0u8),
            decreases size - i,
        {
            bytes.push(0);
            i += 1;
            assert(bytes@ =~= Seq::new(i as nat, |j: int| 0u8));
        }
        let mut dirty_pages: Vec<bool> = Vec::new();
        let mut executable_pages: Vec<bool> = Vec::new();
        let mut page_generations: Vec<u32> = Vec::new();
        let mut p: usize = 0;
        while p < pages
            invariant
                p <= pages,
                dirty_pages@ == Seq::new(p as nat, |j: int| false),
                executable_pages@ == Seq::new(p as nat, |j: int| false),
                page_generations@ == Seq::new(p as nat, |j: int| 0u32),
            decreases pages - p,
        {
            dirty_pages.push(false);
            executable_pages.push(false);
            page_generations.push(0);
            p += 1;
            assert(dirty_pages@ =~= Seq::new(p as nat, |j: int| false));
            assert(executable_pages@ =~= Seq::new(p as nat, |j: int| false));
            assert(page_generations@ =~= Seq::new(p as nat, |j: int| 0u32));
        }
        Ok(PhysicalMemory { bytes, dirty_pages, executable_pages, page_generations })
    }

    /// A memory of no pages.
    pub(crate) fn empty() -> (r: PhysicalMemory)
        ensures
            r.wf(),
            r@.bytes.len() == 0,
    {
        PhysicalMemory {
            bytes: Vec::new(),
            dirty_pages: Vec::new(),
            executable_pages: Vec::new(),
            page_generations: Vec::new(),
        }
    }

    /// A copy of the memory.
    pub fn duplicate(&self) -> (r: PhysicalMemory)
        ensures
            r@ == self@,
    {
        let bytes = self.bytes.clone();
        let dirty_pages = self.dirty_pages.clone();
        let executable_pages = self.executable_pages.clone();
        let page_generations = self.page_generations.clone();
        assert(bytes@ =~= self.bytes@);
        assert(dirty_pages@ =~= self.dirty_pages@);
        assert(executable_pages@ =~= self.executable_pages@);
        assert(page_generations@ =~= self.page_generations@);
        PhysicalMemory { bytes, dirty_pages, executable_pages, page_generations }
    }

    pub fn len(&self) -> (r: usize)
        ensures
            r == self.spec_bytes().len(),
    {
        self.bytes.len()
    }

    pub fn is_empty(&self) -> (r: bool)
        ensures
            r == (self.spec_bytes().len() == 0),
    {
        self.bytes.len() == 0
    }

    /// The bytes of the whole memory.
    pub fn as_bytes(&self) -> (r: &[u8])
        ensures
            r@ == self.spec_bytes(),
    {
        self.bytes.as_slice()
    }

    pub fn read(&self, addr: u64, out: &mut [u8]) -> (r: Result<(), MemoryError>)
        ensures
            in_bounds(addr, old(out)@.len() as int, self.spec_bytes().len() as int) ==> {
                &&& r is Ok
                &&& final(out)@ == self.spec_bytes().subrange(
                    addr as int,
                    addr as int + old(out)@.len(),
                )
            },
            !in_bounds(addr, old(out)@.len() as int, self.spec_bytes().len() as int) ==> {
                &&& r == Err::<(), MemoryError>(
                    MemoryError::OutOfBounds { addr, len: old(out)@.len() as usize },
                )
                &&& final(out)@ == old(out)@
            },
    {
        let len = out.len();
        let start = match self.checked_range(addr, len) {
            Ok((s, _)) => s,
            Err(e) => return Err(e),
        };
        let size = self.bytes.len();
        let mut i: usize = 0;
        while i < len
            invariant
                size == self.bytes@.len(),
                len == out@.len(),
                len == old(out)@.len(),
                start + len <= self.bytes@.len(),
                start == addr,
                i <= len,
                forall|j: int| 0 <= j < i ==> out@[j] == self.bytes@[start + j],
            decreases len - i,
        {
            out[i] = self.bytes[start + i];
            i += 1;
        }
        assert(out@ =~= self.spec_bytes().subrange(addr as int, addr as int + len));
        Ok(())
    }

    pub fn write(&mut self, addr: u64, input: &[u8]) -> (r: Result<(), MemoryError>)
        requires
            old(self).wf(),
        ensures
            final(self).wf(),
            in_bounds(addr, input@.len() as int, old(self).spec_bytes().len() as int) ==> {
                &&& r is Ok
                &&& old(self).written(final(self), addr, input@)
            },
            !in_bounds(addr, input@.len() as int, old(self).spec_bytes().len() as int) ==> {
                &&& r == Err::<(), MemoryError>(
                    MemoryError::OutOfBounds { addr, len: input@.len() as usize },
                )
                &&& *final(self) == *old(self)
            },
    {
        let len = input.len();
        let start = match self.checked_range(addr, len) {
            Ok((s, _)) => s,
            Err(e) => return Err(e),
        };
        let ghost before = self.bytes@;
        let size = self.bytes.len();
        let mut i: usize = 0;
        while i < len
            invariant
                size == self.bytes@.len(),
                len == input@.len(),
                start + len <= self.bytes@.len(),
                start == addr,
                i <= len,
                self.bytes@.len() == before.len(),
                forall|j: int| 0 <= j < i ==> self.bytes@[start + j] == input@[j],
                forall|j: int|
                    0 <= j < self.bytes@.len() && !(start <= j < start + i) ==> self.bytes@[j]
                        == before[j],
                self.dirty_pages == old(self).dirty_pages,
                self.executable_pages == old(self).executable_pages,
                self.page_generations == old(self).page_generations,
            decreases len - i,
        {
            self.bytes.set(start + i, input[i]);
            i += 1;
        }
        assert(self.bytes@ =~= splice(before, addr as int, input@));
        self.mark_dirty_range(start, len);
        assert(self@.dirty =~= old(self)@.write(addr as int, input@).dirty);
        assert(self@.generations =~= old(self)@.write(addr as int, input@).generations);
        Ok(())
    }

    pub fn read_u64_le(&self, addr: u64) -> (r: Result<u64, MemoryError>)
        ensures
            in_bounds(addr, 8, self.spec_bytes().len() as int) ==> r == Ok::<u64, MemoryError>(
                le_u64_at(self.spec_bytes(), addr as int),
            ),
            !in_bounds(addr, 8, self.spec_bytes().len() as int) ==> r == Err::<u64, MemoryError>(
                MemoryError::OutOfBounds { addr, len: 8 },
            ),
    {
        let mut bytes = [0u8; 8];
        match self.read(addr, &mut bytes) {
            Ok(()) => {},
            Err(e) => return Err(e),
        }
        Ok(u64_from_le_bytes(bytes))
    }

    pub fn read_u8(&self, addr: u64) -> (r: Result<u8, MemoryError>)
        ensures
            in_bounds(addr, 1, self.spec_bytes().len() as int) ==> r == Ok::<u8, MemoryError>(
                self.spec_bytes()[addr as int],
            ),
            !in_bounds(addr, 1, self.spec_bytes().len() as int) ==> r == Err::<u8, MemoryError>(
                MemoryError::OutOfBounds { addr, len: 1 },
            ),
    {
        let mut byte = [0u8; 1];
        match self.read(addr, &mut byte) {
            Ok(()) => {},
            Err(e) => return Err(e),
        }
        Ok(byte[0])
    }

    pub fn write_u64_le(&mut self, addr: u64, value: u64) -> (r: Result<(), MemoryError>)
        requires
            old(self).wf(),
        ensures
            final(self).wf(),
            in_bounds(addr, 8, old(self).spec_bytes().len() as int) ==> {
                &&& r is Ok
                &&& old(self).written(final(self), addr, le_bytes_u64(value))
            },
            !in_bounds(addr, 8, old(self).spec_bytes().len() as int) ==> {
                &&& r == Err::<(), MemoryError>(MemoryError::OutOfBounds { addr, len: 8 })
                &&& *final(self) == *old(self)
            },
    {
        let bytes = u64_to_le_bytes(value);
        self.write(addr, &bytes)
    }

    pub fn write_u8(&mut self, addr: u64, value: u8) -> (r: Result<(), MemoryError>)
        requires
            old(self).wf(),
        ensures
            final(self).wf(),
            in_bounds(addr, 1, old(self).spec_bytes().len() as int) ==> {
                &&& r is Ok
                &&& old(self).written(final(self), addr, seq![value])
            },
            !in_bounds(addr, 1, old(self).spec_bytes().len() as int) ==> {
                &&& r == Err::<(), MemoryError>(MemoryError::OutOfBounds { addr, len: 1 })
                &&& *final(self) == *old(self)
            },
    {
        let bytes = [value];
        assert(bytes@ =~= seq![value]);
        self.write(addr, &bytes)
    }

    /// Marks a page executable; an index past the last page does nothing.
    pub fn mark_executable(&mut self, page_index: usize)
        requires
            old(self).wf(),
        ensures
            final(self).wf(),
            final(self).spec_bytes() == old(self).spec_bytes(),
            final(self).spec_dirty() == old(self).spec_dirty(),
            final(self).spec_generations() == old(self).spec_generations(),
            page_index < old(self).spec_pages() ==> final(self).spec_executable() == old(
                self,
            ).spec_executable().update(page_index as int, true),
            page_index >= old(self).spec_pages() ==> final(self).spec_executable() == old(
                self,
            ).spec_executable(),
    {
        if page_index < self.executable_pages.len() {
            self.executable_pages.set(page_index, true);
        }
    }

    /// Marks every page that `len` bytes from `addr` touch as executable.
    pub fn mark_executable_range(&mut self, addr: u64, len: usize) -> (r: Result<(), MemoryError>)
        requires
            old(self).wf(),
        ensures
            final(self).wf(),
            in_bounds(addr, len as int, old(self).spec_bytes().len() as int) ==> {
                &&& r is Ok
                &&& final(self).spec_executable() == Seq::new(
                    old(self).spec_pages(),
                    |p: int| old(self).spec_executable()[p] || touches_page(addr as int, len as int, p),
                )
                &&& final(self).spec_bytes() == old(self).spec_bytes()
                &&& final(self).spec_dirty() == old(self).spec_dirty()
                &&& final(self).spec_generations() == old(self).spec_generations()
            },
            !in_bounds(addr, len as int, old(self).spec_bytes().len() as int) ==> {
                &&& r == Err::<(), MemoryError>(MemoryError::OutOfBounds { addr, len })
                &&& *final(self) == *old(self)
            },
    {
        let (start, end) = match self.checked_range(addr, len) {
            Ok(range) => range,
            Err(e) => return Err(e),
        };
        if len == 0 {
            assert(self.spec_executable() =~= Seq::new(
                self.spec_pages(),
                |p: int| self.spec_executable()[p] || touches_page(addr as int, len as int, p),
            ));
            return Ok(());
        }
        let first_page = start / PAGE_SIZE;
        let last_page = (end - 1) / PAGE_SIZE;
        let ghost before = self.executable_pages@;
        let mut page = first_page;
        while page <= last_page
            invariant
                self.wf(),
                first_page <= page <= last_page + 1,
                last_page < self.spec_pages(),
                first_page == start as int / PAGE_SIZE as int,
                last_page == (start + len - 1) as int / PAGE_SIZE as int,
                start == addr,
                end == start + len,
                len > 0,
                self.spec_bytes() == old(self).spec_bytes(),
                self.spec_dirty() == old(self).spec_dirty(),
                self.spec_generations() == old(self).spec_generations(),
                before == old(self).executable_pages@,
                self.executable_pages@ == Seq::new(
                    before.len(),
                    |p: int| before[p] || (first_page <= p < page),
                ),
            decreases last_page + 1 - page,
        {
            self.mark_executable(page);
            page += 1;
            assert(self.executable_pages@ =~= Seq::new(
                before.len(),
                |p: int| before[p] || (first_page <= p < page),
            ));
        }
        assert(self.spec_executable() =~= Seq::new(
            old(self).spec_pages(),
            |p: int| old(self).spec_executable()[p] || touches_page(addr as int, len as int, p),
        ));
        Ok(())
    }

    pub fn page_index_for_addr(&self, addr: u64) -> (r: Option<usize>)
        ensures
            (addr as int) < self.spec_bytes().len() ==> r == Some((addr / PAGE_SIZE as u64) as usize),
            (addr as int) >= self.spec_bytes().len() ==> r is None,
    {
        if addr < self.bytes.len() as u64 {
            Some((addr / PAGE_SIZE as u64) as usize)
        } else {
            None
        }
    }

    pub fn page_generation(&self, page_index: usize) -> (r: Option<u32>)
        ensures
            page_index < self.spec_generations().len() ==> r == Some(
                self.spec_generations()[page_index as int],
            ),
            page_index >= self.spec_generations().len() ==> r is None,
    {
        if page_index < self.page_generations.len() {
            Some(self.page_generations[page_index])
        } else {
            None
        }
    }

    /// The indexes of the dirty pages, in increasing order.
    pub fn dirty_pages(&self) -> (r: Vec<usize>)
        ensures
            forall|i: int, j: int| 0 <= i < j < r@.len() ==> r@[i] < r@[j],
            forall|i: int|
                0 <= i < r@.len() ==> r@[i] < self.spec_dirty().len() && self.spec_dirty()[r@[i] as int],
            forall|p: int|
                0 <= p < self.spec_dirty().len() && self.spec_dirty()[p] ==> r@.contains(p as usize),
    {
        let mut r: Vec<usize> = Vec::new();
        let mut index: usize = 0;
        while index < self.dirty_pages.len()
            invariant
                index <= self.dirty_pages@.len(),
                forall|i: int, j: int| 0 <= i < j < r@.len() ==> r@[i] < r@[j],
                forall|i: int| 0 <= i < r@.len() ==> r@[i] < index && self.dirty_pages@[r@[i] as int],
                forall|p: int| 0 <= p < index && self.dirty_pages@[p] ==> r@.contains(p as usize),
            decreases self.dirty_pages@.len() - index,
        {
            let ghost old_r = r@;
            if self.dirty_pages[index] {
                r.push(index);
                assert(r@[r@.len() - 1] == index);
            }
            proof {
                assert forall|p: int|
                    0 <= p < index + 1 && self.dirty_pages@[p] implies r@.contains(p as usize) by {
                    if p < index {
                        let k = choose|k: int| 0 <= k < old_r.len() && old_r[k] == p as usize;
                        assert(r@[k] == p as usize);
                    } else {
                        assert(r@[r@.len() - 1] == p as usize);
                    }
                }
            }
            index += 1;
        }
        r
    }

    pub fn clear_dirty(&mut self)
        requires
            old(self).wf(),
        ensures
            final(self).wf(),
            final(self).spec_dirty() == Seq::new(old(self).spec_pages(), |p: int| false),
            final(self).spec_bytes() == old(self).spec_bytes(),
            final(self).spec_executable() == old(self).spec_executable(),
            final(self).spec_generations() == old(self).spec_generations(),
    {
        let mut index: usize = 0;
        while index < self.dirty_pages.len()
            invariant
                index <= self.dirty_pages@.len(),
                self.dirty_pages@.len() == old(self).dirty_pages@.len(),
                forall|p: int| 0 <= p < index ==> !self.dirty_pages@[p],
                self.bytes == old(self).bytes,
                self.executable_pages == old(self).executable_pages,
                self.page_generations == old(self).page_generations,
            decreases self.dirty_pages@.len() - index,
        {
            self.dirty_pages.set(index, false);
            index += 1;
        }
        assert(self.spec_dirty() =~= Seq::new(old(self).spec_pages(), |p: int| false));
    }

    fn checked_range(&self, addr: u64, len: usize) -> (r: Result<(usize, usize), MemoryError>)
        ensures
            in_bounds(addr, len as int, self.bytes@.len() as int) <==> r is Ok,
            r matches Ok((s, e)) ==> s as int == addr as int && e as int == addr as int + len as int
                && e <= self.bytes@.len(),
            !in_bounds(addr, len as int, self.bytes@.len() as int) ==> r == Err::<
                (usize, usize),
                MemoryError,
            >(MemoryError::OutOfBounds { addr, len }),
    {
        let size = self.bytes.len();
        if addr > size as u64 {
            return Err(MemoryError::OutOfBounds { addr, len });
        }
        let start = addr as usize;
        if len > size - start {
            return Err(MemoryError::OutOfBounds { addr, len });
        }
        Ok((start, start + len))
    }

    fn mark_dirty_range(&mut self, start: usize, len: usize)
        requires
            old(self).wf(),
            start + len <= old(self).spec_bytes().len(),
        ensures
            final(self).wf(),
            final(self).spec_bytes() == old(self).spec_bytes(),
            final(self).spec_executable() == old(self).spec_executable(),
            final(self).spec_dirty() == old(self).dirty_after_write(start as int, len as int),
            final(self).spec_generations() == old(self).generations_after_write(
                start as int,
                len as int,
            ),
    {
        if len == 0 {
            assert(self.spec_dirty() =~= old(self).dirty_after_write(start as int, len as int));
            assert(self.spec_generations() =~= old(self).generations_after_write(
                start as int,
                len as int,
            ));
            return;
        }
        let size = self.bytes.len();
        let first_page = start / PAGE_SIZE;
        let last_page = (start + len - 1) / PAGE_SIZE;
        let mut page = first_page;
        while page <= last_page
            invariant
                old(self).wf(),
                self.wf(),
                len > 0,
                start + len <= old(self).spec_bytes().len(),
                first_page == start as int / PAGE_SIZE as int,
                last_page == (start + len - 1) as int / PAGE_SIZE as int,
                first_page <= page <= last_page + 1,
                last_page < old(self).spec_pages(),
                self.bytes == old(self).bytes,
                self.executable_pages == old(self).executable_pages,
                self.dirty_pages@ == Seq::new(
                    old(self).dirty_pages@.len(),
                    |p: int| old(self).dirty_pages@[p] || (first_page <= p < page),
                ),
                self.page_generations@ == Seq::new(
                    old(self).page_generations@.len(),
                    |p: int|
                        if first_page <= p < page && old(self).executable_pages@[p] {
                            next_generation(old(self).page_generations@[p])
                        } else {
                            old(self).page_generations@[p]
                        },
                ),
            decreases last_page + 1 - page,
        {
            self.dirty_pages.set(page, true);
            if self.executable_pages[page] {
                let g = self.page_generations[page];
                self.page_generations.set(page, g.wrapping_add(1));
            }
            page += 1;
            assert(self.dirty_pages@ =~= Seq::new(
                old(self).dirty_pages@.len(),
                |p: int| old(self).dirty_pages@[p] || (first_page <= p < page),
            ));
            assert(self.page_generations@ =~= Seq::new(
                old(self).page_generations@.len(),
                |p: int|
                    if first_page <= p < page && old(self).executable_pages@[p] {
                        next_generation(old(self).page_generations@[p])
                    } else {
                        old(self).page_generations@[p]
                    },
            ));
        }
        assert(self.spec_dirty() =~= old(self).dirty_after_write(start as int, len as int));
        assert(self.spec_generations() =~= old(self).generations_after_write(
            start as int,
            len as int,
        ));
    }
}

/// What a successful write puts in memory, a read of the same range gives back.
pub proof fn lemma_read_after_write(bytes: Seq<u8>, addr: u64, input: Seq<u8>)
    requires
        in_bounds(addr, input.len() as int, bytes.len() as int),
    ensures
        splice(bytes, addr as int, input).len() == bytes.len(),
        splice(bytes, addr as int, input).subrange(addr as int, addr as int + input.len())
            == input,
        forall|i: int|
            0 <= i < bytes.len() && !(addr <= i < addr + input.len()) ==> #[trigger] splice(
                bytes,
                addr as int,
                input,
            )[i] == bytes[i],
{
    assert(splice(bytes, addr as int, input).subrange(addr as int, addr as int + input.len())
        =~= input);
}

/// A 64-bit value written in little-endian order reads back as the same value.
pub proof fn lemma_u64_read_after_write(bytes: Seq<u8>, addr: u64, value: u64)
    requires
        in_bounds(addr, 8, bytes.len() as int),
    ensures
        le_u64_at(splice(bytes, addr as int, le_bytes_u64(value)), addr as int) == value,
{
    lemma_le_u64_round_trip(value);
    let s = splice(bytes, addr as int, le_bytes_u64(value));
    let b = le_bytes_u64(value);
    assert forall|k: int| 0 <= k < 8 implies s[addr + k] == b[k] by {
        assert(s[addr + k] == (bytes.subrange(0, addr as int) + b)[addr + k]);
    }
}

} // verus!
