//! Guest memory: physical frames, the mapping of linear pages onto them (a
//! missing or read-only mapping is a page fault), and the frames that were
//! written and must be dropped from the code cache.
use vstd::prelude::*;
use crate::arith::CpuException;

verus! {

pub const PAGE_SIZE: u32 = 4096;

/// Largest number of frames, and of linear pages: 4 GiB of 4 KiB pages.
pub const MAX_PAGES: usize = 0x10_0000;

#[derive(Clone, Copy, PartialEq, Eq, Structural, Debug)]
pub struct PageEntry {
    pub frame: u32,
    pub writable: bool,
}

/// What a memory holds, as values.
pub struct MemView {
    pub bytes: Seq<u8>,
    pub pages: Seq<Option<PageEntry>>,
    pub dirty: Seq<bool>,
}

impl MemView {
    pub open spec fn wf(self) -> bool {
        &&& self.bytes.len() == self.dirty.len() * PAGE_SIZE
        &&& self.dirty.len() <= MAX_PAGES
        &&& self.pages.len() <= MAX_PAGES
        &&& forall|i: int|
            0 <= i < self.pages.len() && (#[trigger] self.pages[i]) is Some ==> self.pages[i]->Some_0.frame
                < self.dirty.len()
    }

    /// Physical address of a linear one, when its page is mapped for the access.
    pub open spec fn translate(self, addr: u32, write: bool) -> Option<u32> {
        let page = addr / PAGE_SIZE;
        if page < self.pages.len() && self.pages[page as int] is Some && (!write
            || self.pages[page as int]->Some_0.writable) {
            Some(
                (self.pages[page as int]->Some_0.frame * PAGE_SIZE + addr % PAGE_SIZE) as u32,
            )
        } else {
            None
        }
    }

    #[verifier::opaque]
    pub open spec fn accessible(self, addr: u32, size: u32, write: bool) -> bool {
        &&& self.translate(addr, write) is Some
        &&& size >= 2 ==> self.translate(addr.wrapping_add(1), write) is Some
        &&& size >= 4 ==> self.translate(addr.wrapping_add(2), write) is Some
            && self.translate(addr.wrapping_add(3), write) is Some
    }

    pub open spec fn byte(self, addr: u32) -> u8 {
        self.bytes[self.translate(addr, false)->Some_0 as int]
    }

    /// Little-endian value of `size` bytes (1, 2 or 4) from a linear address.
    #[verifier::opaque]
    pub open spec fn read_value(self, addr: u32, size: u32) -> u32 {
        if size == 1 {
            self.byte(addr) as u32
        } else if size == 2 {
            (self.byte(addr) + 0x100 * self.byte(addr.wrapping_add(1))) as u32
        } else {
            (self.byte(addr) + 0x100 * self.byte(addr.wrapping_add(1)) + 0x1_0000 * self.byte(
                addr.wrapping_add(2),
            ) + 0x100_0000 * self.byte(addr.wrapping_add(3))) as u32
        }
    }

    pub open spec fn write_phys_byte(self, p: u32, v: u8) -> MemView {
        MemView {
            bytes: self.bytes.update(p as int, v),
            dirty: self.dirty.update((p / PAGE_SIZE) as int, true),
            ..self
        }
    }

    pub open spec fn write_byte(self, addr: u32, v: u8) -> MemView {
        self.write_phys_byte(self.translate(addr, true)->Some_0, v)
    }

    /// Memory after writing the `size` low bytes of `v`, little-endian, at a
    /// linear address.
    #[verifier::opaque]
    pub open spec fn write_value(self, addr: u32, size: u32, v: u32) -> MemView {
        let m1 = self.write_byte(addr, (v % 0x100) as u8);
        if size == 1 {
            m1
        } else {
            let m2 = m1.write_byte(addr.wrapping_add(1), (v / 0x100 % 0x100) as u8);
            if size == 2 {
                m2
            } else {
                m2.write_byte(addr.wrapping_add(2), (v / 0x1_0000 % 0x100) as u8).write_byte(
                    addr.wrapping_add(3),
                    (v / 0x100_0000 % 0x100) as u8,
                )
            }
        }
    }
}

pub open spec fn valid_unit(size: u32) -> bool {
    size == 1 || size == 2 || size == 4
}

pub open spec fn unit_max(size: u32) -> int {
    if size == 1 {
        0x100
    } else if size == 2 {
        0x1_0000
    } else {
        0x1_0000_0000
    }
}

pub struct Memory {
    /// Physical memory, a whole number of frames.
    pub bytes: Vec<u8>,
    /// The frame that each linear page maps to, if any.
    pub pages: Vec<Option<PageEntry>>,
    /// Frames written since the code cache last looked at them.
    pub dirty: Vec<bool>,
}

impl View for Memory {
    type V = MemView;

    open spec fn view(&self) -> MemView {
        MemView { bytes: self.bytes@, pages: self.pages@, dirty: self.dirty@ }
    }
}

impl Memory {
    /// `frames` zeroed frames, each linear page below `frames` mapped onto the
    /// frame of the same number, writable.
    pub fn identity(frames: usize) -> (r: Memory)
        requires
            frames < MAX_PAGES,
        ensures
            r@.wf(),
            r@.bytes.len() == frames * PAGE_SIZE,
            r@.pages.len() == frames,
            forall|i: int|
                0 <= i < frames ==> #[trigger] r@.pages[i] == Some(
                    PageEntry { frame: i as u32, writable: true },
                ),
            forall|i: int| 0 <= i < r@.bytes.len() ==> #[trigger] r@.bytes[i] == 0,
            forall|i: int| 0 <= i < frames ==> !#[trigger] r@.dirty[i],
    {
        let mut bytes: Vec<u8> = Vec::new();
        let n = frames * 4096;
        while bytes.len() < n
            invariant
                bytes.len() <= n,
                n == frames * 4096,
                forall|i: int| 0 <= i < bytes.len() ==> #[trigger] bytes@[i] == 0,
            decreases n - bytes.len(),
        {
            bytes.push(0);
        }
        let mut pages: Vec<Option<PageEntry>> = Vec::new();
        let mut dirty: Vec<bool> = Vec::new();
        while pages.len() < frames
            invariant
                pages.len() <= frames <= MAX_PAGES,
                dirty.len() == pages.len(),
                forall|i: int|
                    0 <= i < pages.len() ==> #[trigger] pages@[i] == Some(
                        PageEntry { frame: i as u32, writable: true },
                    ),
                forall|i: int| 0 <= i < dirty.len() ==> !#[trigger] dirty@[i],
            decreases frames - pages.len(),
        {
            pages.push(Some(PageEntry { frame: pages.len() as u32, writable: true }));
            dirty.push(false);
        }
        Memory { bytes, pages, dirty }
    }

    /// Maps a linear page onto a frame, or unmaps it.
    pub fn set_page(&mut self, page: u32, entry: Option<PageEntry>)
        requires
            old(self)@.wf(),
            page < old(self)@.pages.len(),
            entry is Some ==> entry->Some_0.frame < old(self)@.dirty.len(),
        ensures
            final(self)@ == (MemView { pages: old(self)@.pages.update(page as int, entry), ..old(self)@ }),
            final(self)@.wf(),
    {
        self.pages.set(page as usize, entry);
    }

    /// Physical address of a linear one for a read, or the page fault.
    pub fn translate_address_read(&self, addr: u32) -> (r: Result<u32, CpuException>)
        requires
            self@.wf(),
        ensures
            r == match self@.translate(addr, false) {
                Some(p) => Ok::<u32, CpuException>(p),
                None => Err(CpuException::PageFault { address: addr, write: false }),
            },
    {
        self.translate(addr, false)
    }

    /// Physical address of a linear one for a write, or the page fault.
    pub fn translate_address_write(&self, addr: u32) -> (r: Result<u32, CpuException>)
        requires
            self@.wf(),
        ensures
            r == match self@.translate(addr, true) {
                Some(p) => Ok::<u32, CpuException>(p),
                None => Err(CpuException::PageFault { address: addr, write: true }),
            },
    {
        self.translate(addr, true)
    }

    fn translate(&self, addr: u32, write: bool) -> (r: Result<u32, CpuException>)
        requires
            self@.wf(),
        ensures
            r == match self@.translate(addr, write) {
                Some(p) => Ok::<u32, CpuException>(p),
                None => Err(CpuException::PageFault { address: addr, write: write }),
            },
            r is Ok ==> r->Ok_0 < self@.bytes.len(),
    {
        let page = addr / PAGE_SIZE;
        if (page as usize) < self.pages.len() {
            match self.pages[page as usize] {
                Some(e) => {
                    if !write || e.writable {
                        assert(self@.pages[page as int] is Some);
                        return Ok(e.frame * PAGE_SIZE + addr % PAGE_SIZE);
                    }
                },
                None => {},
            }
        }
        Err(CpuException::PageFault { address: addr, write })
    }

    /// Tells the code cache that a frame was written.
    pub fn jit_dirty_page(&mut self, frame: u32)
        requires
            old(self)@.wf(),
            frame < old(self)@.dirty.len(),
        ensures
            final(self)@ == (MemView { dirty: old(self)@.dirty.update(frame as int, true), ..old(self)@ }),
            final(self)@.wf(),
    {
        self.dirty.set(frame as usize, true);
    }

    pub fn read8(&self, p: u32) -> (v: u32)
        requires
            p < self@.bytes.len(),
        ensures
            v == self@.bytes[p as int],
    {
        self.bytes[p as usize] as u32
    }

    /// Writes a byte of physical memory and marks its frame dirty.
    pub fn write8(&mut self, p: u32, v: u32)
        requires
            old(self)@.wf(),
            p < old(self)@.bytes.len(),
        ensures
            final(self)@ == old(self)@.write_phys_byte(p, v as u8),
            final(self)@.wf(),
    {
        self.bytes.set(p as usize, v as u8);
        self.dirty.set((p / PAGE_SIZE) as usize, true);
    }

    /// Writes a byte of physical memory whose frame is already marked dirty.
    pub fn write8_no_mmap_or_dirty_check(&mut self, p: u32, v: u32)
        requires
            old(self)@.wf(),
            p < old(self)@.bytes.len(),
            old(self)@.dirty[(p / PAGE_SIZE) as int],
        ensures
            final(self)@ == old(self)@.write_phys_byte(p, v as u8),
            final(self)@.wf(),
    {
        self.bytes.set(p as usize, v as u8);
        assert(final(self)@.dirty =~= old(self)@.dirty.update((p / PAGE_SIZE) as int, true));
    }
}

impl Memory {
    /// Reads `size` bytes (1, 2 or 4) from a linear address, little-endian,
    /// or the page fault of the first byte that is not mapped.
    pub fn safe_read(&self, addr: u32, size: u32) -> (r: Result<u32, CpuException>)
        requires
            self@.wf(),
            valid_unit(size),
        ensures
            self@.accessible(addr, size, false) ==> r == Ok::<u32, CpuException>(
                self@.read_value(addr, size),
            ),
            !self@.accessible(addr, size, false) ==> r is Err && r->Err_0 is PageFault,
            r is Ok ==> r->Ok_0 < unit_max(size),
    {
        reveal(MemView::accessible);
        reveal(MemView::read_value);
        let p0 = match self.translate(addr, false) {
            Ok(p) => p,
            Err(e) => return Err(e),
        };
        let b0 = self.bytes[p0 as usize] as u32;
        if size == 1 {
            return Ok(b0);
        }
        let p1 = match self.translate(addr.wrapping_add(1), false) {
            Ok(p) => p,
            Err(e) => return Err(e),
        };
        let b1 = self.bytes[p1 as usize] as u32;
        if size == 2 {
            return Ok(b0 + 0x100 * b1);
        }
        let p2 = match self.translate(addr.wrapping_add(2), false) {
            Ok(p) => p,
            Err(e) => return Err(e),
        };
        let p3 = match self.translate(addr.wrapping_add(3), false) {
            Ok(p) => p,
            Err(e) => return Err(e),
        };
        let b2 = self.bytes[p2 as usize] as u32;
        let b3 = self.bytes[p3 as usize] as u32;
        Ok(b0 + 0x100 * b1 + 0x1_0000 * b2 + 0x100_0000 * b3)
    }

    /// Fails with the page fault of the first of `size` bytes at a linear
    /// address that cannot be written, and changes nothing.
    pub fn writable_or_pagefault(&self, addr: u32, size: u32) -> (r: Result<(), CpuException>)
        requires
            self@.wf(),
            valid_unit(size),
        ensures
            self@.accessible(addr, size, true) <==> r is Ok,
            r is Err ==> r->Err_0 is PageFault,
    {
        reveal(MemView::accessible);
        match self.translate(addr, true) {
            Ok(_) => {},
            Err(e) => return Err(e),
        }
        if size >= 2 {
            match self.translate(addr.wrapping_add(1), true) {
                Ok(_) => {},
                Err(e) => return Err(e),
            }
        }
        if size >= 4 {
            match self.translate(addr.wrapping_add(2), true) {
                Ok(_) => {},
                Err(e) => return Err(e),
            }
            match self.translate(addr.wrapping_add(3), true) {
                Ok(_) => {},
                Err(e) => return Err(e),
            }
        }
        Ok(())
    }

    fn write_linear_byte(&mut self, addr: u32, v: u32)
        requires
            old(self)@.wf(),
            old(self)@.translate(addr, true) is Some,
        ensures
            final(self)@ == old(self)@.write_byte(addr, v as u8),
            final(self)@.wf(),
    {
        let p = match self.translate(addr, true) {
            Ok(p) => p,
            Err(_) => 0,
        };
        self.write8(p, v);
    }

    /// Writes the `size` low bytes of `v` at a linear address, little-endian;
    /// if any of them cannot be written, nothing is written.
    pub fn safe_write(&mut self, addr: u32, size: u32, v: u32) -> (r: Result<(), CpuException>)
        requires
            old(self)@.wf(),
            valid_unit(size),
        ensures
            old(self)@.accessible(addr, size, true) ==> r is Ok && final(self)@ == old(
                self,
            )@.write_value(addr, size, v),
            !old(self)@.accessible(addr, size, true) ==> r is Err && r->Err_0 is PageFault
                && final(self)@ == old(self)@,
            final(self)@.wf(),
    {
        reveal(MemView::accessible);
        reveal(MemView::write_value);
        match self.writable_or_pagefault(addr, size) {
            Ok(()) => {},
            Err(e) => return Err(e),
        }
        self.write_linear_byte(addr, v % 0x100);
        if size >= 2 {
            self.write_linear_byte(addr.wrapping_add(1), v / 0x100 % 0x100);
        }
        if size >= 4 {
            self.write_linear_byte(addr.wrapping_add(2), v / 0x1_0000 % 0x100);
            self.write_linear_byte(addr.wrapping_add(3), v / 0x100_0000 % 0x100);
        }
        Ok(())
    }
}

impl MemView {
    /// The `size` bytes of the unit at `addr` sit at `p`, `p + 1`, ... of
    /// physical memory.
    #[verifier::opaque]
    pub open spec fn contiguous(self, addr: u32, size: u32, write: bool, p: u32) -> bool {
        &&& self.translate(addr, write) == Some(p)
        &&& size >= 2 ==> self.translate(addr.wrapping_add(1), write) == Some((p + 1) as u32)
        &&& size >= 4 ==> self.translate(addr.wrapping_add(2), write) == Some((p + 2) as u32)
            && self.translate(addr.wrapping_add(3), write) == Some((p + 3) as u32)
    }

    #[verifier::opaque]
    pub open spec fn read_phys_value(self, p: u32, size: u32) -> u32 {
        if size == 1 {
            self.bytes[p as int] as u32
        } else if size == 2 {
            (self.bytes[p as int] + 0x100 * self.bytes[p + 1]) as u32
        } else {
            (self.bytes[p as int] + 0x100 * self.bytes[p + 1] + 0x1_0000 * self.bytes[p + 2]
                + 0x100_0000 * self.bytes[p + 3]) as u32
        }
    }

    #[verifier::opaque]
    pub open spec fn write_phys_value(self, p: u32, size: u32, v: u32) -> MemView {
        let m1 = self.write_phys_byte(p, (v % 0x100) as u8);
        if size == 1 {
            m1
        } else {
            let m2 = m1.write_phys_byte((p + 1) as u32, (v / 0x100 % 0x100) as u8);
            if size == 2 {
                m2
            } else {
                m2.write_phys_byte((p + 2) as u32, (v / 0x1_0000 % 0x100) as u8).write_phys_byte(
                    (p + 3) as u32,
                    (v / 0x100_0000 % 0x100) as u8,
                )
            }
        }
    }

    /// The same memory with one more frame marked dirty.
    pub open spec fn mark_dirty(self, frame: int) -> MemView {
        MemView { dirty: self.dirty.update(frame, true), ..self }
    }
}

impl Memory {
    /// Reads a unit of physical memory.
    pub fn read_phys(&self, p: u32, size: u32) -> (v: u32)
        requires
            self@.wf(),
            valid_unit(size),
            p + size <= self@.bytes.len(),
        ensures
            v == self@.read_phys_value(p, size),
            v < unit_max(size),
    {
        reveal(MemView::read_phys_value);
        let b0 = self.bytes[p as usize] as u32;
        if size == 1 {
            return b0;
        }
        let b1 = self.bytes[(p + 1) as usize] as u32;
        if size == 2 {
            return b0 + 0x100 * b1;
        }
        let b2 = self.bytes[(p + 2) as usize] as u32;
        let b3 = self.bytes[(p + 3) as usize] as u32;
        b0 + 0x100 * b1 + 0x1_0000 * b2 + 0x100_0000 * b3
    }

    /// Writes a unit of physical memory inside one frame that is already
    /// marked dirty, so no further notice goes to the code cache.
    pub fn write_phys_no_dirty_check(&mut self, p: u32, size: u32, v: u32)
        requires
            old(self)@.wf(),
            valid_unit(size),
            p + size <= old(self)@.bytes.len(),
            (p as int) / 4096 == (p + size - 1) / 4096,
            old(self)@.dirty[(p / PAGE_SIZE) as int],
        ensures
            final(self)@ == old(self)@.write_phys_value(p, size, v),
            final(self)@.wf(),
    {
        reveal(MemView::write_phys_value);
        self.write8_no_mmap_or_dirty_check(p, v % 0x100);
        if size >= 2 {
            self.write8_no_mmap_or_dirty_check(p + 1, v / 0x100 % 0x100);
        }
        if size >= 4 {
            self.write8_no_mmap_or_dirty_check(p + 2, v / 0x1_0000 % 0x100);
            self.write8_no_mmap_or_dirty_check(p + 3, v / 0x100_0000 % 0x100);
        }
    }
}

pub proof fn lemma_translate_range(m: MemView, addr: u32, write: bool)
    requires
        m.wf(),
        m.translate(addr, write) is Some,
    ensures
        m.translate(addr, write)->Some_0 < m.bytes.len(),
        m.translate(addr, write)->Some_0 / PAGE_SIZE < m.dirty.len(),
{
    let e = m.pages[(addr / PAGE_SIZE) as int]->Some_0;
    assert(e.frame < m.dirty.len());
    assert(e.frame * PAGE_SIZE + addr % PAGE_SIZE < m.bytes.len()) by (nonlinear_arith)
        requires
            e.frame < m.dirty.len(),
            m.bytes.len() == m.dirty.len() * PAGE_SIZE,
            addr % PAGE_SIZE < PAGE_SIZE,
    ;
}

/// Writing an accessible unit keeps the shape of memory.
pub proof fn lemma_write_value_shape(m: MemView, addr: u32, size: u32, v: u32)
    requires
        m.wf(),
        valid_unit(size),
        m.accessible(addr, size, true),
    ensures
        m.write_value(addr, size, v).pages == m.pages,
        m.write_value(addr, size, v).bytes.len() == m.bytes.len(),
        m.write_value(addr, size, v).dirty.len() == m.dirty.len(),
        m.write_value(addr, size, v).wf(),
{
    reveal(MemView::accessible);
    reveal(MemView::write_value);
    lemma_translate_range(m, addr, true);
    let m1 = m.write_byte(addr, (v % 0x100) as u8);
    if size >= 2 {
        lemma_translate_range(m1, addr.wrapping_add(1), true);
        let m2 = m1.write_byte(addr.wrapping_add(1), (v / 0x100 % 0x100) as u8);
        if size >= 4 {
            lemma_translate_range(m2, addr.wrapping_add(2), true);
            let m3 = m2.write_byte(addr.wrapping_add(2), (v / 0x1_0000 % 0x100) as u8);
            lemma_translate_range(m3, addr.wrapping_add(3), true);
        }
    }
}

/// Marking the frame of a write before it, or after it, changes nothing.
pub proof fn lemma_mark_and_write(m: MemView, p: u32, size: u32, v: u32, f: int)
    requires
        valid_unit(size),
        p as int / 4096 == f,
        (p + size - 1) / 4096 == f,
        p + size <= m.bytes.len(),
        m.bytes.len() == m.dirty.len() * 4096,
    ensures
        m.mark_dirty(f).write_phys_value(p, size, v) == m.write_phys_value(p, size, v),
        m.write_phys_value(p, size, v).mark_dirty(f) == m.write_phys_value(p, size, v),
        m.write_phys_value(p, size, v).dirty[f],
        m.write_phys_value(p, size, v).bytes.len() == m.bytes.len(),
        m.write_phys_value(p, size, v).dirty.len() == m.dirty.len(),
        m.write_phys_value(p, size, v).pages == m.pages,
        forall|p2: u32| #[trigger] m.mark_dirty(f).read_phys_value(p2, size) == m.read_phys_value(p2, size),
{
    reveal(MemView::write_phys_value);
    reveal(MemView::read_phys_value);
    let q = p as int;
    assert forall|j: int| 0 <= j < size implies #[trigger] ((q + j) / 4096) == f by {
        vstd::arithmetic::div_mod::lemma_div_is_ordered(q, q + j, 4096);
        vstd::arithmetic::div_mod::lemma_div_is_ordered(q + j, q + size - 1, 4096);
    }
    assert((q + 0) / 4096 == f);
    vstd::arithmetic::div_mod::lemma_div_is_ordered(q, m.bytes.len() - 1, 4096);
    vstd::arithmetic::div_mod::lemma_fundamental_div_mod_converse(
        m.bytes.len() - 1,
        4096,
        m.dirty.len() - 1,
        4095,
    );
    assert(f < m.dirty.len());
    assert((q + 1) / 4096 == f || size < 2);
    assert((q + 2) / 4096 == f || size < 4);
    assert((q + 3) / 4096 == f || size < 4);
    let w1 = m.mark_dirty(f).write_phys_value(p, size, v);
    let w2 = m.write_phys_value(p, size, v);
    assert(w1.bytes =~= w2.bytes);
    assert(w1.dirty =~= w2.dirty);
    assert(w2.mark_dirty(f).dirty =~= w2.dirty);
}

/// Whether a unit can be reached depends on the page mapping alone.
pub proof fn lemma_same_pages(a: MemView, b: MemView, addr: u32, size: u32, write: bool)
    requires
        a.pages == b.pages,
    ensures
        a.accessible(addr, size, write) == b.accessible(addr, size, write),
        forall|p: u32| a.contiguous(addr, size, write, p) == b.contiguous(addr, size, write, p),
        forall|p: u32| a.contiguous(addr, size, write, p) ==> a.accessible(addr, size, write),
{
    reveal(MemView::accessible);
    reveal(MemView::contiguous);
}

/// A unit whose bytes lie contiguously in physical memory reads and writes
/// as the physical unit does.
pub proof fn lemma_contiguous_unit(m: MemView, addr: u32, size: u32, p: u32, v: u32)
    requires
        valid_unit(size),
        p + size <= 0x1_0000_0000,
    ensures
        m.contiguous(addr, size, false, p) ==> m.read_value(addr, size) == m.read_phys_value(
            p,
            size,
        ),
        m.contiguous(addr, size, true, p) ==> m.write_value(addr, size, v) == m.write_phys_value(
            p,
            size,
            v,
        ),
{
    reveal(MemView::contiguous);
    reveal(MemView::read_value);
    reveal(MemView::read_phys_value);
    reveal(MemView::write_value);
    reveal(MemView::write_phys_value);
}

} // verus!
