//! The linear memory manager: a contiguous byte buffer addressed by
//! unsigned offsets, growable in whole pages up to a fixed maximum, with
//! bounds-checked loads and stores.  Every guest-visible address is an
//! offset into this buffer, never a host pointer — an access outside the
//! current size fails (the interpreter turns that into a trap), and a
//! growth request beyond the maximum fails without trapping.

use vstd::prelude::*;

use crate::bytes::{le16, le32, le64, rd16, rd32, rd64};
use crate::module::{MAX_PAGES, PAGE_SIZE};

verus! {

/// The value a failed growth request returns to the guest.
pub const GROW_FAIL: u64 = 0xffff_ffff_ffff_ffff;

/// `m` with the bytes of `bs` written at offset `a`; everything else
/// unchanged.
pub open spec fn store_bytes(m: Seq<u8>, a: int, bs: Seq<u8>) -> Seq<u8> {
    Seq::new(
        m.len(),
        |i: int|
            if a <= i < a + bs.len() {
                bs[i - a]
            } else {
                m[i]
            },
    )
}

/// A guest linear memory.  The view is the byte contents; the page
/// maximum is fixed at construction.
pub struct Memory {
    data: Vec<u8>,
    max_pages: u32,
}

impl View for Memory {
    type V = Seq<u8>;

    closed spec fn view(&self) -> Seq<u8> {
        self.data@
    }
}

impl Memory {
    /// The page ceiling this memory was created with.
    pub closed spec fn spec_max_pages(&self) -> u32 {
        self.max_pages
    }

    /// Internal consistency: whole pages only, within the ceiling.
    pub closed spec fn wf(&self) -> bool {
        &&& self.max_pages <= MAX_PAGES
        &&& (self.data@.len() as int) % (PAGE_SIZE as int) == 0
        &&& self.data@.len() <= self.max_pages * PAGE_SIZE
    }

    /// A fresh memory of `initial_pages` zeroed pages.
    pub fn new(initial_pages: u32, max_pages: u32) -> (m: Memory)
        requires
            initial_pages <= max_pages,
            max_pages <= MAX_PAGES,
        ensures
            m.wf(),
            m.spec_max_pages() == max_pages,
            m@.len() == initial_pages * PAGE_SIZE,
            forall|i: int| 0 <= i < m@.len() ==> m@[i] == 0,
    {
        proof {
            assert(initial_pages * PAGE_SIZE <= MAX_PAGES * PAGE_SIZE) by (nonlinear_arith)
                requires
                    initial_pages <= MAX_PAGES,
                    PAGE_SIZE > 0,
            ;
        }
        let total: usize = (initial_pages as usize) * (PAGE_SIZE as usize);
        let mut data: Vec<u8> = Vec::new();
        let mut i: usize = 0;
        while i < total
            invariant
                i <= total,
                data@.len() == i,
                forall|k: int| 0 <= k < i ==> data@[k] == 0,
            decreases total - i,
        {
            data.push(0);
            i += 1;
        }
        proof {
            assert((total as int) % (PAGE_SIZE as int) == 0) by (nonlinear_arith)
                requires
                    total == initial_pages * PAGE_SIZE,
            ;
            assert(initial_pages * PAGE_SIZE <= max_pages * PAGE_SIZE) by (nonlinear_arith)
                requires
                    initial_pages <= max_pages,
            ;
        }
        Memory { data, max_pages }
    }

    /// The current size in bytes.
    pub fn size(&self) -> (n: usize)
        ensures
            n == self@.len(),
    {
        self.data.len()
    }

    /// The current size in pages.
    pub fn pages(&self) -> (n: u64)
        requires
            self.wf(),
        ensures
            n == (self@.len() as int) / (PAGE_SIZE as int),
    {
        (self.data.len() / (PAGE_SIZE as usize)) as u64
    }

    /// Grows the memory by `delta` zeroed pages.  Returns the old page
    /// count on success; returns `GROW_FAIL`, leaving the memory
    /// unchanged, when the request would pass the page ceiling.
    pub fn grow(&mut self, delta: u64) -> (r: u64)
        requires
            old(self).wf(),
        ensures
            final(self).wf(),
            final(self).spec_max_pages() == old(self).spec_max_pages(),
            old(self)@.len() + delta * PAGE_SIZE <= old(self).spec_max_pages() * PAGE_SIZE
                ==> {
                &&& r == (old(self)@.len() as int) / (PAGE_SIZE as int)
                &&& final(self)@.len() == old(self)@.len() + delta * PAGE_SIZE
                &&& forall|i: int| 0 <= i < old(self)@.len() ==> final(self)@[i] == old(self)@[i]
                &&& forall|i: int|
                    old(self)@.len() <= i < final(self)@.len() ==> final(self)@[i] == 0
            },
            old(self)@.len() + delta * PAGE_SIZE > old(self).spec_max_pages() * PAGE_SIZE ==> r
                == GROW_FAIL && final(self)@ == old(self)@,
    {
        let cur_pages: u64 = (self.data.len() / (PAGE_SIZE as usize)) as u64;
        proof {
            assert(self.data@.len() as int == ((self.data@.len() as int) / (PAGE_SIZE as int)) * PAGE_SIZE)
                by (nonlinear_arith)
                requires
                    (self.data@.len() as int) % (PAGE_SIZE as int) == 0,
                    PAGE_SIZE > 0,
            ;
        }
        if delta > self.max_pages as u64 || cur_pages + delta > self.max_pages as u64 {
            proof {
                assert((cur_pages + delta) * PAGE_SIZE > self.max_pages * PAGE_SIZE)
                    by (nonlinear_arith)
                    requires
                        cur_pages + delta > self.max_pages,
                        PAGE_SIZE > 0,
                ;
                assert(cur_pages * PAGE_SIZE + delta * PAGE_SIZE == (cur_pages + delta)
                    * PAGE_SIZE) by (nonlinear_arith);
            }
            return GROW_FAIL;
        }
        let add: usize = (delta as usize) * (PAGE_SIZE as usize);
        proof {
            assert(delta * PAGE_SIZE <= MAX_PAGES * PAGE_SIZE) by (nonlinear_arith)
                requires
                    delta <= MAX_PAGES,
                    PAGE_SIZE > 0,
            ;
            assert(cur_pages * PAGE_SIZE + delta * PAGE_SIZE == (cur_pages + delta)
                * PAGE_SIZE) by (nonlinear_arith);
            assert((cur_pages + delta) * PAGE_SIZE <= self.max_pages * PAGE_SIZE)
                by (nonlinear_arith)
                requires
                    cur_pages + delta <= self.max_pages,
                    PAGE_SIZE > 0,
            ;
        }
        let mut i: usize = 0;
        while i < add
            invariant
                i <= add,
                self.data@.len() == old(self)@.len() + i,
                self.max_pages == old(self).spec_max_pages(),
                forall|k: int| 0 <= k < old(self)@.len() ==> self.data@[k] == old(self)@[k],
                forall|k: int|
                    old(self)@.len() <= k < self.data@.len() ==> self.data@[k] == 0,
            decreases add - i,
        {
            self.data.push(0);
            i += 1;
        }
        proof {
            let oldlen = old(self)@.len() as int;
            let newlen = oldlen + delta * PAGE_SIZE;
            assert(oldlen % (PAGE_SIZE as int) == 0);
            assert(newlen % (PAGE_SIZE as int) == 0) by (nonlinear_arith)
                requires
                    oldlen % (PAGE_SIZE as int) == 0,
                    newlen == oldlen + delta * PAGE_SIZE,
                    PAGE_SIZE > 0,
            ;
        }
        cur_pages
    }

    /// Loads the byte at `addr`; fails outside the current size.
    pub fn load8(&self, addr: u64) -> (r: Option<u64>)
        ensures
            match r {
                Some(v) => addr + 1 <= self@.len() && v == self@[addr as int],
                None => addr + 1 > self@.len(),
            },
    {
        let n = self.data.len();
        if addr >= n as u64 {
            return None;
        }
        Some(self.data[addr as usize] as u64)
    }

    /// Loads the 16-bit little-endian value at `addr`.
    pub fn load16(&self, addr: u64) -> (r: Option<u64>)
        ensures
            match r {
                Some(v) => addr + 2 <= self@.len() && v == rd16(
                    self@.subrange(addr as int, addr + 2),
                ),
                None => addr + 2 > self@.len(),
            },
    {
        let n = self.data.len();
        if n < 2 || addr > (n - 2) as u64 {
            return None;
        }
        let a = addr as usize;
        let v = (self.data[a] as u16) | (self.data[a + 1] as u16) << 8;
        proof {
            let s = self@.subrange(addr as int, addr + 2);
            assert(s[0] == self@[addr as int] && s[1] == self@[addr + 1]);
        }
        Some(v as u64)
    }

    /// Loads the 32-bit little-endian value at `addr`.
    pub fn load32(&self, addr: u64) -> (r: Option<u64>)
        ensures
            match r {
                Some(v) => addr + 4 <= self@.len() && v == rd32(
                    self@.subrange(addr as int, addr + 4),
                ),
                None => addr + 4 > self@.len(),
            },
    {
        let n = self.data.len();
        if n < 4 || addr > (n - 4) as u64 {
            return None;
        }
        let a = addr as usize;
        let v = (self.data[a] as u32) | (self.data[a + 1] as u32) << 8 | (self.data[a + 2]
            as u32) << 16 | (self.data[a + 3] as u32) << 24;
        proof {
            let s = self@.subrange(addr as int, addr + 4);
            assert(s[0] == self@[addr as int] && s[1] == self@[addr + 1] && s[2] == self@[addr
                + 2] && s[3] == self@[addr + 3]);
        }
        Some(v as u64)
    }

    /// Loads the 64-bit little-endian value at `addr`.
    pub fn load64(&self, addr: u64) -> (r: Option<u64>)
        ensures
            match r {
                Some(v) => addr + 8 <= self@.len() && v == rd64(
                    self@.subrange(addr as int, addr + 8),
                ),
                None => addr + 8 > self@.len(),
            },
    {
        let n = self.data.len();
        if n < 8 || addr > (n - 8) as u64 {
            return None;
        }
        let a = addr as usize;
        let v = (self.data[a] as u64) | (self.data[a + 1] as u64) << 8 | (self.data[a + 2]
            as u64) << 16 | (self.data[a + 3] as u64) << 24 | (self.data[a + 4] as u64) << 32 | (
        self.data[a + 5] as u64) << 40 | (self.data[a + 6] as u64) << 48 | (self.data[a + 7]
            as u64) << 56;
        proof {
            let s = self@.subrange(addr as int, addr + 8);
            assert(s[0] == self@[addr as int] && s[1] == self@[addr + 1] && s[2] == self@[addr
                + 2] && s[3] == self@[addr + 3] && s[4] == self@[addr + 4] && s[5] == self@[addr
                + 5] && s[6] == self@[addr + 6] && s[7] == self@[addr + 7]);
        }
        Some(v)
    }

    /// Stores the low byte of `v` at `addr`; fails outside the current
    /// size, leaving the memory unchanged.
    pub fn store8(&mut self, addr: u64, v: u64) -> (ok: bool)
        requires
            old(self).wf(),
        ensures
            final(self).wf(),
            final(self).spec_max_pages() == old(self).spec_max_pages(),
            ok ==> addr + 1 <= old(self)@.len() && final(self)@ == store_bytes(
                old(self)@,
                addr as int,
                seq![(v & 0xff) as u8],
            ),
            !ok ==> addr + 1 > old(self)@.len() && final(self)@ == old(self)@,
    {
        let n = self.data.len();
        if addr >= n as u64 {
            return false;
        }
        self.data.set(addr as usize, (v & 0xff) as u8);
        proof {
            assert(self.data@ =~= store_bytes(old(self)@, addr as int, seq![(v & 0xff) as u8]));
        }
        true
    }

    /// Stores the low 16 bits of `v` at `addr`, little-endian.
    pub fn store16(&mut self, addr: u64, v: u64) -> (ok: bool)
        requires
            old(self).wf(),
        ensures
            final(self).wf(),
            final(self).spec_max_pages() == old(self).spec_max_pages(),
            ok ==> addr + 2 <= old(self)@.len() && final(self)@ == store_bytes(
                old(self)@,
                addr as int,
                le16((v & 0xffff) as u16),
            ),
            !ok ==> addr + 2 > old(self)@.len() && final(self)@ == old(self)@,
    {
        let n = self.data.len();
        if n < 2 || addr > (n - 2) as u64 {
            return false;
        }
        let a = addr as usize;
        let x = (v & 0xffff) as u16;
        self.data.set(a, (x & 0xff) as u8);
        self.data.set(a + 1, ((x >> 8) & 0xff) as u8);
        proof {
            assert(self.data@ =~= store_bytes(old(self)@, addr as int, le16(x)));
        }
        true
    }

    /// Stores the low 32 bits of `v` at `addr`, little-endian.
    pub fn store32(&mut self, addr: u64, v: u64) -> (ok: bool)
        requires
            old(self).wf(),
        ensures
            final(self).wf(),
            final(self).spec_max_pages() == old(self).spec_max_pages(),
            ok ==> addr + 4 <= old(self)@.len() && final(self)@ == store_bytes(
                old(self)@,
                addr as int,
                le32((v & 0xffff_ffff) as u32),
            ),
            !ok ==> addr + 4 > old(self)@.len() && final(self)@ == old(self)@,
    {
        let n = self.data.len();
        if n < 4 || addr > (n - 4) as u64 {
            return false;
        }
        let a = addr as usize;
        let x = (v & 0xffff_ffff) as u32;
        self.data.set(a, (x & 0xff) as u8);
        self.data.set(a + 1, ((x >> 8) & 0xff) as u8);
        self.data.set(a + 2, ((x >> 16) & 0xff) as u8);
        self.data.set(a + 3, ((x >> 24) & 0xff) as u8);
        proof {
            assert(self.data@ =~= store_bytes(old(self)@, addr as int, le32(x)));
        }
        true
    }

    /// Stores `v` at `addr`, little-endian.
    pub fn store64(&mut self, addr: u64, v: u64) -> (ok: bool)
        requires
            old(self).wf(),
        ensures
            final(self).wf(),
            final(self).spec_max_pages() == old(self).spec_max_pages(),
            ok ==> addr + 8 <= old(self)@.len() && final(self)@ == store_bytes(
                old(self)@,
                addr as int,
                le64(v),
            ),
            !ok ==> addr + 8 > old(self)@.len() && final(self)@ == old(self)@,
    {
        let n = self.data.len();
        if n < 8 || addr > (n - 8) as u64 {
            return false;
        }
        let a = addr as usize;
        self.data.set(a, (v & 0xff) as u8);
        self.data.set(a + 1, ((v >> 8) & 0xff) as u8);
        self.data.set(a + 2, ((v >> 16) & 0xff) as u8);
        self.data.set(a + 3, ((v >> 24) & 0xff) as u8);
        self.data.set(a + 4, ((v >> 32) & 0xff) as u8);
        self.data.set(a + 5, ((v >> 40) & 0xff) as u8);
        self.data.set(a + 6, ((v >> 48) & 0xff) as u8);
        self.data.set(a + 7, ((v >> 56) & 0xff) as u8);
        proof {
            assert(self.data@ =~= store_bytes(old(self)@, addr as int, le64(v)));
        }
        true
    }

    /// Writes a whole buffer at `addr`; fails outside the current size,
    /// leaving the memory unchanged.
    pub fn write_bytes(&mut self, addr: u64, src: &Vec<u8>) -> (ok: bool)
        requires
            old(self).wf(),
        ensures
            final(self).wf(),
            final(self).spec_max_pages() == old(self).spec_max_pages(),
            ok ==> addr + src@.len() <= old(self)@.len() && final(self)@ == store_bytes(
                old(self)@,
                addr as int,
                src@,
            ),
            !ok ==> addr + src@.len() > old(self)@.len() && final(self)@ == old(self)@,
    {
        let n = self.data.len();
        let m = src.len();
        if addr > n as u64 || (n as u64 - addr) < m as u64 {
            return false;
        }
        let a = addr as usize;
        let mut i: usize = 0;
        while i < m
            invariant
                i <= m,
                m == src@.len(),
                a + m <= self.data@.len(),
                a == addr,
                self.data@.len() == old(self)@.len(),
                self.max_pages == old(self).spec_max_pages(),
                old(self).wf(),
                forall|k: int| 0 <= k < i ==> self.data@[a + k] == src@[k],
                forall|k: int|
                    0 <= k < self.data@.len() && !(a <= k < a + i) ==> self.data@[k] == old(
                        self,
                    )@[k],
            decreases m - i,
        {
            self.data.set(a + i, src[i]);
            i += 1;
        }
        proof {
            assert(self.data@ =~= store_bytes(old(self)@, addr as int, src@));
        }
        true
    }

    /// Reads `len` bytes at `addr`; fails outside the current size.
    pub fn read_bytes(&self, addr: u64, len: u64) -> (r: Option<Vec<u8>>)
        ensures
            match r {
                Some(v) => addr + len <= self@.len() && v@ == self@.subrange(
                    addr as int,
                    addr + len,
                ),
                None => addr + len > self@.len(),
            },
    {
        let n = self.data.len();
        if addr > n as u64 || (n as u64 - addr) < len {
            return None;
        }
        let a = addr as usize;
        let m = len as usize;
        let mut out: Vec<u8> = Vec::new();
        let mut i: usize = 0;
        while i < m
            invariant
                i <= m,
                a + m <= self@.len(),
                self@.len() <= usize::MAX,
                out@ == self@.subrange(a as int, a + i),
            decreases m - i,
        {
            out.push(self.data[a + i]);
            assert(out@ =~= self@.subrange(a as int, a + i + 1));
            i += 1;
        }
        Some(out)
    }
}

} // verus!
