//! The 32-bit guest address space that Objective-C objects live in.
//!
//! Guest pointers are 32 bits wide. Below [HEAP_BASE] lies the null page,
//! which is never mapped; from there up lies the heap, which grows as
//! blocks are allocated. Blocks are handed out in address order, each
//! zero-filled and a multiple of 16 bytes; freeing a block takes it off
//! the list of live blocks (its address is not handed out again).
use std::collections::HashMap;
use vstd::bytes::{spec_u32_from_le_bytes, spec_u32_to_le_bytes, u32_from_le_bytes, u32_to_le_bytes};
use vstd::prelude::*;

verus! {

/// A size in the guest.
pub type GuestUSize = u32;

/// The lowest heap address: below it lies the null page.
pub const HEAP_BASE: u32 = 0x1000;

/// The guest memory as the contracts see it: the heap's bytes from
/// [HEAP_BASE] up, and the live blocks with their sizes.
pub struct MemView {
    pub heap: Seq<u8>,
    pub live: Map<u32, u32>,
}

/// The guest memory.
pub struct Mem {
    heap: Vec<u8>,
    live: HashMap<u32, u32>,
}

impl View for Mem {
    type V = MemView;

    closed spec fn view(&self) -> MemView {
        MemView { heap: self.heap@, live: self.live@ }
    }
}

/// The first address past the heap.
pub open spec fn heap_end(m: MemView) -> int {
    HEAP_BASE + m.heap.len()
}

/// The size of the block that an allocation of `size` bytes takes: at
/// least 16 bytes, rounded up to a multiple of 16.
pub open spec fn block_size(size: int) -> int {
    if size <= 16 {
        16
    } else {
        ((size + 15) / 16) * 16
    }
}

/// A block holds what it was allocated for, and at least 16 bytes.
pub proof fn lemma_block_size(size: int)
    requires
        0 <= size,
    ensures
        block_size(size) >= 16,
        block_size(size) >= size,
        block_size(size) <= size + 16,
        block_size(size) % 16 == 0,
{
    if size > 16 {
        assert(((size + 15) / 16) * 16 >= size) by (nonlinear_arith)
            requires
                size > 16,
        ;
        assert(((size + 15) / 16) * 16 < size + 16) by (nonlinear_arith)
            requires
                size > 16,
        ;
        assert((((size + 15) / 16) * 16) % 16 == 0) by (nonlinear_arith);
    }
}

/// Where an allocation of `size` bytes goes: the end of the heap, if the
/// block fits below 4 GiB.
pub open spec fn alloc_place(m: MemView, size: int) -> Option<u32> {
    if heap_end(m) + block_size(size) <= 0x1_0000_0000 {
        Some(heap_end(m) as u32)
    } else {
        None
    }
}

/// The memory after allocating `size` bytes at the end of the heap: a
/// zeroed block more, and live.
pub open spec fn after_alloc(m: MemView, size: int) -> MemView {
    MemView {
        heap: m.heap + Seq::new(block_size(size) as nat, |i: int| 0u8),
        live: m.live.insert(heap_end(m) as u32, block_size(size) as u32),
    }
}

/// Whether the `len` bytes at `addr` lie in the heap.
pub open spec fn readable(m: MemView, addr: int, len: int) -> bool {
    HEAP_BASE <= addr && 0 <= len && addr + len <= heap_end(m)
}

/// The `len` bytes at `addr`.
pub open spec fn bytes_of(m: MemView, addr: int, len: int) -> Seq<u8> {
    m.heap.subrange(addr - HEAP_BASE, addr - HEAP_BASE + len)
}

/// The memory with `data` written at `addr`.
pub open spec fn with_bytes(m: MemView, addr: int, data: Seq<u8>) -> MemView {
    MemView {
        heap: m.heap.subrange(0, addr - HEAP_BASE) + data + m.heap.subrange(
            addr - HEAP_BASE + data.len(),
            m.heap.len() as int,
        ),
        live: m.live,
    }
}

impl Mem {
    /// The heap stays below 4 GiB.
    pub open spec fn wf(&self) -> bool {
        heap_end(self@) <= 0x1_0000_0000
    }

    /// An empty heap.
    pub fn new() -> (r: Self)
        ensures
            r.wf(),
            r@.heap.len() == 0,
            r@.live == Map::<u32, u32>::empty(),
    {
        Mem { heap: Vec::new(), live: HashMap::new() }
    }

    /// Allocates a zero-filled block for `size` bytes at the end of the
    /// heap; null where it does not fit below 4 GiB.
    pub fn alloc_zeroed(&mut self, size: GuestUSize) -> (r: u32)
        requires
            old(self).wf(),
        ensures
            final(self).wf(),
            match alloc_place(old(self)@, size as int) {
                None => r == 0 && final(self)@ == old(self)@,
                Some(p) => r == p && p >= HEAP_BASE && final(self)@ == after_alloc(old(self)@, size as int),
            },
    {
        let block: u64 = if size <= 16 {
            16
        } else {
            ((size as u64 + 15) / 16) * 16
        };
        let end: u64 = HEAP_BASE as u64 + self.heap.len() as u64;
        if end + block > 0x1_0000_0000 {
            return 0;
        }
        let ghost old_heap = self.heap@;
        let mut k: u64 = 0;
        while k < block
            invariant
                k <= block,
                old_heap == old(self)@.heap,
                self.heap@ =~= old_heap + Seq::new(k as nat, |i: int| 0u8),
                self.live@ == old(self)@.live,
                end == HEAP_BASE + old_heap.len(),
                end + block <= 0x1_0000_0000,
            decreases block - k,
        {
            self.heap.push(0);
            k = k + 1;
            assert(self.heap@ =~= old_heap + Seq::new(k as nat, |i: int| 0u8));
        }
        self.live.insert(end as u32, block as u32);
        end as u32
    }

    /// Takes the block at `ptr` off the live list; whether it was live.
    pub fn free(&mut self, ptr: u32) -> (r: bool)
        requires
            old(self).wf(),
        ensures
            final(self).wf(),
            r == old(self)@.live.contains_key(ptr),
            final(self)@ == (MemView { live: old(self)@.live.remove(ptr), ..old(self)@ }),
    {
        let r = self.live.remove(&ptr);
        r.is_some()
    }

    /// The size of the live block at `ptr`, if there is one.
    pub fn allocation_size(&self, ptr: u32) -> (r: Option<u32>)
        ensures
            r == (if self@.live.contains_key(ptr) {
                Some(self@.live[ptr])
            } else {
                None::<u32>
            }),
    {
        match self.live.get(&ptr) {
            Some(n) => Some(*n),
            None => None,
        }
    }

    /// The `len` bytes at `addr`; an error where they leave the heap.
    pub fn read_bytes(&self, addr: u32, len: u32) -> (r: Result<Vec<u8>, &'static str>)
        requires
            self.wf(),
        ensures
            readable(self@, addr as int, len as int) ==> (r matches Ok(v) && v@ == bytes_of(
                self@,
                addr as int,
                len as int,
            )),
            !readable(self@, addr as int, len as int) ==> r is Err,
    {
        if addr < HEAP_BASE || (addr - HEAP_BASE) as usize > self.heap.len() || len as usize > self.heap.len()
            - (addr - HEAP_BASE) as usize {
            return Err("32-bit memory access is out of bounds");
        }
        let o = (addr - HEAP_BASE) as usize;
        let n = len as usize;
        let mut v: Vec<u8> = Vec::new();
        let mut k: usize = 0;
        let hl = self.heap.len();
        while k < n
            invariant
                k <= n,
                hl == self.heap@.len(),
                o + n <= self.heap@.len(),
                v@ =~= self.heap@.subrange(o as int, o + k),
            decreases n - k,
        {
            v.push(self.heap[o + k]);
            k = k + 1;
            assert(v@ =~= self.heap@.subrange(o as int, o + k));
        }
        Ok(v)
    }

    /// Writes `data` at `addr`; an error, and nothing written, where it
    /// would leave the heap.
    pub fn write_bytes(&mut self, addr: u32, data: &[u8]) -> (r: Result<(), &'static str>)
        requires
            old(self).wf(),
        ensures
            final(self).wf(),
            readable(old(self)@, addr as int, data@.len() as int) ==> r is Ok && final(self)@
                == with_bytes(old(self)@, addr as int, data@),
            !readable(old(self)@, addr as int, data@.len() as int) ==> r is Err && final(self)@
                == old(self)@,
    {
        if addr < HEAP_BASE || (addr - HEAP_BASE) as usize > self.heap.len() || data.len()
            > self.heap.len() - (addr - HEAP_BASE) as usize {
            return Err("32-bit memory access is out of bounds");
        }
        let o = (addr - HEAP_BASE) as usize;
        let ghost old_heap = self.heap@;
        let mut k: usize = 0;
        let hl = self.heap.len();
        while k < data.len()
            invariant
                k <= data@.len(),
                hl == old_heap.len(),
                o + data@.len() <= old_heap.len(),
                old_heap == old(self)@.heap,
                self.live@ == old(self)@.live,
                self.heap@.len() == old_heap.len(),
                forall|j: int|
                    0 <= j < old_heap.len() ==> #[trigger] self.heap@[j] == if o <= j < o + k {
                        data@[j - o]
                    } else {
                        old_heap[j]
                    },
            decreases data@.len() - k,
        {
            self.heap.set(o + k, data[k]);
            k = k + 1;
        }
        assert(self.heap@ =~= old_heap.subrange(0, o as int) + data@ + old_heap.subrange(
            o + data@.len(),
            old_heap.len() as int,
        ));
        Ok(())
    }

    /// The little-endian 32-bit word at `addr`.
    pub fn read_u32(&self, addr: u32) -> (r: Result<u32, &'static str>)
        requires
            self.wf(),
        ensures
            readable(self@, addr as int, 4) ==> r == Ok::<u32, &str>(
                spec_u32_from_le_bytes(bytes_of(self@, addr as int, 4)),
            ),
            !readable(self@, addr as int, 4) ==> r is Err,
    {
        let v = self.read_bytes(addr, 4)?;
        Ok(u32_from_le_bytes(v.as_slice()))
    }

    /// Writes `value` little-endian at `addr`.
    pub fn write_u32(&mut self, addr: u32, value: u32) -> (r: Result<(), &'static str>)
        requires
            old(self).wf(),
        ensures
            final(self).wf(),
            readable(old(self)@, addr as int, 4) ==> r is Ok && final(self)@ == with_bytes(
                old(self)@,
                addr as int,
                spec_u32_to_le_bytes(value),
            ),
            !readable(old(self)@, addr as int, 4) ==> r is Err && final(self)@ == old(self)@,
    {
        let bytes = u32_to_le_bytes(value);
        self.write_bytes(addr, bytes.as_slice())
    }
}

/// Reading back the word just written gives the word.
pub proof fn law_u32_reads_back(m: MemView, addr: int, value: u32)
    requires
        readable(m, addr, 4),
    ensures
        readable(with_bytes(m, addr, spec_u32_to_le_bytes(value)), addr, 4),
        spec_u32_from_le_bytes(bytes_of(with_bytes(m, addr, spec_u32_to_le_bytes(value)), addr, 4))
            == value,
{
    vstd::bytes::lemma_auto_spec_u32_to_from_le_bytes();
    let w = with_bytes(m, addr, spec_u32_to_le_bytes(value));
    assert(bytes_of(w, addr, 4) =~= spec_u32_to_le_bytes(value));
}

} // verus!
