//! Page-sized memory regions and the emulated page allocator.
use super::{DmaBuf, DmaBufAllocator, MemError, PAGE_SIZE};
use vstd::prelude::*;

verus! {

/// A mapped memory region, described by its starting address and length.
#[derive(Clone, Copy, Debug, PartialEq, Eq, Structural)]
pub struct MmapMut {
    /// Starting virtual address of the region.
    pub addr: usize,
    /// Length of the region in bytes.
    pub len: usize,
}

impl MmapMut {
    /// Describes the region of `len` bytes starting at `addr`.
    pub fn new(addr: usize, len: usize) -> (r: Self)
        ensures
            r.addr == addr,
            r.len == len,
    {
        MmapMut { addr, len }
    }

    /// Starting address of the region.
    pub fn as_ptr(&self) -> (r: usize)
        ensures
            r == self.addr,
    {
        self.addr
    }
}

/// A page of physically contiguous memory.
#[derive(Clone, Copy, Debug, PartialEq, Eq, Structural)]
pub struct ContiguousPages {
    pub inner: MmapMut,
}

impl ContiguousPages {
    /// Wraps a mapped region.
    pub fn new(inner: MmapMut) -> (r: Self)
        ensures
            r.inner == inner,
    {
        Self { inner }
    }

    /// Starting address of the pages.
    pub fn addr(&self) -> (r: usize)
        ensures
            r == self.inner.addr,
    {
        self.inner.addr
    }
}

/// Allocation of pages.
pub trait PageAllocator {
    /// Relation between the allocator before and after a call of `allocate`,
    /// and its result.
    spec fn allocate_post(&self, post: &Self, r: Result<ContiguousPages, MemError>) -> bool;

    fn allocate(&mut self) -> (r: Result<ContiguousPages, MemError>)
        ensures
            old(self).allocate_post(final(self), r),
    ;
}

/// The pages `[start, end)` cut into page-sized regions, the last one
/// starting below `end`.
pub open spec fn pages_of_range(start: usize, end: usize) -> Seq<MmapMut> {
    let n = if end > start {
        ((end - start + PAGE_SIZE - 1) / (PAGE_SIZE as int)) as nat
    } else {
        0
    };
    Seq::new(n, |i: int| MmapMut { addr: (start + i * PAGE_SIZE) as usize, len: PAGE_SIZE })
}

/// An allocator handing out pages of emulated physical memory, last page
/// first. DMA buffers get as physical address their offset from the start of
/// the shared memory region.
pub struct EmulatedPageAllocator {
    inner: Vec<MmapMut>,
    shm_start_addr: u64,
}

impl View for EmulatedPageAllocator {
    type V = Seq<MmapMut>;

    closed spec fn view(&self) -> Seq<MmapMut> {
        self.inner@
    }
}

impl EmulatedPageAllocator {
    /// Start of the shared memory region.
    pub closed spec fn shm_start(&self) -> u64 {
        self.shm_start_addr
    }

    /// Every free page lies at or above the shared memory start.
    #[verifier::type_invariant]
    closed spec fn pages_above_shm_start(&self) -> bool {
        forall|i: int| 0 <= i < self.inner@.len() ==> #[trigger] self.inner@[i].addr >= self.shm_start_addr
    }

    /// An allocator over the pages of `addr_range`, which lies in the shared
    /// memory region starting at `shm_start_addr`.
    pub fn new(addr_range: std::ops::Range<usize>, shm_start_addr: u64) -> (r: Self)
        requires
            addr_range.start >= shm_start_addr,
        ensures
            r.shm_start() == shm_start_addr,
            r@ == pages_of_range(addr_range.start, addr_range.end),
    {
        let start = addr_range.start;
        let end = addr_range.end;
        let ghost pages = pages_of_range(start, end);
        let n: usize = if end > start {
            (end - start - 1) / PAGE_SIZE + 1
        } else {
            0
        };
        assert(n == pages.len()) by {
            if end > start {
                assert((end - start - 1) / 0x20_0000 + 1 == (end - start + 0x20_0000 - 1) / 0x20_0000) by (nonlinear_arith)
                    requires
                        end > start,
                ;
            }
        }
        let mut inner: Vec<MmapMut> = Vec::new();
        let mut addr = start;
        let mut i: usize = 0;
        while i < n
            invariant
                i <= n,
                n == pages.len(),
                pages == pages_of_range(start, end),
                end > start ==> n == (end - start - 1) / 0x20_0000 + 1,
                i < n ==> addr == start + i * PAGE_SIZE,
                inner@.len() == i,
                forall|j: int| 0 <= j < i ==> #[trigger] inner@[j] == pages[j],
            decreases n - i,
        {
            assert(start + i * 0x20_0000 < end) by (nonlinear_arith)
                requires
                    i < n,
                    end > start,
                    n == (end - start - 1) / 0x20_0000 + 1,
            ;
            inner.push(MmapMut::new(addr, PAGE_SIZE));
            i = i + 1;
            if i < n {
                assert(start + i * 0x20_0000 < end) by (nonlinear_arith)
                    requires
                        i < n,
                        end > start,
                        n == (end - start - 1) / 0x20_0000 + 1,
                ;
                addr = addr + PAGE_SIZE;
            }
        }
        let r = Self { inner, shm_start_addr };
        assert(r@ =~= pages_of_range(start, end));
        r
    }
}

impl PageAllocator for EmulatedPageAllocator {
    /// The last free page is handed out; none left is `OutOfMemory`.
    open spec fn allocate_post(&self, post: &Self, r: Result<ContiguousPages, MemError>) -> bool {
        &&& post.shm_start() == self.shm_start()
        &&& if self@.len() == 0 {
            &&& r == Err::<ContiguousPages, MemError>(MemError::OutOfMemory)
            &&& post@ == self@
        } else {
            &&& r == Ok::<ContiguousPages, MemError>(ContiguousPages { inner: self@.last() })
            &&& post@ == self@.drop_last()
        }
    }

    fn allocate(&mut self) -> (r: Result<ContiguousPages, MemError>) {
        proof {
            use_type_invariant(&*self);
        }
        let mut pages: Vec<MmapMut> = Vec::new();
        std::mem::swap(&mut pages, &mut self.inner);
        let popped = pages.pop();
        self.inner = pages;
        match popped {
            Some(m) => Ok(ContiguousPages::new(m)),
            None => Err(MemError::OutOfMemory),
        }
    }
}

impl DmaBufAllocator for EmulatedPageAllocator {
    /// The last free page becomes the buffer, at its offset from the shared
    /// memory start; none left is `OutOfMemory`. The length is not consulted.
    open spec fn dma_alloc_post(&self, post: &Self, len: usize, r: Result<DmaBuf, MemError>) -> bool {
        &&& post.shm_start() == self.shm_start()
        &&& if self@.len() == 0 {
            &&& r == Err::<DmaBuf, MemError>(MemError::OutOfMemory)
            &&& post@ == self@
        } else {
            &&& r == Ok::<DmaBuf, MemError>(
                DmaBuf {
                    buf: self@.last(),
                    phys_addr: (self@.last().addr - self.shm_start()) as u64,
                },
            )
            &&& post@ == self@.drop_last()
        }
    }

    fn allocate(&mut self, _len: usize) -> (r: Result<DmaBuf, MemError>) {
        proof {
            use_type_invariant(&*self);
        }
        let mut pages: Vec<MmapMut> = Vec::new();
        std::mem::swap(&mut pages, &mut self.inner);
        let popped = pages.pop();
        self.inner = pages;
        match popped {
            Some(buf) => {
                let phys_addr = buf.addr as u64 - self.shm_start_addr;
                Ok(DmaBuf::new(buf, phys_addr))
            },
            None => Err(MemError::OutOfMemory),
        }
    }
}

/// The free pages left after `i` allocations from `states[0]`.
pub open spec fn free_after(pages: Seq<MmapMut>, i: int) -> Seq<MmapMut> {
    if i < pages.len() {
        pages.subrange(0, pages.len() - i)
    } else {
        Seq::empty()
    }
}

proof fn lemma_free_after(states: Seq<EmulatedPageAllocator>, results: Seq<Result<ContiguousPages, MemError>>, i: int)
    requires
        states.len() == results.len() + 1,
        forall|j: int|
            0 <= j < results.len() ==> #[trigger] states[j].allocate_post(&states[j + 1], results[j]),
        0 <= i < states.len(),
    ensures
        states[i]@ == free_after(states[0]@, i),
    decreases i,
{
    if i > 0 {
        lemma_free_after(states, results, i - 1);
        let j = i - 1;
        assert(states[j].allocate_post(&states[j + 1], results[j]));
        assert(states[i]@ =~= free_after(states[0]@, i));
    }
}

/// Successive allocations hand out the free pages from the last to the
/// first, each once, and fail with `OutOfMemory` once none is left.
pub proof fn lemma_pages_handed_out_in_reverse(
    states: Seq<EmulatedPageAllocator>,
    results: Seq<Result<ContiguousPages, MemError>>,
)
    requires
        states.len() == results.len() + 1,
        forall|j: int|
            0 <= j < results.len() ==> #[trigger] states[j].allocate_post(&states[j + 1], results[j]),
    ensures
        forall|i: int|
            0 <= i < results.len() ==> #[trigger] results[i] == if i < states[0]@.len() {
                Ok::<ContiguousPages, MemError>(
                    ContiguousPages { inner: states[0]@[states[0]@.len() - 1 - i] },
                )
            } else {
                Err::<ContiguousPages, MemError>(MemError::OutOfMemory)
            },
{
    assert forall|i: int| 0 <= i < results.len() implies #[trigger] results[i] == if i
        < states[0]@.len() {
        Ok::<ContiguousPages, MemError>(ContiguousPages { inner: states[0]@[states[0]@.len() - 1 - i] })
    } else {
        Err::<ContiguousPages, MemError>(MemError::OutOfMemory)
    } by {
        lemma_free_after(states, results, i);
        assert(states[i].allocate_post(&states[i + 1], results[i]));
    }
}

} // verus!
