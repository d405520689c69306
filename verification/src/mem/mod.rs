//! Memory bookkeeping: page-sized regions, DMA buffers, address translation
//! and the physical/virtual address map.
use vstd::prelude::*;

pub mod pa_va_map;
pub mod page;
pub mod virt_to_phy;

use page::{ContiguousPages, MmapMut, PageAllocator};
use virt_to_phy::{AddressResolver, PhysAddrResolverEmulated};

verus! {

/// Number of address bits covered by one page (2 MiB huge pages).
pub const PAGE_SIZE_BITS: u8 = 21;

/// Size of a 2 MiB huge page in bytes: the unit of pinning, translation and
/// allocation.
pub const PAGE_SIZE: usize = 0x20_0000;

/// Errors of the memory layer.
#[derive(Clone, Copy, Debug, PartialEq, Eq, Structural)]
pub enum MemError {
    /// No page is left to allocate.
    OutOfMemory,
    /// An address has no physical translation.
    NotFound,
    /// Pages could not be locked or unlocked.
    PinFailed,
}

/// Asserts that the system page size (as reported by the operating system)
/// is the 2 MiB huge page size the driver is built for. A mismatch is a
/// fatal configuration error, which callers rule out before calling.
pub fn assert_equal_page_size(system_page_size: usize)
    requires
        system_page_size == PAGE_SIZE,
{
}

/// A single page together with the physical address it is backed by.
pub struct PageWithPhysAddr {
    pub page: ContiguousPages,
    pub phys_addr: u64,
}

impl PageWithPhysAddr {
    /// Pairs a page with its physical address.
    pub fn new(page: ContiguousPages, phys_addr: u64) -> (r: Self)
        ensures
            r.page == page,
            r.phys_addr == phys_addr,
    {
        Self { page, phys_addr }
    }

    /// Allocates a page and resolves its physical address. Fails with the
    /// allocator's error, with the resolver's error, or with `NotFound` when
    /// the page has no physical translation.
    pub fn allocate<A: PageAllocator, R: AddressResolver>(allocator: &mut A, resolver: &R) -> (r:
        Result<Self, MemError>)
        ensures
            exists|pr: Result<ContiguousPages, MemError>|
                #![trigger old(allocator).allocate_post(final(allocator), pr)]
                old(allocator).allocate_post(final(allocator), pr) && match pr {
                    Err(e) => r == Err::<Self, MemError>(e),
                    Ok(p) => match resolver.resolve(p.inner.addr as u64) {
                        Ok(Some(pa)) => r == Ok::<Self, MemError>(Self { page: p, phys_addr: pa }),
                        Ok(None) => r == Err::<Self, MemError>(MemError::NotFound),
                        Err(e) => r == Err::<Self, MemError>(e),
                    },
                },
    {
        let page = match allocator.allocate() {
            Ok(p) => p,
            Err(e) => return Err(e),
        };
        let phys_addr = match resolver.virt_to_phys(page.addr() as u64) {
            Ok(Some(pa)) => pa,
            Ok(None) => return Err(MemError::NotFound),
            Err(e) => return Err(e),
        };
        Ok(Self { page, phys_addr })
    }
}

/// A DMA-capable buffer: a mapped region and the physical address of its start.
pub struct DmaBuf {
    pub buf: MmapMut,
    pub phys_addr: u64,
}

impl DmaBuf {
    /// Pairs a region with its physical address.
    pub fn new(buf: MmapMut, phys_addr: u64) -> (r: Self)
        ensures
            r.buf == buf,
            r.phys_addr == phys_addr,
    {
        Self { buf, phys_addr }
    }

    /// Physical address of the buffer.
    pub fn phys_addr(&self) -> (r: u64)
        ensures
            r == self.phys_addr,
    {
        self.phys_addr
    }
}

/// Allocation of DMA buffers.
pub trait DmaBufAllocator {
    /// Relation between the allocator before and after a call of `allocate`
    /// with `len`, and its result.
    spec fn dma_alloc_post(&self, post: &Self, len: usize, r: Result<DmaBuf, MemError>) -> bool;

    fn allocate(&mut self, len: usize) -> (r: Result<DmaBuf, MemError>)
        ensures
            old(self).dma_alloc_post(final(self), len, r),
    ;
}

/// Locking of user pages in memory.
pub trait MemoryPinner {
    /// Pins pages in memory to prevent swapping.
    fn pin_pages(&self, addr: u64, length: usize) -> Result<(), MemError>;

    /// Unpins previously pinned pages.
    fn unpin_pages(&self, addr: u64, length: usize) -> Result<(), MemError>;
}

/// Handling of user memory regions: translation and pinning.
pub trait UmemHandler: AddressResolver + MemoryPinner {

}

/// User memory handling for the emulated device: pages need no pinning and
/// translate by their offset from the heap start.
pub struct EmulatedUmemHandler {
    resolver: PhysAddrResolverEmulated,
}

impl EmulatedUmemHandler {
    pub closed spec fn heap_start(&self) -> u64 {
        self.resolver.heap_start()
    }

    /// Creates a handler for the heap starting at `heap_start_addr`.
    pub fn new(heap_start_addr: u64) -> (r: Self)
        ensures
            r.heap_start() == heap_start_addr,
    {
        Self { resolver: PhysAddrResolverEmulated::new(heap_start_addr) }
    }
}

impl MemoryPinner for EmulatedUmemHandler {
    fn pin_pages(&self, addr: u64, length: usize) -> (r: Result<(), MemError>)
        ensures
            r == Ok::<(), MemError>(()),
    {
        Ok(())
    }

    fn unpin_pages(&self, addr: u64, length: usize) -> (r: Result<(), MemError>)
        ensures
            r == Ok::<(), MemError>(()),
    {
        Ok(())
    }
}

impl AddressResolver for EmulatedUmemHandler {
    open spec fn resolve(&self, virt_addr: u64) -> Result<Option<u64>, MemError> {
        Ok(virt_to_phy::emulated_phys(self.heap_start(), virt_addr))
    }

    fn virt_to_phys(&self, virt_addr: u64) -> (r: Result<Option<u64>, MemError>)
        ensures
            r == (if virt_addr >= self.heap_start() {
                Ok::<Option<u64>, MemError>(Some((virt_addr - self.heap_start()) as u64))
            } else {
                Ok::<Option<u64>, MemError>(None)
            }),
    {
        self.resolver.virt_to_phys(virt_addr)
    }
}

impl UmemHandler for EmulatedUmemHandler {

}

/// The emulated user memory handler translates every address as the
/// emulated resolver for the same heap does: an address at or above the heap
/// start becomes its offset from the heap start, whatever its alignment, and
/// an address below the heap has no translation. Translation never fails.
pub proof fn lemma_umem_handler_translates_as_resolver(
    h: EmulatedUmemHandler,
    r: PhysAddrResolverEmulated,
    virt_addr: u64,
)
    requires
        r.heap_start() == h.heap_start(),
    ensures
        h.resolve(virt_addr) == r.resolve(virt_addr),
        virt_addr >= h.heap_start() ==> h.resolve(virt_addr) == Ok::<Option<u64>, MemError>(
            Some((virt_addr - h.heap_start()) as u64),
        ),
        virt_addr < h.heap_start() ==> h.resolve(virt_addr) == Ok::<Option<u64>, MemError>(None),
{
}

} // verus!
