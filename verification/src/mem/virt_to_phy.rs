//! Virtual to physical address translation.
//!
//! On real hardware the translation comes from the process's page map, one
//! 64-bit entry per virtual page: bit 63 says the page is present and bits
//! 0..55 hold the physical frame number. Reading the page map is I/O; this
//! module computes where to read and what an entry means. In emulation a
//! physical address is the offset of the virtual address from the start of
//! the shared heap.
use super::{MemError, PAGE_SIZE};
use vstd::prelude::*;

verus! {

/// Size of one page map entry in bytes.
pub const PFN_MASK_SIZE: usize = 8;

/// The physical frame number occupies bits 0..55 of a page map entry.
pub const PFN_MASK: u64 = 0x7F_FFFF_FFFF_FFFF;

/// Bit of a page map entry telling whether the page is present.
pub const PAGE_PRESENT_BIT: u8 = 63;

/// Translation of virtual addresses to physical addresses.
pub trait AddressResolver {
    /// The translation of `virt_addr`: `Ok(None)` when the page is not present.
    spec fn resolve(&self, virt_addr: u64) -> Result<Option<u64>, MemError>;

    fn virt_to_phys(&self, virt_addr: u64) -> (r: Result<Option<u64>, MemError>)
        ensures
            r == self.resolve(virt_addr),
    ;
}

/// The address of page `i` of a range starting at `start` (saturating at the
/// top of the address space).
pub open spec fn page_addr(start: u64, i: int) -> u64 {
    if start + i * PAGE_SIZE > u64::MAX {
        u64::MAX
    } else {
        (start + i * PAGE_SIZE) as u64
    }
}

/// The page offsets of `num_pages` pages fit in 64 bits.
pub open spec fn range_fits(num_pages: usize) -> bool {
    num_pages * PAGE_SIZE <= u64::MAX + PAGE_SIZE
}

/// What translating `num_pages` pages from `start` gives: the translations of
/// the pages in order, or the first error.
pub open spec fn resolve_range<R: AddressResolver>(r: &R, start: u64, num_pages: nat) -> Result<
    Seq<Option<u64>>,
    MemError,
>
    decreases num_pages,
{
    if num_pages == 0 {
        Ok(Seq::empty())
    } else {
        match resolve_range(r, start, (num_pages - 1) as nat) {
            Err(e) => Err(e),
            Ok(s) => match r.resolve(page_addr(start, num_pages - 1)) {
                Err(e) => Err(e),
                Ok(pa) => Ok(s.push(pa)),
            },
        }
    }
}

/// Translates `num_pages` consecutive pages starting at `start_addr`,
/// stopping at the first error.
pub fn virt_to_phys_range<R: AddressResolver>(resolver: &R, start_addr: u64, num_pages: usize) -> (r:
    Result<Vec<Option<u64>>, MemError>)
    requires
        range_fits(num_pages),
    ensures
        match r {
            Ok(v) => resolve_range(resolver, start_addr, num_pages as nat) == Ok::<
                Seq<Option<u64>>,
                MemError,
            >(v@),
            Err(e) => resolve_range(resolver, start_addr, num_pages as nat) == Err::<
                Seq<Option<u64>>,
                MemError,
            >(e),
        },
{
    let mut out: Vec<Option<u64>> = Vec::new();
    let mut x: usize = 0;
    while x < num_pages
        invariant
            x <= num_pages,
            range_fits(num_pages),
            resolve_range(resolver, start_addr, x as nat) == Ok::<Seq<Option<u64>>, MemError>(
                out@,
            ),
        decreases num_pages - x,
    {
        assert(x * PAGE_SIZE <= u64::MAX) by (nonlinear_arith)
            requires
                x < num_pages,
                num_pages * 0x20_0000 <= u64::MAX + 0x20_0000,
        ;
        let addr = start_addr.saturating_add(x as u64 * PAGE_SIZE as u64);
        match resolver.virt_to_phys(addr) {
            Ok(pa) => out.push(pa),
            Err(e) => {
                proof {
                    lemma_resolve_range_err_extends(resolver, start_addr, (x + 1) as nat, num_pages as nat, e);
                }
                return Err(e);
            },
        }
        x = x + 1;
    }
    Ok(out)
}

/// Once translating a prefix fails, translating a longer range fails alike.
pub proof fn lemma_resolve_range_err_extends<R: AddressResolver>(
    r: &R,
    start: u64,
    n: nat,
    m: nat,
    e: MemError,
)
    requires
        n <= m,
        resolve_range(r, start, n) == Err::<Seq<Option<u64>>, MemError>(e),
    ensures
        resolve_range(r, start, m) == Err::<Seq<Option<u64>>, MemError>(e),
    decreases m - n,
{
    if n < m {
        lemma_resolve_range_err_extends(r, start, n, (m - 1) as nat, e);
    }
}

/// The emulated translation: the offset from the heap start, or `None` for
/// addresses below it.
pub open spec fn emulated_phys(heap_start: u64, virt_addr: u64) -> Option<u64> {
    if virt_addr >= heap_start {
        Some((virt_addr - heap_start) as u64)
    } else {
        None
    }
}

/// Translation for the emulated device.
pub struct PhysAddrResolverEmulated {
    heap_start_addr: u64,
}

impl PhysAddrResolverEmulated {
    pub closed spec fn heap_start(&self) -> u64 {
        self.heap_start_addr
    }

    /// A resolver for the heap starting at `heap_start_addr`.
    pub fn new(heap_start_addr: u64) -> (r: Self)
        ensures
            r.heap_start() == heap_start_addr,
    {
        Self { heap_start_addr }
    }
}

impl AddressResolver for PhysAddrResolverEmulated {
    open spec fn resolve(&self, virt_addr: u64) -> Result<Option<u64>, MemError> {
        Ok(emulated_phys(self.heap_start(), virt_addr))
    }

    fn virt_to_phys(&self, virt_addr: u64) -> (r: Result<Option<u64>, MemError>)
        ensures
            r == (if virt_addr >= self.heap_start() {
                Ok::<Option<u64>, MemError>(Some((virt_addr - self.heap_start()) as u64))
            } else {
                Ok::<Option<u64>, MemError>(None)
            }),
    {
        Ok(virt_addr.checked_sub(self.heap_start_addr))
    }
}

/// Whether a page map entry says the page is present.
pub open spec fn entry_present(entry: u64) -> bool {
    (entry >> 63u64) & 1u64 != 0
}

/// The physical address a present page map entry gives for `virt_addr`:
/// the frame's start plus the offset of `virt_addr` within its page.
pub open spec fn entry_phys(entry: u64, virt_addr: u64, base_page_size: u64) -> int {
    (entry & PFN_MASK) * base_page_size + virt_addr % base_page_size
}

/// Byte offset of the page map entry describing `virt_addr`.
pub fn pagemap_offset(virt_addr: u64, base_page_size: u64) -> (r: u64)
    requires
        base_page_size > 0,
        PFN_MASK_SIZE * (virt_addr / base_page_size) <= u64::MAX,
    ensures
        r == PFN_MASK_SIZE * (virt_addr / base_page_size),
{
    let virt_pfn = virt_addr / base_page_size;
    PFN_MASK_SIZE as u64 * virt_pfn
}

/// Decodes the page map entry of `virt_addr`: `None` when the page is not
/// present, else the physical address of `virt_addr`.
pub fn decode_pagemap_entry(entry: u64, virt_addr: u64, base_page_size: u64) -> (r: Option<u64>)
    requires
        base_page_size > 0,
        entry_present(entry) ==> entry_phys(entry, virt_addr, base_page_size) <= u64::MAX,
    ensures
        r == (if entry_present(entry) {
            Some(entry_phys(entry, virt_addr, base_page_size) as u64)
        } else {
            None
        }),
        r is Some <==> entry >= 0x8000_0000_0000_0000,
        r matches Some(pa) ==> pa == (entry % 0x80_0000_0000_0000) * base_page_size + virt_addr
            % base_page_size,
{
    proof {
        lemma_entry_fields(entry, virt_addr, base_page_size);
    }
    if (entry >> PAGE_PRESENT_BIT as u64) & 1 != 0 {
        let phy_pfn = entry & PFN_MASK;
        assert(phy_pfn * base_page_size <= u64::MAX) by (nonlinear_arith)
            requires
                phy_pfn * base_page_size + virt_addr % base_page_size <= u64::MAX,
                virt_addr % base_page_size >= 0,
        ;
        Some(phy_pfn * base_page_size + virt_addr % base_page_size)
    } else {
        None
    }
}

/// The page map offsets to read for `num_pages` pages from `start_addr`.
pub fn pagemap_offsets(start_addr: u64, num_pages: usize, base_page_size: u64) -> (r: Vec<u64>)
    requires
        base_page_size >= PFN_MASK_SIZE,
        start_addr + num_pages * PAGE_SIZE <= u64::MAX,
    ensures
        r@.len() == num_pages,
        forall|i: int|
            0 <= i < num_pages ==> #[trigger] r@[i] == PFN_MASK_SIZE * ((start_addr + i * PAGE_SIZE)
                / (base_page_size as int)),
{
    let mut out: Vec<u64> = Vec::new();
    let mut addr = start_addr;
    let mut i: usize = 0;
    while i < num_pages
        invariant
            i <= num_pages,
            base_page_size >= PFN_MASK_SIZE,
            start_addr + num_pages * PAGE_SIZE <= u64::MAX,
            addr == start_addr + i * PAGE_SIZE,
            out@.len() == i,
            forall|j: int|
                0 <= j < i ==> #[trigger] out@[j] == PFN_MASK_SIZE * ((start_addr + j * PAGE_SIZE)
                    / (base_page_size as int)),
        decreases num_pages - i,
    {
        assert(addr + PAGE_SIZE <= u64::MAX) by (nonlinear_arith)
            requires
                i < num_pages,
                addr == start_addr + i * 0x20_0000,
                start_addr + num_pages * 0x20_0000 <= u64::MAX,
        ;
        assert(8 * (addr / base_page_size) <= addr) by (nonlinear_arith)
            requires
                base_page_size >= 8,
        ;
        out.push(pagemap_offset(addr, base_page_size));
        addr = addr + PAGE_SIZE as u64;
        i = i + 1;
    }
    out
}

/// The physical addresses that the page map entries read for a range give:
/// each present entry yields its frame start plus the in-page offset of
/// `start_addr`; an absent one yields `None`.
pub fn decode_pagemap_entries(entries: &Vec<u64>, start_addr: u64, base_page_size: u64) -> (r: Vec<
    Option<u64>,
>)
    requires
        base_page_size > 0,
        forall|i: int|
            0 <= i < entries@.len() && entry_present(#[trigger] entries@[i]) ==> entry_phys(
                entries@[i],
                start_addr,
                base_page_size,
            ) <= u64::MAX,
    ensures
        r@.len() == entries@.len(),
        forall|i: int|
            0 <= i < entries@.len() ==> #[trigger] r@[i] == (if entry_present(entries@[i]) {
                Some(entry_phys(entries@[i], start_addr, base_page_size) as u64)
            } else {
                None
            }),
{
    let mut out: Vec<Option<u64>> = Vec::new();
    let mut i: usize = 0;
    while i < entries.len()
        invariant
            i <= entries@.len(),
            base_page_size > 0,
            forall|j: int|
                0 <= j < entries@.len() && entry_present(#[trigger] entries@[j]) ==> entry_phys(
                    entries@[j],
                    start_addr,
                    base_page_size,
                ) <= u64::MAX,
            out@.len() == i,
            forall|j: int|
                0 <= j < i ==> #[trigger] out@[j] == (if entry_present(entries@[j]) {
                    Some(entry_phys(entries@[j], start_addr, base_page_size) as u64)
                } else {
                    None
                }),
        decreases entries@.len() - i,
    {
        out.push(decode_pagemap_entry(entries[i], start_addr, base_page_size));
        i = i + 1;
    }
    out
}

/// Whether no page of a translated range was found present, in which case
/// the range may belong to device memory and is looked up there instead.
pub fn needs_device_lookup(phys_addrs: &Vec<Option<u64>>) -> (r: bool)
    ensures
        r == forall|i: int| 0 <= i < phys_addrs@.len() ==> #[trigger] phys_addrs@[i] is None,
{
    let mut i: usize = 0;
    while i < phys_addrs.len()
        invariant
            i <= phys_addrs@.len(),
            forall|j: int| 0 <= j < i ==> #[trigger] phys_addrs@[j] is None,
        decreases phys_addrs@.len() - i,
    {
        if phys_addrs[i].is_some() {
            return false;
        }
        i = i + 1;
    }
    true
}

/// Translation keeps the offset within the page: a present entry maps an
/// address to one with the same offset from the start of its page.
pub proof fn lemma_translation_keeps_page_offset(entry: u64, virt_addr: u64, base_page_size: u64)
    requires
        base_page_size > 0,
    ensures
        entry_phys(entry, virt_addr, base_page_size) % (base_page_size as int) == virt_addr
            % base_page_size,
{
    let pfn = (entry & PFN_MASK) as int;
    let b = base_page_size as int;
    let off = virt_addr % base_page_size;
    assert((pfn * b + off) % b == off) by (nonlinear_arith)
        requires
            b > 0,
            0 <= off < b,
            pfn >= 0,
    {
        vstd::arithmetic::div_mod::lemma_mod_multiples_vanish(pfn, off as int, b);
        vstd::arithmetic::div_mod::lemma_small_mod(off as nat, b as nat);
    }
}

/// What a page map entry encodes, stated on its numeric value: the page is
/// present exactly when bit 63 is set, and the frame number is all of bits
/// 0..55 (the entry modulo 2^55), so a present entry maps `virt_addr` to
/// `(entry mod 2^55) * base_page_size + virt_addr mod base_page_size`.
pub proof fn lemma_entry_fields(entry: u64, virt_addr: u64, base_page_size: u64)
    ensures
        entry_present(entry) <==> entry >= 0x8000_0000_0000_0000,
        entry_phys(entry, virt_addr, base_page_size) == (entry % 0x80_0000_0000_0000)
            * base_page_size + virt_addr % base_page_size,
{
    assert((entry >> 63u64) & 1u64 != 0 <==> entry >= 0x8000_0000_0000_0000u64) by (bit_vector);
    assert(entry & 0x7F_FFFF_FFFF_FFFFu64 == entry % 0x80_0000_0000_0000u64) by (bit_vector);
}

/// In emulation, translating and adding back the heap start gives the
/// original address; addresses below the heap have no translation.
pub proof fn lemma_emulated_round_trip(heap_start: u64, virt_addr: u64)
    ensures
        emulated_phys(heap_start, virt_addr) matches Some(pa) ==> pa + heap_start == virt_addr,
        emulated_phys(heap_start, virt_addr) is None <==> virt_addr < heap_start,
{
}

} // verus!
