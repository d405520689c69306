use blue_rdma::mem::page::{ContiguousPages, EmulatedPageAllocator, MmapMut, PageAllocator};
use blue_rdma::mem::virt_to_phy::{
    decode_pagemap_entries, decode_pagemap_entry, needs_device_lookup, pagemap_offset,
    pagemap_offsets, virt_to_phys_range, AddressResolver, PhysAddrResolverEmulated,
};
use blue_rdma::mem::{
    assert_equal_page_size, DmaBuf, DmaBufAllocator, EmulatedUmemHandler, MemError,
    MemoryPinner, PageWithPhysAddr, PAGE_SIZE,
};
use blue_rdma::ringbuf::{allocate_device_rings, DescRingBufAllocator, DESC_SIZE, RING_BUF_LEN};

#[test]
fn test_page_size_check() {
    assert_eq!(PAGE_SIZE, 0x20_0000);
    assert_equal_page_size(2 * 1024 * 1024);
}

#[test]
fn test_emulated_resolver() {
    let r = PhysAddrResolverEmulated::new(0x1000_0000);
    assert_eq!(r.virt_to_phys(0x1000_2000), Ok(Some(0x2000)));
    assert_eq!(r.virt_to_phys(0x1000_0000), Ok(Some(0)));
    assert_eq!(r.virt_to_phys(0x0fff_ffff), Ok(None));
}

#[test]
fn test_emulated_resolver_range() {
    let r = PhysAddrResolverEmulated::new(0x1000_0000);
    let v = virt_to_phys_range(&r, 0x0fe0_0000, 3).unwrap();
    assert_eq!(v, vec![None, Some(0), Some(0x20_0000)]);
    let v = virt_to_phys_range(&r, u64::MAX - 0x20_0000, 3).unwrap();
    assert_eq!(
        v,
        vec![
            Some(u64::MAX - 0x20_0000 - 0x1000_0000),
            Some(u64::MAX - 0x1000_0000),
            Some(u64::MAX - 0x1000_0000)
        ]
    );
}

#[test]
fn test_emulated_umem_handler() {
    let h = EmulatedUmemHandler::new(0x4000);
    assert_eq!(h.pin_pages(0x5000, 100), Ok(()));
    assert_eq!(h.unpin_pages(0x5000, 100), Ok(()));
    assert_eq!(h.virt_to_phys(0x5000), Ok(Some(0x1000)));
}

#[test]
fn test_emulated_page_allocator_pages() {
    let mut a = EmulatedPageAllocator::new(0x10_0000..0x10_0000 + 2 * PAGE_SIZE + 1, 0x10_0000);
    let p = PageAllocator::allocate(&mut a).unwrap();
    assert_eq!(p.addr(), 0x10_0000 + 2 * PAGE_SIZE);
    let p = PageAllocator::allocate(&mut a).unwrap();
    assert_eq!(p.addr(), 0x10_0000 + PAGE_SIZE);
    let p = PageAllocator::allocate(&mut a).unwrap();
    assert_eq!(p.addr(), 0x10_0000);
    assert_eq!(PageAllocator::allocate(&mut a), Err(MemError::OutOfMemory));
}

#[test]
fn test_emulated_dma_buf_alloc() {
    let mut a = EmulatedPageAllocator::new(0x20_0000..0x20_0000 + 2 * PAGE_SIZE, 0x10_0000);
    let b = DmaBufAllocator::allocate(&mut a, 64).unwrap();
    assert_eq!(b.phys_addr(), 0x10_0000 + PAGE_SIZE as u64);
    assert_eq!(b.buf, MmapMut::new(0x20_0000 + PAGE_SIZE, PAGE_SIZE));
    let b = DmaBufAllocator::allocate(&mut a, 64).unwrap();
    assert_eq!(b.phys_addr, 0x10_0000);
    assert!(DmaBufAllocator::allocate(&mut a, 64).is_err());
}

#[test]
fn test_desc_ring_buf_allocator() {
    assert!(RING_BUF_LEN * DESC_SIZE <= PAGE_SIZE);
    let mut a = EmulatedPageAllocator::new(0x20_0000..0x20_0000 + PAGE_SIZE, 0x20_0000);
    let mut rb_alloc = DescRingBufAllocator::new(&mut a);
    let b = rb_alloc.allocate().unwrap();
    assert_eq!(b.phys_addr, 0);
    assert_eq!(rb_alloc.allocate().err(), Some(MemError::OutOfMemory));
}

#[test]
fn test_page_with_phys_addr() {
    let mut a = EmulatedPageAllocator::new(0x20_0000..0x20_0000 + PAGE_SIZE, 0);
    let r = PhysAddrResolverEmulated::new(0x10_0000);
    let p = PageWithPhysAddr::allocate(&mut a, &r).ok().unwrap();
    assert_eq!(p.phys_addr, 0x10_0000);
    assert_eq!(p.page.addr(), 0x20_0000);
    assert!(matches!(
        PageWithPhysAddr::allocate(&mut a, &r),
        Err(MemError::OutOfMemory)
    ));
    let mut b = EmulatedPageAllocator::new(0x1000..0x2000, 0);
    assert!(matches!(
        PageWithPhysAddr::allocate(&mut b, &r),
        Err(MemError::NotFound)
    ));
    let q = PageWithPhysAddr::new(ContiguousPages::new(MmapMut::new(0x3000, 4096)), 0x42);
    assert_eq!(q.phys_addr, 0x42);
    let d = DmaBuf::new(MmapMut::new(0x3000, 4096), 0x99);
    assert_eq!(d.phys_addr(), 0x99);
}

#[test]
fn test_pagemap_decoding() {
    assert_eq!(pagemap_offset(0x7000_1234, 4096), 8 * 0x7_0001);
    let present = (1u64 << 63) | 0x1234;
    assert_eq!(
        decode_pagemap_entry(present, 0x7000_0abc, 4096),
        Some(0x1234 * 4096 + 0xabc)
    );
    assert_eq!(decode_pagemap_entry(0x1234, 0x7000_0abc, 4096), None);
    // bits 55..=62 are not part of the frame number
    let flagged = (1u64 << 63) | (1u64 << 56) | 0x10;
    assert_eq!(
        decode_pagemap_entry(flagged, 0x7000_0001, 4096),
        Some(0x10 * 4096 + 1)
    );
}

#[test]
fn test_pagemap_range() {
    assert_eq!(
        pagemap_offsets(0x2000, 3, 4096),
        vec![16, 8 * 0x202, 8 * 0x402]
    );
    let entries = vec![(1u64 << 63) | 5, 0, (1u64 << 63) | 7];
    let v = decode_pagemap_entries(&entries, 0x2010, 4096);
    assert_eq!(v, vec![Some(5 * 4096 + 0x10), None, Some(7 * 4096 + 0x10)]);
    assert!(!needs_device_lookup(&v));
    assert!(needs_device_lookup(&vec![None, None]));
}

#[test]
fn test_allocate_device_rings_order() {
    let base = 0x4000_0000usize;
    let mut a = EmulatedPageAllocator::new(base..base + 11 * PAGE_SIZE, base as u64);
    let mut ra = DescRingBufAllocator::new(&mut a);
    let rings = allocate_device_rings(&mut ra, 2).ok().unwrap();
    let page = |i: usize| (10 - i) as u64 * PAGE_SIZE as u64;
    assert_eq!(rings.cmd_req.phys_addr, page(0));
    assert_eq!(rings.cmd_resp.phys_addr, page(1));
    let send: Vec<u64> = rings.send.iter().map(|b| b.phys_addr).collect();
    assert_eq!(send, vec![page(2), page(3)]);
    let meta: Vec<u64> = rings.meta.iter().map(|b| b.phys_addr).collect();
    assert_eq!(meta, vec![page(4), page(5)]);
    assert_eq!(rings.nic_rx_buffer.phys_addr, page(6));
    let nic: Vec<u64> = rings.nic.iter().map(|b| b.phys_addr).collect();
    assert_eq!(nic, vec![page(7), page(8), page(9)]);
    assert_eq!(rings.mtt.phys_addr, page(10));
}

#[test]
fn test_allocate_device_rings_stops_at_first_failure() {
    let base = 0x4000_0000usize;
    let mut a = EmulatedPageAllocator::new(base..base + 10 * PAGE_SIZE, base as u64);
    let mut ra = DescRingBufAllocator::new(&mut a);
    assert!(matches!(
        allocate_device_rings(&mut ra, 2),
        Err(MemError::OutOfMemory)
    ));
}
