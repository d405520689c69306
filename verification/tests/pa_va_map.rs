use blue_rdma::mem::pa_va_map::{AddressRange, PaVaMap};

#[test]
fn test_insert_and_lookup() {
    let mut map = PaVaMap::new();

    // Insert a mapping
    map.insert(0x1000, 0x7000, 0x1000);

    // Lookup addresses within the range
    assert_eq!(map.lookup(0x1000), Some(0x7000));
    assert_eq!(map.lookup(0x1500), Some(0x7500));
    assert_eq!(map.lookup(0x1fff), Some(0x7fff));

    // Lookup addresses outside the range
    assert_eq!(map.lookup(0x0fff), None);
    assert_eq!(map.lookup(0x2000), None);
}

#[test]
fn test_multiple_ranges() {
    let mut map = PaVaMap::new();

    // Insert multiple non-overlapping ranges
    map.insert(0x1000, 0x7000, 0x1000);
    map.insert(0x3000, 0x8000, 0x2000);
    map.insert(0x6000, 0xa000, 0x1000);

    // Lookup in first range
    assert_eq!(map.lookup(0x1500), Some(0x7500));

    // Lookup in second range
    assert_eq!(map.lookup(0x3500), Some(0x8500));
    assert_eq!(map.lookup(0x4fff), Some(0x9fff));

    // Lookup in third range
    assert_eq!(map.lookup(0x6500), Some(0xa500));

    // Lookup in gaps
    assert_eq!(map.lookup(0x2000), None);
    assert_eq!(map.lookup(0x5000), None);
    assert_eq!(map.lookup(0x7000), None);
}

#[test]
fn test_remove() {
    let mut map = PaVaMap::new();

    map.insert(0x1000, 0x7000, 0x1000);
    assert_eq!(map.lookup(0x1500), Some(0x7500));

    map.remove(0x1000);
    assert_eq!(map.lookup(0x1500), None);
}

#[test]
fn test_adjacent_ranges() {
    let mut map = PaVaMap::new();

    // Insert adjacent (non-overlapping) ranges
    map.insert(0x1000, 0x7000, 0x1000);
    map.insert(0x2000, 0x8000, 0x1000);

    // Both ranges should be accessible
    assert_eq!(map.lookup(0x1fff), Some(0x7fff));
    assert_eq!(map.lookup(0x2000), Some(0x8000));
}

#[test]
fn test_len_and_is_empty() {
    let mut map = PaVaMap::new();

    assert!(map.is_empty());
    assert_eq!(map.len(), 0);

    map.insert(0x1000, 0x7000, 0x1000);
    assert!(!map.is_empty());
    assert_eq!(map.len(), 1);

    map.insert(0x2000, 0x8000, 0x1000);
    assert_eq!(map.len(), 2);

    map.remove(0x1000);
    assert_eq!(map.len(), 1);

    map.remove(0x2000);
    assert!(map.is_empty());
}

#[test]
fn test_lookup_by_va() {
    let mut map = PaVaMap::new();

    // Insert mappings
    map.insert(0x1000, 0x7000, 0x1000);
    map.insert(0x3000, 0x8000, 0x2000);

    // Test VA → PA lookups (exact matches only)
    assert_eq!(map.lookup_by_va(0x7000), Some(0x1000));
    assert_eq!(map.lookup_by_va(0x8000), Some(0x3000));

    // Non-existent VA
    assert_eq!(map.lookup_by_va(0x9000), None);

    // Offset addresses should not match (exact match only)
    assert_eq!(map.lookup_by_va(0x7500), None);
    assert_eq!(map.lookup_by_va(0x8500), None);
}

#[test]
fn test_bidirectional_lookup() {
    let mut map = PaVaMap::new();

    map.insert(0x1000, 0x7000, 0x1000);

    // Test PA → VA
    assert_eq!(map.lookup(0x1000), Some(0x7000));
    assert_eq!(map.lookup(0x1500), Some(0x7500));

    // Test VA → PA
    assert_eq!(map.lookup_by_va(0x7000), Some(0x1000));
}

#[test]
fn test_remove_by_va() {
    let mut map = PaVaMap::new();

    // Insert mapping
    map.insert(0x1000, 0x7000, 0x1000);

    // Verify it exists
    assert_eq!(map.lookup_by_va(0x7000), Some(0x1000));
    assert_eq!(map.lookup(0x1000), Some(0x7000));

    // Remove by VA
    map.remove_by_va(0x7000);

    // Verify both directions are removed
    assert_eq!(map.lookup_by_va(0x7000), None);
    assert_eq!(map.lookup(0x1000), None);
    assert!(map.is_empty());
}

#[test]
fn test_remove_maintains_both_indices() {
    let mut map = PaVaMap::new();

    // Insert mapping
    map.insert(0x1000, 0x7000, 0x1000);

    // Verify it exists
    assert_eq!(map.lookup_by_va(0x7000), Some(0x1000));
    assert_eq!(map.lookup(0x1000), Some(0x7000));

    // Remove by PA (original method)
    map.remove(0x1000);

    // Verify both directions are removed
    assert_eq!(map.lookup_by_va(0x7000), None);
    assert_eq!(map.lookup(0x1000), None);
    assert!(map.is_empty());
}

#[test]
fn test_bidirectional_with_multiple_ranges() {
    let mut map = PaVaMap::new();

    // Insert multiple ranges
    map.insert(0x1000, 0x7000, 0x1000);
    map.insert(0x3000, 0x8000, 0x2000);
    map.insert(0x6000, 0xa000, 0x1000);

    // Test all VA → PA lookups
    assert_eq!(map.lookup_by_va(0x7000), Some(0x1000));
    assert_eq!(map.lookup_by_va(0x8000), Some(0x3000));
    assert_eq!(map.lookup_by_va(0xa000), Some(0x6000));

    // Test all PA → VA lookups
    assert_eq!(map.lookup(0x1000), Some(0x7000));
    assert_eq!(map.lookup(0x3000), Some(0x8000));
    assert_eq!(map.lookup(0x6000), Some(0xa000));

    // Remove middle range by VA
    map.remove_by_va(0x8000);

    // Verify only that range is removed
    assert_eq!(map.lookup_by_va(0x7000), Some(0x1000));
    assert_eq!(map.lookup_by_va(0x8000), None);
    assert_eq!(map.lookup_by_va(0xa000), Some(0x6000));
    assert_eq!(map.len(), 2);
}

#[test]
fn test_clear_removes_both_indices() {
    let mut map = PaVaMap::new();

    // Insert multiple mappings
    map.insert(0x1000, 0x7000, 0x1000);
    map.insert(0x2000, 0x8000, 0x1000);

    assert_eq!(map.len(), 2);

    // Clear all
    map.clear();

    // Verify both indices are empty
    assert!(map.is_empty());
    assert_eq!(map.lookup_by_va(0x7000), None);
    assert_eq!(map.lookup_by_va(0x8000), None);
    assert_eq!(map.lookup(0x1000), None);
    assert_eq!(map.lookup(0x2000), None);
}

#[test]
fn test_overlap_query_matches_insert_rule() {
    let mut map = PaVaMap::new();
    map.insert(0x1000, 0x7000, 0x2000);
    assert!(map.overlaps_existing(0x1500, 0x1000));
    assert!(map.overlaps_existing(0x0800, 0x1000));
    assert!(!map.overlaps_existing(0x3000, 0x1000));
    assert!(!map.overlaps_existing(0x0000, 0x1000));
}

#[test]
fn test_lookup_offsets_within_region() {
    let mut map = PaVaMap::new();
    map.insert(0x1000, 0x7000, 0x2000);
    assert_eq!(map.lookup(0x1000), Some(0x7000));
    assert_eq!(map.lookup(0x2000), Some(0x8000));
    assert_eq!(map.lookup(0x2fff), Some(0x8fff));
    assert_eq!(map.lookup(0x3000), None);
}

#[test]
fn test_remove_undoes_insert() {
    let mut map = PaVaMap::new();
    map.insert(0x1000, 0x7000, 0x1000);
    map.insert(0x5000, 0x9000, 0x1000);
    map.remove(0x5000);
    assert_eq!(map.len(), 1);
    assert_eq!(map.lookup(0x5000), None);
    assert_eq!(map.lookup_by_va(0x9000), None);
    assert_eq!(map.lookup(0x1800), Some(0x7800));
    assert_eq!(map.lookup_by_va(0x7000), Some(0x1000));
}

#[test]
fn test_remove_missing_is_noop() {
    let mut map = PaVaMap::new();
    map.insert(0x1000, 0x7000, 0x1000);
    map.remove(0x1800);
    map.remove_by_va(0x7800);
    assert_eq!(map.len(), 1);
    assert_eq!(map.lookup(0x1800), Some(0x7800));
}

#[test]
fn test_empty_region_replaces_same_key() {
    let mut map = PaVaMap::new();
    map.insert(0x1000, 0x7000, 0x1000);
    map.insert(0x1000, 0x9000, 0);
    assert_eq!(map.len(), 1);
    assert_eq!(map.lookup(0x1000), None);
    assert_eq!(map.lookup_by_va(0x9000), Some(0x1000));
    assert_eq!(map.lookup_by_va(0x7000), Some(0x1000));
}

#[test]
fn test_address_range_contains_and_translate() {
    let r = AddressRange {
        pa_start: 0x1000,
        pa_end: 0x2000,
        va_start: 0x7000,
    };
    assert!(r.contains(0x1000));
    assert!(!r.contains(0x2000));
    assert_eq!(r.pa_to_va(0x1234), Some(0x7234));
    assert_eq!(r.pa_to_va(0x0fff), None);
}

#[test]
fn test_lookup_extent_gives_remaining_length() {
    let mut map = PaVaMap::new();
    map.insert(0x1000, 0x7000, 0x2000);
    assert_eq!(map.lookup_extent(0x1000), Some((0x7000, 0x2000)));
    assert_eq!(map.lookup_extent(0x2000), Some((0x8000, 0x1000)));
    assert_eq!(map.lookup_extent(0x2fff), Some((0x8fff, 1)));
    assert_eq!(map.lookup_extent(0x3000), None);
}
