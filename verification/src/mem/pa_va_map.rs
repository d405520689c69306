//! Bidirectional map between physical and virtual address ranges.
//!
//! The simulator issues memory requests by physical address while the driver
//! works on virtual addresses; this table records which physical range is
//! backed by which virtual range.
use std::collections::BTreeMap;
use vstd::prelude::*;
use vstd::std_specs::iter::IteratorSpec;

verus! {

/// A physical address range `[pa_start, pa_end)` mapped to virtual addresses
/// starting at `va_start`.
#[derive(Clone, Copy, Debug, PartialEq, Eq, Structural)]
pub struct AddressRange {
    /// Starting physical address.
    pub pa_start: u64,
    /// Ending physical address (exclusive).
    pub pa_end: u64,
    /// Starting virtual address.
    pub va_start: u64,
}

impl AddressRange {
    /// The range is well formed: it does not run backwards, and every address
    /// in it translates to a virtual address that fits in 64 bits.
    pub open spec fn wf(self) -> bool {
        &&& self.pa_start <= self.pa_end
        &&& self.va_start + (self.pa_end - self.pa_start) <= u64::MAX + 1
    }

    pub open spec fn spec_contains(self, pa: u64) -> bool {
        self.pa_start <= pa < self.pa_end
    }

    pub open spec fn spec_pa_to_va(self, pa: u64) -> Option<u64> {
        if self.spec_contains(pa) {
            Some((self.va_start + (pa - self.pa_start)) as u64)
        } else {
            None
        }
    }

    /// Checks whether a physical address falls within this range.
    pub fn contains(&self, pa: u64) -> (r: bool)
        ensures
            r == self.spec_contains(pa),
    {
        pa >= self.pa_start && pa < self.pa_end
    }

    /// Converts a physical address to the virtual address it is mapped to, or
    /// `None` when the address lies outside this range.
    pub fn pa_to_va(&self, pa: u64) -> (r: Option<u64>)
        requires
            self.spec_contains(pa) ==> self.va_start + (pa - self.pa_start) <= u64::MAX,
        ensures
            r == self.spec_pa_to_va(pa),
    {
        if self.contains(pa) {
            let offset = pa - self.pa_start;
            Some(self.va_start + offset)
        } else {
            None
        }
    }
}

/// Two physical ranges share at least one address (the test used on insert).
pub open spec fn overlaps(a: AddressRange, b: AddressRange) -> bool {
    a.pa_start < b.pa_end && a.pa_end > b.pa_start
}

/// Every entry is keyed by its start address, is well formed, and no two
/// entries overlap.
pub open spec fn ranges_wf(m: Map<u64, AddressRange>) -> bool {
    &&& m.dom().finite()
    &&& forall|k: u64| #[trigger] m.contains_key(k) ==> m[k].pa_start == k && m[k].wf()
    &&& forall|k1: u64, k2: u64|
        #![trigger m.contains_key(k1), m.contains_key(k2)]
        m.contains_key(k1) && m.contains_key(k2) && k1 != k2 ==> !overlaps(m[k1], m[k2])
}

/// Some registered range contains `pa`.
pub open spec fn is_mapped(m: Map<u64, AddressRange>, pa: u64) -> bool {
    exists|k: u64| #[trigger] m.contains_key(k) && m[k].spec_contains(pa)
}

/// The virtual address that `pa` translates to under the ranges `m`.
pub open spec fn spec_lookup(m: Map<u64, AddressRange>, pa: u64) -> Option<u64> {
    if is_mapped(m, pa) {
        let k = choose|k: u64| #[trigger] m.contains_key(k) && m[k].spec_contains(pa);
        m[k].spec_pa_to_va(pa)
    } else {
        None
    }
}

/// The translation of `pa` together with the number of bytes from `pa` to
/// the end of its region.
pub open spec fn spec_lookup_extent(m: Map<u64, AddressRange>, pa: u64) -> Option<(u64, u64)> {
    if is_mapped(m, pa) {
        let k = choose|k: u64| #[trigger] m.contains_key(k) && m[k].spec_contains(pa);
        Some(((m[k].va_start + (pa - k)) as u64, (m[k].pa_end - pa) as u64))
    } else {
        None
    }
}

/// The range that `insert(pa, va, size)` registers.
pub open spec fn new_range(pa: u64, va: u64, size: usize) -> AddressRange {
    AddressRange { pa_start: pa, pa_end: (pa + size) as u64, va_start: va }
}

/// The arguments of `insert` describe a range that fits in the address space.
pub open spec fn insert_args_ok(pa: u64, va: u64, size: usize) -> bool {
    &&& pa + size <= u64::MAX
    &&& va + size <= u64::MAX + 1
}

/// The physical range `[pa_start, pa_end)` would overlap a registered one.
pub open spec fn overlaps_any(m: Map<u64, AddressRange>, pa_start: u64, pa_end: u64) -> bool {
    exists|k: u64|
        #[trigger] m.contains_key(k) && pa_start < m[k].pa_end && pa_end > m[k].pa_start
}

/// At most one well-formed entry contains a given address.
pub proof fn lemma_containing_range_unique(m: Map<u64, AddressRange>, pa: u64, k1: u64, k2: u64)
    requires
        ranges_wf(m),
        m.contains_key(k1),
        m.contains_key(k2),
        m[k1].spec_contains(pa),
        m[k2].spec_contains(pa),
    ensures
        k1 == k2,
{
    if k1 != k2 {
        assert(overlaps(m[k1], m[k2]));
    }
}

/// The lookup result through a known containing entry.
pub proof fn lemma_lookup_through(m: Map<u64, AddressRange>, pa: u64, k: u64)
    requires
        ranges_wf(m),
        m.contains_key(k),
        m[k].spec_contains(pa),
    ensures
        spec_lookup(m, pa) == m[k].spec_pa_to_va(pa),
{
    assert(is_mapped(m, pa));
    let c = choose|c: u64| #[trigger] m.contains_key(c) && m[c].spec_contains(pa);
    lemma_containing_range_unique(m, pa, k, c);
}

/// The abstract state of a `PaVaMap`.
#[verifier::ext_equal]
pub struct PaVaMapView {
    /// Ranges keyed by their starting physical address.
    pub ranges: Map<u64, AddressRange>,
    /// Reverse index from a starting virtual address to a starting physical address.
    pub va_to_pa: Map<u64, u64>,
}

/// Bidirectional mapping table for PA <-> VA translation.
pub struct PaVaMap {
    ranges: BTreeMap<u64, AddressRange>,
    va_to_pa: BTreeMap<u64, u64>,
}

impl View for PaVaMap {
    type V = PaVaMapView;

    closed spec fn view(&self) -> PaVaMapView {
        PaVaMapView { ranges: self.ranges@, va_to_pa: self.va_to_pa@ }
    }
}

impl PaVaMap {
    /// The table's invariant: the registered ranges are well formed and disjoint.
    pub open spec fn wf(&self) -> bool {
        ranges_wf(self@.ranges)
    }

    /// Creates an empty mapping table.
    pub fn new() -> (r: Self)
        ensures
            r.wf(),
            r@.ranges == Map::<u64, AddressRange>::empty(),
            r@.va_to_pa == Map::<u64, u64>::empty(),
    {
        PaVaMap { ranges: BTreeMap::new(), va_to_pa: BTreeMap::new() }
    }

    /// Looks up the virtual address that a physical address is mapped to.
    pub fn lookup(&self, pa: u64) -> (r: Option<u64>)
        requires
            self.wf(),
        ensures
            r == spec_lookup(self@.ranges, pa),
    {
        let ghost m = self@.ranges;
        for item in it: self.ranges.iter()
            invariant
                m == self.ranges@,
                ranges_wf(m),
                forall|i: int| 0 <= i < it.index() ==> !(*#[trigger] it.seq()[i].1).spec_contains(pa),
                it.seq() == vstd::std_specs::btree::spec_btree_map_iter(&self.ranges).remaining(),
        {
            let (_k, range) = item;
            if range.contains(pa) {
                proof {
                    assert(m.contains_key(*it.seq()[it.index()].0));
                }
                return range.pa_to_va(pa);
            }
        }
        proof {
            let v = vstd::std_specs::btree::spec_btree_map_iter(&self.ranges).remaining();
            assert forall|k: u64| #[trigger] m.contains_key(k) implies !m[k].spec_contains(pa) by {
                assert(v.contains((&k, &m[k])));
                let i = choose|i: int| 0 <= i < v.len() && v[i] == (&k, &m[k]);
                assert(!(*v[i].1).spec_contains(pa));
            }
        }
        None
    }

    /// Looks up the virtual address of a physical address together with the
    /// number of bytes that stay mapped from there to the end of its region.
    pub fn lookup_extent(&self, pa: u64) -> (r: Option<(u64, u64)>)
        requires
            self.wf(),
        ensures
            r == spec_lookup_extent(self@.ranges, pa),
            r matches Some((va, _)) ==> spec_lookup(self@.ranges, pa) == Some(va),
            r is None <==> spec_lookup(self@.ranges, pa) is None,
            forall|k: u64|
                #[trigger] self@.ranges.contains_key(k) && self@.ranges[k].spec_contains(pa) ==> r
                    == Some::<(u64, u64)>(
                    (
                        (self@.ranges[k].va_start + (pa - k)) as u64,
                        (self@.ranges[k].pa_end - pa) as u64,
                    ),
                ),
    {
        proof {
            assert forall|k: u64|
                #[trigger] self@.ranges.contains_key(k) && self@.ranges[k].spec_contains(
                    pa,
                ) implies spec_lookup_extent(self@.ranges, pa) == Some::<(u64, u64)>(
                (
                    (self@.ranges[k].va_start + (pa - k)) as u64,
                    (self@.ranges[k].pa_end - pa) as u64,
                ),
            ) by {
                lemma_extent_reaches_region_end(self@.ranges, pa, k);
            }
        }
        let ghost m = self@.ranges;
        for item in it: self.ranges.iter()
            invariant
                m == self.ranges@,
                ranges_wf(m),
                forall|i: int| 0 <= i < it.index() ==> !(*#[trigger] it.seq()[i].1).spec_contains(pa),
                it.seq() == vstd::std_specs::btree::spec_btree_map_iter(&self.ranges).remaining(),
        {
            let (k, range) = item;
            if range.contains(pa) {
                proof {
                    let kk = *it.seq()[it.index()].0;
                    assert(m.contains_key(kk));
                    let c = choose|c: u64| #[trigger] m.contains_key(c) && m[c].spec_contains(pa);
                    lemma_containing_range_unique(m, pa, kk, c);
                }
                return Some((range.va_start + (pa - range.pa_start), range.pa_end - pa));
            }
        }
        proof {
            let v = vstd::std_specs::btree::spec_btree_map_iter(&self.ranges).remaining();
            assert forall|k: u64| #[trigger] m.contains_key(k) implies !m[k].spec_contains(pa) by {
                assert(v.contains((&k, &m[k])));
                let i = choose|i: int| 0 <= i < v.len() && v[i] == (&k, &m[k]);
                assert(!(*v[i].1).spec_contains(pa));
            }
        }
        None
    }

    /// Whether a region of `size` bytes starting at physical address `pa`
    /// overlaps a registered region. `insert` must not be called when it does.
    pub fn overlaps_existing(&self, pa: u64, size: usize) -> (r: bool)
        requires
            self.wf(),
            pa + size <= u64::MAX,
        ensures
            r == overlaps_any(self@.ranges, pa, (pa + size) as u64),
    {
        let ghost m = self@.ranges;
        let pa_end = pa + size as u64;
        for item in it: self.ranges.iter()
            invariant
                m == self.ranges@,
                pa_end == pa + size,
                forall|i: int|
                    0 <= i < it.index() ==> !(pa < (*#[trigger] it.seq()[i].1).pa_end && pa_end
                        > (*it.seq()[i].1).pa_start),
                it.seq() == vstd::std_specs::btree::spec_btree_map_iter(&self.ranges).remaining(),
        {
            let (_k, existing) = item;
            if pa < existing.pa_end && pa_end > existing.pa_start {
                proof {
                    assert(m.contains_key(*it.seq()[it.index()].0));
                }
                return true;
            }
        }
        proof {
            let v = vstd::std_specs::btree::spec_btree_map_iter(&self.ranges).remaining();
            assert forall|k: u64| #[trigger] m.contains_key(k) implies !(pa < m[k].pa_end && pa_end
                > m[k].pa_start) by {
                assert(v.contains((&k, &m[k])));
                let i = choose|i: int| 0 <= i < v.len() && v[i] == (&k, &m[k]);
                assert(!(pa < (*v[i].1).pa_end && pa_end > (*v[i].1).pa_start));
            }
        }
        false
    }

    /// Registers the mapping of the physical region `[pa, pa + size)` to the
    /// virtual region starting at `va`. A region already keyed by `pa` is
    /// replaced; the reverse index maps `va` to `pa`.
    pub fn insert(&mut self, pa: u64, va: u64, size: usize)
        requires
            old(self).wf(),
            insert_args_ok(pa, va, size),
            !overlaps_any(old(self)@.ranges, pa, (pa + size) as u64),
        ensures
            final(self).wf(),
            final(self)@.ranges == old(self)@.ranges.insert(pa, new_range(pa, va, size)),
            final(self)@.va_to_pa == old(self)@.va_to_pa.insert(va, pa),
            final(self)@ =~= apply_op(old(self)@, MapOp::Insert { pa, va, size }),
            final(self)@.ranges.len() == old(self)@.ranges.len() + if old(self)@.ranges.contains_key(
                pa,
            ) {
                0int
            } else {
                1int
            },
    {
        let range = AddressRange { pa_start: pa, pa_end: pa + size as u64, va_start: va };
        let _ = self.ranges.insert(pa, range);
        let _ = self.va_to_pa.insert(va, pa);
        proof {
            lemma_insert_preserves_wf(old(self)@.ranges, pa, va, size);
        }
    }

    /// Looks up the starting physical address of the region whose starting
    /// virtual address is exactly `va`.
    pub fn lookup_by_va(&self, va: u64) -> (r: Option<u64>)
        ensures
            r == (if self@.va_to_pa.contains_key(va) {
                Some(self@.va_to_pa[va])
            } else {
                None
            }),
    {
        match self.va_to_pa.get(&va) {
            Some(pa) => Some(*pa),
            None => None,
        }
    }

    /// Removes the region keyed by physical address `pa`, together with the
    /// reverse entry of its starting virtual address. Does nothing when no
    /// region starts at `pa`.
    pub fn remove(&mut self, pa: u64)
        requires
            old(self).wf(),
        ensures
            final(self).wf(),
            old(self)@.ranges.contains_key(pa) ==> {
                &&& final(self)@.ranges == old(self)@.ranges.remove(pa)
                &&& final(self)@.ranges.len() == old(self)@.ranges.len() - 1
                &&& final(self)@.va_to_pa == old(self)@.va_to_pa.remove(
                    old(self)@.ranges[pa].va_start,
                )
            },
            !old(self)@.ranges.contains_key(pa) ==> {
                &&& final(self)@.ranges == old(self)@.ranges
                &&& final(self)@.va_to_pa == old(self)@.va_to_pa
            },
            final(self)@ =~= apply_op(old(self)@, MapOp::Remove { pa }),
    {
        if let Some(range) = self.ranges.remove(&pa) {
            let _ = self.va_to_pa.remove(&range.va_start);
        }
        proof {
            lemma_remove_preserves_wf(old(self)@.ranges, pa);
        }
    }

    /// Removes the region whose starting virtual address is `va`: the reverse
    /// entry for `va` and the region keyed by the physical address it names.
    /// Does nothing when `va` is not a registered starting virtual address.
    pub fn remove_by_va(&mut self, va: u64)
        requires
            old(self).wf(),
        ensures
            final(self).wf(),
            old(self)@.va_to_pa.contains_key(va) ==> {
                &&& final(self)@.va_to_pa == old(self)@.va_to_pa.remove(va)
                &&& final(self)@.ranges == old(self)@.ranges.remove(old(self)@.va_to_pa[va])
            },
            !old(self)@.va_to_pa.contains_key(va) ==> {
                &&& final(self)@.ranges == old(self)@.ranges
                &&& final(self)@.va_to_pa == old(self)@.va_to_pa
            },
            final(self)@ =~= apply_op(old(self)@, MapOp::RemoveByVa { va }),
    {
        if let Some(pa) = self.va_to_pa.remove(&va) {
            let _ = self.ranges.remove(&pa);
            proof {
                lemma_remove_preserves_wf(old(self)@.ranges, pa);
            }
        }
    }

    /// Number of registered regions.
    pub fn len(&self) -> (r: usize)
        ensures
            r == self@.ranges.len(),
    {
        self.ranges.len()
    }

    /// Whether no region is registered.
    pub fn is_empty(&self) -> (r: bool)
        ensures
            r == (self@.ranges.len() == 0),
    {
        let r = self.ranges.is_empty();
        proof {
            if !r {
                assert(self@.ranges.dom().len() > 0) by {
                    let k = choose|k: u64| self@.ranges.contains_key(k);
                    assert(self@.ranges.dom().contains(k));
                }
            }
        }
        r
    }

    /// Removes every mapping, in both directions.
    pub fn clear(&mut self)
        ensures
            final(self).wf(),
            final(self)@.ranges == Map::<u64, AddressRange>::empty(),
            final(self)@.va_to_pa == Map::<u64, u64>::empty(),
            final(self)@ =~= apply_op(old(self)@, MapOp::Clear),
    {
        self.ranges.clear();
        self.va_to_pa.clear();
    }
}

/// Inserting a region that overlaps no registered region keeps the table well formed.
pub proof fn lemma_insert_preserves_wf(m: Map<u64, AddressRange>, pa: u64, va: u64, size: usize)
    requires
        ranges_wf(m),
        insert_args_ok(pa, va, size),
        !overlaps_any(m, pa, (pa + size) as u64),
    ensures
        ranges_wf(m.insert(pa, new_range(pa, va, size))),
{
    let n = m.insert(pa, new_range(pa, va, size));
    assert forall|k1: u64, k2: u64|
        #![trigger n.contains_key(k1), n.contains_key(k2)]
        n.contains_key(k1) && n.contains_key(k2) && k1 != k2 implies !overlaps(n[k1], n[k2]) by {
        if k1 == pa {
            assert(m.contains_key(k2));
        } else if k2 == pa {
            assert(m.contains_key(k1));
        } else {
            assert(m.contains_key(k1) && m.contains_key(k2));
        }
    }
}

/// Removing a region keeps the table well formed.
pub proof fn lemma_remove_preserves_wf(m: Map<u64, AddressRange>, pa: u64)
    requires
        ranges_wf(m),
    ensures
        ranges_wf(m.remove(pa)),
{
    let n = m.remove(pa);
    assert forall|k1: u64, k2: u64|
        #![trigger n.contains_key(k1), n.contains_key(k2)]
        n.contains_key(k1) && n.contains_key(k2) && k1 != k2 implies !overlaps(n[k1], n[k2]) by {
        assert(m.contains_key(k1) && m.contains_key(k2));
    }
}

/// A read gives back a write: after registering `[pa, pa + size)` at `va`,
/// every address of the region translates to the matching offset from `va`,
/// `va` maps back to `pa`, and every address outside the region translates
/// as it did before. (An empty region keyed like a registered one replaces
/// it, so the last clause is stated for non-empty regions or fresh keys.)
pub proof fn lemma_lookup_after_insert(
    ranges: Map<u64, AddressRange>,
    va_to_pa: Map<u64, u64>,
    pa: u64,
    va: u64,
    size: usize,
    x: u64,
)
    requires
        ranges_wf(ranges),
        insert_args_ok(pa, va, size),
        !overlaps_any(ranges, pa, (pa + size) as u64),
        size > 0 || !ranges.contains_key(pa),
    ensures
        pa <= x < pa + size ==> spec_lookup(ranges.insert(pa, new_range(pa, va, size)), x) == Some(
            (va + (x - pa)) as u64,
        ),
        !(pa <= x < pa + size) ==> spec_lookup(ranges.insert(pa, new_range(pa, va, size)), x)
            == spec_lookup(ranges, x),
        va_to_pa.insert(va, pa).contains_key(va),
        va_to_pa.insert(va, pa)[va] == pa,
{
    let r = new_range(pa, va, size);
    let n = ranges.insert(pa, r);
    lemma_insert_preserves_wf(ranges, pa, va, size);
    if pa <= x < pa + size {
        lemma_lookup_through(n, x, pa);
    } else {
        if is_mapped(ranges, x) {
            let k = choose|k: u64| #[trigger] ranges.contains_key(k) && ranges[k].spec_contains(x);
            assert(k != pa) by {
                if k == pa {
                    assert(pa < ranges[k].pa_end && pa + size > ranges[k].pa_start);
                }
            }
            lemma_lookup_through(ranges, x, k);
            lemma_lookup_through(n, x, k);
        } else {
            assert(!is_mapped(n, x)) by {
                if is_mapped(n, x) {
                    let k = choose|k: u64| #[trigger] n.contains_key(k) && n[k].spec_contains(x);
                    assert(k != pa);
                    assert(ranges.contains_key(k));
                }
            }
        }
    }
}

/// After a region is removed, none of its addresses translate any more, and
/// every other address translates as it did before.
pub proof fn lemma_lookup_after_remove(ranges: Map<u64, AddressRange>, pa: u64, x: u64)
    requires
        ranges_wf(ranges),
        ranges.contains_key(pa),
    ensures
        ranges[pa].spec_contains(x) ==> spec_lookup(ranges.remove(pa), x) is None,
        !ranges[pa].spec_contains(x) ==> spec_lookup(ranges.remove(pa), x) == spec_lookup(
            ranges,
            x,
        ),
{
    let n = ranges.remove(pa);
    lemma_remove_preserves_wf(ranges, pa);
    if ranges[pa].spec_contains(x) {
        if is_mapped(n, x) {
            let k = choose|k: u64| #[trigger] n.contains_key(k) && n[k].spec_contains(x);
            lemma_containing_range_unique(ranges, x, k, pa);
        }
    } else if is_mapped(ranges, x) {
        let k = choose|k: u64| #[trigger] ranges.contains_key(k) && ranges[k].spec_contains(x);
        lemma_lookup_through(ranges, x, k);
        lemma_lookup_through(n, x, k);
    } else {
        assert(!is_mapped(n, x)) by {
            if is_mapped(n, x) {
                let k = choose|k: u64| #[trigger] n.contains_key(k) && n[k].spec_contains(x);
                assert(ranges.contains_key(k));
            }
        }
    }
}

/// Removing by physical address undoes an insert of a fresh region: both
/// indices return to what they were before.
pub proof fn lemma_remove_undoes_insert(
    ranges: Map<u64, AddressRange>,
    va_to_pa: Map<u64, u64>,
    pa: u64,
    va: u64,
    size: usize,
)
    requires
        !ranges.contains_key(pa),
        !va_to_pa.contains_key(va),
    ensures
        ranges.insert(pa, new_range(pa, va, size)).remove(pa) == ranges,
        va_to_pa.insert(va, pa).remove(ranges.insert(pa, new_range(pa, va, size))[pa].va_start)
            == va_to_pa,
{
    assert(ranges.insert(pa, new_range(pa, va, size)).remove(pa) =~= ranges);
    assert(va_to_pa.insert(va, pa).remove(va) =~= va_to_pa);
}

/// Removing by virtual address undoes an insert of a fresh region as well.
pub proof fn lemma_remove_by_va_undoes_insert(
    ranges: Map<u64, AddressRange>,
    va_to_pa: Map<u64, u64>,
    pa: u64,
    va: u64,
    size: usize,
)
    requires
        !ranges.contains_key(pa),
        !va_to_pa.contains_key(va),
    ensures
        va_to_pa.insert(va, pa).remove(va) == va_to_pa,
        ranges.insert(pa, new_range(pa, va, size)).remove(va_to_pa.insert(va, pa)[va]) == ranges,
{
    assert(ranges.insert(pa, new_range(pa, va, size)).remove(pa) =~= ranges);
    assert(va_to_pa.insert(va, pa).remove(va) =~= va_to_pa);
}

/// The number of regions grows by one when a region with a fresh starting
/// physical address is inserted and shrinks by one when a region is removed.
pub proof fn lemma_len_after_insert_remove(
    ranges: Map<u64, AddressRange>,
    pa: u64,
    r: AddressRange,
    k: u64,
)
    requires
        ranges.dom().finite(),
    ensures
        !ranges.contains_key(pa) ==> ranges.insert(pa, r).len() == ranges.len() + 1,
        ranges.contains_key(k) ==> ranges.remove(k).len() == ranges.len() - 1,
{
}

/// The two indices agree: every region is reachable from its starting
/// virtual address, and every virtual start names a region starting there.
pub open spec fn indices_agree(v: PaVaMapView) -> bool {
    &&& forall|k: u64| #[trigger]
        v.ranges.contains_key(k) ==> v.va_to_pa.contains_key(v.ranges[k].va_start)
            && v.va_to_pa[v.ranges[k].va_start] == k
    &&& forall|x: u64| #[trigger]
        v.va_to_pa.contains_key(x) ==> v.ranges.contains_key(v.va_to_pa[x])
            && v.ranges[v.va_to_pa[x]].va_start == x
}

/// With agreeing indices, the virtual lookup finds exactly the regions that
/// start at the given virtual address: `lookup_by_va(x)` is `Some(p)` iff a
/// registered region starts at `p` with virtual start `x`.
pub proof fn lemma_lookup_by_va_exact(v: PaVaMapView, x: u64, p: u64)
    requires
        indices_agree(v),
    ensures
        (v.va_to_pa.contains_key(x) && v.va_to_pa[x] == p) <==> (v.ranges.contains_key(p)
            && v.ranges[p].va_start == x),
{
    if v.ranges.contains_key(p) && v.ranges[p].va_start == x {
        assert(v.va_to_pa.contains_key(v.ranges[p].va_start));
    }
}

/// An empty table has agreeing indices.
pub proof fn lemma_empty_indices_agree()
    ensures
        indices_agree(
            PaVaMapView { ranges: Map::<u64, AddressRange>::empty(), va_to_pa: Map::<u64, u64>::empty() },
        ),
{
}

/// Inserting a region with a fresh physical start and a fresh virtual start
/// keeps the indices agreeing, adds one region, and makes `va` map to `pa`
/// while every other virtual start maps as before.
pub proof fn lemma_insert_fresh(v: PaVaMapView, pa: u64, va: u64, size: usize)
    requires
        v.ranges.dom().finite(),
        indices_agree(v),
        !v.ranges.contains_key(pa),
        !v.va_to_pa.contains_key(va),
    ensures
        indices_agree(
            PaVaMapView {
                ranges: v.ranges.insert(pa, new_range(pa, va, size)),
                va_to_pa: v.va_to_pa.insert(va, pa),
            },
        ),
        v.ranges.insert(pa, new_range(pa, va, size)).len() == v.ranges.len() + 1,
        forall|x: u64|
            x != va ==> (#[trigger] v.va_to_pa.insert(va, pa).contains_key(x)
                == v.va_to_pa.contains_key(x) && (v.va_to_pa.contains_key(x) ==> v.va_to_pa.insert(
                va,
                pa,
            )[x] == v.va_to_pa[x])),
{
    let n = PaVaMapView {
        ranges: v.ranges.insert(pa, new_range(pa, va, size)),
        va_to_pa: v.va_to_pa.insert(va, pa),
    };
    assert forall|k: u64| #[trigger] n.ranges.contains_key(k) implies n.va_to_pa.contains_key(
        n.ranges[k].va_start,
    ) && n.va_to_pa[n.ranges[k].va_start] == k by {
        if k != pa {
            assert(v.ranges.contains_key(k));
            assert(v.va_to_pa.contains_key(v.ranges[k].va_start));
        }
    }
    assert forall|x: u64| #[trigger] n.va_to_pa.contains_key(x) implies n.ranges.contains_key(
        n.va_to_pa[x],
    ) && n.ranges[n.va_to_pa[x]].va_start == x by {
        if x != va {
            assert(v.va_to_pa.contains_key(x));
        }
    }
}

/// Removing a region by its physical start keeps the indices agreeing.
pub proof fn lemma_remove_keeps_agreement(v: PaVaMapView, pa: u64)
    requires
        indices_agree(v),
        v.ranges.contains_key(pa),
    ensures
        indices_agree(
            PaVaMapView {
                ranges: v.ranges.remove(pa),
                va_to_pa: v.va_to_pa.remove(v.ranges[pa].va_start),
            },
        ),
{
    let n = PaVaMapView { ranges: v.ranges.remove(pa), va_to_pa: v.va_to_pa.remove(v.ranges[pa].va_start) };
    assert forall|k: u64| #[trigger] n.ranges.contains_key(k) implies n.va_to_pa.contains_key(
        n.ranges[k].va_start,
    ) && n.va_to_pa[n.ranges[k].va_start] == k by {
        assert(v.ranges.contains_key(k));
        assert(v.va_to_pa.contains_key(v.ranges[k].va_start));
        if v.ranges[k].va_start == v.ranges[pa].va_start {
            assert(v.va_to_pa.contains_key(v.ranges[pa].va_start));
        }
    }
    assert forall|x: u64| #[trigger] n.va_to_pa.contains_key(x) implies n.ranges.contains_key(
        n.va_to_pa[x],
    ) && n.ranges[n.va_to_pa[x]].va_start == x by {
        assert(v.va_to_pa.contains_key(x));
    }
}

/// Removing a region by its virtual start keeps the indices agreeing, and
/// is the same as removing it by its physical start.
pub proof fn lemma_remove_by_va_keeps_agreement(v: PaVaMapView, va: u64)
    requires
        indices_agree(v),
        v.va_to_pa.contains_key(va),
    ensures
        v.ranges.contains_key(v.va_to_pa[va]),
        v.ranges[v.va_to_pa[va]].va_start == va,
        indices_agree(
            PaVaMapView { ranges: v.ranges.remove(v.va_to_pa[va]), va_to_pa: v.va_to_pa.remove(va) },
        ),
{
    lemma_remove_keeps_agreement(v, v.va_to_pa[va]);
}

/// The remaining length that comes with a translation is safe to use: every
/// one of those bytes is mapped, contiguously from the translated address.
pub proof fn lemma_extent_is_mapped(m: Map<u64, AddressRange>, pa: u64, i: u64)
    requires
        ranges_wf(m),
    ensures
        spec_lookup_extent(m, pa) is None <==> spec_lookup(m, pa) is None,
        spec_lookup_extent(m, pa) matches Some((va, remaining)) ==> {
            &&& spec_lookup(m, pa) == Some(va)
            &&& remaining > 0
            &&& (i < remaining ==> spec_lookup(m, (pa + i) as u64) == Some((va + i) as u64))
        },
{
    if is_mapped(m, pa) {
        let k = choose|k: u64| #[trigger] m.contains_key(k) && m[k].spec_contains(pa);
        lemma_lookup_through(m, pa, k);
        if i < m[k].pa_end - pa {
            lemma_lookup_through(m, (pa + i) as u64, k);
        }
    }
}

/// The remaining length is the whole rest of the region: for an address in
/// the registered region `[pa_start, pa_end)`, the extent lookup gives the
/// matching virtual address and exactly `pa_end - pa` bytes, so the first
/// byte past the extent is the end of the region.
pub proof fn lemma_extent_reaches_region_end(m: Map<u64, AddressRange>, pa: u64, k: u64)
    requires
        ranges_wf(m),
        m.contains_key(k),
        m[k].spec_contains(pa),
    ensures
        spec_lookup_extent(m, pa) == Some::<(u64, u64)>(
            ((m[k].va_start + (pa - m[k].pa_start)) as u64, (m[k].pa_end - pa) as u64),
        ),
        spec_lookup_extent(m, pa) matches Some((_, remaining)) ==> pa + remaining == m[k].pa_end
            && !m[k].spec_contains((pa + remaining) as u64),
{
    assert(is_mapped(m, pa));
    let c = choose|c: u64| #[trigger] m.contains_key(c) && m[c].spec_contains(pa);
    lemma_containing_range_unique(m, pa, k, c);
}

/// An operation that changes a table.
pub enum MapOp {
    Insert { pa: u64, va: u64, size: usize },
    Remove { pa: u64 },
    RemoveByVa { va: u64 },
    Clear,
}

/// The empty table.
pub open spec fn empty_view() -> PaVaMapView {
    PaVaMapView { ranges: Map::empty(), va_to_pa: Map::empty() }
}

/// What an operation makes of a table (the effect the operation's contract
/// states).
pub open spec fn apply_op(v: PaVaMapView, op: MapOp) -> PaVaMapView {
    match op {
        MapOp::Insert { pa, va, size } => PaVaMapView {
            ranges: v.ranges.insert(pa, new_range(pa, va, size)),
            va_to_pa: v.va_to_pa.insert(va, pa),
        },
        MapOp::Remove { pa } => if v.ranges.contains_key(pa) {
            PaVaMapView { ranges: v.ranges.remove(pa), va_to_pa: v.va_to_pa.remove(v.ranges[pa].va_start) }
        } else {
            v
        },
        MapOp::RemoveByVa { va } => if v.va_to_pa.contains_key(va) {
            PaVaMapView { ranges: v.ranges.remove(v.va_to_pa[va]), va_to_pa: v.va_to_pa.remove(va) }
        } else {
            v
        },
        MapOp::Clear => empty_view(),
    }
}

/// The table a sequence of operations makes from a new one.
pub open spec fn run_ops(ops: Seq<MapOp>) -> PaVaMapView
    decreases ops.len(),
{
    if ops.len() == 0 {
        empty_view()
    } else {
        apply_op(run_ops(ops.drop_last()), ops.last())
    }
}

/// Every insert in `ops` registers a physical start and a virtual start that
/// the table does not hold at that point.
pub open spec fn inserts_fresh(ops: Seq<MapOp>) -> bool {
    forall|i: int|
        #![trigger ops[i]]
        0 <= i < ops.len() ==> match ops[i] {
            MapOp::Insert { pa, va, size } => !run_ops(ops.subrange(0, i)).ranges.contains_key(pa)
                && !run_ops(ops.subrange(0, i)).va_to_pa.contains_key(va),
            _ => true,
        }
}

/// Over any history of operations from a new table in which every insert is
/// fresh, the indices agree: `lookup_by_va(x)` gives `Some(p)` exactly when
/// a region starting at `p` with virtual start `x` is registered, i.e. was
/// inserted and not removed since.
pub proof fn lemma_history_indices_agree(ops: Seq<MapOp>)
    requires
        inserts_fresh(ops),
    ensures
        run_ops(ops).ranges.dom().finite(),
        indices_agree(run_ops(ops)),
        forall|x: u64, p: u64|
            (#[trigger] run_ops(ops).va_to_pa.contains_key(x) && run_ops(ops).va_to_pa[x] == p) <==> (
            run_ops(ops).ranges.contains_key(p) && #[trigger] run_ops(ops).ranges[p].va_start == x),
    decreases ops.len(),
{
    if ops.len() == 0 {
        lemma_empty_indices_agree();
    } else {
        let prev = ops.drop_last();
        assert forall|i: int| #![trigger prev[i]] 0 <= i < prev.len() implies match prev[i] {
            MapOp::Insert { pa, va, size } => !run_ops(prev.subrange(0, i)).ranges.contains_key(pa)
                && !run_ops(prev.subrange(0, i)).va_to_pa.contains_key(va),
            _ => true,
        } by {
            assert(prev.subrange(0, i) =~= ops.subrange(0, i));
            assert(prev[i] == ops[i]);
        }
        lemma_history_indices_agree(prev);
        let v = run_ops(prev);
        let last = ops.last();
        assert(ops.subrange(0, ops.len() - 1) =~= prev);
        assert(ops[ops.len() - 1] == last);
        match last {
            MapOp::Insert { pa, va, size } => {
                lemma_insert_fresh(v, pa, va, size);
            },
            MapOp::Remove { pa } => {
                if v.ranges.contains_key(pa) {
                    lemma_remove_keeps_agreement(v, pa);
                }
            },
            MapOp::RemoveByVa { va } => {
                if v.va_to_pa.contains_key(va) {
                    lemma_remove_by_va_keeps_agreement(v, va);
                }
            },
            MapOp::Clear => {
                lemma_empty_indices_agree();
            },
        }
        let n = run_ops(ops);
        assert forall|x: u64, p: u64|
            (#[trigger] n.va_to_pa.contains_key(x) && n.va_to_pa[x] == p) <==> (n.ranges.contains_key(p)
                && #[trigger] n.ranges[p].va_start == x) by {
            lemma_lookup_by_va_exact(n, x, p);
        }
    }
}

} // verus!
