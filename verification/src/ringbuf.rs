//! Rings of 32-byte descriptors shared with the device.
//!
//! The producer writes at `head` and the consumer reads at `tail`. Both
//! pointers run modulo twice the ring length, so that a full ring and an
//! empty ring can be told apart; the slot of a pointer is the pointer modulo
//! the ring length. A descriptor is ready for the consumer when the highest
//! bit of its last byte (the valid bit) is set; bit 6 of that byte says that
//! the next descriptor belongs to the same request.
//!
//! The ring lives in a DMA region of `RING_BUF_LEN` slots of `DESC_SIZE`
//! bytes; slot `i` occupies bytes `[i * DESC_SIZE, (i + 1) * DESC_SIZE)` of
//! the region (`slot_offset`). `DescRingBuffer` keeps the pointers and a copy
//! of the slots and decides every step; the caller that owns the mapping
//! moves the bytes: after a successful push it writes the pushed descriptor
//! at the slot of the previous producer pointer, before a pop it loads the
//! slots at the consumer pointer from the region with `store_slot`, and after
//! a pop it writes the cleared slots back.
use crate::mem::page::MmapMut;
use crate::mem::{DmaBuf, DmaBufAllocator, MemError};
use vstd::prelude::*;

verus! {

/// Number of descriptors in a ring.
pub const RING_BUF_LEN: usize = 128;

/// Size of one descriptor in bytes.
pub const DESC_SIZE: usize = 32;

/// Ring pointers run modulo this value (twice the ring length).
pub const RING_PTR_MOD: usize = 256;

/// A descriptor as it is laid out in the ring.
pub type Desc = [u8; 32];

/// Conversion of a descriptor value into its 32-byte ring representation,
/// implemented by each descriptor type. `spec_serialize` names the bytes
/// `serialize` produces.
pub trait DescSerialize {
    spec fn spec_serialize(&self) -> Desc;

    fn serialize(&self) -> (r: Desc)
        ensures
            r == self.spec_serialize(),
    ;
}

/// Conversion of a 32-byte ring entry into a descriptor value, implemented
/// by each descriptor type. `spec_deserialize` names the value
/// `deserialize` produces.
pub trait DescDeserialize: Sized {
    spec fn spec_deserialize(d: Desc) -> Self;

    fn deserialize(d: Desc) -> (r: Self)
        ensures
            r == Self::spec_deserialize(d),
    ;
}

impl DescSerialize for [u8; 32] {
    open spec fn spec_serialize(&self) -> Desc {
        *self
    }

    fn serialize(&self) -> (r: Desc) {
        *self
    }
}

impl DescDeserialize for [u8; 32] {
    open spec fn spec_deserialize(d: Desc) -> Self {
        d
    }

    fn deserialize(d: Desc) -> (r: Self) {
        d
    }
}

/// A popped descriptor converted to a value of type `T`.
pub open spec fn deserialized<T: DescDeserialize>(d: Option<Desc>) -> Option<T> {
    match d {
        Some(d) => Some(T::spec_deserialize(d)),
        None => None,
    }
}

/// The valid bit: the highest bit of the last byte.
pub open spec fn desc_valid(d: Desc) -> bool {
    d[31] >> 7u8 == 1
}

/// The has-next bit: bit 6 of the last byte.
pub open spec fn desc_has_next(d: Desc) -> bool {
    (d[31] >> 6u8) & 1u8 == 1
}

/// A descriptor of all zero bytes (what a consumed slot is reset to).
pub open spec fn zero_desc() -> Desc {
    vstd::array::spec_array_fill_for_copy_type::<u8, 32>(0u8)
}

/// The abstract state of a descriptor ring.
pub struct RingState {
    /// The descriptor in each slot.
    pub slots: Seq<Desc>,
    /// Producer pointer.
    pub head: nat,
    /// Consumer pointer.
    pub tail: nat,
}

/// Pointers are in range and there is one slot per descriptor.
pub open spec fn ring_wf(s: RingState) -> bool {
    &&& s.slots.len() == RING_BUF_LEN
    &&& s.head < RING_PTR_MOD
    &&& s.tail < RING_PTR_MOD
}

/// Number of descriptors between the consumer and the producer.
pub open spec fn ring_len(s: RingState) -> nat {
    ((s.head + RING_PTR_MOD - s.tail) % (RING_PTR_MOD as int)) as nat
}

/// Free slots left for the producer (none when the pointers are further
/// apart than the ring length).
pub open spec fn ring_remaining(s: RingState) -> nat {
    if ring_len(s) <= RING_BUF_LEN {
        (RING_BUF_LEN - ring_len(s)) as nat
    } else {
        0
    }
}

/// The pointer that follows `p`.
pub open spec fn next_ptr(p: nat) -> nat {
    ((p + 1) % (RING_PTR_MOD as nat)) as nat
}

/// The slot a pointer designates.
pub open spec fn slot_of(p: nat) -> int {
    (p % (RING_BUF_LEN as nat)) as int
}

/// Whether a push on `s` succeeds.
pub open spec fn ring_can_push(s: RingState) -> bool {
    ring_len(s) < RING_BUF_LEN
}

/// The state after pushing `d` (unchanged when the ring is full).
pub open spec fn ring_push(s: RingState, d: Desc) -> RingState {
    if ring_can_push(s) {
        RingState { slots: s.slots.update(slot_of(s.head), d), head: next_ptr(s.head), tail: s.tail }
    } else {
        s
    }
}

/// The descriptor in the slot at the consumer pointer.
pub open spec fn ring_front(s: RingState) -> Desc {
    s.slots[slot_of(s.tail)]
}

/// The descriptor right after the one at the consumer pointer.
pub open spec fn ring_second(s: RingState) -> Desc {
    s.slots[slot_of(next_ptr(s.tail))]
}

/// The state after consuming the descriptor at the consumer pointer.
pub open spec fn ring_consume(s: RingState) -> RingState {
    RingState { slots: s.slots.update(slot_of(s.tail), zero_desc()), head: s.head, tail: next_ptr(s.tail) }
}

/// What `pop` returns: the front descriptor when its valid bit is set.
pub open spec fn ring_pop_result(s: RingState) -> Option<Desc> {
    if desc_valid(ring_front(s)) {
        Some(ring_front(s))
    } else {
        None
    }
}

/// The state after `pop`.
pub open spec fn ring_pop(s: RingState) -> RingState {
    if desc_valid(ring_front(s)) {
        ring_consume(s)
    } else {
        s
    }
}

/// What `pop_two` returns. A descriptor without the has-next bit is returned
/// alone; one with the bit is returned only together with its valid successor.
pub open spec fn ring_pop_two_result(s: RingState) -> (Option<Desc>, Option<Desc>) {
    let a = ring_front(s);
    if !desc_valid(a) {
        (None, None)
    } else if !desc_has_next(a) {
        (Some(a), None)
    } else if desc_valid(ring_second(s)) {
        (Some(a), Some(ring_second(s)))
    } else {
        (None, None)
    }
}

/// The state after `pop_two`: every descriptor returned is consumed.
pub open spec fn ring_pop_two(s: RingState) -> RingState {
    let a = ring_front(s);
    if !desc_valid(a) {
        s
    } else if !desc_has_next(a) {
        ring_consume(s)
    } else if desc_valid(ring_second(s)) {
        ring_consume(ring_consume(s))
    } else {
        s
    }
}

/// A descriptor ring over a DMA region: the pointers, the region, and a copy
/// of the region's slots (see the module documentation for how the copy and
/// the region are kept in step).
pub struct DescRingBuffer {
    buf: MmapMut,
    slots: Vec<Desc>,
    head: usize,
    tail: usize,
}

impl View for DescRingBuffer {
    type V = RingState;

    closed spec fn view(&self) -> RingState {
        RingState { slots: self.slots@, head: self.head as nat, tail: self.tail as nat }
    }
}

impl DescRingBuffer {
    /// Whether the valid bit of a descriptor is set.
    pub fn is_valid(desc: &Desc) -> (r: bool)
        ensures
            r == desc_valid(*desc),
    {
        desc[31] >> 7u8 == 1
    }

    /// Whether the has-next bit of a descriptor is set.
    pub fn has_next(desc: &Desc) -> (r: bool)
        ensures
            r == desc_has_next(*desc),
    {
        (desc[31] >> 6u8) & 1u8 == 1
    }

    pub open spec fn wf(&self) -> bool {
        ring_wf(self@) && self.region().len >= RING_BUF_LEN * DESC_SIZE
    }

    /// Byte offset, within the ring's region, of the slot that pointer `ptr`
    /// designates. The slot lies inside a region of the ring's size.
    pub fn slot_offset(ptr: usize) -> (r: usize)
        ensures
            r == slot_of(ptr as nat) * DESC_SIZE,
            r + DESC_SIZE <= RING_BUF_LEN * DESC_SIZE,
    {
        (ptr % RING_BUF_LEN) * DESC_SIZE
    }

    /// Records `d` as the content of the slot that pointer `ptr` designates
    /// (what the device wrote there in the region).
    pub fn store_slot(&mut self, ptr: usize, d: Desc)
        requires
            old(self).wf(),
        ensures
            final(self).wf(),
            final(self)@ == (RingState { slots: old(self)@.slots.update(slot_of(ptr as nat), d), ..old(self)@ }),
            final(self).region() == old(self).region(),
    {
        self.slots.set(ptr % RING_BUF_LEN, d);
    }

    /// The DMA region the ring lives in.
    pub closed spec fn region(&self) -> MmapMut {
        self.buf
    }

    /// Creates an empty ring over the region `buf`: every slot is zero and
    /// both pointers are 0.
    pub fn new(buf: MmapMut) -> (r: Self)
        requires
            buf.len >= RING_BUF_LEN * DESC_SIZE,
        ensures
            r.wf(),
            r.region() == buf,
            r@.head == 0,
            r@.tail == 0,
            forall|i: int| 0 <= i < RING_BUF_LEN ==> #[trigger] r@.slots[i] == zero_desc(),
    {
        let mut slots: Vec<Desc> = Vec::new();
        let mut i: usize = 0;
        while i < RING_BUF_LEN
            invariant
                i <= RING_BUF_LEN,
                slots@.len() == i,
                forall|j: int| 0 <= j < i ==> #[trigger] slots@[j] == zero_desc(),
            decreases RING_BUF_LEN - i,
        {
            slots.push([0u8; 32]);
            i = i + 1;
        }
        DescRingBuffer { buf, slots, head: 0, tail: 0 }
    }

    /// Writes `d` at the producer pointer and advances it. Returns `false`,
    /// leaving the ring unchanged, when the ring is full.
    pub fn push_desc(&mut self, d: Desc) -> (r: bool)
        requires
            old(self).wf(),
        ensures
            final(self).wf(),
            r == ring_can_push(old(self)@),
            final(self)@ == ring_push(old(self)@, d),
            r ==> ring_contents(final(self)@) == ring_contents(old(self)@).push(d),
            final(self).region() == old(self).region(),
    {
        proof {
            if ring_can_push(old(self)@) {
                lemma_push_appends(old(self)@, d);
            }
        }
        let len = (self.head + RING_PTR_MOD - self.tail) % RING_PTR_MOD;
        if len >= RING_BUF_LEN {
            return false;
        }
        let idx = self.head % RING_BUF_LEN;
        self.slots.set(idx, d);
        self.head = (self.head + 1) % RING_PTR_MOD;
        true
    }

    /// Serializes `value` and pushes its bytes; see `push_desc`.
    pub fn push<T: DescSerialize>(&mut self, value: &T) -> (r: bool)
        requires
            old(self).wf(),
        ensures
            final(self).wf(),
            r == ring_can_push(old(self)@),
            final(self)@ == ring_push(old(self)@, value.spec_serialize()),
            r ==> ring_contents(final(self)@) == ring_contents(old(self)@).push(value.spec_serialize()),
            final(self).region() == old(self).region(),
    {
        let d = value.serialize();
        self.push_desc(d)
    }

    /// Consumes the front descriptor: resets its slot to zero and advances
    /// the consumer pointer.
    fn consume(&mut self) -> (r: Desc)
        requires
            old(self).wf(),
        ensures
            final(self).wf(),
            r == ring_front(old(self)@),
            final(self)@ == ring_consume(old(self)@),
            final(self).region() == old(self).region(),
    {
        let idx = self.tail % RING_BUF_LEN;
        let d = self.slots[idx];
        self.slots.set(idx, [0u8; 32]);
        self.tail = (self.tail + 1) % RING_PTR_MOD;
        d
    }

    /// Takes the front descriptor when its valid bit is set; otherwise
    /// returns `None` and leaves the ring unchanged.
    pub fn pop_desc(&mut self) -> (r: Option<Desc>)
        requires
            old(self).wf(),
        ensures
            final(self).wf(),
            r == ring_pop_result(old(self)@),
            final(self)@ == ring_pop(old(self)@),
            0 < ring_len(old(self)@) <= RING_BUF_LEN && r is Some ==> {
                &&& r == Some(ring_contents(old(self)@)[0])
                &&& ring_contents(final(self)@) == ring_contents(old(self)@).drop_first()
            },
            final(self).region() == old(self).region(),
    {
        proof {
            if 0 < ring_len(old(self)@) <= RING_BUF_LEN && desc_valid(ring_front(old(self)@)) {
                lemma_pop_takes_oldest(old(self)@);
            }
        }
        let idx = self.tail % RING_BUF_LEN;
        if Self::is_valid(&self.slots[idx]) {
            Some(self.consume())
        } else {
            None
        }
    }

    /// Takes the front descriptor as `pop_desc` does and deserializes it.
    pub fn pop<T: DescDeserialize>(&mut self) -> (r: Option<T>)
        requires
            old(self).wf(),
        ensures
            final(self).wf(),
            r == deserialized::<T>(ring_pop_result(old(self)@)),
            final(self)@ == ring_pop(old(self)@),
            0 < ring_len(old(self)@) <= RING_BUF_LEN && r is Some ==> {
                &&& r == Some(T::spec_deserialize(ring_contents(old(self)@)[0]))
                &&& ring_contents(final(self)@) == ring_contents(old(self)@).drop_first()
            },
            final(self).region() == old(self).region(),
    {
        match self.pop_desc() {
            Some(d) => Some(T::deserialize(d)),
            None => None,
        }
    }

    /// Takes the front descriptor, and its successor when the front one has
    /// the has-next bit; see `ring_pop_two_result`.
    pub fn pop_two_desc(&mut self) -> (r: (Option<Desc>, Option<Desc>))
        requires
            old(self).wf(),
        ensures
            final(self).wf(),
            r == ring_pop_two_result(old(self)@),
            final(self)@ == ring_pop_two(old(self)@),
            final(self).region() == old(self).region(),
    {
        let first = self.slots[self.tail % RING_BUF_LEN];
        if !Self::is_valid(&first) {
            return (None, None);
        }
        if !Self::has_next(&first) {
            let a = self.consume();
            return (Some(a), None);
        }
        let second = self.slots[((self.tail + 1) % RING_PTR_MOD) % RING_BUF_LEN];
        if !Self::is_valid(&second) {
            return (None, None);
        }
        let a = self.consume();
        let b = self.consume();
        (Some(a), Some(b))
    }

    /// Takes a descriptor pair as `pop_two_desc` does and deserializes each.
    pub fn pop_two<A: DescDeserialize, B: DescDeserialize>(&mut self) -> (r: (Option<A>, Option<B>))
        requires
            old(self).wf(),
        ensures
            final(self).wf(),
            r.0 == deserialized::<A>(ring_pop_two_result(old(self)@).0),
            r.1 == deserialized::<B>(ring_pop_two_result(old(self)@).1),
            final(self)@ == ring_pop_two(old(self)@),
            final(self).region() == old(self).region(),
    {
        let (a, b) = self.pop_two_desc();
        let a = match a {
            Some(d) => Some(A::deserialize(d)),
            None => None,
        };
        let b = match b {
            Some(d) => Some(B::deserialize(d)),
            None => None,
        };
        (a, b)
    }

    /// Free slots left for the producer.
    pub fn remaining(&self) -> (r: usize)
        requires
            self.wf(),
        ensures
            r == ring_remaining(self@),
    {
        let len = (self.head + RING_PTR_MOD - self.tail) % RING_PTR_MOD;
        if len <= RING_BUF_LEN {
            RING_BUF_LEN - len
        } else {
            0
        }
    }

    /// Sets the consumer pointer (taken modulo `RING_PTR_MOD`).
    pub fn set_tail(&mut self, tail: u32)
        requires
            old(self).wf(),
        ensures
            final(self).wf(),
            final(self)@ == (RingState { tail: (tail % (RING_PTR_MOD as u32)) as nat, ..old(self)@ }),
            final(self).region() == old(self).region(),
    {
        self.tail = (tail % (RING_PTR_MOD as u32)) as usize;
    }

    /// Sets the producer pointer (taken modulo `RING_PTR_MOD`).
    pub fn set_head(&mut self, head: u32)
        requires
            old(self).wf(),
        ensures
            final(self).wf(),
            final(self)@ == (RingState { head: (head % (RING_PTR_MOD as u32)) as nat, ..old(self)@ }),
            final(self).region() == old(self).region(),
    {
        self.head = (head % (RING_PTR_MOD as u32)) as usize;
    }

    /// The producer pointer.
    pub fn head(&self) -> (r: usize)
        ensures
            r == self@.head,
    {
        self.head
    }

    /// The consumer pointer.
    pub fn tail(&self) -> (r: usize)
        ensures
            r == self@.tail,
    {
        self.tail
    }
}

/// Hands out ring-sized DMA buffers from a borrowed buffer allocator.
pub struct DescRingBufAllocator<'a, A> {
    dma_buf_allocator: &'a mut A,
}

impl<'a, A: DmaBufAllocator> DescRingBufAllocator<'a, A> {
    /// The allocator buffers are taken from.
    pub closed spec fn allocator(&self) -> A {
        *self.dma_buf_allocator
    }

    /// Borrows `dma_buf_allocator` for ring allocation.
    pub fn new(dma_buf_allocator: &'a mut A) -> (r: Self)
        ensures
            r.allocator() == *old(dma_buf_allocator),
    {
        Self { dma_buf_allocator }
    }

    /// Allocates a buffer large enough for one descriptor ring.
    pub fn allocate(&mut self) -> (r: Result<DmaBuf, MemError>)
        ensures
            old(self).allocator().dma_alloc_post(&final(self).allocator(), (RING_BUF_LEN * DESC_SIZE) as usize, r),
    {
        self.dma_buf_allocator.allocate(RING_BUF_LEN * DESC_SIZE)
    }
}

/// Bytes of one ring-sized DMA buffer.
pub open spec fn ring_region_len() -> usize {
    (RING_BUF_LEN * DESC_SIZE) as usize
}

/// `states` are the successive states of an allocator that handed out the
/// ring-sized buffers `bufs`, one per call, in order.
pub open spec fn alloc_chain<A: DmaBufAllocator>(states: Seq<A>, bufs: Seq<DmaBuf>) -> bool {
    &&& states.len() == bufs.len() + 1
    &&& forall|i: int|
        0 <= i < bufs.len() ==> #[trigger] states[i].dma_alloc_post(
            &states[i + 1],
            ring_region_len(),
            Ok::<DmaBuf, MemError>(bufs[i]),
        )
}

/// The buffers a device needs at start-up, in the order they are taken:
/// the command request and response rings, a send ring and a metadata ring
/// per channel, the NIC receive buffer, the three NIC rings, and the buffer
/// that stages page-table updates.
pub struct DeviceRings {
    pub cmd_req: DmaBuf,
    pub cmd_resp: DmaBuf,
    pub send: Vec<DmaBuf>,
    pub meta: Vec<DmaBuf>,
    pub nic_rx_buffer: DmaBuf,
    pub nic: Vec<DmaBuf>,
    pub mtt: DmaBuf,
}

/// The buffers of `r` in allocation order.
pub open spec fn device_rings_seq(r: DeviceRings) -> Seq<DmaBuf> {
    seq![r.cmd_req, r.cmd_resp] + r.send@ + r.meta@ + seq![r.nic_rx_buffer] + r.nic@ + seq![r.mtt]
}

/// Number of ring-sized buffers a device with `num_channel` channels takes.
pub open spec fn num_device_rings(num_channel: nat) -> nat {
    2 * num_channel + 7
}

/// The allocator went through `bufs.len()` successful allocations from
/// `start`, and the next one, ending in `end`, failed with `e`.
pub open spec fn failed_after<A: DmaBufAllocator>(start: A, end: A, e: MemError, limit: nat) -> bool {
    exists|states: Seq<A>, bufs: Seq<DmaBuf>|
        #![trigger alloc_chain(states, bufs)]
        {
            &&& bufs.len() < limit
            &&& alloc_chain(states, bufs)
            &&& states[0] == start
            &&& states.last().dma_alloc_post(&end, ring_region_len(), Err::<DmaBuf, MemError>(e))
        }
}

/// Takes one ring-sized buffer, extending the record of allocations.
fn take_ring<'a, A: DmaBufAllocator>(
    ra: &mut DescRingBufAllocator<'a, A>,
    Ghost(states): Ghost<Seq<A>>,
    Ghost(bufs): Ghost<Seq<DmaBuf>>,
) -> (r: Result<DmaBuf, MemError>)
    requires
        alloc_chain(states, bufs),
        states.last() == old(ra).allocator(),
    ensures
        match r {
            Ok(b) => alloc_chain(states.push(final(ra).allocator()), bufs.push(b)),
            Err(e) => old(ra).allocator().dma_alloc_post(&final(ra).allocator(), ring_region_len(), Err::<DmaBuf, MemError>(e)),
        },
{
    let r = ra.allocate();
    proof {
        if r is Ok {
            let b = r->Ok_0;
            let ns = states.push(ra.allocator());
            let nb = bufs.push(b);
            assert forall|i: int| 0 <= i < nb.len() implies #[trigger] ns[i].dma_alloc_post(
                &ns[i + 1],
                ring_region_len(),
                Ok::<DmaBuf, MemError>(nb[i]),
            ) by {
                if i < bufs.len() {
                    assert(ns[i] == states[i] && ns[i + 1] == states[i + 1] && nb[i] == bufs[i]);
                }
            }
        }
    }
    r
}

/// Takes the buffers a device needs at start-up (see `DeviceRings`), in
/// order, stopping at the first allocation that fails.
pub fn allocate_device_rings<'a, A: DmaBufAllocator>(
    ra: &mut DescRingBufAllocator<'a, A>,
    num_channel: usize,
) -> (r: Result<DeviceRings, MemError>)
    requires
        2 * num_channel + 7 <= usize::MAX,
    ensures
        match r {
            Ok(rings) => {
                &&& rings.send@.len() == num_channel
                &&& rings.meta@.len() == num_channel
                &&& rings.nic@.len() == 3
                &&& exists|states: Seq<A>|
                    #![trigger alloc_chain(states, device_rings_seq(rings))]
                    {
                        &&& alloc_chain(states, device_rings_seq(rings))
                        &&& states[0] == old(ra).allocator()
                        &&& states.last() == final(ra).allocator()
                    }
            },
            Err(e) => failed_after(
                old(ra).allocator(),
                final(ra).allocator(),
                e,
                num_device_rings(num_channel as nat),
            ),
        },
{
    let ghost mut states: Seq<A> = seq![ra.allocator()];
    let ghost mut bufs: Seq<DmaBuf> = Seq::empty();
    let ghost start = ra.allocator();
    let ghost limit = num_device_rings(num_channel as nat);
    let cmd_req = match take_ring(ra, Ghost(states), Ghost(bufs)) {
        Ok(b) => b,
        Err(e) => {
            assert(alloc_chain(states, bufs));
            return Err(e);
        },
    };
    proof {
        states = states.push(ra.allocator());
        bufs = bufs.push(cmd_req);
    }
    let cmd_resp = match take_ring(ra, Ghost(states), Ghost(bufs)) {
        Ok(b) => b,
        Err(e) => {
            assert(alloc_chain(states, bufs));
            return Err(e);
        },
    };
    proof {
        states = states.push(ra.allocator());
        bufs = bufs.push(cmd_resp);
    }
    let mut send: Vec<DmaBuf> = Vec::new();
    let mut i: usize = 0;
    while i < num_channel
        invariant
            2 * num_channel + 7 <= usize::MAX,
            limit == num_device_rings(num_channel as nat),
            i <= num_channel,
            alloc_chain(states, bufs),
            states[0] == start,
            start == old(ra).allocator(),
            states.last() == ra.allocator(),
            send@.len() == i,
            bufs == seq![cmd_req, cmd_resp] + send@,
        decreases num_channel - i,
    {
        let b = match take_ring(ra, Ghost(states), Ghost(bufs)) {
            Ok(b) => b,
            Err(e) => {
                assert(alloc_chain(states, bufs));
                return Err(e);
            },
        };
        proof {
            states = states.push(ra.allocator());
            bufs = bufs.push(b);
        }
        send.push(b);
        i = i + 1;
    }
    let mut meta: Vec<DmaBuf> = Vec::new();
    let mut i: usize = 0;
    while i < num_channel
        invariant
            2 * num_channel + 7 <= usize::MAX,
            limit == num_device_rings(num_channel as nat),
            i <= num_channel,
            alloc_chain(states, bufs),
            states[0] == start,
            start == old(ra).allocator(),
            states.last() == ra.allocator(),
            send@.len() == num_channel,
            meta@.len() == i,
            bufs == seq![cmd_req, cmd_resp] + send@ + meta@,
        decreases num_channel - i,
    {
        let b = match take_ring(ra, Ghost(states), Ghost(bufs)) {
            Ok(b) => b,
            Err(e) => {
                assert(alloc_chain(states, bufs));
                return Err(e);
            },
        };
        proof {
            states = states.push(ra.allocator());
            bufs = bufs.push(b);
        }
        meta.push(b);
        i = i + 1;
    }
    let nic_rx_buffer = match take_ring(ra, Ghost(states), Ghost(bufs)) {
        Ok(b) => b,
        Err(e) => {
            assert(alloc_chain(states, bufs));
            return Err(e);
        },
    };
    proof {
        states = states.push(ra.allocator());
        bufs = bufs.push(nic_rx_buffer);
    }
    let mut nic: Vec<DmaBuf> = Vec::new();
    let mut i: usize = 0;
    while i < 3
        invariant
            2 * num_channel + 7 <= usize::MAX,
            limit == num_device_rings(num_channel as nat),
            i <= 3,
            alloc_chain(states, bufs),
            states[0] == start,
            start == old(ra).allocator(),
            states.last() == ra.allocator(),
            send@.len() == num_channel,
            meta@.len() == num_channel,
            nic@.len() == i,
            bufs == seq![cmd_req, cmd_resp] + send@ + meta@ + seq![nic_rx_buffer] + nic@,
        decreases 3 - i,
    {
        let b = match take_ring(ra, Ghost(states), Ghost(bufs)) {
            Ok(b) => b,
            Err(e) => {
                assert(alloc_chain(states, bufs));
                return Err(e);
            },
        };
        proof {
            states = states.push(ra.allocator());
            bufs = bufs.push(b);
        }
        nic.push(b);
        i = i + 1;
    }
    let mtt = match take_ring(ra, Ghost(states), Ghost(bufs)) {
        Ok(b) => b,
        Err(e) => {
            assert(alloc_chain(states, bufs));
            return Err(e);
        },
    };
    proof {
        states = states.push(ra.allocator());
        bufs = bufs.push(mtt);
    }
    let rings = DeviceRings { cmd_req, cmd_resp, send, meta, nic_rx_buffer, nic, mtt };
    assert(device_rings_seq(rings) =~= bufs);
    assert(alloc_chain(states, device_rings_seq(rings)));
    Ok(rings)
}

/// The descriptor `i` places after the consumer pointer.
pub open spec fn ring_entry(s: RingState, i: int) -> Desc {
    s.slots[slot_of(((s.tail + i) % (RING_PTR_MOD as int)) as nat)]
}

/// The queue a ring holds: the descriptors from the consumer pointer up to
/// the producer pointer, oldest first.
pub open spec fn ring_contents(s: RingState) -> Seq<Desc> {
    Seq::new(ring_len(s), |i: int| ring_entry(s, i))
}

/// A push appends to the queue: the descriptors already queued stay, in
/// order, and the pushed one comes last.
pub proof fn lemma_push_appends(s: RingState, d: Desc)
    requires
        ring_wf(s),
        ring_can_push(s),
    ensures
        ring_contents(ring_push(s, d)) == ring_contents(s).push(d),
{
    let n = ring_push(s, d);
    let len = ring_len(s);
    assert((s.tail + len) % 256 == s.head);
    assert forall|i: int| 0 <= i < len implies #[trigger] ring_entry(n, i) == ring_entry(s, i) by {
        assert(((s.tail + i) % 256) % 128 != s.head % 128);
    }
    assert(ring_entry(n, len as int) == d);
    assert(ring_contents(n) =~= ring_contents(s).push(d));
}

/// A pop of a valid front descriptor takes the oldest queued descriptor and
/// leaves the others queued in order.
pub proof fn lemma_pop_takes_oldest(s: RingState)
    requires
        ring_wf(s),
        ring_len(s) > 0,
        ring_len(s) <= RING_BUF_LEN,
        desc_valid(ring_front(s)),
    ensures
        ring_pop_result(s) == Some(ring_contents(s)[0]),
        ring_contents(ring_pop(s)) == ring_contents(s).drop_first(),
{
    let n = ring_pop(s);
    let len = ring_len(s);
    assert(ring_entry(s, 0) == ring_front(s));
    assert(ring_len(n) == len - 1);
    assert forall|i: int| 0 <= i < len - 1 implies #[trigger] ring_entry(n, i) == ring_entry(s, i + 1) by {
        assert(((s.tail + 1) % 256 + i) % 256 == (s.tail + i + 1) % 256);
        assert(((s.tail + i + 1) % 256) % 128 != s.tail % 128);
    }
    assert(ring_contents(n) =~= ring_contents(s).drop_first());
}

/// A fresh ring offers every slot to the producer.
pub proof fn lemma_new_ring_empty(s: RingState)
    requires
        ring_wf(s),
        s.head == 0,
        s.tail == 0,
    ensures
        ring_len(s) == 0,
        ring_remaining(s) == RING_BUF_LEN,
{
}

/// A push that succeeds takes one free slot; a push on a full ring changes nothing.
pub proof fn lemma_push_remaining(s: RingState, d: Desc)
    requires
        ring_wf(s),
    ensures
        ring_wf(ring_push(s, d)),
        ring_can_push(s) ==> ring_len(ring_push(s, d)) == ring_len(s) + 1,
        ring_can_push(s) ==> ring_remaining(ring_push(s, d)) == ring_remaining(s) - 1,
        !ring_can_push(s) ==> ring_push(s, d) == s,
{
}

/// Popping a valid descriptor from a non-empty ring frees one slot; popping
/// when the front descriptor is not valid changes nothing.
pub proof fn lemma_pop_remaining(s: RingState)
    requires
        ring_wf(s),
    ensures
        ring_wf(ring_pop(s)),
        ring_len(s) > 0 && desc_valid(ring_front(s)) ==> ring_len(ring_pop(s)) == ring_len(s) - 1,
        ring_len(s) > 0 && ring_len(s) <= RING_BUF_LEN && desc_valid(ring_front(s))
            ==> ring_remaining(ring_pop(s)) == ring_remaining(s) + 1,
        !desc_valid(ring_front(s)) ==> ring_pop(s) == s && ring_pop_result(s) is None,
{
}

/// First in, first out: on an empty ring, two valid descriptors pushed one
/// after the other are popped in the same order, after which the ring is
/// empty again.
pub proof fn lemma_fifo(s: RingState, d1: Desc, d2: Desc)
    requires
        ring_wf(s),
        ring_len(s) == 0,
        desc_valid(d1),
        desc_valid(d2),
    ensures
        ring_pop_result(ring_push(ring_push(s, d1), d2)) == Some(d1),
        ring_pop_result(ring_pop(ring_push(ring_push(s, d1), d2))) == Some(d2),
        ring_len(ring_pop(ring_pop(ring_push(ring_push(s, d1), d2)))) == 0,
        ring_remaining(ring_pop(ring_pop(ring_push(ring_push(s, d1), d2)))) == RING_BUF_LEN,
{
    let s1 = ring_push(s, d1);
    let s2 = ring_push(s1, d2);
    assert(s.head == s.tail);
    assert(ring_front(s2) == d1);
    let s3 = ring_pop(s2);
    assert(s3 == ring_consume(s2));
    assert(slot_of(s3.tail) != slot_of(s2.tail));
    assert(ring_front(s3) == d2);
}

/// A valid descriptor pushed on an empty ring is popped back unchanged.
pub proof fn lemma_push_then_pop(s: RingState, d: Desc)
    requires
        ring_wf(s),
        ring_len(s) == 0,
        desc_valid(d),
    ensures
        ring_pop_result(ring_push(s, d)) == Some(d),
        ring_len(ring_pop(ring_push(s, d))) == 0,
        ring_remaining(ring_pop(ring_push(s, d))) == RING_BUF_LEN,
{
}

/// A pair pushed on an empty ring, the first with the has-next bit, is taken
/// by `pop_two` as a pair; without the bit only the first is taken.
pub proof fn lemma_pop_two_pair(s: RingState, d1: Desc, d2: Desc)
    requires
        ring_wf(s),
        ring_len(s) == 0,
        desc_valid(d1),
        desc_valid(d2),
    ensures
        desc_has_next(d1) ==> ring_pop_two_result(ring_push(ring_push(s, d1), d2)) == (
        Some(d1), Some(d2)),
        !desc_has_next(d1) ==> ring_pop_two_result(ring_push(ring_push(s, d1), d2)) == (
        Some(d1), None::<Desc>),
{
    let s2 = ring_push(ring_push(s, d1), d2);
    assert(ring_front(s2) == d1);
    assert(slot_of(next_ptr(s2.tail)) != slot_of(s2.tail));
    assert(ring_second(s2) == d2);
}

} // verus!
