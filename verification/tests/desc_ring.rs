use blue_rdma::mem::page::MmapMut;
use blue_rdma::ringbuf::{DescDeserialize, DescRingBuffer, DescSerialize, RING_BUF_LEN};

#[derive(Debug, Clone, Copy, PartialEq, Eq)]
struct TestDesc {
    id: u32,
    data: u64,
    valid: bool,
    has_next: bool,
}

impl DescSerialize for TestDesc {
    fn spec_serialize(&self) -> [u8; 32] {
        self.serialize()
    }

    fn serialize(&self) -> [u8; 32] {
        let mut bytes = [0u8; 32];
        bytes[0..4].copy_from_slice(&self.id.to_le_bytes());
        bytes[4..12].copy_from_slice(&self.data.to_le_bytes());

        let mut flags = 0u8;
        if self.valid {
            flags |= 1 << 7;
        }
        if self.has_next {
            flags |= 1 << 6;
        }
        bytes[31] = flags;

        bytes
    }
}

impl DescDeserialize for TestDesc {
    fn spec_deserialize(d: [u8; 32]) -> Self {
        Self::deserialize(d)
    }

    fn deserialize(d: [u8; 32]) -> Self {
        let id = u32::from_le_bytes([d[0], d[1], d[2], d[3]]);
        let data = u64::from_le_bytes([d[4], d[5], d[6], d[7], d[8], d[9], d[10], d[11]]);
        let flags = d[31];
        let valid = (flags >> 7) & 1 == 1;
        let has_next = (flags >> 6) & 1 == 1;

        Self {
            id,
            data,
            valid,
            has_next,
        }
    }
}

fn create_test_mmap() -> MmapMut {
    MmapMut::new(0x7f00_0000_0000, 0x10_0000)
}

#[test]
fn test_desc_ring_buffer_push_pop() {
    let mmap = create_test_mmap();
    let mut rb = DescRingBuffer::new(mmap);

    let desc = TestDesc {
        id: 42,
        data: 0x123,
        valid: true,
        has_next: false,
    };

    assert!(rb.push(&desc));
    assert_eq!(rb.remaining(), RING_BUF_LEN - 1);

    let popped: Option<TestDesc> = rb.pop();
    assert_eq!(popped, Some(desc));
    assert_eq!(rb.remaining(), RING_BUF_LEN);
}

#[test]
fn test_desc_ring_buffer_invalid_desc() {
    let mmap = create_test_mmap();
    let mut rb = DescRingBuffer::new(mmap);

    let invalid_desc = TestDesc {
        id: 42,
        data: 0x123,
        valid: false,
        has_next: false,
    };

    assert!(rb.push(&invalid_desc));

    let popped: Option<TestDesc> = rb.pop();
    assert_eq!(popped, None);
}

#[test]
fn test_desc_ring_buffer_pop_two() {
    let mmap = create_test_mmap();
    let mut rb = DescRingBuffer::new(mmap);

    let desc1 = TestDesc {
        id: 1,
        data: 0x1111,
        valid: true,
        has_next: true,
    };

    let desc2 = TestDesc {
        id: 2,
        data: 0x2222,
        valid: true,
        has_next: false,
    };

    assert!(rb.push(&desc1));
    assert!(rb.push(&desc2));

    let (popped1, popped2): (Option<TestDesc>, Option<TestDesc>) = rb.pop_two();
    assert_eq!(popped1, Some(desc1));
    assert_eq!(popped2, Some(desc2));
}

#[test]
fn test_desc_ring_buffer_pop_two_no_next() {
    let mmap = create_test_mmap();
    let mut rb = DescRingBuffer::new(mmap);

    let desc1 = TestDesc {
        id: 1,
        data: 0x1111,
        valid: true,
        has_next: false,
    };

    let desc2 = TestDesc {
        id: 2,
        data: 0x2222,
        valid: true,
        has_next: false,
    };

    assert!(rb.push(&desc1));
    assert!(rb.push(&desc2));

    let (popped1, popped2): (Option<TestDesc>, Option<TestDesc>) = rb.pop_two();
    assert_eq!(popped1, Some(desc1));
    assert_eq!(popped2, None);
}

#[test]
fn test_desc_ring_buffer_set_head_tail() {
    let mmap = create_test_mmap();
    let mut rb = DescRingBuffer::new(mmap);

    rb.set_head(10);
    rb.set_tail(5);

    assert_eq!(rb.head(), 10);
    assert_eq!(rb.tail(), 5);
}

#[test]
fn test_desc_serialize_deserialize() {
    let desc = TestDesc {
        id: 0x12,
        data: 0x123,
        valid: true,
        has_next: true,
    };

    let serialized = desc.serialize();
    let deserialized = TestDesc::deserialize(serialized);

    assert_eq!(desc, deserialized);
}

fn valid_desc(tag: u8, has_next: bool) -> [u8; 32] {
    let mut d = [0u8; 32];
    d[0] = tag;
    d[31] = 0x80 | if has_next { 0x40 } else { 0 };
    d
}

#[test]
fn test_ring_fifo_order() {
    let mut rb = DescRingBuffer::new(create_test_mmap());
    assert!(rb.push_desc(valid_desc(1, false)));
    assert!(rb.push_desc(valid_desc(2, false)));
    assert_eq!(rb.pop_desc(), Some(valid_desc(1, false)));
    assert_eq!(rb.pop_desc(), Some(valid_desc(2, false)));
    assert_eq!(rb.pop_desc(), None);
    assert_eq!(rb.remaining(), RING_BUF_LEN);
}

#[test]
fn test_ring_full_rejects_push() {
    let mut rb = DescRingBuffer::new(create_test_mmap());
    for i in 0..RING_BUF_LEN {
        assert!(rb.push_desc(valid_desc(i as u8, false)));
    }
    assert_eq!(rb.remaining(), 0);
    assert!(!rb.push_desc(valid_desc(0xff, false)));
    assert_eq!(rb.head(), RING_BUF_LEN);
    assert_eq!(rb.pop_desc(), Some(valid_desc(0, false)));
    assert_eq!(rb.remaining(), 1);
    assert!(rb.push_desc(valid_desc(0xfe, false)));
}

#[test]
fn test_ring_wraps_pointers() {
    let mut rb = DescRingBuffer::new(create_test_mmap());
    for round in 0..3 * RING_BUF_LEN {
        assert!(rb.push_desc(valid_desc(round as u8, false)));
        assert_eq!(rb.pop_desc(), Some(valid_desc(round as u8, false)));
    }
    assert_eq!(rb.head(), (3 * RING_BUF_LEN) % 256);
    assert_eq!(rb.tail(), rb.head());
    assert_eq!(rb.remaining(), RING_BUF_LEN);
}

#[test]
fn test_pop_two_waits_for_second() {
    let mut rb = DescRingBuffer::new(create_test_mmap());
    assert!(rb.push_desc(valid_desc(1, true)));
    assert_eq!(rb.pop_two_desc(), (None, None));
    assert_eq!(rb.tail(), 0);
    assert!(rb.push_desc(valid_desc(2, false)));
    assert_eq!(
        rb.pop_two_desc(),
        (Some(valid_desc(1, true)), Some(valid_desc(2, false)))
    );
    assert_eq!(rb.tail(), 2);
}

#[test]
fn test_valid_and_next_bits() {
    let mut d = [0u8; 32];
    assert!(!DescRingBuffer::is_valid(&d));
    assert!(!DescRingBuffer::has_next(&d));
    d[31] = 0x80;
    assert!(DescRingBuffer::is_valid(&d));
    assert!(!DescRingBuffer::has_next(&d));
    d[31] = 0x40;
    assert!(!DescRingBuffer::is_valid(&d));
    assert!(DescRingBuffer::has_next(&d));
}

#[test]
fn test_set_pointers_taken_modulo() {
    let mut rb = DescRingBuffer::new(create_test_mmap());
    rb.set_head(300);
    rb.set_tail(3);
    assert_eq!(rb.head(), 44);
    assert_eq!(rb.remaining(), RING_BUF_LEN - 41);
    rb.set_tail(44 + 256 - 200);
    assert_eq!(rb.remaining(), 0);
}

#[test]
fn test_slots_loaded_from_region() {
    let mut rb = DescRingBuffer::new(create_test_mmap());
    assert_eq!(DescRingBuffer::slot_offset(0), 0);
    assert_eq!(DescRingBuffer::slot_offset(5), 5 * 32);
    assert_eq!(DescRingBuffer::slot_offset(RING_BUF_LEN + 3), 3 * 32);
    assert_eq!(rb.pop_desc(), None);
    rb.store_slot(rb.tail(), valid_desc(9, false));
    assert_eq!(rb.pop_desc(), Some(valid_desc(9, false)));
    assert_eq!(rb.tail(), 1);
}
