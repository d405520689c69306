//! Decisions of the verbs layer: device and port attributes, queue-pair
//! attribute updates, page-table chunking for memory registration, matching
//! of sends to posted receives, and completion reporting.
use std::collections::VecDeque;
use vstd::bytes::{
    spec_u32_from_le_bytes, spec_u32_to_le_bytes, spec_u64_from_le_bytes, spec_u64_to_le_bytes,
};
use vstd::prelude::*;

verus! {

/// Errors reported by verbs operations.
#[derive(Clone, Copy, Debug, PartialEq, Eq, Structural)]
pub enum RdmaError {
    /// An argument is out of range or inconsistent.
    InvalidInput,
    /// No queue pair, completion queue or protection domain is left.
    ResourceExhausted,
    /// The object named does not exist.
    NotFound,
    /// A memory region could not be translated or pinned.
    MemoryError,
    /// The queue pair is not in a usable state.
    QpError,
}

/// Capabilities reported by `query_device_ex`.
#[derive(Clone, Copy, Debug, PartialEq, Eq, Structural)]
pub struct DeviceAttr {
    pub max_qp: i32,
    pub max_qp_wr: i32,
    pub max_sge: i32,
    pub max_cq: i32,
    pub max_cqe: i32,
    pub max_mr: i32,
    pub max_pd: i32,
    pub phys_port_cnt: u8,
}

/// Numeric port attributes reported by `query_port` (the port is reported
/// active, with 4096-byte MTUs, on an Ethernet link layer).
#[derive(Clone, Copy, Debug, PartialEq, Eq, Structural)]
pub struct PortAttr {
    pub gid_tbl_len: i32,
    pub port_cap_flags: u32,
    pub max_msg_sz: u32,
    pub lid: u16,
}

/// The Blue-RDMA provider: entry points used by the verbs library.
#[derive(Clone, Copy, Debug, PartialEq, Eq, Structural)]
pub struct BlueRdmaCore;

impl BlueRdmaCore {
    /// Device capabilities.
    pub fn device_attr() -> (r: DeviceAttr)
        ensures
            r == (DeviceAttr {
                max_qp: 256,
                max_qp_wr: 64,
                max_sge: 8,
                max_cq: 256,
                max_cqe: 4096,
                max_mr: 256,
                max_pd: 256,
                phys_port_cnt: 1,
            }),
    {
        DeviceAttr {
            max_qp: 256,
            max_qp_wr: 64,
            max_sge: 8,
            max_cq: 256,
            max_cqe: 4096,
            max_mr: 256,
            max_pd: 256,
            phys_port_cnt: 1,
        }
    }

    /// Port attributes.
    pub fn port_attr() -> (r: PortAttr)
        ensures
            r == (PortAttr {
                gid_tbl_len: 256,
                port_cap_flags: 0x2c00,
                max_msg_sz: 0x8000_0000,
                lid: 1,
            }),
    {
        PortAttr { gid_tbl_len: 256, port_cap_flags: 0x0000_2c00, max_msg_sz: 0x8000_0000, lid: 1 }
    }

    /// Which emulated device a sysfs name designates: `uverbs0` is instance 0
    /// and `uverbs1` instance 1. Instance `i` talks to the simulator on UDP
    /// port `7701 + i`, uses shared heap `i`, and is the post-receive client
    /// for instance 0 and the server for instance 1. No other name designates
    /// an emulated device.
    pub fn emulated_instance(sysfs_name: &str) -> (r: u8)
        requires
            sysfs_name@ == "uverbs0"@ || sysfs_name@ == "uverbs1"@,
        ensures
            r == (if sysfs_name@ == "uverbs0"@ {
                0u8
            } else {
                1u8
            }),
    {
        let name = sysfs_name.to_owned();
        if name == "uverbs0".to_owned() {
            0
        } else {
            1
        }
    }
}

/// Access flags granted to the receive side of every queue pair: local
/// write, remote write and remote read.
pub const RQ_ACCESS_FLAGS: u8 = 0x7;

/// Path MTU code for 4096 bytes.
pub const PMTU_4096: u8 = 5;

/// UDP port the device sends queue-pair traffic from.
pub const LOCAL_UDP_PORT: u16 = 0x100;

/// Attributes the driver keeps for a queue pair.
#[derive(Clone, Copy, Debug, PartialEq, Eq, Structural)]
pub struct QpAttr {
    pub qpn: u32,
    pub qp_type: u8,
    pub send_cq: Option<u32>,
    pub recv_cq: Option<u32>,
    pub mac_addr: u64,
    pub pmtu: u8,
    pub access_flags: u8,
    /// Local IPv4 address.
    pub ip: u32,
    /// IPv4 address of the peer queue pair (0 when unknown).
    pub dqp_ip: u32,
    /// Number of the peer queue pair (0 when unknown).
    pub dqpn: u32,
}

/// A queue-pair update command for the device.
#[derive(Clone, Copy, Debug, PartialEq, Eq, Structural)]
pub struct UpdateQp {
    pub qpn: u32,
    pub ip_addr: u32,
    pub local_udp_port: u16,
    pub peer_mac_addr: u64,
    pub qp_type: u8,
    pub peer_qpn: u32,
    pub rq_access_flags: u8,
    pub pmtu: u8,
}

impl QpAttr {
    /// Fresh attributes for a queue pair on a host with address `ip`.
    pub fn new_with_ip(ip: u32) -> (r: Self)
        ensures
            r == (QpAttr {
                qpn: 0,
                qp_type: 0,
                send_cq: None,
                recv_cq: None,
                mac_addr: 0,
                pmtu: 0,
                access_flags: 0,
                ip,
                dqp_ip: 0,
                dqpn: 0,
            }),
    {
        QpAttr {
            qpn: 0,
            qp_type: 0,
            send_cq: None,
            recv_cq: None,
            mac_addr: 0,
            pmtu: 0,
            access_flags: 0,
            ip,
            dqp_ip: 0,
            dqpn: 0,
        }
    }

    /// Records a newly created queue pair: its number, type and completion
    /// queues, the card's MAC address and a 4096-byte path MTU. Returns the
    /// device command that announces it.
    pub fn record_created(
        &mut self,
        qpn: u32,
        qp_type: u8,
        send_cq: Option<u32>,
        recv_cq: Option<u32>,
        card_mac: u64,
    ) -> (r: UpdateQp)
        ensures
            *final(self) == (QpAttr {
                qpn,
                qp_type,
                send_cq,
                recv_cq,
                mac_addr: card_mac,
                pmtu: PMTU_4096,
                ..*old(self)
            }),
            r == (UpdateQp {
                qpn,
                ip_addr: 0,
                local_udp_port: LOCAL_UDP_PORT,
                peer_mac_addr: 0,
                qp_type,
                peer_qpn: 0,
                rq_access_flags: 0,
                pmtu: 0,
            }),
    {
        self.qpn = qpn;
        self.qp_type = qp_type;
        self.send_cq = send_cq;
        self.recv_cq = recv_cq;
        self.mac_addr = card_mac;
        self.pmtu = PMTU_4096;
        UpdateQp {
            qpn,
            ip_addr: 0,
            local_udp_port: LOCAL_UDP_PORT,
            peer_mac_addr: 0,
            qp_type,
            peer_qpn: 0,
            rq_access_flags: 0,
            pmtu: 0,
        }
    }

    /// Applies a modify request: each attribute given replaces the recorded
    /// one; a destination address not given keeps the recorded one (0 when
    /// none is recorded). Receive access is always granted in full. Returns
    /// the device command carrying the resulting attributes.
    pub fn apply_modify(
        &mut self,
        qpn: u32,
        dest_qp_ip: Option<u32>,
        dest_qp_num: Option<u32>,
        path_mtu: Option<u8>,
        card_mac: u64,
    ) -> (r: UpdateQp)
        ensures
            r.qpn == qpn,
            r.ip_addr == (match dest_qp_ip {
                Some(ip) => ip,
                None => old(self).dqp_ip,
            }),
            r.local_udp_port == LOCAL_UDP_PORT,
            r.peer_mac_addr == card_mac,
            r.qp_type == old(self).qp_type,
            r.peer_qpn == (match dest_qp_num {
                Some(n) => n,
                None => old(self).dqpn,
            }),
            r.rq_access_flags == RQ_ACCESS_FLAGS,
            r.pmtu == (match path_mtu {
                Some(m) => m,
                None => old(self).pmtu,
            }),
            *final(self) == (QpAttr {
                dqpn: r.peer_qpn,
                access_flags: RQ_ACCESS_FLAGS,
                pmtu: r.pmtu,
                dqp_ip: r.ip_addr,
                ..*old(self)
            }),
    {
        let current_ip = if self.dqp_ip != 0 {
            Some(self.dqp_ip)
        } else {
            None
        };
        let ip_addr = match dest_qp_ip {
            Some(ip) => ip,
            None => match current_ip {
                Some(ip) => ip,
                None => 0,
            },
        };
        let peer_qpn = match dest_qp_num {
            Some(n) => n,
            None => self.dqpn,
        };
        let pmtu = match path_mtu {
            Some(m) => m,
            None => self.pmtu,
        };
        let entry = UpdateQp {
            qpn,
            ip_addr,
            local_udp_port: LOCAL_UDP_PORT,
            peer_mac_addr: card_mac,
            qp_type: self.qp_type,
            peer_qpn,
            rq_access_flags: RQ_ACCESS_FLAGS,
            pmtu,
        };
        self.dqpn = entry.peer_qpn;
        self.access_flags = RQ_ACCESS_FLAGS;
        self.pmtu = entry.pmtu;
        self.dqp_ip = ip_addr;
        entry
    }

    /// Whether the post-receive channel to the peer must be set up now: the
    /// peer is known and no channel exists yet.
    pub fn needs_post_recv_channel(&self, has_channel: bool) -> (r: bool)
        ensures
            r == (self.dqpn != 0 && self.dqp_ip != 0 && !has_channel),
    {
        self.dqpn != 0 && self.dqp_ip != 0 && !has_channel
    }
}

/// A receive work request posted by the peer.
#[derive(Clone, Copy, Debug, PartialEq, Eq, Structural)]
pub struct RecvWr {
    pub wr_id: u64,
    pub addr: u64,
    pub length: u32,
    pub lkey: u32,
}

/// Size of a receive request on the post-receive channel.
pub const RECV_WR_WIRE_SIZE: usize = 24;

/// The wire form of a receive request: `wr_id`, `addr`, `length` and `lkey`,
/// each little-endian, in that order.
pub open spec fn recv_wr_bytes(w: RecvWr) -> Seq<u8> {
    spec_u64_to_le_bytes(w.wr_id) + spec_u64_to_le_bytes(w.addr) + spec_u32_to_le_bytes(w.length)
        + spec_u32_to_le_bytes(w.lkey)
}

/// The receive request a 24-byte wire form denotes.
pub open spec fn recv_wr_from_bytes(b: Seq<u8>) -> RecvWr {
    RecvWr {
        wr_id: spec_u64_from_le_bytes(b.subrange(0, 8)),
        addr: spec_u64_from_le_bytes(b.subrange(8, 16)),
        length: spec_u32_from_le_bytes(b.subrange(16, 20)),
        lkey: spec_u32_from_le_bytes(b.subrange(20, 24)),
    }
}

impl RecvWr {
    /// Encodes the request for the post-receive channel.
    pub fn to_bytes(&self) -> (r: Vec<u8>)
        ensures
            r@ == recv_wr_bytes(*self),
            r@.len() == RECV_WR_WIRE_SIZE,
    {
        proof {
            vstd::bytes::lemma_auto_spec_u64_to_from_le_bytes();
            vstd::bytes::lemma_auto_spec_u32_to_from_le_bytes();
        }
        let mut out = vstd::bytes::u64_to_le_bytes(self.wr_id);
        let mut addr = vstd::bytes::u64_to_le_bytes(self.addr);
        let mut length = vstd::bytes::u32_to_le_bytes(self.length);
        let mut lkey = vstd::bytes::u32_to_le_bytes(self.lkey);
        out.append(&mut addr);
        out.append(&mut length);
        out.append(&mut lkey);
        out
    }

    /// Decodes a request received on the post-receive channel.
    pub fn from_bytes(bytes: &[u8]) -> (r: RecvWr)
        requires
            bytes@.len() == RECV_WR_WIRE_SIZE,
        ensures
            r == recv_wr_from_bytes(bytes@),
    {
        let wr_id = vstd::bytes::u64_from_le_bytes(vstd::slice::slice_subrange(bytes, 0, 8));
        let addr = vstd::bytes::u64_from_le_bytes(vstd::slice::slice_subrange(bytes, 8, 16));
        let length = vstd::bytes::u32_from_le_bytes(vstd::slice::slice_subrange(bytes, 16, 20));
        let lkey = vstd::bytes::u32_from_le_bytes(vstd::slice::slice_subrange(bytes, 20, 24));
        RecvWr { wr_id, addr, length, lkey }
    }
}

/// Decoding gives back what was encoded.
pub proof fn lemma_recv_wr_round_trip(w: RecvWr)
    ensures
        recv_wr_bytes(w).len() == RECV_WR_WIRE_SIZE,
        recv_wr_from_bytes(recv_wr_bytes(w)) == w,
{
    vstd::bytes::lemma_auto_spec_u64_to_from_le_bytes();
    vstd::bytes::lemma_auto_spec_u32_to_from_le_bytes();
    let b = recv_wr_bytes(w);
    assert(b.subrange(0, 8) =~= spec_u64_to_le_bytes(w.wr_id));
    assert(b.subrange(8, 16) =~= spec_u64_to_le_bytes(w.addr));
    assert(b.subrange(16, 20) =~= spec_u32_to_le_bytes(w.length));
    assert(b.subrange(20, 24) =~= spec_u32_to_le_bytes(w.lkey));
}

/// Where a send lands: the buffer of the matching receive request.
#[derive(Clone, Copy, Debug, PartialEq, Eq, Structural)]
pub struct RdmaTarget {
    pub raddr: u64,
    pub rkey: u32,
}

/// A send is carried out as a write into the buffer of the peer's oldest
/// posted receive, whose length must equal the send's.
pub fn send_target(send_length: u32, recv: &RecvWr) -> (r: Result<RdmaTarget, RdmaError>)
    ensures
        send_length == recv.length ==> r == Ok::<RdmaTarget, RdmaError>(
            RdmaTarget { raddr: recv.addr, rkey: recv.lkey },
        ),
        send_length != recv.length ==> r == Err::<RdmaTarget, RdmaError>(RdmaError::InvalidInput),
{
    if send_length != recv.length {
        Err(RdmaError::InvalidInput)
    } else {
        Ok(RdmaTarget { raddr: recv.addr, rkey: recv.lkey })
    }
}

/// Maximum number of page-table entries written to the device per command
/// (a 128-byte transaction of 8-byte entries).
pub const MAX_NUM_PGT_ENTRY_PER_ALLOC: u32 = 16;

/// A run of `count` page-table entries starting at `index`.
#[derive(Clone, Copy, Debug, PartialEq, Eq, Structural)]
pub struct PgtEntry {
    pub index: u32,
    pub count: u32,
}

/// Number of chunks `count` entries are cut into.
pub open spec fn num_chunks(count: u32) -> nat {
    ((count + 15) / 16) as nat
}

/// The `j`-th chunk of `entry`.
pub open spec fn chunk_at(entry: PgtEntry, j: int) -> PgtEntry {
    PgtEntry {
        index: (entry.index + 16 * j) as u32,
        count: if entry.count - 16 * j < 16 {
            (entry.count - 16 * j) as u32
        } else {
            16
        },
    }
}

/// Cuts a run of page-table entries into consecutive chunks of at most
/// `MAX_NUM_PGT_ENTRY_PER_ALLOC` entries.
pub fn chunks(entry: PgtEntry) -> (r: Vec<PgtEntry>)
    requires
        entry.index + entry.count <= u32::MAX,
    ensures
        r@.len() == num_chunks(entry.count),
        forall|j: int| 0 <= j < r@.len() ==> #[trigger] r@[j] == chunk_at(entry, j),
{
    let base_index = entry.index;
    let end_index = base_index + entry.count;
    let n: u32 = entry.count / MAX_NUM_PGT_ENTRY_PER_ALLOC + if entry.count % MAX_NUM_PGT_ENTRY_PER_ALLOC
        != 0 {
        1u32
    } else {
        0u32
    };
    assert(n == num_chunks(entry.count));
    let mut out: Vec<PgtEntry> = Vec::new();
    let mut j: u32 = 0;
    while j < n
        invariant
            base_index == entry.index,
            end_index == entry.index + entry.count,
            end_index <= u32::MAX,
            n == num_chunks(entry.count),
            j <= n,
            out@.len() == j,
            forall|k: int| 0 <= k < j ==> #[trigger] out@[k] == chunk_at(entry, k),
        decreases n - j,
    {
        assert(16 * j < entry.count);
        let index = base_index + MAX_NUM_PGT_ENTRY_PER_ALLOC * j;
        let remaining = end_index - index;
        let count = if remaining < MAX_NUM_PGT_ENTRY_PER_ALLOC {
            remaining
        } else {
            MAX_NUM_PGT_ENTRY_PER_ALLOC
        };
        out.push(PgtEntry { index, count });
        j = j + 1;
    }
    out
}

/// A page-table update command: the device copies `zero_based_count + 1`
/// entries from the DMA buffer at `dma_addr` into its page table starting
/// at `index`.
#[derive(Clone, Copy, Debug, PartialEq, Eq, Structural)]
pub struct PgtUpdate {
    pub dma_addr: u64,
    pub index: u32,
    pub zero_based_count: u32,
}

/// One chunk of a registration: the command and the physical page
/// addresses to place in the DMA buffer before issuing it.
#[derive(Clone, Debug)]
pub struct PgtChunkUpdate {
    pub update: PgtUpdate,
    pub phys_addrs: Vec<u64>,
}

/// The page-table updates that register a run of entries whose pages have
/// the physical addresses `phys_addrs`, in order: one per chunk of the run,
/// each carrying the addresses of its own entries and staged in the buffer
/// at `mtt_buffer_pa`.
pub fn pgt_updates(entry: PgtEntry, phys_addrs: &Vec<u64>, mtt_buffer_pa: u64) -> (r: Vec<
    PgtChunkUpdate,
>)
    requires
        entry.index + entry.count <= u32::MAX,
        phys_addrs@.len() == entry.count,
    ensures
        r@.len() == num_chunks(entry.count),
        forall|j: int|
            0 <= j < r@.len() ==> (#[trigger] r@[j]).update == (PgtUpdate {
                dma_addr: mtt_buffer_pa,
                index: chunk_at(entry, j).index,
                zero_based_count: (chunk_at(entry, j).count - 1) as u32,
            }) && r@[j].phys_addrs@ == phys_addrs@.subrange(
                16 * j,
                16 * j + chunk_at(entry, j).count,
            ),
{
    let cs = chunks(entry);
    let mut out: Vec<PgtChunkUpdate> = Vec::new();
    let mut j: usize = 0;
    let mut cursor: usize = 0;
    while j < cs.len()
        invariant
            cs@.len() == num_chunks(entry.count),
            forall|k: int| 0 <= k < cs@.len() ==> #[trigger] cs@[k] == chunk_at(entry, k),
            phys_addrs@.len() == entry.count,
            j <= cs@.len(),
            j < cs@.len() ==> cursor == 16 * j,
            out@.len() == j,
            forall|k: int|
                0 <= k < j ==> (#[trigger] out@[k]).update == (PgtUpdate {
                    dma_addr: mtt_buffer_pa,
                    index: chunk_at(entry, k).index,
                    zero_based_count: (chunk_at(entry, k).count - 1) as u32,
                }) && out@[k].phys_addrs@ == phys_addrs@.subrange(
                    16 * k,
                    16 * k + chunk_at(entry, k).count,
                ),
        decreases cs@.len() - j,
    {
        let c = cs[j];
        assert(16 * j < entry.count);
        let mut addrs: Vec<u64> = Vec::new();
        let mut i: usize = 0;
        while i < c.count as usize
            invariant
                c == chunk_at(entry, j as int),
                cursor == 16 * j,
                16 * j < entry.count,
                phys_addrs@.len() == entry.count,
                i <= c.count,
                addrs@ == phys_addrs@.subrange(cursor as int, cursor + i),
            decreases c.count - i,
        {
            addrs.push(phys_addrs[cursor + i]);
            i = i + 1;
        }
        out.push(
            PgtChunkUpdate {
                update: PgtUpdate { dma_addr: mtt_buffer_pa, index: c.index, zero_based_count: c.count - 1 },
                phys_addrs: addrs,
            },
        );
        j = j + 1;
        if j < cs.len() {
            assert(16 * j < entry.count);
            cursor = cursor + 16;
        }
    }
    out
}

/// Total number of entries in the first `n` chunks of `entry`.
pub open spec fn chunk_total(entry: PgtEntry, n: nat) -> int
    decreases n,
{
    if n == 0 {
        0
    } else {
        chunk_total(entry, (n - 1) as nat) + chunk_at(entry, n - 1).count
    }
}

/// The chunks of a run partition it: they start at the run's first entry,
/// each one follows the previous without gap or overlap, each holds between
/// 1 and `MAX_NUM_PGT_ENTRY_PER_ALLOC` entries, and together they hold
/// exactly the run's entries.
pub proof fn lemma_chunks_partition(entry: PgtEntry)
    requires
        entry.index + entry.count <= u32::MAX,
    ensures
        chunk_total(entry, num_chunks(entry.count)) == entry.count,
        num_chunks(entry.count) > 0 ==> chunk_at(entry, 0).index == entry.index,
        forall|j: int|
            0 <= j < num_chunks(entry.count) ==> 1 <= #[trigger] chunk_at(entry, j).count <= 16,
        forall|j: int|
            0 <= j && j + 1 < num_chunks(entry.count) ==> #[trigger] chunk_at(entry, j + 1).index
                == chunk_at(entry, j).index + chunk_at(entry, j).count,
{
    let n = num_chunks(entry.count);
    assert forall|k: nat| k <= n implies #[trigger] chunk_total(entry, k) == if 16 * k < entry.count {
        16 * k as int
    } else {
        entry.count as int
    } by {
        lemma_chunk_total(entry, k);
    }
    assert(chunk_total(entry, n) == entry.count);
}

proof fn lemma_chunk_total(entry: PgtEntry, k: nat)
    requires
        k <= num_chunks(entry.count),
    ensures
        chunk_total(entry, k) == if 16 * k < entry.count {
            16 * k as int
        } else {
            entry.count as int
        },
    decreases k,
{
    if k > 0 {
        lemma_chunk_total(entry, (k - 1) as nat);
    }
}

/// The physical addresses of all pages of a region, or `None` when some page
/// has no translation.
pub fn collect_phys_addrs(addrs: Vec<Option<u64>>) -> (r: Option<Vec<u64>>)
    ensures
        match r {
            Some(v) => v@.len() == addrs@.len() && forall|i: int|
                0 <= i < addrs@.len() ==> #[trigger] addrs@[i] == Some(v@[i]),
            None => exists|i: int| 0 <= i < addrs@.len() && #[trigger] addrs@[i] is None,
        },
{
    let mut out: Vec<u64> = Vec::new();
    let mut i: usize = 0;
    while i < addrs.len()
        invariant
            i <= addrs@.len(),
            out@.len() == i,
            forall|k: int| 0 <= k < i ==> #[trigger] addrs@[k] == Some(out@[k]),
        decreases addrs@.len() - i,
    {
        match addrs[i] {
            Some(pa) => out.push(pa),
            None => return None,
        }
        i = i + 1;
    }
    Some(out)
}

/// A memory region's length as the device's 32-bit length field.
pub fn region_length(length: usize) -> (r: Result<u32, RdmaError>)
    ensures
        length <= u32::MAX ==> r == Ok::<u32, RdmaError>(length as u32),
        length > u32::MAX ==> r == Err::<u32, RdmaError>(RdmaError::InvalidInput),
{
    if length <= u32::MAX as usize {
        Ok(length as u32)
    } else {
        Err(RdmaError::InvalidInput)
    }
}

/// A completed work request.
#[allow(inconsistent_fields)]
#[derive(Clone, Copy, Debug, PartialEq, Eq, Structural)]
pub enum Completion {
    Send { wr_id: u64 },
    RdmaWrite { wr_id: u64 },
    RdmaRead { wr_id: u64 },
    Recv { wr_id: u64, imm: Option<u32> },
    RecvRdmaWithImm { imm: u32 },
}

/// Work completion opcodes.
pub const WC_SEND: u32 = 0;
pub const WC_RDMA_WRITE: u32 = 1;
pub const WC_RDMA_READ: u32 = 2;
pub const WC_RECV: u32 = 128;
pub const WC_RECV_RDMA_WITH_IMM: u32 = 129;

/// The fields of a work completion entry that a completion fills in.
#[derive(Clone, Copy, Debug, PartialEq, Eq, Structural)]
pub struct WcFields {
    /// Work request id, when the completion carries one.
    pub wr_id: Option<u64>,
    /// Immediate data, when the completion carries some.
    pub imm_data: Option<u32>,
    pub opcode: u32,
}

impl Completion {
    /// The work completion entry reported for this completion (its status is
    /// always success).
    pub fn wc_fields(&self) -> (r: WcFields)
        ensures
            r == (match *self {
                Completion::Send { wr_id } => WcFields { wr_id: Some(wr_id), imm_data: None, opcode: WC_SEND },
                Completion::RdmaWrite { wr_id } => WcFields {
                    wr_id: Some(wr_id),
                    imm_data: None,
                    opcode: WC_RDMA_WRITE,
                },
                Completion::RdmaRead { wr_id } => WcFields {
                    wr_id: Some(wr_id),
                    imm_data: None,
                    opcode: WC_RDMA_READ,
                },
                Completion::Recv { wr_id, imm } => WcFields { wr_id: Some(wr_id), imm_data: imm, opcode: WC_RECV },
                Completion::RecvRdmaWithImm { imm } => WcFields {
                    wr_id: None,
                    imm_data: Some(imm),
                    opcode: WC_RECV_RDMA_WITH_IMM,
                },
            }),
    {
        match *self {
            Completion::Send { wr_id } => WcFields { wr_id: Some(wr_id), imm_data: None, opcode: WC_SEND },
            Completion::RdmaWrite { wr_id } => WcFields {
                wr_id: Some(wr_id),
                imm_data: None,
                opcode: WC_RDMA_WRITE,
            },
            Completion::RdmaRead { wr_id } => WcFields {
                wr_id: Some(wr_id),
                imm_data: None,
                opcode: WC_RDMA_READ,
            },
            Completion::Recv { wr_id, imm } => WcFields { wr_id: Some(wr_id), imm_data: imm, opcode: WC_RECV },
            Completion::RecvRdmaWithImm { imm } => WcFields {
                wr_id: None,
                imm_data: Some(imm),
                opcode: WC_RECV_RDMA_WITH_IMM,
            },
        }
    }
}

/// Takes up to `max_num_entries` completions from the front of a completion
/// queue, oldest first.
pub fn poll_completions(queue: &mut VecDeque<Completion>, max_num_entries: usize) -> (r: Vec<
    Completion,
>)
    ensures
        r@.len() == if old(queue)@.len() < max_num_entries {
            old(queue)@.len()
        } else {
            max_num_entries as nat
        },
        r@ == old(queue)@.take(r@.len() as int),
        final(queue)@ == old(queue)@.skip(r@.len() as int),
{
    let mut out: Vec<Completion> = Vec::new();
    while out.len() < max_num_entries && queue.len() > 0
        invariant
            out@.len() <= max_num_entries,
            out@ + queue@ == old(queue)@,
        decreases queue@.len(),
    {
        if let Some(c) = queue.pop_front() {
            out.push(c);
        }
    }
    assert(out@ == old(queue)@.take(out@.len() as int));
    assert(queue@ == old(queue)@.skip(out@.len() as int));
    out
}

} // verus!
