//! Verified core logic of the Blue-RDMA user-space driver: descriptor rings,
//! the physical/virtual address map, address translation helpers, queue-pair
//! bookkeeping and the simulator proxy protocol decisions.

pub mod csr;
pub mod mem;
pub mod memory_proxy;
pub mod net;
pub mod ringbuf;
pub mod verbs;
pub mod workers;
