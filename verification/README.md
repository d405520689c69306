# blue_rdma

Verified core of the Blue-RDMA user-space driver.

- `src/` is the library, checked by Verus:
  - `ringbuf`: descriptor rings shared with the device (push, pop, paired
    pop, pointer arithmetic, slot offsets in the DMA region) and ring-buffer
    allocation;
  - `mem`: pages, DMA buffers, the emulated page allocator, address
    translation (emulated and page-map decoding) and the bidirectional
    physical/virtual address map;
  - `verbs`: device and port attributes, queue-pair attribute updates,
    page-table chunking for memory registration, send/receive matching,
    completion reporting;
  - `memory_proxy`: how simulator memory requests are served, translated
    through the PA/VA map;
  - `csr`: register-access messages and simulator port selection;
  - `net`: post-receive channel port assignment;
  - `workers`: work-stealing arrangement of the send workers.
- `app/` holds what talks to the operating system: sockets, files, system
  calls, locks, threads, volatile accesses to DMA memory (including copying
  ring slots to and from their region) and JSON/bincode wire formats.
- `tests/` exercises the library.
