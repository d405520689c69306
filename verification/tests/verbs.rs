use blue_rdma::verbs::{
    chunks, collect_phys_addrs, poll_completions, region_length, send_target, BlueRdmaCore,
    Completion, PgtEntry, QpAttr, RdmaError, RdmaTarget, RecvWr, LOCAL_UDP_PORT, PMTU_4096,
    RQ_ACCESS_FLAGS, WC_RECV, WC_RECV_RDMA_WITH_IMM, WC_SEND,
};
use blue_rdma::verbs::{pgt_updates, PgtUpdate, RECV_WR_WIRE_SIZE};
use std::collections::VecDeque;

#[test]
fn test_device_and_port_attr() {
    let d = BlueRdmaCore::device_attr();
    assert_eq!(d.max_qp, 256);
    assert_eq!(d.max_qp_wr, 64);
    assert_eq!(d.max_sge, 8);
    assert_eq!(d.max_cqe, 4096);
    assert_eq!(d.phys_port_cnt, 1);
    let p = BlueRdmaCore::port_attr();
    assert_eq!(p.gid_tbl_len, 256);
    assert_eq!(p.port_cap_flags, 0x2c00);
    assert_eq!(p.max_msg_sz, 1 << 31);
    assert_eq!(p.lid, 1);
}

#[test]
fn test_emulated_instance() {
    assert_eq!(BlueRdmaCore::emulated_instance("uverbs0"), 0);
    assert_eq!(BlueRdmaCore::emulated_instance("uverbs1"), 1);
}

#[test]
fn test_chunks_of_pgt_entries() {
    let c = chunks(PgtEntry { index: 10, count: 35 });
    assert_eq!(
        c,
        vec![
            PgtEntry { index: 10, count: 16 },
            PgtEntry { index: 26, count: 16 },
            PgtEntry { index: 42, count: 3 }
        ]
    );
    assert_eq!(chunks(PgtEntry { index: 0, count: 16 }), vec![PgtEntry { index: 0, count: 16 }]);
    assert!(chunks(PgtEntry { index: 5, count: 0 }).is_empty());
    let total: u32 = c.iter().map(|e| e.count).sum();
    assert_eq!(total, 35);
}

#[test]
fn test_collect_phys_addrs() {
    assert_eq!(collect_phys_addrs(vec![Some(1), Some(2)]), Some(vec![1, 2]));
    assert_eq!(collect_phys_addrs(vec![Some(1), None]), None);
    assert_eq!(collect_phys_addrs(vec![]), Some(vec![]));
}

#[test]
fn test_region_length() {
    assert_eq!(region_length(4096), Ok(4096));
    assert_eq!(region_length(u32::MAX as usize), Ok(u32::MAX));
    assert_eq!(region_length(u32::MAX as usize + 1), Err(RdmaError::InvalidInput));
}

#[test]
fn test_create_and_modify_qp() {
    let mut qp = QpAttr::new_with_ip(0x0a00_0001);
    let cmd = qp.record_created(0x1f4, 2, Some(1), Some(2), 0xaabb_ccdd_eeff);
    assert_eq!(cmd.qpn, 0x1f4);
    assert_eq!(cmd.local_udp_port, LOCAL_UDP_PORT);
    assert_eq!(cmd.ip_addr, 0);
    assert_eq!(qp.pmtu, PMTU_4096);
    assert_eq!(qp.mac_addr, 0xaabb_ccdd_eeff);
    assert!(!qp.needs_post_recv_channel(false));

    let cmd = qp.apply_modify(0x1f4, Some(0x0a00_0002), None, None, 0x1122);
    assert_eq!(cmd.ip_addr, 0x0a00_0002);
    assert_eq!(cmd.peer_qpn, 0);
    assert_eq!(cmd.pmtu, PMTU_4096);
    assert_eq!(cmd.rq_access_flags, RQ_ACCESS_FLAGS);
    assert_eq!(cmd.peer_mac_addr, 0x1122);
    assert!(!qp.needs_post_recv_channel(false));

    let cmd = qp.apply_modify(0x1f4, None, Some(0x194), Some(3), 0x1122);
    assert_eq!(cmd.ip_addr, 0x0a00_0002);
    assert_eq!(cmd.peer_qpn, 0x194);
    assert_eq!(cmd.pmtu, 3);
    assert_eq!(qp.dqpn, 0x194);
    assert_eq!(qp.dqp_ip, 0x0a00_0002);
    assert!(qp.needs_post_recv_channel(false));
    assert!(!qp.needs_post_recv_channel(true));
}

#[test]
fn test_send_target() {
    let recv = RecvWr {
        wr_id: 1,
        addr: 0x1000,
        length: 100,
        lkey: 0x55,
    };
    assert_eq!(
        send_target(100, &recv),
        Ok(RdmaTarget {
            raddr: 0x1000,
            rkey: 0x55
        })
    );
    assert_eq!(send_target(99, &recv), Err(RdmaError::InvalidInput));
}

#[test]
fn test_completion_fields() {
    let f = Completion::Send { wr_id: 7 }.wc_fields();
    assert_eq!((f.wr_id, f.imm_data, f.opcode), (Some(7), None, WC_SEND));
    let f = Completion::Recv {
        wr_id: 8,
        imm: Some(9),
    }
    .wc_fields();
    assert_eq!((f.wr_id, f.imm_data, f.opcode), (Some(8), Some(9), WC_RECV));
    let f = Completion::RecvRdmaWithImm { imm: 3 }.wc_fields();
    assert_eq!(
        (f.wr_id, f.imm_data, f.opcode),
        (None, Some(3), WC_RECV_RDMA_WITH_IMM)
    );
}

#[test]
fn test_poll_completions() {
    let mut q: VecDeque<Completion> = (0..5).map(|i| Completion::Send { wr_id: i }).collect();
    let got = poll_completions(&mut q, 3);
    assert_eq!(
        got,
        vec![
            Completion::Send { wr_id: 0 },
            Completion::Send { wr_id: 1 },
            Completion::Send { wr_id: 2 }
        ]
    );
    assert_eq!(q.len(), 2);
    let got = poll_completions(&mut q, 10);
    assert_eq!(got.len(), 2);
    assert!(q.is_empty());
    assert!(poll_completions(&mut q, 10).is_empty());
}

#[test]
fn test_pgt_updates_pair_addresses_with_chunks() {
    let addrs: Vec<u64> = (0..20).map(|i| 0x10_0000 * (i + 1)).collect();
    let ups = pgt_updates(PgtEntry { index: 100, count: 20 }, &addrs, 0xabc000);
    assert_eq!(ups.len(), 2);
    assert_eq!(
        ups[0].update,
        PgtUpdate {
            dma_addr: 0xabc000,
            index: 100,
            zero_based_count: 15
        }
    );
    assert_eq!(ups[0].phys_addrs, addrs[0..16].to_vec());
    assert_eq!(
        ups[1].update,
        PgtUpdate {
            dma_addr: 0xabc000,
            index: 116,
            zero_based_count: 3
        }
    );
    assert_eq!(ups[1].phys_addrs, addrs[16..20].to_vec());
}

#[test]
fn test_recv_wr_wire_format() {
    let wr = RecvWr {
        wr_id: 0x0102_0304_0506_0708,
        addr: 0x1000,
        length: 1024,
        lkey: 0x5678,
    };
    let bytes = wr.to_bytes();
    assert_eq!(bytes.len(), RECV_WR_WIRE_SIZE);
    assert_eq!(&bytes[0..8], &[8, 7, 6, 5, 4, 3, 2, 1]);
    assert_eq!(&bytes[8..16], &0x1000u64.to_le_bytes());
    assert_eq!(&bytes[16..20], &1024u32.to_le_bytes());
    assert_eq!(&bytes[20..24], &0x5678u32.to_le_bytes());
    assert_eq!(RecvWr::from_bytes(&bytes), wr);
}
