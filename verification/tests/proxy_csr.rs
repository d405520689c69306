use blue_rdma::csr::{device_index, emulated_port, CsrAccessRpcMessage};
use blue_rdma::mem::pa_va_map::PaVaMap;
use blue_rdma::memory_proxy::{plan_request, read_response, ProxyAction, SimpleMemRequest};
use blue_rdma::workers::peer_stealers;

fn request(kind: &str, address: u64, data: Option<Vec<u8>>) -> SimpleMemRequest {
    SimpleMemRequest {
        request_type: kind.to_string(),
        channel_id: 3,
        address,
        length: 4,
        data,
        start_byte_index: Some(8),
        is_first: Some(false),
        is_last: Some(true),
        request_id: Some("req_3_7".to_string()),
    }
}

#[test]
fn test_plan_read_and_write() {
    let mut map = PaVaMap::new();
    map.insert(0x1000, 0x7000_0000, 0x1000);
    map.insert(0x2000, 0x9000_0000, 0x1000);
    match plan_request(request("mem_read", 0x1000, None), &map) {
        ProxyAction::Read { va, length } => {
            assert_eq!(va, 0x7000_0000);
            assert_eq!(length, 4);
        }
        _ => panic!("expected a read"),
    }
    match plan_request(request("mem_write", 0x2004, Some(vec![1, 2, 3, 4])), &map) {
        ProxyAction::Write { va, data } => {
            assert_eq!(va, 0x9000_0004);
            assert_eq!(data, vec![1, 2, 3, 4]);
        }
        _ => panic!("expected a write"),
    }
    assert!(matches!(
        plan_request(request("mem_read", 0x5000, None), &map),
        ProxyAction::Unmapped
    ));
}

#[test]
fn test_plan_stops_at_region_end() {
    let mut map = PaVaMap::new();
    map.insert(0x1000, 0x7000_0000, 0x1000);
    match plan_request(request("mem_read", 0x1ffe, None), &map) {
        ProxyAction::Read { va, length } => {
            assert_eq!(va, 0x7000_0ffe);
            assert_eq!(length, 2);
        }
        _ => panic!("expected a read"),
    }
    match plan_request(request("mem_write", 0x1fff, Some(vec![1, 2, 3, 4])), &map) {
        ProxyAction::Write { va, data } => {
            assert_eq!(va, 0x7000_0fff);
            assert_eq!(data, vec![1]);
        }
        _ => panic!("expected a write"),
    }
}

#[test]
fn test_metadata_echo_in_read_response() {
    let resp = read_response(request("mem_read", 0x1000, None), vec![0xde, 0xad]);
    assert_eq!(resp.response_type, "mem_read_response");
    assert_eq!(resp.channel_id, 3);
    assert_eq!(resp.data, Some(vec![0xde, 0xad]));
    assert_eq!(resp.start_byte_index, Some(8));
    assert_eq!(resp.is_first, Some(false));
    assert_eq!(resp.is_last, Some(true));
    assert_eq!(resp.request_id, Some("req_3_7".to_string()));
}

#[test]
fn test_device_ports() {
    assert_eq!(emulated_port("uverbs0"), 7701);
    assert_eq!(emulated_port("uverbs1"), 7702);
    assert_eq!(emulated_port("uverbs12"), 7713);
    assert_eq!(emulated_port("test"), 7701);
    assert_eq!(emulated_port("uverbs"), 7701);
    assert_eq!(emulated_port("uverbsx"), 7701);
    assert_eq!(emulated_port("uverbs+3"), 7704);
    assert_eq!(emulated_port("uverbsuverbs5"), 7706);
    assert_eq!(device_index("uverbs-1"), 0);
    assert_eq!(device_index("uverbs99999999999999999999999"), 0);
    assert_eq!(device_index("xuverbs3"), 0);
}

#[test]
fn test_csr_messages() {
    let m = CsrAccessRpcMessage::read_request(0x1000);
    assert!(!m.is_write);
    assert_eq!(m.addr, 0x1000);
    assert_eq!(m.value, 0);
    let m = CsrAccessRpcMessage::write_request(0x2000, 0x42);
    assert!(m.is_write);
    assert_eq!(m.read_value(), 0x42);
}

#[test]
fn test_peer_stealers() {
    assert_eq!(peer_stealers(4, 1), vec![0, 2, 3]);
    assert_eq!(peer_stealers(1, 0), Vec::<usize>::new());
    assert_eq!(peer_stealers(3, 5), vec![0, 1, 2]);
}
