use ds_project::codec::{
    ack_frame, decode_kv_pairs, encode_kv_pairs, is_ack, make_frame, read_u32_at, read_u64_at,
    u32_be_bytes, u64_be_bytes,
};
use ds_project::dispatch::{route_opcode, Block};
use ds_project::ip::{ip_address_bytes, ip_address_from_bytes, is_ipv4_address, parse_ipv4_text};
use ds_project::leader;
use ds_project::messages::{node_down_frame, node_list_request_frame, reframe_response};
use ds_project::store::KvStore;

#[test]
fn big_endian_round_trips() {
    let bytes = u64_be_bytes(0x0102030405060708);
    assert_eq!(bytes, vec![1, 2, 3, 4, 5, 6, 7, 8]);
    assert_eq!(read_u64_at(&bytes, 0), 0x0102030405060708);
    let bytes32 = u32_be_bytes(0xA1B2C3D4);
    assert_eq!(bytes32, vec![0xA1, 0xB2, 0xC3, 0xD4]);
    assert_eq!(read_u32_at(&bytes32, 0), 0xA1B2C3D4);
}

#[test]
fn frames_count_their_own_header() {
    let frame = make_frame(30, vec![9, 9]);
    assert_eq!(frame, vec![30, 0, 0, 0, 7, 9, 9]);
    assert_eq!(node_down_frame(1), {
        let mut f = vec![30, 0, 0, 0, 13];
        f.extend_from_slice(&[0, 0, 0, 0, 0, 0, 0, 1]);
        f
    });
    assert_eq!(node_list_request_frame(), vec![10, 0, 0, 0, 5]);
}

#[test]
fn ack_recognition_is_exact() {
    assert!(is_ack(&ack_frame()));
    assert!(!is_ack(&vec![0, 0, 0, 0, 7, 0x6F, 0x6A]));
    assert!(!is_ack(&vec![0, 0, 0, 0, 5]));
}

#[test]
fn kv_pairs_round_trip() {
    let pairs = vec![
        (1, b"one".to_vec()),
        (u64::MAX, Vec::new()),
        (7, b"alpha".to_vec()),
    ];
    let encoded = encode_kv_pairs(&pairs);
    let mut framed = vec![0, 0, 0, 0, 0];
    framed.extend_from_slice(&encoded);
    let decoded = decode_kv_pairs(&framed, 5).unwrap();
    assert_eq!(decoded, pairs);
}

#[test]
fn kv_pairs_decoding_rejects_garbage() {
    // declared value length runs past the end
    let message = vec![0, 0, 0, 0, 0, 0, 0, 0, 0, 0, 0, 0, 1, 0, 0, 0, 9, 1];
    assert!(decode_kv_pairs(&message, 5).is_none());
    // trailing partial triple
    let short = vec![0, 0, 0, 0, 0, 1, 2, 3];
    assert!(decode_kv_pairs(&short, 5).is_none());
}

#[test]
fn reframe_keeps_body_and_length() {
    let response = make_frame(0, vec![5, 6, 7]);
    let request = reframe_response(33, &response).unwrap();
    assert_eq!(request, vec![33, 0, 0, 0, 8, 5, 6, 7]);
    assert!(reframe_response(33, &vec![1, 0, 0, 0, 5]).is_none());
    assert!(reframe_response(33, &vec![0, 0, 0]).is_none());
}

#[test]
fn opcode_routing_table() {
    assert_eq!(route_opcode(1), Some(Block::Leader));
    assert_eq!(route_opcode(2), Some(Block::Leader));
    assert_eq!(route_opcode(11), Some(Block::Leader));
    assert_eq!(route_opcode(12), Some(Block::Leader));
    assert_eq!(route_opcode(33), Some(Block::Leader));
    assert_eq!(route_opcode(10), Some(Block::Peer));
    assert_eq!(route_opcode(13), Some(Block::Peer));
    assert_eq!(route_opcode(20), Some(Block::Backup));
    assert_eq!(route_opcode(21), Some(Block::Backup));
    assert_eq!(route_opcode(32), Some(Block::Backup));
    assert_eq!(route_opcode(30), Some(Block::FaultTolerance));
    assert_eq!(route_opcode(31), Some(Block::FaultTolerance));
    assert_eq!(route_opcode(200), Some(Block::Client));
    assert_eq!(route_opcode(202), Some(Block::Client));
    assert_eq!(route_opcode(0), None);
    assert_eq!(route_opcode(99), None);
}

#[test]
fn ipv4_text_accepts_canonical_quads() {
    assert!(is_ipv4_address("0.0.0.0"));
    assert!(is_ipv4_address("127.0.0.1"));
    assert!(is_ipv4_address("255.255.255.255"));
    assert_eq!(parse_ipv4_text("192.168.0.1"), Some((192, 168, 0, 1)));
}

#[test]
fn ipv4_text_rejects_everything_else() {
    assert!(!is_ipv4_address(""));
    assert!(!is_ipv4_address("1.2.3"));
    assert!(!is_ipv4_address("1.2.3.4.5"));
    assert!(!is_ipv4_address("256.1.1.1"));
    assert!(!is_ipv4_address("01.2.3.4"));
    assert!(!is_ipv4_address("1.2.3.4 "));
    assert!(!is_ipv4_address("a.b.c.d"));
}

#[test]
fn ipv4_bytes_round_trip() {
    assert_eq!(ip_address_bytes("192.168.0.1"), [192, 168, 0, 1]);
    assert_eq!(ip_address_from_bytes(&[10, 0, 0, 1]), "10.0.0.1");
    assert_eq!(ip_address_from_bytes(&[255, 0, 7, 120]), "255.0.7.120");
    let text = ip_address_from_bytes(&[203, 0, 113, 9]);
    assert_eq!(ip_address_bytes(&text), [203, 0, 113, 9]);
}

#[test]
fn store_overwrites_and_counts_keys() {
    let mut store = KvStore::new();
    assert_eq!(store.len(), 0);
    store.insert(1, b"first".to_vec());
    store.insert(1, b"second".to_vec());
    store.insert(2, b"other".to_vec());
    assert_eq!(store.len(), 2);
    assert_eq!(store.get_value_or_empty(1), b"second".to_vec());
    assert_eq!(store.get_value_or_empty(3), Vec::<u8>::new());
}

#[test]
fn malformed_leader_requests_are_dropped() {
    let store = KvStore::new();
    // a read frame must be exactly 13 bytes
    assert!(leader::handle_read_request(&store, &vec![1, 0, 0, 0, 6, 9]).is_none());
    // a write-start frame must carry a matching length field
    let mut bad = vec![2, 0, 0, 0, 12];
    bad.extend_from_slice(&[0, 0, 0, 0, 0, 0, 0, 7]);
    assert!(leader::write_permission(&store, &bad).is_none());
    // the write command must be an op-0 frame with a matching length field
    assert!(leader::parse_new_value(&vec![1, 0, 0, 0, 5]).is_none());
    assert!(leader::parse_new_value(&vec![0, 0, 0, 0, 9, 1]).is_none());
}

#[test]
fn transfer_requests_check_both_lengths() {
    let mut store = KvStore::new();
    store.insert(4, b"kept".to_vec());
    // 21 bytes announced, shorter frame sent
    let mut bad = vec![11, 0, 0, 0, 21];
    bad.extend_from_slice(&[0; 8]);
    assert!(leader::handle_transfer_request(&mut store, &bad).is_none());
    assert_eq!(store.len(), 1);
}
