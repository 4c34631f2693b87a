use ds_project::backup;
use ds_project::codec::ack_frame;
use ds_project::fault_tolerance::{
    deannouncement_backup_target, node_down_recipient, promotion_range, remove_node,
};
use ds_project::join::{decode_kv_response, transfer_plan};
use ds_project::leader;
use ds_project::messages::{
    backup_transfer_frame, backup_write_frame, read_request_frame, reframe_response,
    transfer_request_frame, write_request_frame,
};
use ds_project::peer::{decode_node_list, handle_join_announcement, handle_node_list_request};
use ds_project::routing::leader_node_for_key;
use ds_project::store::KvStore;
use ds_project::PeerNode;

fn node(id: u64, ip: &str) -> PeerNode {
    PeerNode {
        id,
        ip_address: ip.to_string(),
    }
}

fn three_node_ring() -> Vec<PeerNode> {
    vec![
        node(5, "192.168.0.5"),
        node(12, "192.168.0.12"),
        node(25, "192.168.0.25"),
    ]
}

const ACK: [u8; 7] = [0, 0, 0, 0, 7, 0x6F, 0x6B];

#[test]
fn ack_frame_is_byte_exact() {
    assert_eq!(ack_frame(), ACK.to_vec());
}

#[test]
fn write_then_read() {
    let ring = three_node_ring();
    // the leader for key 7 is id 12
    assert_eq!(leader_node_for_key(&ring, 7).id, 12);

    let mut leader_store = KvStore::new();
    let mut backup_store_5 = KvStore::new();
    let mut backup_store_25 = KvStore::new();

    // step 1: the client opens the handshake
    let first_message = write_request_frame(7);
    let (key, permission) = leader::write_permission(&leader_store, &first_message).unwrap();
    assert_eq!(key, 7);
    // no prior value: the permission carries an empty body
    assert_eq!(permission, vec![0, 0, 0, 0, 5]);

    // step 2: the client answers with the new value
    let write_command = ds_project::codec::make_frame(0, b"alpha".to_vec());
    let new_value = leader::parse_new_value(&write_command).unwrap();
    assert_eq!(new_value, b"alpha".to_vec());

    // step 3: replicate to both wrapping neighbors (5 and 25), then commit
    let backup_message = backup_write_frame(7, &new_value);
    let ack_5 = backup::handle_write_request(&mut backup_store_5, &backup_message).unwrap();
    let ack_25 = backup::handle_write_request(&mut backup_store_25, &backup_message).unwrap();
    assert_eq!(ack_5, ACK.to_vec());
    assert_eq!(ack_25, ACK.to_vec());
    let ack = leader::commit_write(&mut leader_store, key, new_value);
    assert_eq!(ack, ACK.to_vec());

    // both backups now hold (7, "alpha")
    assert_eq!(backup_store_5.get_value_or_empty(7), b"alpha".to_vec());
    assert_eq!(backup_store_25.get_value_or_empty(7), b"alpha".to_vec());

    // a read returns the committed value
    let response = leader::handle_read_request(&leader_store, &read_request_frame(7)).unwrap();
    let mut expected = vec![0, 0, 0, 0, 10];
    expected.extend_from_slice(b"alpha");
    assert_eq!(response, expected);
}

#[test]
fn read_returns_empty_for_missing_key() {
    let store = KvStore::new();
    let response = leader::handle_read_request(&store, &read_request_frame(10000)).unwrap();
    // opcode 0, length 5, zero body bytes
    assert_eq!(response, vec![0, 0, 0, 0, 5]);
}

#[test]
fn range_transfer_on_join() {
    let ring = vec![node(10, "10.0.0.10"), node(30, "10.0.0.30")];
    let mut store_30 = KvStore::new();
    store_30.insert(12, b"a".to_vec());
    store_30.insert(20, b"b".to_vec());
    store_30.insert(25, b"c".to_vec());

    // the joiner with id 20 asks its greater neighbor for (10, 20]
    let (target, lower, upper) = transfer_plan(20, &ring).unwrap();
    assert_eq!(target.id, 30);
    assert_eq!((lower, upper), (11, 20));

    let request = transfer_request_frame(lower, upper);
    let response = leader::handle_transfer_request(&mut store_30, &request).unwrap();
    let mut pairs = decode_kv_response(&response).unwrap();
    pairs.sort_by_key(|p| p.0);
    assert_eq!(pairs.len(), 2);
    assert_eq!(pairs[0], (12, b"a".to_vec()));
    assert_eq!(pairs[1], (20, b"b".to_vec()));

    // the transferred keys left id 30's store; the rest stayed
    assert_eq!(store_30.len(), 1);
    assert_eq!(store_30.get_value_or_empty(12), Vec::<u8>::new());
    assert_eq!(store_30.get_value_or_empty(25), b"c".to_vec());

    // the joiner owns them now
    let mut store_20 = KvStore::new();
    for (k, v) in pairs {
        store_20.insert(k, v);
    }
    assert_eq!(store_20.get_value_or_empty(12), b"a".to_vec());
    assert_eq!(store_20.get_value_or_empty(20), b"b".to_vec());
}

#[test]
fn fault_tolerance_promotion() {
    let mut ring = three_node_ring();
    // id 25 holds a backup of id 12's partition, among it (7, "alpha")
    let mut backup_store_25 = KvStore::new();
    backup_store_25.insert(7, b"alpha".to_vec());
    let mut leader_store_25 = KvStore::new();

    // id 12 crashes; the notification goes to its greater neighbor, id 25
    let recipient = node_down_recipient(12, &ring).unwrap();
    assert_eq!(recipient.id, 25);

    // id 25 promotes the range (5, 12] from its backup into its leader store
    let (lower, upper) = promotion_range(12, &ring);
    assert_eq!((lower, upper), (6, 12));
    let drain_request = backup_transfer_frame(lower, upper);
    let drained = backup::handle_transfer_request(&mut backup_store_25, &drain_request).unwrap();
    let insert_request = reframe_response(33, &drained).unwrap();
    let ack = leader::handle_fault_tolerance_insertion(&mut leader_store_25, &insert_request)
        .unwrap();
    assert_eq!(ack, ACK.to_vec());

    // the pair moved: leader-owned on id 25, gone from its backup range
    assert_eq!(leader_store_25.get_value_or_empty(7), b"alpha".to_vec());
    assert_eq!(backup_store_25.get_value_or_empty(7), Vec::<u8>::new());
    assert_eq!(backup_store_25.len(), 0);

    // while id 12 is still listed, id 5 re-replicates to the new
    // wrapping-greater neighbor, id 25
    let target = deannouncement_backup_target(12, 5, &ring).unwrap();
    assert_eq!(target.id, 25);

    // the deannouncement finally removes id 12 from the list
    remove_node(&mut ring, 12);
    assert_eq!(ring.len(), 2);
    assert!(ring.iter().all(|n| n.id != 12));
}

#[test]
fn backup_dump_is_non_destructive() {
    let mut store = KvStore::new();
    store.insert(1, b"x".to_vec());
    store.insert(2, b"y".to_vec());
    let size_before = store.len();
    let response = leader::handle_backup_request(&store).unwrap();
    assert_eq!(response[0], 0);
    assert_eq!(store.len(), size_before);
    // the dump carries both pairs
    let mut pairs = decode_kv_response(&response).unwrap();
    pairs.sort_by_key(|p| p.0);
    assert_eq!(pairs, vec![(1, b"x".to_vec()), (2, b"y".to_vec())]);
}

#[test]
fn announcement_substitutes_ipv4() {
    // the bootstrap node lists itself as loopback
    let bootstrap_list = vec![node(42, "127.0.0.1"), node(7, "10.1.2.3")];
    let response = handle_node_list_request(&bootstrap_list).unwrap();
    // the joiner substitutes the bootstrap's routable address
    let received = decode_node_list(&response, "203.0.113.9").unwrap();
    assert_eq!(received.len(), 2);
    assert_eq!(received[0].id, 42);
    assert_eq!(received[0].ip_address, "203.0.113.9");
    assert_eq!(received[1].id, 7);
    assert_eq!(received[1].ip_address, "10.1.2.3");
}

#[test]
fn join_announcement_registers_the_sender() {
    let mut ring = vec![node(5, "192.168.0.5")];
    let message = ds_project::messages::join_announcement_frame(99);
    let ack = handle_join_announcement(&mut ring, &message, "198.51.100.4".to_string()).unwrap();
    assert_eq!(ack, ACK.to_vec());
    assert_eq!(ring.len(), 2);
    assert_eq!(ring[1].id, 99);
    assert_eq!(ring[1].ip_address, "198.51.100.4");
}

#[test]
fn join_announcement_rejects_bad_input() {
    let mut ring = vec![node(5, "192.168.0.5")];
    // wrong frame length
    let short = vec![13, 0, 0, 0, 6, 1];
    assert!(handle_join_announcement(&mut ring, &short, "1.2.3.4".to_string()).is_none());
    // sender address that is not a dotted quad
    let message = ds_project::messages::join_announcement_frame(99);
    assert!(handle_join_announcement(&mut ring, &message, "not-an-ip".to_string()).is_none());
    assert_eq!(ring.len(), 1);
}

#[test]
fn single_backup_write_requires_full_header() {
    let mut store = KvStore::new();
    let short = vec![20, 0, 0, 0, 9, 1, 2, 3, 4];
    assert!(backup::handle_write_request(&mut store, &short).is_none());
    assert_eq!(store.len(), 0);
}

#[test]
fn bulk_backup_write_inserts_all_pairs() {
    let mut store = KvStore::new();
    let pairs = vec![(3, b"u".to_vec()), (9, b"vw".to_vec())];
    let payload = ds_project::codec::encode_kv_pairs(&pairs);
    let message = ds_project::codec::make_frame(21, payload);
    let ack = backup::handle_array_write_request(&mut store, &message).unwrap();
    assert_eq!(ack, ACK.to_vec());
    assert_eq!(store.len(), 2);
    assert_eq!(store.get_value_or_empty(3), b"u".to_vec());
    assert_eq!(store.get_value_or_empty(9), b"vw".to_vec());
}

#[test]
fn bulk_backup_write_rejects_torn_bodies() {
    let mut store = KvStore::new();
    let message = vec![21, 0, 0, 0, 8, 1, 2, 3];
    assert!(backup::handle_array_write_request(&mut store, &message).is_none());
    assert_eq!(store.len(), 0);
}
