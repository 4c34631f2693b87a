use ds_project::routing::leader_node_for_key;
use ds_project::PeerNode;

fn node(id: u64, ip: &str) -> PeerNode {
    PeerNode {
        id,
        ip_address: ip.to_string(),
    }
}

#[test]
fn leader_node_selection() {
    let node_list = vec![
        node(5, "192.168.0.5"),
        node(12, "192.168.0.12"),
        node(25, "192.168.0.25"),
    ];

    assert_eq!(leader_node_for_key(&node_list, 3).id, 5);
    assert_eq!(leader_node_for_key(&node_list, 5).id, 5);
    assert_eq!(leader_node_for_key(&node_list, 6).id, 12);
    assert_eq!(leader_node_for_key(&node_list, 24).id, 25);
    assert_eq!(leader_node_for_key(&node_list, 25).id, 25);
    assert_eq!(leader_node_for_key(&node_list, 26).id, 25);
}

#[test]
fn client_leader_node_selection() {
    let node_list = vec![
        node(5, "192.168.0.5"),
        node(12, "192.168.0.12"),
        node(25, "192.168.0.25"),
    ];

    assert_eq!(leader_node_for_key(&node_list, 3).id, 5);
    assert_eq!(leader_node_for_key(&node_list, 5).id, 5);
    assert_eq!(leader_node_for_key(&node_list, 6).id, 12);
    assert_eq!(leader_node_for_key(&node_list, 24).id, 25);
    assert_eq!(leader_node_for_key(&node_list, 25).id, 25);
    assert_eq!(leader_node_for_key(&node_list, 26).id, 25);
}

#[test]
fn leader_carries_the_member_address() {
    let node_list = vec![node(5, "192.168.0.5"), node(12, "192.168.0.12")];
    let leader = leader_node_for_key(&node_list, 7);
    assert_eq!(leader.id, 12);
    assert_eq!(leader.ip_address, "192.168.0.12");
}

#[test]
fn leader_of_single_node_ring() {
    let node_list = vec![node(42, "10.0.0.1")];
    assert_eq!(leader_node_for_key(&node_list, 0).id, 42);
    assert_eq!(leader_node_for_key(&node_list, 42).id, 42);
    assert_eq!(leader_node_for_key(&node_list, u64::MAX).id, 42);
}

#[test]
fn leader_of_key_one_above_a_member_is_its_successor() {
    let node_list = vec![
        node(5, "192.168.0.5"),
        node(12, "192.168.0.12"),
        node(25, "192.168.0.25"),
    ];
    // the next greater id leads the key just above a member's id
    assert_eq!(leader_node_for_key(&node_list, 6).id, 12);
    assert_eq!(leader_node_for_key(&node_list, 13).id, 25);
}
