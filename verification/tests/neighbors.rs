use ds_project::neighbors::{find_neighbors, find_neighbors_nonwrapping, find_neighbors_wrapping};
use ds_project::PeerNode;

fn node(id: u64, ip: &str) -> PeerNode {
    PeerNode {
        id,
        ip_address: ip.to_string(),
    }
}

#[test]
fn simple_neighbor_wrapping_finding() {
    let node_list = vec![
        node(100, "192.168.0.100"),
        node(200, "192.168.0.200"),
        node(150, "192.168.0.150"),
        node(10, "192.168.0.10"),
    ];
    let result = find_neighbors_wrapping(200, &node_list);
    assert_eq!(result[0].clone().unwrap().id, 150);
    assert_eq!(result[1].clone().unwrap().id, 10);
}

#[test]
fn missing_neighbor_wrapping_finding() {
    let node_list = vec![node(100, "192.168.0.100"), node(200, "192.168.0.200")];
    let result = find_neighbors_wrapping(200, &node_list);
    assert_eq!(result[0].clone().unwrap().id, 100);
    assert!(result[1].is_none());
}

#[test]
fn alone_neighbor_wrapping_finding() {
    let node_list = vec![node(200, "192.168.0.200")];
    let result = find_neighbors_wrapping(200, &node_list);
    assert!(result[0].is_none());
    assert!(result[1].is_none());
}

#[test]
fn leader_simple_neighbor_finding() {
    let node_list = vec![
        node(100, "192.168.0.100"),
        node(200, "192.168.0.200"),
        node(150, "192.168.0.150"),
        node(10, "192.168.0.10"),
    ];
    let result = find_neighbors(200, &node_list);
    assert_eq!(result[0].clone().unwrap().id, 150);
    assert_eq!(result[1].clone().unwrap().id, 10);
}

#[test]
fn leader_missing_neighbor_finding() {
    let node_list = vec![node(100, "192.168.0.100"), node(200, "192.168.0.200")];
    let result = find_neighbors(200, &node_list);
    assert_eq!(result[0].clone().unwrap().id, 100);
    assert!(result[1].is_none());
}

#[test]
fn leader_alone_neighbor_finding() {
    let node_list = vec![node(200, "192.168.0.200")];
    let result = find_neighbors(200, &node_list);
    assert!(result[0].is_none());
    assert!(result[1].is_none());
}

#[test]
fn backup_simple_neighbor_finding() {
    let node_list = vec![
        node(100, "192.168.0.100"),
        node(200, "192.168.0.200"),
        node(150, "192.168.0.150"),
        node(10, "192.168.0.10"),
    ];
    let result = find_neighbors(200, &node_list);
    assert_eq!(result[0].clone().unwrap().id, 150);
    assert_eq!(result[1].clone().unwrap().id, 10);
}

#[test]
fn backup_missing_neighbor_finding() {
    let node_list = vec![node(100, "192.168.0.100"), node(200, "192.168.0.200")];
    let result = find_neighbors(200, &node_list);
    assert_eq!(result[0].clone().unwrap().id, 100);
    assert!(result[1].is_none());
}

#[test]
fn backup_alone_neighbor_finding() {
    let node_list = vec![node(200, "192.168.0.200")];
    let result = find_neighbors(200, &node_list);
    assert!(result[0].is_none());
    assert!(result[1].is_none());
}

#[test]
fn nonwrapping_neighbors_are_strict() {
    let node_list = vec![
        node(100, "192.168.0.100"),
        node(200, "192.168.0.200"),
        node(150, "192.168.0.150"),
        node(10, "192.168.0.10"),
    ];
    let (smaller, greater) = find_neighbors_nonwrapping(150, &node_list);
    assert_eq!(smaller.unwrap().id, 100);
    assert_eq!(greater.unwrap().id, 200);
    let (smaller_of_min, greater_of_max) = (
        find_neighbors_nonwrapping(10, &node_list).0,
        find_neighbors_nonwrapping(200, &node_list).1,
    );
    assert!(smaller_of_min.is_none());
    assert!(greater_of_max.is_none());
}

#[test]
fn wrapping_pair_with_two_peers() {
    let node_list = vec![
        node(100, "192.168.0.100"),
        node(200, "192.168.0.200"),
        node(150, "192.168.0.150"),
    ];
    let result = find_neighbors_wrapping(150, &node_list);
    assert_eq!(result[0].clone().unwrap().id, 100);
    assert_eq!(result[1].clone().unwrap().id, 200);
}

#[test]
fn wrapping_neighbors_never_contain_the_queried_id() {
    let node_list = vec![
        node(100, "192.168.0.100"),
        node(200, "192.168.0.200"),
        node(150, "192.168.0.150"),
        node(10, "192.168.0.10"),
    ];
    for queried in [10, 100, 150, 200, 17] {
        let result = find_neighbors_wrapping(queried, &node_list);
        for slot in result {
            if let Some(neighbor) = slot {
                assert_ne!(neighbor.id, queried);
            }
        }
    }
}
