//! Core logic of a distributed, replicated key-value store arranged as a
//! consistent-hash ring of peer nodes.
//!
//! Keys are routed to the node with the smallest id at least as large as the
//! key (wrapping to the largest node when no such id exists). Each leader
//! replicates its partition to its two wrapping ring neighbors. This crate
//! holds the ring routing rules, the neighbor computations, the binary wire
//! framing, the key-value stores and the membership and fault-tolerance
//! decisions; the network transport around them lives outside the crate.

use vstd::prelude::*;

pub mod backup;
pub mod codec;
pub mod dispatch;
pub mod fault_tolerance;
pub mod ip;
pub mod join;
pub mod leader;
pub mod messages;
pub mod neighbors;
pub mod peer;
pub mod routing;
pub mod store;

verus! {

/// One member of the ring: its position and its routable IPv4 address.
#[derive(Clone, Debug)]
pub struct PeerNode {
    pub id: u64,
    pub ip_address: String,
}

/// The mathematical content of a node: its id and the text of its address.
pub open spec fn node_key(n: PeerNode) -> (u64, Seq<char>) {
    (n.id, n.ip_address@)
}

/// A node list seen as a sequence of (id, address text) pairs.
pub open spec fn nodes_view(l: Seq<PeerNode>) -> Seq<(u64, Seq<char>)> {
    l.map_values(|n: PeerNode| node_key(n))
}

/// `n` occurs in `l`, compared by id and address text.
pub open spec fn node_in_list(l: Seq<PeerNode>, n: PeerNode) -> bool {
    exists|i: int| 0 <= i < l.len() && l[i].id == n.id && l[i].ip_address@ == n.ip_address@
}

/// All ids in `l` are distinct.
pub open spec fn unique_ids(l: Seq<PeerNode>) -> bool {
    forall|i: int, j: int|
        0 <= i < l.len() && 0 <= j < l.len() && i != j ==> l[i].id != l[j].id
}

} // verus!
