//! Ring routing: which node leads a key's partition.
//!
//! The leader for a key is the node with the smallest id that is at least the
//! key; when no id is that large the ring wraps and the node with the largest
//! id leads. This module defines the ordering predicates shared by routing and
//! the neighbor computations, the executable lookup, and the laws the rule
//! obeys.

use crate::node_in_list;
use crate::unique_ids;
use crate::PeerNode;
use vstd::prelude::*;

verus! {

/// Some id in `l` is at least `k`.
pub open spec fn has_id_geq(l: Seq<PeerNode>, k: u64) -> bool {
    exists|i: int| 0 <= i < l.len() && l[i].id >= k
}

/// Some id in `l` is strictly above `x`.
pub open spec fn has_id_gt(l: Seq<PeerNode>, x: u64) -> bool {
    exists|i: int| 0 <= i < l.len() && l[i].id > x
}

/// Some id in `l` is strictly below `x`.
pub open spec fn has_id_lt(l: Seq<PeerNode>, x: u64) -> bool {
    exists|i: int| 0 <= i < l.len() && l[i].id < x
}

/// Some id in `l` differs from `x`.
pub open spec fn has_id_other(l: Seq<PeerNode>, x: u64) -> bool {
    exists|i: int| 0 <= i < l.len() && l[i].id != x
}

/// `n` is a member with the smallest id that is at least `k`.
pub open spec fn is_min_id_geq(l: Seq<PeerNode>, k: u64, n: PeerNode) -> bool {
    node_in_list(l, n) && n.id >= k && forall|i: int|
        0 <= i < l.len() && (#[trigger] l[i]).id >= k ==> n.id <= l[i].id
}

/// `n` is a member with the smallest id strictly above `x`.
pub open spec fn is_min_id_gt(l: Seq<PeerNode>, x: u64, n: PeerNode) -> bool {
    node_in_list(l, n) && n.id > x && forall|i: int|
        0 <= i < l.len() && (#[trigger] l[i]).id > x ==> n.id <= l[i].id
}

/// `n` is a member with the largest id strictly below `x`.
pub open spec fn is_max_id_lt(l: Seq<PeerNode>, x: u64, n: PeerNode) -> bool {
    node_in_list(l, n) && n.id < x && forall|i: int|
        0 <= i < l.len() && (#[trigger] l[i]).id < x ==> l[i].id <= n.id
}

/// `n` is a member with the largest id overall.
pub open spec fn is_max_id(l: Seq<PeerNode>, n: PeerNode) -> bool {
    node_in_list(l, n) && forall|i: int| 0 <= i < l.len() ==> (#[trigger] l[i]).id <= n.id
}

/// `n` is a member with the smallest id overall.
pub open spec fn is_min_id(l: Seq<PeerNode>, n: PeerNode) -> bool {
    node_in_list(l, n) && forall|i: int| 0 <= i < l.len() ==> n.id <= (#[trigger] l[i]).id
}

/// `n` is a member with the largest id among those differing from `x`.
pub open spec fn is_max_id_other(l: Seq<PeerNode>, x: u64, n: PeerNode) -> bool {
    node_in_list(l, n) && n.id != x && forall|i: int|
        0 <= i < l.len() && (#[trigger] l[i]).id != x ==> l[i].id <= n.id
}

/// `n` is a member with the smallest id among those differing from `x`.
pub open spec fn is_min_id_other(l: Seq<PeerNode>, x: u64, n: PeerNode) -> bool {
    node_in_list(l, n) && n.id != x && forall|i: int|
        0 <= i < l.len() && (#[trigger] l[i]).id != x ==> n.id <= l[i].id
}

/// The key-partition rule: `n` leads key `k` in list `l`.
pub open spec fn is_leader(l: Seq<PeerNode>, k: u64, n: PeerNode) -> bool {
    if has_id_geq(l, k) {
        is_min_id_geq(l, k, n)
    } else {
        is_max_id(l, n)
    }
}

/// `s` is the ring successor of `n`: the next greater id, wrapping to the
/// smallest id when `n` is the ring maximum.
pub open spec fn is_successor(l: Seq<PeerNode>, n: PeerNode, s: PeerNode) -> bool {
    if has_id_gt(l, n.id) {
        is_min_id_gt(l, n.id, s)
    } else {
        is_min_id(l, s)
    }
}

/// From the given node list, returns the node that is the leader for the given
/// key.
pub fn leader_node_for_key(node_list: &Vec<PeerNode>, key: u64) -> (r: PeerNode)
    requires
        node_list@.len() > 0,
    ensures
        is_leader(node_list@, key, r),
        node_in_list(node_list@, r),
{
    let ghost l = node_list@;
    let mut found_geq: bool = node_list[0].id >= key;
    let mut best_geq: usize = 0;
    let mut best_max: usize = 0;
    let mut i: usize = 1;
    while i < node_list.len()
        invariant
            l == node_list@,
            1 <= i <= l.len(),
            best_max < i,
            forall|j: int| 0 <= j < i ==> (#[trigger] l[j]).id <= l[best_max as int].id,
            found_geq == exists|j: int| 0 <= j < i && (#[trigger] l[j]).id >= key,
            found_geq ==> best_geq < i && l[best_geq as int].id >= key,
            found_geq ==> forall|j: int|
                0 <= j < i && (#[trigger] l[j]).id >= key ==> l[best_geq as int].id <= l[j].id,
        decreases l.len() - i,
    {
        if node_list[i].id >= key && (!found_geq || node_list[i].id < node_list[best_geq].id) {
            best_geq = i;
            found_geq = true;
        }
        if node_list[i].id > node_list[best_max].id {
            best_max = i;
        }
        i = i + 1;
    }
    let idx: usize = if found_geq {
        best_geq
    } else {
        best_max
    };
    let r = PeerNode { id: node_list[idx].id, ip_address: node_list[idx].ip_address.clone() };
    proof {
        assert(node_in_list(l, r));
    }
    r
}

/// Law: for any list and key, the leader is a member of the list.
pub proof fn lemma_leader_in_list(l: Seq<PeerNode>, k: u64, n: PeerNode)
    requires
        is_leader(l, k, n),
    ensures
        node_in_list(l, n),
{
}

/// Law: two leaders for the same key carry the same id.
pub proof fn lemma_leader_id_unique(l: Seq<PeerNode>, k: u64, n1: PeerNode, n2: PeerNode)
    requires
        is_leader(l, k, n1),
        is_leader(l, k, n2),
    ensures
        n1.id == n2.id,
{
}

/// Law: when the key is at most every id, the leader is the node with the
/// minimum id.
pub proof fn lemma_leader_min(l: Seq<PeerNode>, k: u64, n: PeerNode)
    requires
        l.len() > 0,
        forall|i: int| 0 <= i < l.len() ==> k <= (#[trigger] l[i]).id,
        is_leader(l, k, n),
    ensures
        is_min_id(l, n),
{
    assert(l[0].id >= k);
}

/// Law: when the key is above every id, the ring wraps and the leader is the
/// node with the maximum id.
pub proof fn lemma_leader_wraparound(l: Seq<PeerNode>, k: u64, n: PeerNode)
    requires
        forall|i: int| 0 <= i < l.len() ==> (#[trigger] l[i]).id < k,
        is_leader(l, k, n),
    ensures
        is_max_id(l, n),
{
}

/// Law: a node in the list is a leader for its own id; with unique ids every
/// leader for that id is that node's id.
pub proof fn lemma_leader_own_id(l: Seq<PeerNode>, n: PeerNode)
    requires
        node_in_list(l, n),
    ensures
        is_leader(l, n.id, n),
{
    let i = choose|i: int| 0 <= i < l.len() && l[i].id == n.id && l[i].ip_address@
        == n.ip_address@;
    assert(l[i].id >= n.id);
}

/// Law: with unique ids, the leader for a member's own id is that very
/// member: any node leading that key carries the member's id and address.
pub proof fn lemma_leader_own_id_exact(l: Seq<PeerNode>, n: PeerNode, m: PeerNode)
    requires
        unique_ids(l),
        node_in_list(l, n),
        is_leader(l, n.id, m),
    ensures
        m.id == n.id,
        m.ip_address@ == n.ip_address@,
{
    lemma_leader_own_id(l, n);
    lemma_leader_id_unique(l, n.id, n, m);
    let i = choose|i: int| 0 <= i < l.len() && l[i].id == n.id && l[i].ip_address@
        == n.ip_address@;
    let j = choose|j: int| 0 <= j < l.len() && l[j].id == m.id && l[j].ip_address@
        == m.ip_address@;
    assert(i == j);
}

/// Law: for a node that is not the ring maximum, the leader of the key one
/// above its id is its ring successor. (For the ring maximum itself the
/// partition rule sends that key back to the maximum, not around the ring, so
/// that node is left out here.)
pub proof fn lemma_leader_successor(l: Seq<PeerNode>, n: PeerNode, s: PeerNode)
    requires
        node_in_list(l, n),
        has_id_gt(l, n.id),
        is_successor(l, n, s),
    ensures
        n.id < u64::MAX,
        is_leader(l, (n.id + 1) as u64, s),
{
    let i = choose|i: int| 0 <= i < l.len() && l[i].id > n.id;
    let k = (n.id + 1) as u64;
    assert(l[i].id >= k);
    assert(has_id_geq(l, k));
    assert(forall|j: int| 0 <= j < l.len() ==> ((#[trigger] l[j]).id >= k <==> l[j].id > n.id));
}

} // verus!
