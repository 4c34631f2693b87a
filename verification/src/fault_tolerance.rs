//! Fault-tolerance decisions: who is told about a crashed peer, which key
//! range its backup data covered, where the promoted partition's new replica
//! goes, and how a deannouncement changes the node list.
//!
//! The node list still contains the crashed id while a handoff runs; only
//! `remove_node`, driven by the deannouncement handler, takes it out.

use crate::neighbors::find_neighbors_nonwrapping;
use crate::neighbors::is_wrap_greater;
use crate::neighbors::is_wrap_smaller;
use crate::neighbors::lemma_wrap_greater_id_unique;
use crate::neighbors::lemma_wrap_smaller_id_unique;
use crate::neighbors::wrapping_neighbors;
use crate::nodes_view;
use crate::routing::has_id_gt;
use crate::routing::has_id_lt;
use crate::routing::has_id_other;
use crate::routing::is_max_id;
use crate::routing::is_max_id_lt;
use crate::routing::is_min_id;
use crate::routing::is_min_id_gt;
use crate::PeerNode;
use vstd::prelude::*;

verus! {

/// Chooses who is told that a peer crashed: the crashed node's greater
/// non-wrapping neighbor, else its smaller one, else nobody (ring of one).
pub fn node_down_recipient(crashed_node_id: u64, node_list: &Vec<PeerNode>) -> (r: Option<PeerNode>)
    ensures
        r is Some <==> has_id_lt(node_list@, crashed_node_id) || has_id_gt(
            node_list@,
            crashed_node_id,
        ),
        r matches Some(n) ==> if has_id_gt(node_list@, crashed_node_id) {
            is_min_id_gt(node_list@, crashed_node_id, n)
        } else {
            is_max_id_lt(node_list@, crashed_node_id, n)
        },
{
    let (smaller, greater) = find_neighbors_nonwrapping(crashed_node_id, node_list);
    match greater {
        Some(g) => Some(g),
        None => smaller,
    }
}

/// The member with the smallest id, if the list is not empty.
pub fn min_id_node(node_list: &Vec<PeerNode>) -> (r: Option<PeerNode>)
    ensures
        r is Some <==> node_list@.len() > 0,
        r matches Some(n) ==> is_min_id(node_list@, n),
{
    let ghost l = node_list@;
    if node_list.len() == 0 {
        return None;
    }
    let mut best: usize = 0;
    let mut i: usize = 1;
    while i < node_list.len()
        invariant
            l == node_list@,
            1 <= i <= l.len(),
            best < i,
            forall|j: int| 0 <= j < i ==> l[best as int].id <= (#[trigger] l[j]).id,
        decreases l.len() - i,
    {
        if node_list[i].id < node_list[best].id {
            best = i;
        }
        i = i + 1;
    }
    Some(PeerNode { id: node_list[best].id, ip_address: node_list[best].ip_address.clone() })
}

/// The member with the largest id, if the list is not empty.
pub fn max_id_node(node_list: &Vec<PeerNode>) -> (r: Option<PeerNode>)
    ensures
        r is Some <==> node_list@.len() > 0,
        r matches Some(n) ==> is_max_id(node_list@, n),
{
    let ghost l = node_list@;
    if node_list.len() == 0 {
        return None;
    }
    let mut best: usize = 0;
    let mut i: usize = 1;
    while i < node_list.len()
        invariant
            l == node_list@,
            1 <= i <= l.len(),
            best < i,
            forall|j: int| 0 <= j < i ==> (#[trigger] l[j]).id <= l[best as int].id,
        decreases l.len() - i,
    {
        if node_list[i].id > node_list[best].id {
            best = i;
        }
        i = i + 1;
    }
    Some(PeerNode { id: node_list[best].id, ip_address: node_list[best].ip_address.clone() })
}

/// The key range a crashed node used to lead: from just above its smaller
/// non-wrapping neighbor (or zero when it was the ring minimum) up to its own
/// id (or the top of the key space when it was the ring maximum).
pub fn promotion_range(down_peer_id: u64, node_list: &Vec<PeerNode>) -> (r: (u64, u64))
    ensures
        has_id_lt(node_list@, down_peer_id) ==> exists|n: PeerNode|
            is_max_id_lt(node_list@, down_peer_id, n) && r.0 == n.id + 1,
        !has_id_lt(node_list@, down_peer_id) ==> r.0 == 0,
        has_id_gt(node_list@, down_peer_id) ==> r.1 == down_peer_id,
        !has_id_gt(node_list@, down_peer_id) ==> r.1 == u64::MAX,
{
    let (smaller, greater) = find_neighbors_nonwrapping(down_peer_id, node_list);
    let lower: u64 = match smaller {
        Some(n) => n.id + 1,
        None => 0,
    };
    let upper: u64 = if greater.is_none() {
        u64::MAX
    } else {
        down_peer_id
    };
    (lower, upper)
}

/// After promotion, the node that should hold a fresh copy of this node's
/// leader data: the ring minimum when the crashed node was the ring maximum,
/// else the crashed node's wrapping smaller neighbor.
pub fn new_backup_target(down_peer_id: u64, node_list: &Vec<PeerNode>) -> (r: Option<PeerNode>)
    ensures
        !has_id_gt(node_list@, down_peer_id) ==> (r is Some <==> node_list@.len() > 0) && (
        r matches Some(n) ==> is_min_id(node_list@, n)),
        has_id_gt(node_list@, down_peer_id) ==> (r is Some <==> has_id_other(
            node_list@,
            down_peer_id,
        )) && (r matches Some(n) ==> is_wrap_smaller(node_list@, down_peer_id, n)),
{
    let (_, greater) = find_neighbors_nonwrapping(down_peer_id, node_list);
    if greater.is_none() {
        min_id_node(node_list)
    } else {
        let (smaller, _) = wrapping_neighbors(down_peer_id, node_list);
        smaller
    }
}

/// `x` is the greatest id in `l` and some member carries it.
pub open spec fn is_greatest_id(l: Seq<PeerNode>, x: u64) -> bool {
    (exists|i: int| 0 <= i < l.len() && (#[trigger] l[i]).id == x) && forall|i: int|
        0 <= i < l.len() ==> (#[trigger] l[i]).id <= x
}

/// `n` is the node this node must push a fresh replica to when `x` is
/// deannounced: the crashed node's wrapping greater neighbor when the crashed
/// node was this node's wrapping greater neighbor and not the ring maximum,
/// or its wrapping smaller neighbor in the symmetric case at the ring top.
pub open spec fn is_deannouncement_backup_target(
    l: Seq<PeerNode>,
    x: u64,
    this: u64,
    n: PeerNode,
) -> bool {
    exists|s: PeerNode, g: PeerNode|
        #[trigger] is_wrap_smaller(l, x, s) && #[trigger] is_wrap_greater(l, x, g) && s.id != g.id
            && ((s.id == this && !is_greatest_id(l, x) && n.id == g.id && n.ip_address@
            == g.ip_address@) || (g.id == this && is_greatest_id(l, x) && n.id == s.id
            && n.ip_address@ == s.ip_address@))
}

/// Decides whether this node must re-replicate its partition on a
/// deannouncement of `down_peer_id`, and to whom.
pub fn deannouncement_backup_target(
    down_peer_id: u64,
    this_node_id: u64,
    node_list: &Vec<PeerNode>,
) -> (r: Option<PeerNode>)
    requires
        node_list@.len() > 0,
    ensures
        r matches Some(n) ==> is_deannouncement_backup_target(
            node_list@,
            down_peer_id,
            this_node_id,
            n,
        ),
        r is None ==> forall|n: PeerNode|
            !is_deannouncement_backup_target(node_list@, down_peer_id, this_node_id, n),
{
    let ghost l = node_list@;
    let ghost x = down_peer_id;
    let (smaller, greater) = wrapping_neighbors(down_peer_id, node_list);
    let greatest = match max_id_node(node_list) {
        Some(m) => m,
        None => {
            proof {
                assert(false);
            }
            return None;
        },
    };
    let ghost is_top = is_greatest_id(l, x);
    proof {
        assert(greatest.id == down_peer_id ==> is_greatest_id(l, x));
        assert(is_greatest_id(l, x) ==> greatest.id == down_peer_id) by {
            if is_greatest_id(l, x) {
                let i = choose|i: int| 0 <= i < l.len() && l[i].id == x;
                assert(l[i].id <= greatest.id);
            }
        }
    }
    match (smaller, greater) {
        (Some(sm), Some(gr)) => {
            if sm.id == this_node_id && greatest.id != down_peer_id {
                proof {
                    assert(is_deannouncement_backup_target(l, x, this_node_id, gr));
                }
                Some(gr)
            } else if gr.id == this_node_id && greatest.id == down_peer_id {
                proof {
                    assert(is_deannouncement_backup_target(l, x, this_node_id, sm));
                }
                Some(sm)
            } else {
                proof {
                    assert forall|n: PeerNode|
                        !is_deannouncement_backup_target(l, x, this_node_id, n) by {
                        if is_deannouncement_backup_target(l, x, this_node_id, n) {
                            let (s, g) = choose|s: PeerNode, g: PeerNode|
                                #[trigger] is_wrap_smaller(l, x, s) && #[trigger] is_wrap_greater(
                                    l,
                                    x,
                                    g,
                                ) && s.id != g.id && ((s.id == this_node_id && !is_greatest_id(l, x)
                                    && n.id == g.id && n.ip_address@ == g.ip_address@) || (g.id
                                    == this_node_id && is_greatest_id(l, x) && n.id == s.id
                                    && n.ip_address@ == s.ip_address@));
                            lemma_wrap_smaller_id_unique(l, x, s, sm);
                            lemma_wrap_greater_id_unique(l, x, g, gr);
                        }
                    }
                }
                None
            }
        },
        (sm_opt, gr_opt) => {
            proof {
                assert forall|n: PeerNode|
                    !is_deannouncement_backup_target(l, x, this_node_id, n) by {
                    if is_deannouncement_backup_target(l, x, this_node_id, n) {
                        let (s, g) = choose|s: PeerNode, g: PeerNode|
                            #[trigger] is_wrap_smaller(l, x, s) && #[trigger] is_wrap_greater(
                                l,
                                x,
                                g,
                            ) && s.id != g.id && ((s.id == this_node_id && !is_greatest_id(l, x)
                                && n.id == g.id && n.ip_address@ == g.ip_address@) || (g.id
                                == this_node_id && is_greatest_id(l, x) && n.id == s.id
                                && n.ip_address@ == s.ip_address@));
                        assert(has_id_other(l, x));
                        if gr_opt is None {
                            let m = sm_opt->Some_0;
                            lemma_wrap_smaller_id_unique(l, x, s, m);
                        }
                    }
                }
            }
            None
        },
    }
}

/// The peers a deannouncement is sent to: every member but the crashed one.
pub fn deannounce_recipients(down_peer_id: u64, node_list: &Vec<PeerNode>) -> (r: Vec<PeerNode>)
    ensures
        nodes_view(r@) == nodes_view(node_list@).filter(
            |p: (u64, Seq<char>)| p.0 != down_peer_id,
        ),
{
    let ghost l = node_list@;
    let ghost pred = (|p: (u64, Seq<char>)| p.0 != down_peer_id);
    let mut r: Vec<PeerNode> = Vec::new();
    let mut i: usize = 0;
    proof {
        reveal(Seq::filter);
    }
    while i < node_list.len()
        invariant
            l == node_list@,
            i <= l.len(),
            pred == (|p: (u64, Seq<char>)| p.0 != down_peer_id),
            nodes_view(r@) == nodes_view(l.take(i as int)).filter(pred),
        decreases l.len() - i,
    {
        proof {
            reveal(Seq::filter);
        }
        let ghost rv0 = nodes_view(r@);
        if node_list[i].id != down_peer_id {
            let n = PeerNode {
                id: node_list[i].id,
                ip_address: node_list[i].ip_address.clone(),
            };
            r.push(n);
            proof {
                assert(nodes_view(r@) =~= rv0.push((l[i as int].id, l[i as int].ip_address@)));
            }
        }
        proof {
            reveal(Seq::filter);
            let s0 = nodes_view(l.take(i as int));
            let e = (l[i as int].id, l[i as int].ip_address@);
            assert(nodes_view(l.take(i + 1)) =~= s0.push(e));
            assert(s0.push(e).drop_last() =~= s0);
            assert(s0.push(e).last() == e);
            assert(nodes_view(l.take(i + 1)).filter(pred) =~= nodes_view(r@));
        }
        i = i + 1;
    }
    proof {
        assert(l.take(l.len() as int) =~= l);
    }
    r
}

/// Removes the crashed peer from the node list.
pub fn remove_node(node_list: &mut Vec<PeerNode>, down_peer_id: u64)
    ensures
        nodes_view(final(node_list)@) == nodes_view(old(node_list)@).filter(
            |p: (u64, Seq<char>)| p.0 != down_peer_id,
        ),
{
    let kept = deannounce_recipients(down_peer_id, node_list);
    *node_list = kept;
}

} // verus!
