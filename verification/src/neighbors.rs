//! Ring neighbors of a node id, with and without wrapping.
//!
//! The non-wrapping neighbors are the closest ids strictly below and strictly
//! above. The wrapping neighbors fall back to the ring maximum respectively
//! minimum when a side is empty, never return the queried id itself, and
//! collapse to a single entry when both sides would name the same node.

use crate::node_in_list;
use crate::routing::has_id_gt;
use crate::routing::has_id_lt;
use crate::routing::has_id_other;
use crate::routing::is_max_id_lt;
use crate::routing::is_max_id_other;
use crate::routing::is_min_id_gt;
use crate::routing::is_min_id_other;
use crate::PeerNode;
use vstd::prelude::*;

verus! {

/// `n` fills the wrapping smaller slot for `x`: the largest id below `x`, or
/// the largest id in the ring when nothing is below.
pub open spec fn is_wrap_smaller(l: Seq<PeerNode>, x: u64, n: PeerNode) -> bool {
    if has_id_lt(l, x) {
        is_max_id_lt(l, x, n)
    } else {
        is_max_id_other(l, x, n)
    }
}

/// `n` fills the wrapping greater slot for `x`: the smallest id above `x`, or
/// the smallest id in the ring when nothing is above.
pub open spec fn is_wrap_greater(l: Seq<PeerNode>, x: u64, n: PeerNode) -> bool {
    if has_id_gt(l, x) {
        is_min_id_gt(l, x, n)
    } else {
        is_min_id_other(l, x, n)
    }
}

/// Law: a wrapping neighbor never carries the queried id.
pub proof fn lemma_wrapping_excludes_self(l: Seq<PeerNode>, x: u64, n: PeerNode)
    requires
        is_wrap_smaller(l, x, n) || is_wrap_greater(l, x, n),
    ensures
        n.id != x,
{
}

/// Law: when the list holds exactly one id other than the queried one, both
/// slots can only name that id, so the two slots collapse to (that node,
/// nothing).
pub proof fn lemma_wrapping_single_peer(l: Seq<PeerNode>, x: u64, other: PeerNode)
    requires
        node_in_list(l, other),
        other.id != x,
        forall|i: int| 0 <= i < l.len() ==> (#[trigger] l[i]).id == x || l[i].id == other.id,
    ensures
        forall|m: PeerNode| #[trigger] is_wrap_smaller(l, x, m) ==> m.id == other.id,
        forall|m: PeerNode| #[trigger] is_wrap_greater(l, x, m) ==> m.id == other.id,
{
    assert forall|m: PeerNode| #[trigger] is_wrap_smaller(l, x, m) implies m.id == other.id by {
        let i = choose|i: int|
            0 <= i < l.len() && l[i].id == m.id && l[i].ip_address@ == m.ip_address@;
        assert(l[i].id == x || l[i].id == other.id);
    }
    assert forall|m: PeerNode| #[trigger] is_wrap_greater(l, x, m) implies m.id == other.id by {
        let i = choose|i: int|
            0 <= i < l.len() && l[i].id == m.id && l[i].ip_address@ == m.ip_address@;
        assert(l[i].id == x || l[i].id == other.id);
    }
}

/// The wrapping neighbors as a pair: the smaller slot, then the greater one.
/// The slots collapse to one entry when they would name the same node.
pub fn wrapping_neighbors(this_node_id: u64, node_list: &Vec<PeerNode>) -> (r: (
    Option<PeerNode>,
    Option<PeerNode>,
))
    ensures
        r.0 is Some <==> has_id_other(node_list@, this_node_id),
        r.0 matches Some(n) ==> is_wrap_smaller(node_list@, this_node_id, n) && n.id
            != this_node_id,
        r.1 matches Some(n) ==> is_wrap_greater(node_list@, this_node_id, n) && n.id
            != this_node_id,
        r.1 matches Some(n) ==> r.0 matches Some(m) && n.id != m.id,
        r.0 matches Some(m) ==> (r.1 is None ==> forall|n: PeerNode|
            #[trigger] is_wrap_greater(node_list@, this_node_id, n) ==> n.id == m.id),
{
    let ghost l = node_list@;
    let ghost x = this_node_id;
    let mut lt: Option<usize> = None;
    let mut gt: Option<usize> = None;
    let mut other_max: Option<usize> = None;
    let mut other_min: Option<usize> = None;
    let mut i: usize = 0;
    while i < node_list.len()
        invariant
            l == node_list@,
            x == this_node_id,
            i <= l.len(),
            lt matches Some(j) ==> j < i && l[j as int].id < x,
            lt matches Some(j) ==> forall|k: int|
                0 <= k < i && (#[trigger] l[k]).id < x ==> l[k].id <= l[j as int].id,
            lt is None ==> forall|k: int| 0 <= k < i ==> (#[trigger] l[k]).id >= x,
            gt matches Some(j) ==> j < i && l[j as int].id > x,
            gt matches Some(j) ==> forall|k: int|
                0 <= k < i && (#[trigger] l[k]).id > x ==> l[j as int].id <= l[k].id,
            gt is None ==> forall|k: int| 0 <= k < i ==> (#[trigger] l[k]).id <= x,
            other_max matches Some(j) ==> j < i && l[j as int].id != x,
            other_max matches Some(j) ==> forall|k: int|
                0 <= k < i && (#[trigger] l[k]).id != x ==> l[k].id <= l[j as int].id,
            other_max is None ==> forall|k: int| 0 <= k < i ==> (#[trigger] l[k]).id == x,
            other_min matches Some(j) ==> j < i && l[j as int].id != x,
            other_min matches Some(j) ==> forall|k: int|
                0 <= k < i && (#[trigger] l[k]).id != x ==> l[j as int].id <= l[k].id,
            other_min is None ==> forall|k: int| 0 <= k < i ==> (#[trigger] l[k]).id == x,
        decreases l.len() - i,
    {
        let id = node_list[i].id;
        if id < this_node_id {
            lt = match lt {
                Some(j) => if id > node_list[j].id {
                    Some(i)
                } else {
                    Some(j)
                },
                None => Some(i),
            };
        }
        if id > this_node_id {
            gt = match gt {
                Some(j) => if id < node_list[j].id {
                    Some(i)
                } else {
                    Some(j)
                },
                None => Some(i),
            };
        }
        if id != this_node_id {
            other_max = match other_max {
                Some(j) => if id > node_list[j].id {
                    Some(i)
                } else {
                    Some(j)
                },
                None => Some(i),
            };
            other_min = match other_min {
                Some(j) => if id < node_list[j].id {
                    Some(i)
                } else {
                    Some(j)
                },
                None => Some(i),
            };
        }
        i = i + 1;
    }
    let smaller_idx: Option<usize> = match lt {
        Some(j) => Some(j),
        None => other_max,
    };
    let greater_idx: Option<usize> = match gt {
        Some(j) => Some(j),
        None => other_min,
    };
    let smaller: Option<PeerNode> = match smaller_idx {
        Some(j) => Some(
            PeerNode { id: node_list[j].id, ip_address: node_list[j].ip_address.clone() },
        ),
        None => None,
    };
    let greater: Option<PeerNode> = match greater_idx {
        Some(j) => Some(
            PeerNode { id: node_list[j].id, ip_address: node_list[j].ip_address.clone() },
        ),
        None => None,
    };
    match (smaller, greater) {
        (Some(sm), Some(gr)) => {
            if sm.id == gr.id {
                proof {
                    assert forall|n: PeerNode| #[trigger] is_wrap_greater(l, x, n) implies n.id
                        == gr.id by {
                        let k = choose|k: int|
                            0 <= k < l.len() && l[k].id == n.id && l[k].ip_address@
                                == n.ip_address@;
                        assert(is_wrap_greater(l, x, gr));
                    }
                }
                (Some(sm), None)
            } else {
                (Some(sm), Some(gr))
            }
        },
        (sm, gr) => (sm, gr),
    }
}

/// Finds the neighbors of this node and wraps around the ring if necessary.
/// Does not return this node itself in any case.
/// If greater and smaller neighbour would be the same, it is only returned
/// once.
pub fn find_neighbors_wrapping(this_node_id: u64, node_list: &Vec<PeerNode>) -> (r: [Option<
    PeerNode,
>; 2])
    ensures
        r[0] is Some <==> has_id_other(node_list@, this_node_id),
        r[0] matches Some(n) ==> is_wrap_smaller(node_list@, this_node_id, n) && n.id
            != this_node_id,
        r[1] matches Some(n) ==> is_wrap_greater(node_list@, this_node_id, n) && n.id
            != this_node_id,
        r[1] matches Some(n) ==> r[0] matches Some(m) && n.id != m.id,
        r[0] matches Some(m) ==> (r[1] is None ==> forall|n: PeerNode|
            #[trigger] is_wrap_greater(node_list@, this_node_id, n) ==> n.id == m.id),
{
    let (smaller, greater) = wrapping_neighbors(this_node_id, node_list);
    [smaller, greater]
}

/// Two nodes filling the wrapping smaller slot carry the same id.
pub proof fn lemma_wrap_smaller_id_unique(l: Seq<PeerNode>, x: u64, a: PeerNode, b: PeerNode)
    requires
        is_wrap_smaller(l, x, a),
        is_wrap_smaller(l, x, b),
    ensures
        a.id == b.id,
{
    let i = choose|i: int| 0 <= i < l.len() && l[i].id == a.id && l[i].ip_address@ == a.ip_address@;
    let j = choose|j: int| 0 <= j < l.len() && l[j].id == b.id && l[j].ip_address@ == b.ip_address@;
    assert(l[i].id == a.id && l[j].id == b.id);
}

/// Two nodes filling the wrapping greater slot carry the same id.
pub proof fn lemma_wrap_greater_id_unique(l: Seq<PeerNode>, x: u64, a: PeerNode, b: PeerNode)
    requires
        is_wrap_greater(l, x, a),
        is_wrap_greater(l, x, b),
    ensures
        a.id == b.id,
{
    let i = choose|i: int| 0 <= i < l.len() && l[i].id == a.id && l[i].ip_address@ == a.ip_address@;
    let j = choose|j: int| 0 <= j < l.len() && l[j].id == b.id && l[j].ip_address@ == b.ip_address@;
    assert(l[i].id == a.id && l[j].id == b.id);
}

/// Finds the neighbors of this node and without wrapping around the ring.
/// Does not return this node itself in any case.
/// There is no case where the returned neighbors would be the same.
pub fn find_neighbors_nonwrapping(this_node_id: u64, node_list: &Vec<PeerNode>) -> (r: (
    Option<PeerNode>,
    Option<PeerNode>,
))
    ensures
        r.0 is Some <==> has_id_lt(node_list@, this_node_id),
        r.0 matches Some(n) ==> is_max_id_lt(node_list@, this_node_id, n),
        r.1 is Some <==> has_id_gt(node_list@, this_node_id),
        r.1 matches Some(n) ==> is_min_id_gt(node_list@, this_node_id, n),
{
    let ghost l = node_list@;
    let ghost x = this_node_id;
    let mut lt: Option<usize> = None;
    let mut gt: Option<usize> = None;
    let mut i: usize = 0;
    while i < node_list.len()
        invariant
            l == node_list@,
            x == this_node_id,
            i <= l.len(),
            lt matches Some(j) ==> j < i && l[j as int].id < x,
            lt matches Some(j) ==> forall|k: int|
                0 <= k < i && (#[trigger] l[k]).id < x ==> l[k].id <= l[j as int].id,
            lt is None ==> forall|k: int| 0 <= k < i ==> (#[trigger] l[k]).id >= x,
            gt matches Some(j) ==> j < i && l[j as int].id > x,
            gt matches Some(j) ==> forall|k: int|
                0 <= k < i && (#[trigger] l[k]).id > x ==> l[j as int].id <= l[k].id,
            gt is None ==> forall|k: int| 0 <= k < i ==> (#[trigger] l[k]).id <= x,
        decreases l.len() - i,
    {
        let id = node_list[i].id;
        if id < this_node_id {
            lt = match lt {
                Some(j) => if id > node_list[j].id {
                    Some(i)
                } else {
                    Some(j)
                },
                None => Some(i),
            };
        }
        if id > this_node_id {
            gt = match gt {
                Some(j) => if id < node_list[j].id {
                    Some(i)
                } else {
                    Some(j)
                },
                None => Some(i),
            };
        }
        i = i + 1;
    }
    let smaller: Option<PeerNode> = match lt {
        Some(j) => Some(
            PeerNode { id: node_list[j].id, ip_address: node_list[j].ip_address.clone() },
        ),
        None => None,
    };
    let greater: Option<PeerNode> = match gt {
        Some(j) => Some(
            PeerNode { id: node_list[j].id, ip_address: node_list[j].ip_address.clone() },
        ),
        None => None,
    };
    (smaller, greater)
}

/// Finds the neighbors of this node and wraps around the ring if necessary,
/// exactly as `find_neighbors_wrapping` does.
pub fn find_neighbors(this_node_id: u64, node_list: &Vec<PeerNode>) -> (r: [Option<PeerNode>; 2])
    ensures
        r[0] is Some <==> has_id_other(node_list@, this_node_id),
        r[0] matches Some(n) ==> is_wrap_smaller(node_list@, this_node_id, n) && n.id
            != this_node_id,
        r[1] matches Some(n) ==> is_wrap_greater(node_list@, this_node_id, n) && n.id
            != this_node_id,
        r[1] matches Some(n) ==> r[0] matches Some(m) && n.id != m.id,
        r[0] matches Some(m) ==> (r[1] is None ==> forall|n: PeerNode|
            #[trigger] is_wrap_greater(node_list@, this_node_id, n) ==> n.id == m.id),
{
    find_neighbors_wrapping(this_node_id, node_list)
}

} // verus!
