//! Bootstrap decisions of the join procedure: the random ring position, the
//! neighbor that must hand over the joiner's owned range, and the parsing of
//! the transfer and dump responses.

use crate::codec::decode_kv_pairs;
use crate::codec::pairs_view;
use crate::codec::read_u32_at;
use crate::codec::spec_pairs;
use crate::codec::wf_pairs;
use crate::leader::spec_len_field;
use crate::neighbors::find_neighbors_nonwrapping;
use crate::routing::has_id_gt;
use crate::routing::has_id_lt;
use crate::routing::is_max_id_lt;
use crate::routing::is_min_id_gt;
use crate::PeerNode;
use rand::Rng;
use vstd::prelude::*;

verus! {

/// Relies on rand's thread_rng and Rng::gen: a uniformly random 64-bit ring
/// position for a joining node. Nothing is promised of the value; id
/// collisions are an accepted risk of the 64-bit space.
#[verifier::external_body]
pub fn random_node_id() -> u64 {
    rand::thread_rng().gen()
}

/// Which neighbor a joiner asks for its owned key range, and the inclusive
/// range it requests: the greater non-wrapping neighbor for keys from just
/// above the smaller neighbor (or from zero) up to the joiner's id; when only
/// a smaller neighbor exists, that neighbor hands over everything above
/// itself. With nobody else in the ring there is nothing to fetch.
pub fn transfer_plan(node_id: u64, node_list: &Vec<PeerNode>) -> (r: Option<(PeerNode, u64, u64)>)
    ensures
        r is Some <==> has_id_lt(node_list@, node_id) || has_id_gt(node_list@, node_id),
        r matches Some(p) ==> (if has_id_gt(node_list@, node_id) {
            is_min_id_gt(node_list@, node_id, p.0) && p.2 == node_id
        } else {
            is_max_id_lt(node_list@, node_id, p.0) && p.2 == u64::MAX
        }),
        r matches Some(p) ==> (if has_id_lt(node_list@, node_id) {
            exists|n: PeerNode| is_max_id_lt(node_list@, node_id, n) && p.1 == n.id + 1
        } else {
            p.1 == 0
        }),
{
    let (smaller, greater) = find_neighbors_nonwrapping(node_id, node_list);
    match (smaller, greater) {
        (None, Some(gr)) => Some((gr, 0, node_id)),
        (Some(sm), None) => {
            let lower: u64 = sm.id + 1;
            Some((sm, lower, u64::MAX))
        },
        (Some(sm), Some(gr)) => {
            let lower: u64 = sm.id + 1;
            proof {
                assert(is_max_id_lt(node_list@, node_id, sm) && lower == sm.id + 1);
            }
            Some((gr, lower, node_id))
        },
        (None, None) => None,
    }
}

/// Parses a data response that wraps `[key][len][value]` triples: an op-0
/// frame whose length field matches the frame, the triples filling the body.
/// Used for the owned-range transfer and for backup dumps during join.
pub fn decode_kv_response(msg: &Vec<u8>) -> (r: Option<Vec<(u64, Vec<u8>)>>)
    ensures
        r is Some <==> msg@.len() >= 5 && msg@[0] == 0 && spec_len_field(msg@) == msg@.len() && (
        exists|q: Seq<(u64, Seq<u8>)>| wf_pairs(q) && msg@.skip(5) == spec_pairs(q)),
        r matches Some(ps) ==> msg@.skip(5) == spec_pairs(pairs_view(ps@)) && wf_pairs(
            pairs_view(ps@),
        ),
{
    let n: usize = msg.len();
    if n < 5 {
        return None;
    }
    if msg[0] != 0 {
        return None;
    }
    let field = read_u32_at(msg, 1);
    if field as usize != n {
        return None;
    }
    match decode_kv_pairs(msg, 5) {
        Some(ps) => {
            proof {
                let q = pairs_view(ps@);
                assert(wf_pairs(q) && msg@.skip(5) == spec_pairs(q));
            }
            Some(ps)
        },
        None => None,
    }
}

} // verus!
