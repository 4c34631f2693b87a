//! Handlers of the backup block: the single replicated write, the bulk write
//! that seeds a whole replica, and the range transfer that drains promoted
//! keys out of the backup store.

use crate::codec::ack_bytes;
use crate::codec::ack_frame;
use crate::codec::decode_kv_pairs;
use crate::codec::encode_kv_pairs;
use crate::codec::make_frame;
use crate::codec::pairs_view;
use crate::codec::read_u64_at;
use crate::codec::spec_frame;
use crate::codec::spec_pairs;
use crate::codec::wf_pairs;
use crate::leader::spec_key_at;
use crate::leader::spec_range_lower;
use crate::leader::spec_range_upper;
use crate::store::entries_map;
use crate::store::insert_all;
use crate::store::range_keys;
use crate::store::unique_keys;
use crate::store::KvStore;
use vstd::prelude::*;

verus! {

/// Stores one replicated write: key at offset 5, the value being the rest of
/// the frame. Acknowledges, or yields `None` on a short frame.
pub fn handle_write_request(store: &mut KvStore, message: &Vec<u8>) -> (r: Option<Vec<u8>>)
    ensures
        r is Some <==> message@.len() >= 13 && message@.len() - 13 <= u32::MAX,
        r matches Some(resp) ==> resp@ == ack_bytes() && final(store)@ == old(store)@.insert(
            spec_key_at(message@, 5),
            message@.skip(13),
        ),
        r is None ==> final(store)@ == old(store)@,
{
    if message.len() < 13 {
        return None;
    }
    if message.len() - 13 > u32::MAX as usize {
        return None;
    }
    let key = read_u64_at(message, 5);
    let value = crate::codec::copy_range(message, 13, message.len());
    proof {
        assert(value@ =~= message@.skip(13));
    }
    store.insert(key, value);
    Some(ack_frame())
}

/// Stores a bulk of `[key][len][value]` triples, overwriting, and
/// acknowledges. On a malformed body nothing changes and nothing is answered.
pub fn handle_array_write_request(store: &mut KvStore, message: &Vec<u8>) -> (r: Option<Vec<u8>>)
    ensures
        r is Some <==> message@.len() >= 5 && exists|q: Seq<(u64, Seq<u8>)>|
            wf_pairs(q) && message@.skip(5) == spec_pairs(q),
        r matches Some(resp) ==> resp@ == ack_bytes() && exists|q: Seq<(u64, Seq<u8>)>|
            wf_pairs(q) && message@.skip(5) == spec_pairs(q) && final(store)@ == insert_all(
                old(store)@,
                q,
            ),
        r is None ==> final(store)@ == old(store)@,
{
    if message.len() < 5 {
        return None;
    }
    match decode_kv_pairs(message, 5) {
        Some(pairs) => {
            let ghost q = pairs_view(pairs@);
            store.insert_pairs(&pairs);
            proof {
                assert(wf_pairs(q) && message@.skip(5) == spec_pairs(q));
            }
            Some(ack_frame())
        },
        None => None,
    }
}

/// Serves a backup range transfer: responds with every pair whose key lies in
/// the requested range and drains those pairs from the backup store. On a
/// malformed request, or when the selection does not fit one frame, the store
/// is left unchanged.
pub fn handle_transfer_request(store: &mut KvStore, message: &Vec<u8>) -> (r: Option<Vec<u8>>)
    ensures
        r matches Some(resp) ==> message@.len() == 21 && final(store)@ == old(store)@.remove_keys(
            range_keys(spec_range_lower(message@), spec_range_upper(message@)),
        ) && exists|ps: Seq<(u64, Seq<u8>)>|
            unique_keys(ps) && wf_pairs(ps) && entries_map(ps) == old(store)@.restrict(
                range_keys(spec_range_lower(message@), spec_range_upper(message@)),
            ) && resp@ == spec_frame(0, spec_pairs(ps)),
        r is None ==> final(store)@ == old(store)@,
        r is None && message@.len() == 21 ==> exists|ps: Seq<(u64, Seq<u8>)>|
            unique_keys(ps) && wf_pairs(ps) && entries_map(ps) == old(store)@.restrict(
                range_keys(spec_range_lower(message@), spec_range_upper(message@)),
            ) && spec_pairs(ps).len() + 5 > u32::MAX,
{
    if message.len() != 21 {
        return None;
    }
    let lower = read_u64_at(message, 5);
    let upper = read_u64_at(message, 13);
    let pairs = store.pairs_in_range(lower, upper);
    let payload = encode_kv_pairs(&pairs);
    if payload.len() > (u32::MAX - 5) as usize {
        return None;
    }
    store.remove_keys_range(lower, upper);
    Some(make_frame(0, payload))
}

} // verus!
