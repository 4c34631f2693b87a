//! Handlers of the leader block: reads, the write handshake, the destructive
//! range transfer, the full dump that seeds a backup replica, and the bulk
//! insertion used when backup data is promoted after a crash.
//!
//! Each handler turns one inbound message and the leader's store into the
//! response frame to send back, or `None` where the protocol logs and drops
//! the connection.

use crate::codec::ack_bytes;
use crate::codec::ack_frame;
use crate::codec::decode_kv_pairs;
use crate::codec::encode_kv_pairs;
use crate::codec::make_frame;
use crate::codec::pairs_view;
use crate::codec::read_u64_at;
use crate::codec::read_u32_at;
use crate::codec::spec_frame;
use crate::codec::spec_pairs;
use crate::codec::spec_u32_from_be;
use crate::codec::spec_u64_from_be;
use crate::codec::wf_pairs;
use crate::store::entries_map;
use crate::store::insert_all;
use crate::store::range_keys;
use crate::store::unique_keys;
use crate::store::value_or_default;
use crate::store::KvStore;
use vstd::prelude::*;

verus! {

/// The key carried at offset 5 of a fixed 13-byte request frame.
pub open spec fn spec_key_at(msg: Seq<u8>, i: int) -> u64 {
    spec_u64_from_be(msg.subrange(i, i + 8))
}

/// The length field of a frame, read from bytes 1 to 4.
pub open spec fn spec_len_field(msg: Seq<u8>) -> u32
    recommends
        msg.len() >= 5,
{
    spec_u32_from_be(msg.subrange(1, 5))
}

/// A 21-byte range request: the length field matches and two keys follow.
pub open spec fn valid_range_request(msg: Seq<u8>) -> bool {
    msg.len() == 21 && spec_len_field(msg) == 21
}

/// The lower bound of a range request.
pub open spec fn spec_range_lower(msg: Seq<u8>) -> u64 {
    spec_key_at(msg, 5)
}

/// The upper bound of a range request.
pub open spec fn spec_range_upper(msg: Seq<u8>) -> u64 {
    spec_key_at(msg, 13)
}

/// Serves a read: responds with the current value, or empty bytes when the
/// key is absent. Yields `None` on a malformed request or a value too large
/// to frame, and never touches the store.
pub fn handle_read_request(store: &KvStore, message: &Vec<u8>) -> (r: Option<Vec<u8>>)
    ensures
        r is Some <==> message@.len() == 13 && value_or_default(store@, spec_key_at(message@, 5)).len()
            + 5 <= u32::MAX,
        r matches Some(resp) ==> resp@ == spec_frame(
            0,
            value_or_default(store@, spec_key_at(message@, 5)),
        ),
{
    if message.len() != 13 {
        return None;
    }
    let key = read_u64_at(message, 5);
    let value = store.get_value_or_empty(key);
    if value.len() > (u32::MAX - 5) as usize {
        return None;
    }
    Some(make_frame(0, value))
}

/// Grants write permission: checks the 13-byte write-start frame and returns
/// the key together with the permission frame carrying the current value.
pub fn write_permission(store: &KvStore, first_message: &Vec<u8>) -> (r: Option<(u64, Vec<u8>)>)
    ensures
        r is Some <==> first_message@.len() == 13 && spec_len_field(first_message@) == 13
            && value_or_default(store@, spec_key_at(first_message@, 5)).len() + 5 <= u32::MAX,
        r matches Some((key, resp)) ==> key == spec_key_at(first_message@, 5) && resp@
            == spec_frame(0, value_or_default(store@, key)),
{
    if first_message.len() != 13 {
        return None;
    }
    let header_len = read_u32_at(first_message, 1);
    if header_len != 13 {
        return None;
    }
    let key = read_u64_at(first_message, 5);
    let value = store.get_value_or_empty(key);
    if value.len() > (u32::MAX - 5) as usize {
        return None;
    }
    Some((key, make_frame(0, value)))
}

/// Extracts the new value from the write-command frame of the handshake's
/// third step: opcode 0 and a length field that matches the frame.
pub fn parse_new_value(msg: &Vec<u8>) -> (r: Option<Vec<u8>>)
    ensures
        r is Some <==> msg@.len() >= 5 && msg@[0] == 0 && spec_len_field(msg@) == msg@.len(),
        r matches Some(v) ==> v@ == msg@.skip(5),
{
    if msg.len() < 5 {
        return None;
    }
    if msg[0] != 0 {
        return None;
    }
    let field = read_u32_at(msg, 1);
    if field as usize != msg.len() {
        return None;
    }
    let v = crate::codec::copy_range(msg, 5, msg.len());
    proof {
        assert(v@ =~= msg@.skip(5));
    }
    Some(v)
}

/// Commits a write into the leader store and returns the acknowledgement
/// frame. The caller replicates to the backups before committing.
pub fn commit_write(store: &mut KvStore, key: u64, value: Vec<u8>) -> (r: Vec<u8>)
    requires
        value@.len() <= u32::MAX,
    ensures
        final(store)@ == old(store)@.insert(key, value@),
        r@ == ack_bytes(),
{
    store.insert(key, value);
    ack_frame()
}

/// Serves a destructive range transfer: responds with every pair whose key
/// lies in the requested range and removes those pairs from the store. On a
/// malformed request, or when the selection does not fit one frame, the store
/// is left unchanged.
pub fn handle_transfer_request(store: &mut KvStore, message: &Vec<u8>) -> (r: Option<Vec<u8>>)
    ensures
        r matches Some(resp) ==> valid_range_request(message@) && final(store)@ == old(
            store,
        )@.remove_keys(range_keys(spec_range_lower(message@), spec_range_upper(message@)))
            && exists|ps: Seq<(u64, Seq<u8>)>|
            unique_keys(ps) && wf_pairs(ps) && entries_map(ps) == old(store)@.restrict(
                range_keys(spec_range_lower(message@), spec_range_upper(message@)),
            ) && resp@ == spec_frame(0, spec_pairs(ps)),
        r is None ==> final(store)@ == old(store)@,
        r is None && valid_range_request(message@) ==> exists|ps: Seq<(u64, Seq<u8>)>|
            unique_keys(ps) && wf_pairs(ps) && entries_map(ps) == old(store)@.restrict(
                range_keys(spec_range_lower(message@), spec_range_upper(message@)),
            ) && spec_pairs(ps).len() + 5 > u32::MAX,
{
    if message.len() != 21 {
        return None;
    }
    let field = read_u32_at(message, 1);
    if field != 21 {
        return None;
    }
    let lower = read_u64_at(message, 5);
    let upper = read_u64_at(message, 13);
    let pairs = store.pairs_in_range(lower, upper);
    let payload = encode_kv_pairs(&pairs);
    if payload.len() > (u32::MAX - 5) as usize {
        return None;
    }
    store.remove_keys_range(lower, upper);
    Some(make_frame(0, payload))
}

/// Serves a full dump of the leader store, used to seed a backup replica.
/// Non-destructive: the store is borrowed immutably.
pub fn handle_backup_request(store: &KvStore) -> (r: Option<Vec<u8>>)
    ensures
        r matches Some(resp) ==> exists|ps: Seq<(u64, Seq<u8>)>|
            unique_keys(ps) && wf_pairs(ps) && entries_map(ps) == store@ && resp@ == spec_frame(
                0,
                spec_pairs(ps),
            ),
        r is None ==> exists|ps: Seq<(u64, Seq<u8>)>|
            unique_keys(ps) && wf_pairs(ps) && entries_map(ps) == store@ && spec_pairs(ps).len() + 5
                > u32::MAX,
{
    let pairs = store.to_pairs();
    let payload = encode_kv_pairs(&pairs);
    if payload.len() > (u32::MAX - 5) as usize {
        return None;
    }
    Some(make_frame(0, payload))
}

/// Inserts the `[key][len][value]` triples of a promotion message into the
/// leader store, overwriting, and acknowledges. On a malformed body nothing
/// changes and nothing is answered.
pub fn handle_fault_tolerance_insertion(store: &mut KvStore, message: &Vec<u8>) -> (r: Option<
    Vec<u8>,
>)
    ensures
        r is Some <==> message@.len() >= 5 && exists|q: Seq<(u64, Seq<u8>)>|
            wf_pairs(q) && message@.skip(5) == spec_pairs(q),
        r matches Some(resp) ==> resp@ == ack_bytes() && exists|q: Seq<(u64, Seq<u8>)>|
            wf_pairs(q) && message@.skip(5) == spec_pairs(q) && final(store)@ == insert_all(
                old(store)@,
                q,
            ),
        r is None ==> final(store)@ == old(store)@,
{
    if message.len() < 5 {
        return None;
    }
    match decode_kv_pairs(message, 5) {
        Some(pairs) => {
            let ghost q = pairs_view(pairs@);
            store.insert_pairs(&pairs);
            proof {
                assert(wf_pairs(q) && message@.skip(5) == spec_pairs(q));
            }
            Some(ack_frame())
        },
        None => None,
    }
}

} // verus!
