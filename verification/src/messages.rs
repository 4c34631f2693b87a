//! Builders for the request frames that nodes send each other: reads, the
//! write handshake opener, range transfers, dumps, membership and
//! fault-tolerance notifications.

use crate::codec::make_frame;
use crate::codec::spec_frame;
use crate::codec::spec_u64_be;
use crate::codec::u64_be_bytes;
use vstd::prelude::*;

verus! {

/// A frame whose body is one key.
pub open spec fn spec_key_frame(op: u8, key: u64) -> Seq<u8> {
    spec_frame(op, spec_u64_be(key))
}

/// A frame whose body is an inclusive key range.
pub open spec fn spec_range_frame(op: u8, lower: u64, upper: u64) -> Seq<u8> {
    spec_frame(op, spec_u64_be(lower) + spec_u64_be(upper))
}

/// Builds a 13-byte frame carrying one key.
fn key_frame(op: u8, key: u64) -> (r: Vec<u8>)
    ensures
        r@ == spec_key_frame(op, key),
{
    make_frame(op, u64_be_bytes(key))
}

/// Builds a 21-byte frame carrying an inclusive key range.
fn range_frame(op: u8, lower: u64, upper: u64) -> (r: Vec<u8>)
    ensures
        r@ == spec_range_frame(op, lower, upper),
{
    let mut body = u64_be_bytes(lower);
    let mut upper_bytes = u64_be_bytes(upper);
    body.append(&mut upper_bytes);
    make_frame(op, body)
}

/// The read request a proxy forwards to a leader.
pub fn read_request_frame(key: u64) -> (r: Vec<u8>)
    ensures
        r@ == spec_key_frame(1, key),
{
    key_frame(1, key)
}

/// The write-start request that opens the three-step handshake.
pub fn write_request_frame(key: u64) -> (r: Vec<u8>)
    ensures
        r@ == spec_key_frame(2, key),
{
    key_frame(2, key)
}

/// The node-list request.
pub fn node_list_request_frame() -> (r: Vec<u8>)
    ensures
        r@ == spec_frame(10, Seq::empty()),
{
    make_frame(10, Vec::new())
}

/// The destructive range-transfer request sent to a leader.
pub fn transfer_request_frame(lower: u64, upper: u64) -> (r: Vec<u8>)
    ensures
        r@ == spec_range_frame(11, lower, upper),
{
    range_frame(11, lower, upper)
}

/// The full-dump request sent to a leader to seed a backup replica.
pub fn backup_dump_request_frame() -> (r: Vec<u8>)
    ensures
        r@ == spec_frame(12, Seq::empty()),
{
    make_frame(12, Vec::new())
}

/// The join announcement carrying the joining node's id.
pub fn join_announcement_frame(id: u64) -> (r: Vec<u8>)
    ensures
        r@ == spec_key_frame(13, id),
{
    key_frame(13, id)
}

/// The single replicated write a leader pushes to a backup.
pub fn backup_write_frame(key: u64, value: &Vec<u8>) -> (r: Vec<u8>)
    requires
        value@.len() + 13 <= u32::MAX,
    ensures
        r@ == spec_frame(20, spec_u64_be(key) + value@),
{
    let mut body = u64_be_bytes(key);
    crate::codec::append_bytes(&mut body, value);
    make_frame(20, body)
}

/// The "neighbor down" notification.
pub fn node_down_frame(crashed_id: u64) -> (r: Vec<u8>)
    ensures
        r@ == spec_key_frame(30, crashed_id),
{
    key_frame(30, crashed_id)
}

/// The deannouncement that removes a crashed peer everywhere.
pub fn deannounce_frame(crashed_id: u64) -> (r: Vec<u8>)
    ensures
        r@ == spec_key_frame(31, crashed_id),
{
    key_frame(31, crashed_id)
}

/// The backup range-transfer-and-drain request.
pub fn backup_transfer_frame(lower: u64, upper: u64) -> (r: Vec<u8>)
    ensures
        r@ == spec_range_frame(32, lower, upper),
{
    range_frame(32, lower, upper)
}

/// Rewraps a data response: keeps length field and body, replaces the opcode.
/// Used to turn an op-0 data response into a bulk-insert or bulk-write
/// request without copying the pairs out. Succeeds exactly on a response that
/// is long enough and positive.
pub fn reframe_response(op: u8, response: &Vec<u8>) -> (r: Option<Vec<u8>>)
    ensures
        r is Some <==> response@.len() >= 5 && response@[0] == 0,
        r matches Some(v) ==> v@ == seq![op] + response@.skip(1),
{
    if response.len() < 5 {
        return None;
    }
    if response[0] != 0 {
        return None;
    }
    let mut v: Vec<u8> = Vec::new();
    v.push(op);
    let rest = crate::codec::copy_range(response, 1, response.len());
    crate::codec::append_bytes(&mut v, &rest);
    proof {
        assert(v@ =~= seq![op] + response@.skip(1));
    }
    Some(v)
}

} // verus!
