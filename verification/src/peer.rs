//! The membership block: serving the node list and registering joins.
//!
//! Each node-list entry is twelve bytes on the wire: the id big-endian, then
//! the address as four raw bytes. A node always reports itself as
//! `127.0.0.1`; the side that receives a list substitutes the sender's
//! routable address for any loopback entry, which is how a joiner learns the
//! real address of its bootstrap node.

use crate::codec::ack_bytes;
use crate::codec::ack_frame;
use crate::codec::make_frame;
use crate::codec::read_u64_at;
use crate::codec::read_u32_at;
use crate::codec::spec_frame;
use crate::codec::spec_u64_be;
use crate::codec::spec_u64_from_be;
use crate::codec::u64_be_bytes;
use crate::ip::ip_address_bytes;
use crate::ip::ip_address_from_bytes;
use crate::ip::ip_chars;
use crate::ip::is_ipv4_address;
use crate::ip::is_ipv4_text;
use crate::ip::spec_ip_quad;
use crate::leader::spec_key_at;
use crate::leader::spec_len_field;
use crate::PeerNode;
use vstd::prelude::*;

verus! {

/// The four wire bytes of a valid address text.
pub open spec fn spec_ip_bytes(s: Seq<char>) -> Seq<u8>
    recommends
        is_ipv4_text(s),
{
    seq![spec_ip_quad(s).0, spec_ip_quad(s).1, spec_ip_quad(s).2, spec_ip_quad(s).3]
}

/// The wire encoding of a node list: twelve bytes per node.
pub open spec fn spec_node_list_enc(l: Seq<PeerNode>) -> Seq<u8>
    decreases l.len(),
{
    if l.len() == 0 {
        Seq::empty()
    } else {
        spec_node_list_enc(l.drop_last()) + spec_u64_be(l.last().id) + spec_ip_bytes(
            l.last().ip_address@,
        )
    }
}

/// Appending a node appends its twelve bytes.
proof fn lemma_node_list_enc_push(l: Seq<PeerNode>, p: PeerNode)
    ensures
        spec_node_list_enc(l.push(p)) == spec_node_list_enc(l) + spec_u64_be(p.id) + spec_ip_bytes(
            p.ip_address@,
        ),
{
    assert(l.push(p).drop_last() =~= l);
    assert(l.push(p).last() == p);
}

/// An encoded node list is twelve bytes per node.
pub proof fn lemma_node_list_enc_len(l: Seq<PeerNode>)
    ensures
        spec_node_list_enc(l).len() == 12 * l.len(),
    decreases l.len(),
{
    if l.len() > 0 {
        lemma_node_list_enc_len(l.drop_last());
    }
}

/// Law: entry `j` of an encoded node list carries the id and address bytes
/// of member `j`. Together with the decoder's contract and the big-endian
/// round trip this makes a decoded list agree with the list that was encoded,
/// up to the loopback substitution.
pub proof fn lemma_node_list_enc_entry(l: Seq<PeerNode>, j: int)
    requires
        0 <= j < l.len(),
    ensures
        spec_node_list_enc(l).subrange(12 * j, 12 * j + 8) == spec_u64_be(l[j].id),
        spec_node_list_enc(l).subrange(12 * j + 8, 12 * j + 12) == spec_ip_bytes(
            l[j].ip_address@,
        ),
    decreases l.len(),
{
    lemma_node_list_enc_len(l.drop_last());
    if j == l.len() - 1 {
        assert(spec_node_list_enc(l).subrange(12 * j, 12 * j + 8) =~= spec_u64_be(l[j].id));
        assert(spec_node_list_enc(l).subrange(12 * j + 8, 12 * j + 12) =~= spec_ip_bytes(
            l[j].ip_address@,
        ));
    } else {
        lemma_node_list_enc_entry(l.drop_last(), j);
        assert(l.drop_last()[j] == l[j]);
        assert(spec_node_list_enc(l).subrange(12 * j, 12 * j + 8) =~= spec_node_list_enc(
            l.drop_last(),
        ).subrange(12 * j, 12 * j + 8));
        assert(spec_node_list_enc(l).subrange(12 * j + 8, 12 * j + 12) =~= spec_node_list_enc(
            l.drop_last(),
        ).subrange(12 * j + 8, 12 * j + 12));
    }
}

/// Serves the node list: every member as `[id][four address bytes]`, wrapped
/// in an op-0 response. Every stored address must be dotted-quad text; the
/// list does not fit one frame only beyond about 357 million nodes.
pub fn handle_node_list_request(node_list: &Vec<PeerNode>) -> (r: Option<Vec<u8>>)
    requires
        forall|i: int|
            0 <= i < node_list@.len() ==> is_ipv4_text((#[trigger] node_list@[i]).ip_address@),
    ensures
        r is Some <==> 12 * node_list@.len() + 5 <= u32::MAX,
        r matches Some(resp) ==> resp@ == spec_frame(0, spec_node_list_enc(node_list@)),
{
    let ghost l = node_list@;
    let mut out: Vec<u8> = Vec::new();
    let mut i: usize = 0;
    while i < node_list.len()
        invariant
            l == node_list@,
            i <= l.len(),
            forall|j: int| 0 <= j < l.len() ==> is_ipv4_text((#[trigger] l[j]).ip_address@),
            out@ == spec_node_list_enc(l.take(i as int)),
            out@.len() == 12 * i,
        decreases l.len() - i,
    {
        let mut id_bytes = u64_be_bytes(node_list[i].id);
        out.append(&mut id_bytes);
        let quad = ip_address_bytes(node_list[i].ip_address.as_str());
        out.push(quad[0]);
        out.push(quad[1]);
        out.push(quad[2]);
        out.push(quad[3]);
        proof {
            lemma_node_list_enc_push(l.take(i as int), l[i as int]);
            assert(l.take(i + 1) =~= l.take(i as int).push(l[i as int]));
            assert(out@ =~= spec_node_list_enc(l.take(i as int)) + spec_u64_be(l[i as int].id)
                + spec_ip_bytes(l[i as int].ip_address@));
        }
        i = i + 1;
    }
    proof {
        assert(l.take(l.len() as int) =~= l);
    }
    if out.len() > (u32::MAX - 5) as usize {
        return None;
    }
    Some(make_frame(0, out))
}

/// The address text a receiver stores for an entry: loopback entries are
/// replaced by the sender's address, others are formatted as received.
pub open spec fn node_ip_text(quad: Seq<u8>, sender: Seq<char>) -> Seq<char>
    recommends
        quad.len() == 4,
{
    if quad == seq![127u8, 0u8, 0u8, 1u8] {
        sender
    } else {
        ip_chars(quad[0], quad[1], quad[2], quad[3])
    }
}

/// Parses a node-list response, substituting `sender_ip` for any entry that
/// reports the loopback address. Succeeds exactly on a well-framed op-0
/// response whose body is whole twelve-byte entries.
pub fn decode_node_list(msg: &Vec<u8>, sender_ip: &str) -> (r: Option<Vec<PeerNode>>)
    ensures
        r is Some <==> msg@.len() >= 5 && msg@[0] == 0 && spec_len_field(msg@) == msg@.len() && (
        msg@.len() - 5) % 12 == 0,
        r matches Some(l) ==> 5 + 12 * l@.len() == msg@.len() && forall|j: int|
            0 <= j < l@.len() ==> (#[trigger] l@[j]).id == spec_u64_from_be(
                msg@.subrange(5 + 12 * j, 5 + 12 * j + 8),
            ) && l@[j].ip_address@ == node_ip_text(
                msg@.subrange(5 + 12 * j + 8, 5 + 12 * j + 12),
                sender_ip@,
            ),
{
    let n: usize = msg.len();
    if n < 5 {
        return None;
    }
    if msg[0] != 0 {
        return None;
    }
    let field = read_u32_at(msg, 1);
    if field as usize != n {
        return None;
    }
    if (n - 5) % 12 != 0 {
        return None;
    }
    let mut out: Vec<PeerNode> = Vec::new();
    let mut i: usize = 5;
    while i < n
        invariant
            n == msg@.len(),
            5 <= i <= n,
            (n - 5) % 12 == 0,
            i == 5 + 12 * out@.len(),
            (n - i) % 12 == 0,
            forall|j: int|
                0 <= j < out@.len() ==> (#[trigger] out@[j]).id == spec_u64_from_be(
                    msg@.subrange(5 + 12 * j, 5 + 12 * j + 8),
                ) && out@[j].ip_address@ == node_ip_text(
                    msg@.subrange(5 + 12 * j + 8, 5 + 12 * j + 12),
                    sender_ip@,
                ),
        decreases n - i,
    {
        proof {
            assert(i + 12 <= n);
        }
        let id = read_u64_at(msg, i);
        let b0 = msg[i + 8];
        let b1 = msg[i + 9];
        let b2 = msg[i + 10];
        let b3 = msg[i + 11];
        let ghost quad = msg@.subrange(i + 8, i + 12);
        proof {
            assert(quad[0] == b0 && quad[1] == b1 && quad[2] == b2 && quad[3] == b3);
        }
        let ip: String = if b0 == 127 && b1 == 0 && b2 == 0 && b3 == 1 {
            proof {
                assert(quad =~= seq![127u8, 0u8, 0u8, 1u8]);
            }
            sender_ip.to_owned()
        } else {
            proof {
                assert(quad != seq![127u8, 0u8, 0u8, 1u8]);
            }
            ip_address_from_bytes(&[b0, b1, b2, b3])
        };
        out.push(PeerNode { id, ip_address: ip });
        i = i + 12;
    }
    Some(out)
}

/// Registers a join announcement: a 13-byte frame whose body is the joining
/// id, the address being the sender's. Appends the peer and acknowledges;
/// drops malformed frames and senders without a dotted-quad IPv4 address.
pub fn handle_join_announcement(
    node_list: &mut Vec<PeerNode>,
    message: &Vec<u8>,
    sender_ip: String,
) -> (r: Option<Vec<u8>>)
    ensures
        r is Some <==> message@.len() == 13 && spec_len_field(message@) == 13 && is_ipv4_text(
            sender_ip@,
        ),
        r matches Some(resp) ==> resp@ == ack_bytes()
            && final(node_list)@.len() == old(node_list)@.len() + 1
            && final(node_list)@.last().id == spec_key_at(message@, 5)
            && final(node_list)@.last().ip_address@ == sender_ip@
            && forall|j: int|
                0 <= j < old(node_list)@.len() ==> final(node_list)@[j] == old(node_list)@[j],
        r is None ==> final(node_list)@ == old(node_list)@,
{
    if message.len() != 13 {
        return None;
    }
    let field = read_u32_at(message, 1);
    if field != 13 {
        return None;
    }
    if !is_ipv4_address(sender_ip.as_str()) {
        return None;
    }
    let id = read_u64_at(message, 5);
    node_list.push(PeerNode { id, ip_address: sender_ip });
    Some(ack_frame())
}

} // verus!
