//! The dispatcher's routing table: which block owns each inbound opcode.

use vstd::prelude::*;

verus! {

/// The block that handles a message.
#[derive(Clone, Copy, Debug, PartialEq, Eq, Structural)]
pub enum Block {
    Leader,
    Peer,
    Backup,
    FaultTolerance,
    Client,
}

/// The routing table: reads, writes, transfers, dumps and promotions go to
/// the leader; list and join to the peer block; replicated writes and drains
/// to the backup; down notifications and deannouncements to fault tolerance;
/// client reads and writes to the proxy. Anything else is dropped.
pub open spec fn spec_route(op: u8) -> Option<Block> {
    if op == 1 || op == 2 || op == 11 || op == 12 || op == 33 {
        Some(Block::Leader)
    } else if op == 10 || op == 13 {
        Some(Block::Peer)
    } else if op == 20 || op == 21 || op == 32 {
        Some(Block::Backup)
    } else if op == 30 || op == 31 {
        Some(Block::FaultTolerance)
    } else if op == 200 || op == 202 {
        Some(Block::Client)
    } else {
        None
    }
}

/// Looks an opcode up in the routing table.
pub fn route_opcode(op: u8) -> (r: Option<Block>)
    ensures
        r == spec_route(op),
{
    match op {
        1 | 2 | 11 | 12 | 33 => Some(Block::Leader),
        10 | 13 => Some(Block::Peer),
        20 | 21 | 32 => Some(Block::Backup),
        30 | 31 => Some(Block::FaultTolerance),
        200 | 202 => Some(Block::Client),
        _ => None,
    }
}

} // verus!
