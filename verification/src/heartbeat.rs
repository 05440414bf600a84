//! The heartbeat record and the table entry that remembers it.

use vstd::prelude::*;
use vstd::std_specs::cmp::PartialEqSpecImpl;

verus! {

/// What a heartbeat says: who is alive, where to reach them, and when they
/// said so (seconds since the epoch).
pub struct HeartbeatView {
    pub id: Seq<char>,
    pub address: Seq<char>,
    pub timestamp: nat,
}

/// What the table remembers of one peer: the freshest heartbeat seen and how
/// often a heartbeat for the peer arrived since that one was adopted.
pub struct EntryView {
    pub heartbeat: HeartbeatView,
    pub received_count: nat,
}

/// The largest datagram, in bytes, that a node reads: a heartbeat on the wire
/// is expected to fit, and what is longer is cut off by the receiver.
pub const MAX_DATAGRAM_BYTES: usize = 256;

/// The heartbeat that the node `id` at `address` gives out at `timestamp`.
pub open spec fn announcement(id: Seq<char>, address: Seq<char>, timestamp: nat) -> HeartbeatView {
    HeartbeatView { id, address, timestamp }
}

/// A liveness announcement of one node.
#[derive(Debug)]
pub struct Heartbeat {
    pub id: String,
    pub address: String,
    pub timestamp: u64,
}

impl View for Heartbeat {
    type V = HeartbeatView;

    open spec fn view(&self) -> HeartbeatView {
        HeartbeatView { id: self.id@, address: self.address@, timestamp: self.timestamp as nat }
    }
}

impl Clone for Heartbeat {
    fn clone(&self) -> (copy: Self)
        ensures
            copy == *self,
    {
        Heartbeat { id: self.id.clone(), address: self.address.clone(), timestamp: self.timestamp }
    }
}

impl PartialEq for Heartbeat {
    fn eq(&self, other: &Self) -> (same: bool) {
        self.id == other.id && self.address == other.address && self.timestamp == other.timestamp
    }
}

impl PartialEqSpecImpl for Heartbeat {
    open spec fn obeys_eq_spec() -> bool {
        true
    }

    open spec fn eq_spec(&self, other: &Self) -> bool {
        self@ == other@
    }
}

impl Eq for Heartbeat {}

/// The table's record of one peer.
#[derive(Debug)]
pub struct NodeHeartbeatData {
    pub heartbeat: Heartbeat,
    pub received_count: u64,
}

impl View for NodeHeartbeatData {
    type V = EntryView;

    open spec fn view(&self) -> EntryView {
        EntryView { heartbeat: self.heartbeat@, received_count: self.received_count as nat }
    }
}

impl PartialEq for NodeHeartbeatData {
    fn eq(&self, other: &Self) -> (same: bool) {
        self.heartbeat == other.heartbeat && self.received_count == other.received_count
    }
}

impl PartialEqSpecImpl for NodeHeartbeatData {
    open spec fn obeys_eq_spec() -> bool {
        true
    }

    open spec fn eq_spec(&self, other: &Self) -> bool {
        self@ == other@
    }
}

impl Eq for NodeHeartbeatData {}

/// The entries of a list, each as what it says.
pub open spec fn entry_views(entries: Seq<NodeHeartbeatData>) -> Seq<EntryView> {
    entries.map_values(|d: NodeHeartbeatData| d@)
}

impl Clone for NodeHeartbeatData {
    fn clone(&self) -> (copy: Self)
        ensures
            copy == *self,
    {
        NodeHeartbeatData { heartbeat: self.heartbeat.clone(), received_count: self.received_count }
    }
}

} // verus!
