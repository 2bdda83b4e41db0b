use vstd::prelude::*;

verus! {

/// Why a node refused an event. Every one of these is fatal to the process
/// that runs the node: a refused event is never skipped.
#[derive(Clone, Copy, Debug, PartialEq, Eq, Structural)]
pub enum NodeError {
    /// The first envelope on the wire was not an init request.
    ExpectedInit,
    /// A node name is not a letter followed by a decimal index.
    MalformedNodeId,
    /// Two cluster members share one index.
    DuplicateNodeId,
    /// A topology message has no entry for the node that received it.
    MissingTopologyEntry,
    /// Gossip came from, or is due to, a node outside the cluster.
    UnknownPeer,
    /// A counter value does not fit in 64 bits.
    CounterOverflow,
}

impl NodeError {
    /// A one-line description, for logs and process exit messages.
    pub fn describe(&self) -> (text: &'static str)
        ensures
            text@ == match *self {
                NodeError::ExpectedInit => "first message should be init"@,
                NodeError::MalformedNodeId => "node id is not a letter and an index"@,
                NodeError::DuplicateNodeId => "two node ids share one index"@,
                NodeError::MissingTopologyEntry => "no topology given for this node"@,
                NodeError::UnknownPeer => "gossip with an unknown node"@,
                NodeError::CounterOverflow => "counter overflow"@,
            },
    {
        match self {
            NodeError::ExpectedInit => "first message should be init",
            NodeError::MalformedNodeId => "node id is not a letter and an index",
            NodeError::DuplicateNodeId => "two node ids share one index",
            NodeError::MissingTopologyEntry => "no topology given for this node",
            NodeError::UnknownPeer => "gossip with an unknown node",
            NodeError::CounterOverflow => "counter overflow",
        }
    }
}

} // verus!
