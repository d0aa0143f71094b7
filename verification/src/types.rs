//! Plain identifiers and small enumerations shared by the whole engine.

use vstd::prelude::*;

verus! {

/// Identifier of a network participant (a drone, a client or a server).
pub type NodeId = u8;

/// Session identifier: one session carries the fragments of one message
/// in one direction.
pub type Session = u64;

/// Index of a fragment within its session.
pub type FragmentIdx = u64;

/// Role of a node, as recorded in a flood path trace.
#[derive(Clone, Copy, PartialEq, Eq, Structural, Debug)]
pub enum NodeType {
    Client,
    Drone,
    Server,
}

/// Reason carried by a negative acknowledgement.  Only `Dropped`
/// triggers retransmission; `UnexpectedRecipient` is emitted by this
/// engine when a fragment arrives whose destination is not the leaf.
#[derive(Clone, Copy, PartialEq, Eq, Structural, Debug)]
pub enum NackKind {
    ErrorInRouting(NodeId),
    DestinationIsDrone,
    Dropped,
    UnexpectedRecipient(NodeId),
}

/// Kind of server announced in reply to a server-type probe.  The
/// integer carried by `Text` and `Media` is identification metadata
/// with no behavioural meaning.
#[derive(Clone, Copy, PartialEq, Eq, Structural, Debug)]
pub enum ServerType {
    Chat,
    Text(u64),
    Media(u64),
}

/// Command sent by the controller to the leaf.  The endpoint that
/// accompanies a newly added neighbor stays with the channel layer;
/// the engine only records the neighbor's identifier.
#[derive(Clone, Copy, PartialEq, Eq, Structural, Debug)]
pub enum LeafCommand {
    AddSender(NodeId),
    RemoveSender(NodeId),
    Kill,
}

/// The resolved next hop has no neighbor endpoint.
#[derive(Clone, Copy, PartialEq, Eq, Structural, Debug)]
pub struct UnknownNodeIdError {
    pub node_id: NodeId,
}

/// No route (or no usable hop) is known for the requested peer.
#[derive(Clone, Copy, PartialEq, Eq, Structural, Debug)]
pub struct UnknownNodeInfoError {
    pub node_id: NodeId,
}

/// All errors that can occur when gathering what is required to send
/// packets to a node.
#[derive(Clone, Copy, PartialEq, Eq, Structural, Debug)]
pub enum PrepareNodeSendError {
    UnknownId(UnknownNodeIdError),
    UnknownInfo(UnknownNodeInfoError),
}

} // verus!
