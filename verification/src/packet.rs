//! Packets: the unit the drone network forwards, together with the
//! events the leaf reports to its controller and the explicit actions
//! the engine hands to the channel layer.

use vstd::prelude::*;

use crate::fragment::{Fragment, FragmentModel};
use crate::message::{Message, MsgModel};
use crate::route::{Route, RouteModel};
use crate::types::{NackKind, NodeId, NodeType};

verus! {

/// Mathematical value of a [`FloodRequest`].
pub struct FloodRequestModel {
    pub flood_id: u64,
    pub initiator_id: NodeId,
    pub path_trace: Seq<(NodeId, NodeType)>,
}

/// A discovery probe: the initiator's identifier, the probe's
/// identifier, and the trace of nodes visited so far.
#[derive(PartialEq, Eq, Debug)]
pub struct FloodRequest {
    pub flood_id: u64,
    pub initiator_id: NodeId,
    pub path_trace: Vec<(NodeId, NodeType)>,
}

impl View for FloodRequest {
    type V = FloodRequestModel;

    open spec fn view(&self) -> FloodRequestModel {
        FloodRequestModel {
            flood_id: self.flood_id,
            initiator_id: self.initiator_id,
            path_trace: self.path_trace@,
        }
    }
}

impl FloodRequest {
    /// Stamp a node into the path trace.
    pub fn increment(&mut self, id: NodeId, node_type: NodeType)
        ensures
            final(self).flood_id == old(self).flood_id,
            final(self).initiator_id == old(self).initiator_id,
            final(self)@.path_trace == old(self)@.path_trace.push((id, node_type)),
    {
        self.path_trace.push((id, node_type));
    }
}

/// Mathematical value of a [`FloodResponse`].
pub struct FloodResponseModel {
    pub flood_id: u64,
    pub path_trace: Seq<(NodeId, NodeType)>,
}

/// The answer to a discovery probe: the probe's identifier and the
/// full path trace, the responder included.
#[derive(PartialEq, Eq, Debug)]
pub struct FloodResponse {
    pub flood_id: u64,
    pub path_trace: Vec<(NodeId, NodeType)>,
}

impl View for FloodResponse {
    type V = FloodResponseModel;

    open spec fn view(&self) -> FloodResponseModel {
        FloodResponseModel { flood_id: self.flood_id, path_trace: self.path_trace@ }
    }
}

/// Mathematical value of a [`PacketType`].
pub enum PacketTypeModel {
    MsgFragment(FragmentModel),
    Ack { fragment_index: u64 },
    Nack { fragment_index: u64, nack_type: NackKind },
    FloodRequest(FloodRequestModel),
    FloodResponse(FloodResponseModel),
}

/// The kind of a packet and its kind-specific payload.
#[derive(PartialEq, Eq, Debug)]
pub enum PacketType {
    MsgFragment(Fragment),
    Ack { fragment_index: u64 },
    Nack { fragment_index: u64, nack_type: NackKind },
    FloodRequest(FloodRequest),
    FloodResponse(FloodResponse),
}

impl View for PacketType {
    type V = PacketTypeModel;

    open spec fn view(&self) -> PacketTypeModel {
        match self {
            PacketType::MsgFragment(f) => PacketTypeModel::MsgFragment(f@),
            PacketType::Ack { fragment_index } => PacketTypeModel::Ack {
                fragment_index: *fragment_index,
            },
            PacketType::Nack { fragment_index, nack_type } => PacketTypeModel::Nack {
                fragment_index: *fragment_index,
                nack_type: *nack_type,
            },
            PacketType::FloodRequest(r) => PacketTypeModel::FloodRequest(r@),
            PacketType::FloodResponse(r) => PacketTypeModel::FloodResponse(r@),
        }
    }
}

/// Mathematical value of a [`Packet`].
pub struct PacketModel {
    pub routing_header: RouteModel,
    pub session_id: u64,
    pub pack_type: PacketTypeModel,
}

/// One unit of network traffic: its source route, its session, and
/// its kind.
#[derive(PartialEq, Eq, Debug)]
pub struct Packet {
    pub routing_header: Route,
    pub session_id: u64,
    pub pack_type: PacketType,
}

impl View for Packet {
    type V = PacketModel;

    open spec fn view(&self) -> PacketModel {
        PacketModel {
            routing_header: self.routing_header@,
            session_id: self.session_id,
            pack_type: self.pack_type@,
        }
    }
}

fn clone_trace(v: &Vec<(NodeId, NodeType)>) -> (r: Vec<(NodeId, NodeType)>)
    ensures
        r@ == v@,
{
    let mut out: Vec<(NodeId, NodeType)> = Vec::new();
    let mut i: usize = 0;
    while i < v.len()
        invariant
            i <= v.len(),
            out@ == v@.subrange(0, i as int),
        decreases v.len() - i,
    {
        out.push(v[i]);
        i = i + 1;
    }
    proof {
        assert(out@ =~= v@);
    }
    out
}

impl Clone for PacketType {
    fn clone(&self) -> (r: PacketType)
        ensures
            r@ == self@,
    {
        match self {
            PacketType::MsgFragment(f) => PacketType::MsgFragment(f.clone()),
            PacketType::Ack { fragment_index } => PacketType::Ack {
                fragment_index: *fragment_index,
            },
            PacketType::Nack { fragment_index, nack_type } => PacketType::Nack {
                fragment_index: *fragment_index,
                nack_type: *nack_type,
            },
            PacketType::FloodRequest(q) => PacketType::FloodRequest(
                FloodRequest {
                    flood_id: q.flood_id,
                    initiator_id: q.initiator_id,
                    path_trace: clone_trace(&q.path_trace),
                },
            ),
            PacketType::FloodResponse(q) => PacketType::FloodResponse(
                FloodResponse { flood_id: q.flood_id, path_trace: clone_trace(&q.path_trace) },
            ),
        }
    }
}

impl Clone for Packet {
    fn clone(&self) -> (r: Packet)
        ensures
            r@ == self@,
    {
        Packet {
            routing_header: self.routing_header.clone(),
            session_id: self.session_id,
            pack_type: self.pack_type.clone(),
        }
    }
}

impl Packet {
    /// A fragment packet over the given route and session.
    pub fn new_fragment(routing: Route, session_id: u64, fragment: Fragment) -> (r: Packet)
        ensures
            r@ == (PacketModel {
                routing_header: routing@,
                session_id,
                pack_type: PacketTypeModel::MsgFragment(fragment@),
            }),
    {
        Packet { routing_header: routing, session_id, pack_type: PacketType::MsgFragment(fragment) }
    }

    /// A negative acknowledgement over the given route and session.
    pub fn new_nack(routing: Route, session_id: u64, fragment_index: u64, nack_type: NackKind) -> (r:
        Packet)
        ensures
            r@ == (PacketModel {
                routing_header: routing@,
                session_id,
                pack_type: PacketTypeModel::Nack { fragment_index, nack_type },
            }),
    {
        Packet {
            routing_header: routing,
            session_id,
            pack_type: PacketType::Nack { fragment_index, nack_type },
        }
    }

    /// A discovery probe over the given route and session.
    pub fn new_flood_request(routing: Route, session_id: u64, request: FloodRequest) -> (r: Packet)
        ensures
            r@ == (PacketModel {
                routing_header: routing@,
                session_id,
                pack_type: PacketTypeModel::FloodRequest(request@),
            }),
    {
        Packet { routing_header: routing, session_id, pack_type: PacketType::FloodRequest(request) }
    }

    /// Index of the fragment a fragment packet carries; zero for any
    /// other kind.
    pub open spec fn spec_fragment_index(self) -> u64 {
        match self@.pack_type {
            PacketTypeModel::MsgFragment(f) => f.fragment_index,
            _ => 0,
        }
    }

    /// Index of the fragment a fragment packet carries; zero for any
    /// other kind.
    pub fn get_fragment_index(&self) -> (r: u64)
        ensures
            r == self.spec_fragment_index(),
    {
        match &self.pack_type {
            PacketType::MsgFragment(f) => f.fragment_index,
            _ => 0,
        }
    }
}

/// Mathematical value of a [`LeafEvent`].
pub enum LeafEventModel {
    PacketSend(PacketModel),
    ControllerShortcut(PacketModel),
    MessageStartSend { start: NodeId, session: u64, dest: NodeId, message: MsgModel },
    MessageFullySent(NodeId, u64),
}

/// What the leaf reports to its controller.
#[derive(PartialEq, Eq, Debug)]
pub enum LeafEvent {
    PacketSend(Packet),
    ControllerShortcut(Packet),
    MessageStartSend { start: NodeId, session: u64, dest: NodeId, message: Message },
    MessageFullySent(NodeId, u64),
}

impl View for LeafEvent {
    type V = LeafEventModel;

    open spec fn view(&self) -> LeafEventModel {
        match self {
            LeafEvent::PacketSend(p) => LeafEventModel::PacketSend(p@),
            LeafEvent::ControllerShortcut(p) => LeafEventModel::ControllerShortcut(p@),
            LeafEvent::MessageStartSend { start, session, dest, message } => LeafEventModel::MessageStartSend {
                start: *start,
                session: *session,
                dest: *dest,
                message: message@,
            },
            LeafEvent::MessageFullySent(id, session) => LeafEventModel::MessageFullySent(
                *id,
                *session,
            ),
        }
    }
}

/// Mathematical value of an [`Action`].
pub enum ActionModel {
    ControllerEvent(LeafEventModel),
    NeighborSend { neighbor: NodeId, packet: PacketModel, shortcut_on_failure: bool },
}

/// One piece of outbound work the engine asks the channel layer to
/// perform, in queue order: report an event to the controller, or
/// hand a packet to a neighbor's endpoint.  When a neighbor send
/// fails and `shortcut_on_failure` is set, the channel layer reports
/// the packet to the controller as a `ControllerShortcut` instead.
#[derive(PartialEq, Eq, Debug)]
pub enum Action {
    ControllerEvent(LeafEvent),
    NeighborSend { neighbor: NodeId, packet: Packet, shortcut_on_failure: bool },
}

impl View for Action {
    type V = ActionModel;

    open spec fn view(&self) -> ActionModel {
        match self {
            Action::ControllerEvent(e) => ActionModel::ControllerEvent(e@),
            Action::NeighborSend { neighbor, packet, shortcut_on_failure } => ActionModel::NeighborSend {
                neighbor: *neighbor,
                packet: packet@,
                shortcut_on_failure: *shortcut_on_failure,
            },
        }
    }
}

/// View of an action queue as a sequence of action models.
pub open spec fn actions_view(s: Seq<Action>) -> Seq<ActionModel> {
    s.map_values(|a: Action| a@)
}

/// The packet kinds allowed to fall back to the controller shortcut
/// when the in-plane send fails: small control replies.  Fragments
/// never take the shortcut, so their retransmission semantics hold.
pub open spec fn shortcut_eligible(pt: PacketTypeModel) -> bool {
    match pt {
        PacketTypeModel::Ack { .. } => true,
        PacketTypeModel::Nack { .. } => true,
        PacketTypeModel::FloodResponse(_) => true,
        _ => false,
    }
}

/// Does this action queue suffix consist only of message-send work:
/// controller events and fragment sends without shortcut?  What a
/// protocol callback appends is of this shape.
pub open spec fn msg_sends_only(s: Seq<ActionModel>) -> bool {
    forall|i: int|
        0 <= i < s.len() ==> match #[trigger] s[i] {
            ActionModel::ControllerEvent(_) => true,
            ActionModel::NeighborSend { neighbor, packet, shortcut_on_failure } => packet.pack_type
                is MsgFragment && !shortcut_on_failure,
        }
}

} // verus!
