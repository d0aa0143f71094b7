//! The protocol-independent leaf engine: send path, send history,
//! routing table, reassembly, flood handling and retransmission.
//!
//! The engine never touches a channel itself.  Inbound traffic is
//! handed to [`Server::update`] one event at a time; outbound work is
//! queued on [`ServerSenders::outbox`] as explicit [`Action`]s for the
//! channel layer to perform in order.

use vstd::prelude::*;

use crate::codec::enc_msg;
use crate::fragment::{frags_of, frags_view, from_frags_spec, Fragment, FragmentModel};
use crate::message::{Message, MsgModel};
use crate::packet::{actions_view, msg_sends_only, shortcut_eligible, Action, ActionModel,
    FloodRequest, FloodRequestModel, FloodResponse, FloodResponseModel, LeafEvent, LeafEventModel,
    Packet, PacketModel, PacketType, PacketTypeModel};
use crate::route::{Route, RouteModel};
use crate::store::{make_pair_key, pair_key, KvStore};
use crate::types::{FragmentIdx, LeafCommand, NackKind, NodeId, NodeType, PrepareNodeSendError,
    Session, UnknownNodeIdError, UnknownNodeInfoError};

verus! {

/// Key of the routing-table entry for a peer.
pub open spec fn route_key(node: NodeId) -> u128 {
    node as u128
}

/// Key of the send-history entry for (session, fragment index).
pub open spec fn history_key(session: Session, fragment_index: FragmentIdx) -> u128 {
    pair_key(session, fragment_index)
}

/// Key of the reassembly entry for (session, peer).
pub open spec fn pending_key(session: u64, node: NodeId) -> u128 {
    pair_key(session, node as u64)
}

/// Key of the routing-table entry for a peer.
pub fn make_route_key(node: NodeId) -> (r: u128)
    ensures
        r == route_key(node),
{
    node as u128
}

pub(crate) proof fn lemma_push_contains<A>(s: Seq<A>, x: A, y: A)
    ensures
        s.push(x).contains(y) <==> s.contains(y) || x == y,
{
    if s.push(x).contains(y) {
        let w = choose|w: int| 0 <= w < s.push(x).len() && #[trigger] s.push(x)[w] == y;
        if w < s.len() {
            assert(s[w] == y);
        }
    }
    if s.contains(y) {
        let w = choose|w: int| 0 <= w < s.len() && #[trigger] s[w] == y;
        assert(s.push(x)[w] == y);
    }
    if x == y {
        assert(s.push(x)[s.len() as int] == y);
    }
}

/// Can a packet for `to` be routed: a route is stored, its current
/// hop exists, and that hop has a send endpoint?
pub open spec fn can_route(routes: Map<u128, RouteModel>, nbrs: Set<NodeId>, to: NodeId) -> bool {
    &&& routes.contains_key(route_key(to))
    &&& routes[route_key(to)].current_hop() is Some
    &&& nbrs.contains(routes[route_key(to)].current_hop()->0)
}

/// The neighbor a packet for `to` is handed to.
pub open spec fn hop_of(routes: Map<u128, RouteModel>, to: NodeId) -> NodeId {
    routes[route_key(to)].current_hop()->0
}

/// The two queue entries every outbound packet produces: the
/// controller is told of the attempt, then the packet goes to the
/// neighbor, with the shortcut flag set for eligible kinds.
pub open spec fn packet_actions(neighbor: NodeId, p: PacketModel) -> Seq<ActionModel> {
    seq![
        ActionModel::ControllerEvent(LeafEventModel::PacketSend(p)),
        ActionModel::NeighborSend {
            neighbor,
            packet: p,
            shortcut_on_failure: shortcut_eligible(p.pack_type),
        },
    ]
}

/// The send history after recording one outbound packet: fragments
/// are recorded under (session, fragment index), nothing else is.
pub open spec fn hist_after_packet(h: Map<u128, PacketModel>, p: PacketModel) -> Map<
    u128,
    PacketModel,
> {
    match p.pack_type {
        PacketTypeModel::MsgFragment(f) => h.insert(history_key(p.session_id, f.fragment_index), p),
        _ => h,
    }
}

/// A fragment packet of a message send.
pub open spec fn frag_packet(route: RouteModel, sid: u64, f: FragmentModel) -> PacketModel {
    PacketModel { routing_header: route, session_id: sid, pack_type: PacketTypeModel::MsgFragment(f) }
}

/// Queue entries of the first `i` fragments of a message send.
pub open spec fn msg_frag_actions(
    route: RouteModel,
    neighbor: NodeId,
    sid: u64,
    frags: Seq<FragmentModel>,
    i: int,
) -> Seq<ActionModel>
    decreases i,
{
    if i <= 0 {
        Seq::empty()
    } else {
        msg_frag_actions(route, neighbor, sid, frags, i - 1) + packet_actions(
            neighbor,
            frag_packet(route, sid, frags[i - 1]),
        )
    }
}

/// The send history after recording the first `i` fragments of a
/// message send.
pub open spec fn hist_with_frags(
    h: Map<u128, PacketModel>,
    route: RouteModel,
    sid: u64,
    frags: Seq<FragmentModel>,
    i: int,
) -> Map<u128, PacketModel>
    decreases i,
{
    if i <= 0 {
        h
    } else {
        hist_with_frags(h, route, sid, frags, i - 1).insert(
            history_key(sid, frags[i - 1].fragment_index),
            frag_packet(route, sid, frags[i - 1]),
        )
    }
}

/// Every history entry is a fragment packet stored under its own
/// (session, fragment index) key.
pub open spec fn history_coherent(h: Map<u128, PacketModel>) -> bool {
    forall|k: u128|
        #[trigger] h.contains_key(k) ==> h[k].pack_type is MsgFragment && k == history_key(
            h[k].session_id,
            h[k].pack_type->MsgFragment_0.fragment_index,
        )
}

/// Everything the engine needs to send packets: the session counter,
/// the routing table, the send history, the set of neighbors with an
/// endpoint, and the queue of outbound work.
pub struct ServerSenders {
    /// Incremental session id; the first allocated session is 1.
    pub session_id: Session,
    /// Neighbors that currently have a send endpoint.
    pub neighbors: Vec<NodeId>,
    /// The path to use to reach a certain node.
    pub node_path: KvStore<Route>,
    /// History of packets we sent.
    pub history: KvStore<Packet>,
    /// Outbound work for the channel layer, in order.
    pub outbox: Vec<Action>,
}

/// Information required to send a packet: the resolved route, the
/// session to stamp, and the neighbor to hand the packet to.
pub struct PreparedNodeSend {
    pub routing: Route,
    pub session: Session,
    pub neighbor: NodeId,
}

impl ServerSenders {
    /// Internal stores hold unique keys, history entries sit under
    /// their own key, and the neighbor list holds no duplicates.
    pub open spec fn wf(&self) -> bool {
        &&& self.node_path.wf()
        &&& self.history.wf()
        &&& history_coherent(self.hist())
        &&& forall|i: int, j: int|
            0 <= i < self.neighbors@.len() && 0 <= j < self.neighbors@.len() && i != j
                ==> #[trigger] self.neighbors@[i] != #[trigger] self.neighbors@[j]
    }

    /// The routing table: per peer, the stored route.
    pub open spec fn routes(&self) -> Map<u128, RouteModel> {
        self.node_path@
    }

    /// The send history: per (session, fragment index), the packet.
    pub open spec fn hist(&self) -> Map<u128, PacketModel> {
        self.history@
    }

    /// The set of neighbors with a send endpoint.
    pub open spec fn nbrs(&self) -> Set<NodeId> {
        Set::new(|n: NodeId| self.neighbors@.contains(n))
    }

    /// The queued outbound work.
    pub open spec fn actions(&self) -> Seq<ActionModel> {
        actions_view(self.outbox@)
    }

    /// Can a packet for `to` be sent right now?
    pub open spec fn can_send_to(&self, to: NodeId) -> bool {
        can_route(self.routes(), self.nbrs(), to)
    }

    /// An empty send side over the given neighbor endpoints.
    pub fn new(neighbors: Vec<NodeId>) -> (r: ServerSenders)
        ensures
            r.wf(),
            r.session_id == 0,
            r.routes() == Map::<u128, RouteModel>::empty(),
            r.hist() == Map::<u128, PacketModel>::empty(),
            r.actions() == Seq::<ActionModel>::empty(),
            forall|n: NodeId| r.nbrs().contains(n) <==> neighbors@.contains(n),
    {
        let mut r = ServerSenders {
            session_id: 0,
            neighbors: Vec::new(),
            node_path: KvStore::new(),
            history: KvStore::new(),
            outbox: Vec::new(),
        };
        let mut i: usize = 0;
        while i < neighbors.len()
            invariant
                r.wf(),
                r.session_id == 0,
                r.routes() == Map::<u128, RouteModel>::empty(),
                r.hist() == Map::<u128, PacketModel>::empty(),
                r.actions() == Seq::<ActionModel>::empty(),
                i <= neighbors.len(),
                forall|n: NodeId|
                    r.nbrs().contains(n) <==> neighbors@.subrange(0, i as int).contains(n),
            decreases neighbors.len() - i,
        {
            let ghost pre = r;
            r.add_neighbor(neighbors[i]);
            proof {
                assert(neighbors@.subrange(0, i as int + 1) =~= neighbors@.subrange(
                    0,
                    i as int,
                ).push(neighbors@[i as int]));
                assert forall|n: NodeId|
                    r.nbrs().contains(n) <==> neighbors@.subrange(0, i as int + 1).contains(
                        n,
                    ) by {
                    lemma_push_contains(
                        neighbors@.subrange(0, i as int),
                        neighbors@[i as int],
                        n,
                    );
                    assert(r.nbrs() == pre.nbrs().insert(neighbors@[i as int]));
                }
            }
            i = i + 1;
        }
        proof {
            assert(neighbors@.subrange(0, neighbors@.len() as int) =~= neighbors@);
        }
        r
    }

    /// A send side primed with a routing table, for driving the
    /// engine without discovery.
    pub fn with_node_path(neighbors: Vec<NodeId>, node_path: KvStore<Route>) -> (r: ServerSenders)
        requires
            node_path.wf(),
        ensures
            r.wf(),
            r.session_id == 0,
            r.routes() == node_path@,
            r.hist() == Map::<u128, PacketModel>::empty(),
            r.actions() == Seq::<ActionModel>::empty(),
            forall|n: NodeId| r.nbrs().contains(n) <==> neighbors@.contains(n),
    {
        let mut r = ServerSenders::new(neighbors);
        r.node_path = node_path;
        r
    }

    /// Does this neighbor have a send endpoint?
    pub fn has_neighbor(&self, n: NodeId) -> (r: bool)
        ensures
            r == self.nbrs().contains(n),
    {
        let mut i: usize = 0;
        while i < self.neighbors.len()
            invariant
                i <= self.neighbors@.len(),
                forall|x: int| 0 <= x < i as int ==> self.neighbors@[x] != n,
            decreases self.neighbors@.len() - i,
        {
            if self.neighbors[i] == n {
                return true;
            }
            i = i + 1;
        }
        false
    }

    /// Record a send endpoint for this neighbor.
    pub fn add_neighbor(&mut self, n: NodeId)
        requires
            old(self).wf(),
        ensures
            final(self).wf(),
            final(self).nbrs() == old(self).nbrs().insert(n),
            final(self).session_id == old(self).session_id,
            final(self).routes() == old(self).routes(),
            final(self).hist() == old(self).hist(),
            final(self).actions() == old(self).actions(),
    {
        if !self.has_neighbor(n) {
            self.neighbors.push(n);
            proof {
                assert forall|m: NodeId|
                    self.nbrs().contains(m) <==> old(self).nbrs().insert(n).contains(m) by {
                    lemma_push_contains(old(self).neighbors@, n, m);
                }
                assert(self.nbrs() =~= old(self).nbrs().insert(n));
            }
        } else {
            proof {
                assert(self.nbrs() =~= old(self).nbrs().insert(n));
            }
        }
    }

    /// Drop the send endpoint of this neighbor; reports whether one
    /// was there.
    pub fn remove_neighbor(&mut self, n: NodeId) -> (was: bool)
        requires
            old(self).wf(),
        ensures
            final(self).wf(),
            was == old(self).nbrs().contains(n),
            final(self).nbrs() == old(self).nbrs().remove(n),
            final(self).session_id == old(self).session_id,
            final(self).routes() == old(self).routes(),
            final(self).hist() == old(self).hist(),
            final(self).actions() == old(self).actions(),
    {
        let mut i: usize = 0;
        while i < self.neighbors.len()
            invariant
                self.wf(),
                *self == *old(self),
                i <= self.neighbors@.len(),
                forall|x: int| 0 <= x < i as int ==> self.neighbors@[x] != n,
            decreases self.neighbors@.len() - i,
        {
            if self.neighbors[i] == n {
                self.neighbors.remove(i);
                proof {
                    assert forall|m: NodeId|
                        self.nbrs().contains(m) <==> old(self).nbrs().remove(n).contains(m) by {
                        if self.neighbors@.contains(m) {
                            let w = choose|w: int|
                                0 <= w < self.neighbors@.len() && #[trigger] self.neighbors@[w]
                                    == m;
                            if w < i as int {
                                assert(old(self).neighbors@[w] == m);
                            } else {
                                assert(old(self).neighbors@[w + 1] == m);
                            }
                            assert(m != n);
                        }
                        if old(self).nbrs().remove(n).contains(m) {
                            let w = choose|w: int|
                                0 <= w < old(self).neighbors@.len() && #[trigger] old(
                                    self,
                                ).neighbors@[w] == m;
                            if w < i as int {
                                assert(self.neighbors@[w] == m);
                            } else {
                                assert(old(self).neighbors@[i as int] == n);
                                assert(w != i as int);
                                assert(self.neighbors@[w - 1] == m);
                            }
                        }
                    }
                    assert(self.nbrs() =~= old(self).nbrs().remove(n));
                }
                return true;
            }
            i = i + 1;
        }
        proof {
            assert(self.nbrs() =~= old(self).nbrs().remove(n));
        }
        false
    }

    /// Record an outbound packet and queue it: fragments go into the
    /// send history, the controller is told of the attempt, and the
    /// packet is queued for the neighbor with the shortcut flag set
    /// for eligible kinds.
    pub fn send_packet_raw(&mut self, neighbor: NodeId, packet: Packet)
        requires
            old(self).wf(),
        ensures
            final(self).wf(),
            final(self).session_id == old(self).session_id,
            final(self).routes() == old(self).routes(),
            final(self).nbrs() == old(self).nbrs(),
            final(self).hist() == hist_after_packet(old(self).hist(), packet@),
            final(self).actions() == old(self).actions() + packet_actions(neighbor, packet@),
    {
        let record = matches!(packet.pack_type, PacketType::MsgFragment(_));
        if record {
            let key = make_pair_key(packet.session_id, packet.get_fragment_index());
            self.history.insert(key, packet.clone());
        }
        let shortcut = matches!(
            packet.pack_type,
            PacketType::Ack { .. } | PacketType::Nack { .. } | PacketType::FloodResponse(_)
        );
        self.outbox.push(Action::ControllerEvent(LeafEvent::PacketSend(packet.clone())));
        self.outbox.push(Action::NeighborSend { neighbor, packet, shortcut_on_failure: shortcut });
        proof {
            assert(self.actions() =~= old(self).actions() + packet_actions(
                neighbor,
                self.outbox@.last()->NeighborSend_packet@,
            ));
        }
    }

    /// Gather what is required to send a packet to a node: resolve
    /// the stored route, its current hop and that hop's endpoint, and
    /// allocate a fresh session if asked to.  Succeeds exactly when
    /// all three resolutions succeed.
    pub fn prepare_node_send(&mut self, to: NodeId, increment_session: bool) -> (r: Result<
        PreparedNodeSend,
        PrepareNodeSendError,
    >)
        requires
            old(self).wf(),
            increment_session && old(self).can_send_to(to) ==> old(self).session_id < u64::MAX,
        ensures
            final(self).wf(),
            final(self).routes() == old(self).routes(),
            final(self).nbrs() == old(self).nbrs(),
            final(self).hist() == old(self).hist(),
            final(self).actions() == old(self).actions(),
            match r {
                Ok(p) => {
                    &&& old(self).can_send_to(to)
                    &&& final(self).session_id == if increment_session {
                        old(self).session_id + 1
                    } else {
                        old(self).session_id as int
                    }
                    &&& p.session == final(self).session_id
                    &&& p.neighbor == hop_of(old(self).routes(), to)
                    &&& p.routing@ == old(self).routes()[route_key(to)]
                },
                Err(e) => {
                    &&& !old(self).can_send_to(to)
                    &&& final(self).session_id == old(self).session_id
                    &&& e matches PrepareNodeSendError::UnknownInfo(info) ==> info.node_id == to
                        && (!old(self).routes().contains_key(route_key(to)) || old(
                        self,
                    ).routes()[route_key(to)].current_hop() is None)
                    &&& e matches PrepareNodeSendError::UnknownId(info) ==> info.node_id == to
                        && old(self).routes().contains_key(route_key(to)) && old(
                        self,
                    ).routes()[route_key(to)].current_hop() is Some && !old(self).nbrs().contains(
                        old(self).routes()[route_key(to)].current_hop()->0,
                    )
                },
            },
    {
        let routing = match self.node_path.get(make_route_key(to)) {
            Some(r) => r.clone(),
            None => {
                return Err(
                    PrepareNodeSendError::UnknownInfo(UnknownNodeInfoError { node_id: to }),
                );
            },
        };
        match routing.current_hop() {
            Some(neighbor_id) => {
                if self.has_neighbor(neighbor_id) {
                    if increment_session {
                        self.session_id = self.session_id + 1;
                    }
                    Ok(
                        PreparedNodeSend {
                            routing,
                            session: self.session_id,
                            neighbor: neighbor_id,
                        },
                    )
                } else {
                    Err(PrepareNodeSendError::UnknownId(UnknownNodeIdError { node_id: to }))
                }
            },
            None => Err(PrepareNodeSendError::UnknownInfo(UnknownNodeInfoError { node_id: to })),
        }
    }

    /// Send a single control packet to a node: resolve the route,
    /// stamp the fixed session (a response) or a fresh one, and queue
    /// the packet.
    pub fn send_packet(&mut self, to: NodeId, packet: PacketType, fixed_session: Option<u64>) -> (r:
        Result<(), PrepareNodeSendError>)
        requires
            old(self).wf(),
            fixed_session is None && old(self).can_send_to(to) ==> old(self).session_id
                < u64::MAX,
        ensures
            final(self).wf(),
            final(self).routes() == old(self).routes(),
            final(self).nbrs() == old(self).nbrs(),
            match r {
                Ok(()) => {
                    &&& old(self).can_send_to(to)
                    &&& final(self).session_id == if fixed_session is None {
                        old(self).session_id + 1
                    } else {
                        old(self).session_id as int
                    }
                    &&& {
                        let sid = match fixed_session {
                            Some(s) => s,
                            None => final(self).session_id,
                        };
                        let pkt = PacketModel {
                            routing_header: old(self).routes()[route_key(to)],
                            session_id: sid,
                            pack_type: packet@,
                        };
                        let appended = packet_actions(hop_of(old(self).routes(), to), pkt);
                        final(self).hist() == hist_after_packet(old(self).hist(), pkt)
                            && final(self).actions() == old(self).actions() + appended
                    }
                },
                Err(e) => {
                    &&& !old(self).can_send_to(to)
                    &&& final(self).session_id == old(self).session_id
                    &&& final(self).hist() == old(self).hist()
                    &&& final(self).actions() == old(self).actions()
                    &&& e matches PrepareNodeSendError::UnknownInfo(info) ==> info.node_id == to
                    &&& e matches PrepareNodeSendError::UnknownId(info) ==> info.node_id == to
                },
            },
    {
        let prepared = match self.prepare_node_send(to, fixed_session.is_none()) {
            Ok(p) => p,
            Err(e) => {
                return Err(e);
            },
        };
        let session_id = match fixed_session {
            Some(s) => s,
            None => prepared.session,
        };
        self.send_packet_raw(
            prepared.neighbor,
            Packet { routing_header: prepared.routing, session_id, pack_type: packet },
        );
        Ok(())
    }
}

/// Does the new history keep every key of the old one?  Entries are
/// only ever added or overwritten with the last transmitted packet,
/// never dropped.
pub open spec fn history_keys_preserved(
    h1: Map<u128, PacketModel>,
    h2: Map<u128, PacketModel>,
) -> bool {
    forall|k: u128| h1.contains_key(k) ==> #[trigger] h2.contains_key(k)
}

proof fn lemma_msg_sends_only_concat(a: Seq<ActionModel>, b: Seq<ActionModel>)
    requires
        msg_sends_only(a),
        msg_sends_only(b),
    ensures
        msg_sends_only(a + b),
{
    assert forall|i: int| 0 <= i < (a + b).len() implies match #[trigger] (a + b)[i] {
        ActionModel::ControllerEvent(_) => true,
        ActionModel::NeighborSend { neighbor, packet, shortcut_on_failure } => packet.pack_type
            is MsgFragment && !shortcut_on_failure,
    } by {
        if i < a.len() {
            assert((a + b)[i] == a[i]);
        } else {
            assert((a + b)[i] == b[i - a.len()]);
        }
    }
}

proof fn lemma_msg_frag_actions_sends_only(
    route: RouteModel,
    neighbor: NodeId,
    sid: u64,
    frags: Seq<FragmentModel>,
    i: int,
)
    ensures
        msg_sends_only(msg_frag_actions(route, neighbor, sid, frags, i)),
    decreases i,
{
    if i <= 0 {
    } else {
        lemma_msg_frag_actions_sends_only(route, neighbor, sid, frags, i - 1);
        let pa = packet_actions(neighbor, frag_packet(route, sid, frags[i - 1]));
        assert(msg_sends_only(pa)) by {
            assert(pa[0] is ControllerEvent);
            assert(pa[1]->NeighborSend_packet.pack_type is MsgFragment);
            assert(!pa[1]->NeighborSend_shortcut_on_failure);
        }
        lemma_msg_sends_only_concat(msg_frag_actions(route, neighbor, sid, frags, i - 1), pa);
    }
}

proof fn lemma_hist_with_frags_keys(
    h: Map<u128, PacketModel>,
    route: RouteModel,
    sid: u64,
    frags: Seq<FragmentModel>,
    i: int,
)
    ensures
        history_keys_preserved(h, hist_with_frags(h, route, sid, frags, i)),
    decreases i,
{
    if i <= 0 {
    } else {
        lemma_hist_with_frags_keys(h, route, sid, frags, i - 1);
    }
}

/// The queue entries of one whole message send: the start report, the
/// fragment sends in order, and the completion report.
pub open spec fn msg_send_all_actions(
    from: NodeId,
    to: NodeId,
    route: RouteModel,
    neighbor: NodeId,
    sid: u64,
    m: MsgModel,
) -> Seq<ActionModel> {
    let frags = frags_of(enc_msg(m));
    seq![
        ActionModel::ControllerEvent(
            LeafEventModel::MessageStartSend { start: from, session: sid, dest: to, message: m },
        ),
    ] + msg_frag_actions(route, neighbor, sid, frags, frags.len() as int) + seq![
        ActionModel::ControllerEvent(LeafEventModel::MessageFullySent(from, sid)),
    ]
}

/// Protocol to use to process messages.
///
/// The engine invokes `on_message` exactly once per successfully
/// reassembled inbound message.  An implementation may mutate its own
/// state and send messages through the send side it is handed; the
/// contract pins down what it may do to the engine's state: never
/// touch the routing table or the neighbor set, never move the
/// session counter backwards, never drop a send-history key, and only
/// append message-send work to the outbound queue.
pub trait ServerProtocol {
    fn on_message(
        &mut self,
        server: NodeId,
        senders: &mut ServerSenders,
        from: NodeId,
        message: Message,
        session_id: u64,
    )
        requires
            old(senders).wf(),
            old(senders).session_id < u64::MAX,
        ensures
            final(senders).wf(),
            final(senders).session_id >= old(senders).session_id,
            final(senders).routes() == old(senders).routes(),
            final(senders).nbrs() == old(senders).nbrs(),
            history_keys_preserved(old(senders).hist(), final(senders).hist()),
            final(senders).actions().len() >= old(senders).actions().len(),
            final(senders).actions().take(old(senders).actions().len() as int) == old(
                senders,
            ).actions(),
            msg_sends_only(final(senders).actions().skip(old(senders).actions().len() as int)),
    ;
}

/// The fragments received so far under one (session, peer).
pub struct FragGroup {
    pub frags: Vec<Fragment>,
}

impl View for FragGroup {
    type V = Seq<FragmentModel>;

    open spec fn view(&self) -> Seq<FragmentModel> {
        frags_view(self.frags@)
    }
}

/// The whole observable state of one leaf engine, as one record: what
/// the step predicates below relate across one event.
#[verifier::ext_equal]
pub struct EngineState {
    pub running: bool,
    pub id: NodeId,
    pub session_id: u64,
    pub routes: Map<u128, RouteModel>,
    pub history: Map<u128, PacketModel>,
    pub nbrs: Set<NodeId>,
    pub actions: Seq<ActionModel>,
    pub pending: Map<u128, Seq<FragmentModel>>,
    pub delivered: Seq<(NodeId, MsgModel, u64)>,
}

/// The direct route stored when a neighbor endpoint is added: the
/// leaf itself, then the neighbor, with the neighbor as current hop.
pub open spec fn direct_route(self_id: NodeId, n: NodeId) -> RouteModel {
    RouteModel { hops: seq![self_id, n], hop_index: 1 }
}

/// The return route learned from an inbound fragment: the inbound
/// hops reversed, the index past the leaf itself.
pub open spec fn learned_route(routing: RouteModel) -> RouteModel {
    RouteModel { hops: routing.hops.reverse(), hop_index: 1 }
}

/// The queue entries of the refusal sent for a misdelivered fragment,
/// if the sender can be reached at all.
pub open spec fn nack_actions_for(
    pre: EngineState,
    src: NodeId,
    session: u64,
    fragment_index: u64,
) -> Seq<ActionModel> {
    if can_route(pre.routes, pre.nbrs, src) {
        packet_actions(
            hop_of(pre.routes, src),
            PacketModel {
                routing_header: pre.routes[route_key(src)],
                session_id: session,
                pack_type: PacketTypeModel::Nack {
                    fragment_index,
                    nack_type: NackKind::UnexpectedRecipient(pre.id),
                },
            },
        )
    } else {
        Seq::empty()
    }
}

/// The queue entries of the acknowledgement for an accepted fragment,
/// if the sender can be reached over the just-learned route.
pub open spec fn ack_actions_for(
    routes1: Map<u128, RouteModel>,
    nbrs: Set<NodeId>,
    src: NodeId,
    session: u64,
    fragment_index: u64,
) -> Seq<ActionModel> {
    if can_route(routes1, nbrs, src) {
        packet_actions(
            hop_of(routes1, src),
            PacketModel {
                routing_header: routes1[route_key(src)],
                session_id: session,
                pack_type: PacketTypeModel::Ack { fragment_index },
            },
        )
    } else {
        Seq::empty()
    }
}

/// How one inbound fragment changes the engine.
///
/// A fragment without a source changes nothing.  A fragment not
/// addressed to this leaf provokes exactly one refusal and touches no
/// state.  An accepted fragment refreshes the return route, is
/// acknowledged exactly once, and joins its (session, peer) group;
/// the group is flushed to the protocol exactly when its expected
/// count is reached, and its reassembly entry is removed in the same
/// step.
pub open spec fn fragment_step(
    pre: EngineState,
    post: EngineState,
    routing: RouteModel,
    session: u64,
    frag: FragmentModel,
) -> bool {
    if routing.source() is None {
        post == pre
    } else {
        let src = routing.source()->0;
        if routing.destination() is None || routing.destination()->0 != pre.id {
            &&& post.running == pre.running
            &&& post.id == pre.id
            &&& post.session_id == pre.session_id
            &&& post.routes == pre.routes
            &&& post.history == pre.history
            &&& post.nbrs == pre.nbrs
            &&& post.pending == pre.pending
            &&& post.delivered == pre.delivered
            &&& post.actions == pre.actions + nack_actions_for(
                pre,
                src,
                session,
                frag.fragment_index,
            )
        } else {
            let lr = learned_route(routing);
            let routes1 = pre.routes.insert(route_key(src), lr);
            let ack = ack_actions_for(routes1, pre.nbrs, src, session, frag.fragment_index);
            let key = pending_key(session, src);
            let group0 = if pre.pending.contains_key(key) {
                pre.pending[key]
            } else {
                Seq::empty()
            };
            let group1 = group0.push(frag);
            let complete = group1.len() == frag.total_n_fragments;
            &&& post.running == pre.running
            &&& post.id == pre.id
            &&& post.nbrs == pre.nbrs
            &&& post.routes == routes1
            &&& if !complete {
                &&& post.pending == pre.pending.insert(key, group1)
                &&& post.delivered == pre.delivered
                &&& post.session_id == pre.session_id
                &&& post.history == pre.history
                &&& post.actions == pre.actions + ack
            } else {
                &&& post.pending == pre.pending.remove(key)
                &&& match from_frags_spec(group1) {
                    Some(msg) => {
                        &&& post.delivered == pre.delivered.push((src, msg, session))
                        &&& post.session_id >= pre.session_id
                        &&& history_keys_preserved(pre.history, post.history)
                        &&& post.actions.len() >= pre.actions.len() + ack.len()
                        &&& post.actions.take((pre.actions.len() + ack.len()) as int) == pre.actions + ack
                        &&& msg_sends_only(
                            post.actions.skip((pre.actions.len() + ack.len()) as int),
                        )
                    },
                    None => {
                        &&& post.delivered == pre.delivered
                        &&& post.session_id == pre.session_id
                        &&& post.history == pre.history
                        &&& post.actions == pre.actions + ack
                    },
                }
            }
        }
    }
}

/// The node identifiers of a flood trace, in reverse order: the
/// skeleton of the return route to the initiator.
pub open spec fn trace_route_hops(trace: Seq<(NodeId, NodeType)>) -> Seq<NodeId> {
    trace.map_values(|p: (NodeId, NodeType)| p.0).reverse()
}

/// The return route stored for a flood initiator: the stamped trace
/// reversed, with the initiator appended when the trace omitted it.
pub open spec fn flood_route(req: FloodRequestModel, self_id: NodeId) -> RouteModel {
    let trace1 = req.path_trace.push((self_id, NodeType::Server));
    let base = trace_route_hops(trace1);
    let hops = if base.len() > 0 && base.last() != req.initiator_id {
        base.push(req.initiator_id)
    } else {
        base
    };
    RouteModel { hops, hop_index: 1 }
}

/// How one flood request changes the engine: the leaf stamps itself
/// into the trace, stores the return route to the initiator, and
/// answers with a flood response carrying the stamped trace under a
/// fresh session, if the initiator can be reached.
pub open spec fn flood_step(pre: EngineState, post: EngineState, req: FloodRequestModel) -> bool {
    let fr = flood_route(req, pre.id);
    let routes1 = pre.routes.insert(route_key(req.initiator_id), fr);
    let can = can_route(routes1, pre.nbrs, req.initiator_id);
    let resp = if can {
        packet_actions(
            hop_of(routes1, req.initiator_id),
            PacketModel {
                routing_header: fr,
                session_id: (pre.session_id + 1) as u64,
                pack_type: PacketTypeModel::FloodResponse(
                    FloodResponseModel {
                        flood_id: req.flood_id,
                        path_trace: req.path_trace.push((pre.id, NodeType::Server)),
                    },
                ),
            },
        )
    } else {
        Seq::empty()
    };
    &&& post.running == pre.running
    &&& post.id == pre.id
    &&& post.nbrs == pre.nbrs
    &&& post.history == pre.history
    &&& post.pending == pre.pending
    &&& post.delivered == pre.delivered
    &&& post.routes == routes1
    &&& post.session_id == if can {
        pre.session_id + 1
    } else {
        pre.session_id as int
    }
    &&& post.actions == pre.actions + resp
}

/// How one inbound negative acknowledgement changes the engine: on a
/// drop report, the recorded packet — and only it — is retransmitted
/// verbatim to its route's current hop, with no new session and no
/// new history entry; anything else changes nothing.
pub open spec fn nack_step(
    pre: EngineState,
    post: EngineState,
    session: u64,
    fragment_index: u64,
    kind: NackKind,
) -> bool {
    let key = history_key(session, fragment_index);
    let resend = kind == NackKind::Dropped && pre.history.contains_key(key)
        && pre.history[key].routing_header.current_hop() is Some && pre.nbrs.contains(
        pre.history[key].routing_header.current_hop()->0,
    );
    &&& post.running == pre.running
    &&& post.id == pre.id
    &&& post.session_id == pre.session_id
    &&& post.routes == pre.routes
    &&& post.nbrs == pre.nbrs
    &&& post.pending == pre.pending
    &&& post.delivered == pre.delivered
    &&& post.history == pre.history
    &&& post.actions == pre.actions + if resend {
        packet_actions(
            pre.history[key].routing_header.current_hop()->0,
            pre.history[key],
        )
    } else {
        Seq::empty()
    }
}

/// One event handed to the engine: a controller command or an inbound
/// packet.  The channel layer waits on both channels with strict bias
/// toward the controller and feeds whichever arrives.
pub enum ServerEvent {
    Command(LeafCommand),
    Packet(Packet),
}

/// Struct to store the information required to run a server.
pub struct Server<T: ServerProtocol> {
    /// Cleared by the Kill command; the outer loop stops after the
    /// current step.
    pub running: bool,
    /// This leaf's identifier.
    pub id: NodeId,
    /// The send side: session counter, routing table, send history,
    /// neighbor endpoints and outbound queue.
    pub senders: ServerSenders,
    /// The pluggable application protocol.
    pub protocol: T,
    /// Per (session, peer), the fragments received so far.
    pub pending_fragments: KvStore<FragGroup>,
    /// The messages handed to the protocol, in order: one entry per
    /// successfully reassembled inbound message.
    pub delivered: Ghost<Seq<(NodeId, MsgModel, u64)>>,
}

impl<T: ServerProtocol> Server<T> {
    /// Internal stores are well-formed.
    pub open spec fn wf(&self) -> bool {
        &&& self.senders.wf()
        &&& self.pending_fragments.wf()
    }

    /// The engine's whole observable state as one record.
    pub open spec fn state(&self) -> EngineState {
        EngineState {
            running: self.running,
            id: self.id,
            session_id: self.senders.session_id,
            routes: self.senders.routes(),
            history: self.senders.hist(),
            nbrs: self.senders.nbrs(),
            actions: self.senders.actions(),
            pending: self.pending_fragments@,
            delivered: self.delivered@,
        }
    }

    /// A fresh leaf engine: running, with the given identity, the
    /// given neighbor endpoints, and empty tables.
    pub fn create(id: NodeId, neighbors: Vec<NodeId>, implementation: T) -> (r: Server<T>)
        ensures
            r.wf(),
            r.running,
            r.id == id,
            r.senders.session_id == 0,
            r.senders.routes() == Map::<u128, RouteModel>::empty(),
            r.senders.hist() == Map::<u128, PacketModel>::empty(),
            r.senders.actions() == Seq::<ActionModel>::empty(),
            forall|n: NodeId| r.senders.nbrs().contains(n) <==> neighbors@.contains(n),
            r.pending_fragments@ == Map::<u128, Seq<FragmentModel>>::empty(),
            r.delivered@ == Seq::<(NodeId, MsgModel, u64)>::empty(),
    {
        Server {
            running: true,
            id,
            senders: ServerSenders::new(neighbors),
            protocol: implementation,
            pending_fragments: KvStore::new(),
            delivered: Ghost(Seq::empty()),
        }
    }

    /// Drain the queued outbound work for the channel layer.
    pub fn take_actions(&mut self) -> (r: Vec<Action>)
        requires
            old(self).wf(),
        ensures
            final(self).wf(),
            actions_view(r@) == old(self).senders.actions(),
            final(self).senders.actions() == Seq::<ActionModel>::empty(),
            final(self).running == old(self).running,
            final(self).id == old(self).id,
            final(self).senders.session_id == old(self).senders.session_id,
            final(self).senders.routes() == old(self).senders.routes(),
            final(self).senders.hist() == old(self).senders.hist(),
            final(self).senders.nbrs() == old(self).senders.nbrs(),
            final(self).pending_fragments@ == old(self).pending_fragments@,
            final(self).delivered@ == old(self).delivered@,
    {
        let mut out: Vec<Action> = Vec::new();
        core::mem::swap(&mut out, &mut self.senders.outbox);
        proof {
            assert(self.senders.actions() =~= Seq::<ActionModel>::empty());
        }
        out
    }

    /// Process fragment received.
    pub fn on_fragment(&mut self, routing: Route, session_id: Session, fragment: Fragment)
        requires
            old(self).wf(),
            old(self).senders.session_id < u64::MAX,
        ensures
            final(self).wf(),
            fragment_step(old(self).state(), final(self).state(), routing@, session_id, fragment@),
    {
        let ghost pre = self.state();
        let src_id = routing.source();
        match src_id {
            Some(node_id) => {
                let des_id = routing.destination();
                let ours = match des_id {
                    Some(d) => d == self.id,
                    None => false,
                };
                if !ours {
                    // Packet is not meant for us: refuse it toward its
                    // source, and touch nothing else.
                    let _ = self.senders.send_packet(
                        node_id,
                        PacketType::Nack {
                            fragment_index: fragment.fragment_index,
                            nack_type: NackKind::UnexpectedRecipient(self.id),
                        },
                        Some(session_id),
                    );
                    proof {
                        assert(self.senders.actions() =~= pre.actions + nack_actions_for(
                            pre,
                            node_id,
                            session_id,
                            fragment@.fragment_index,
                        ));
                    }
                    return;
                }
                // Update route to latest.
                let mut node_path = routing.get_reversed();
                node_path.increase_hop_index();
                self.senders.node_path.insert(make_route_key(node_id), node_path);
                let ghost routes1 = self.senders.routes();
                proof {
                    assert(routes1 =~= pre.routes.insert(
                        route_key(node_id),
                        learned_route(routing@),
                    ));
                }
                // Acknowledge, before reassembly.
                let _ = self.senders.send_packet(
                    node_id,
                    PacketType::Ack { fragment_index: fragment.fragment_index },
                    Some(session_id),
                );
                let ghost ack = ack_actions_for(
                    routes1,
                    pre.nbrs,
                    node_id,
                    session_id,
                    fragment@.fragment_index,
                );
                proof {
                    assert(self.senders.actions() =~= pre.actions + ack);
                }
                // Collect fragment parts until the full message is
                // received.
                let key = make_pair_key(session_id, node_id as u64);
                let total = fragment.total_n_fragments;
                let ghost fragv = fragment@;
                let mut group = match self.pending_fragments.remove(key) {
                    Some(g) => g,
                    None => FragGroup { frags: Vec::new() },
                };
                let ghost group0 = group@;
                proof {
                    let keyg = pending_key(session_id, node_id);
                    if pre.pending.contains_key(keyg) {
                        assert(group0 == pre.pending[keyg]);
                    } else {
                        assert(group0 =~= Seq::<FragmentModel>::empty());
                    }
                }
                group.frags.push(fragment);
                proof {
                    assert(group@ =~= group0.push(fragv));
                }
                let ghost group1 = group@;
                if group.frags.len() as u64 == total {
                    match Message::from_fragments(group.frags) {
                        Some(message) => {
                            let ghost mv = message@;
                            proof {
                                self.delivered@ = self.delivered@.push((node_id, mv, session_id));
                            }
                            let id = self.id;
                            self.protocol.on_message(
                                id,
                                &mut self.senders,
                                node_id,
                                message,
                                session_id,
                            );
                            proof {
                                let post = self.state();
                                let keyg = pending_key(session_id, node_id);
                                assert(from_frags_spec(group1) == Some(mv));
                                assert(post.pending == pre.pending.remove(keyg));
                                assert(post.delivered == pre.delivered.push(
                                    (node_id, mv, session_id),
                                ));
                                assert(post.routes == pre.routes.insert(
                                    route_key(node_id),
                                    learned_route(routing@),
                                ));
                                assert(post.actions.take((pre.actions.len() + ack.len()) as int)
                                    == pre.actions + ack);
                                assert(msg_sends_only(
                                    post.actions.skip((pre.actions.len() + ack.len()) as int),
                                ));
                                assert(group1.len() == fragv.total_n_fragments);
                            }
                        },
                        None => {
                            // The complete group does not parse: drop
                            // it.
                        },
                    }
                } else {
                    self.pending_fragments.insert(key, group);
                    proof {
                        assert(self.pending_fragments@ =~= pre.pending.insert(
                            pending_key(session_id, node_id),
                            group1,
                        ));
                    }
                }
            },
            None => {
                // Invalid routing header: drop the fragment.
            },
        }
    }

    /// Process flood request received: stamp this leaf into the
    /// trace, learn the return route, and answer toward the
    /// initiator.
    pub fn on_flood_request(&mut self, req: FloodRequest)
        requires
            old(self).wf(),
            old(self).senders.session_id < u64::MAX,
        ensures
            final(self).wf(),
            flood_step(old(self).state(), final(self).state(), req@),
    {
        let ghost pre = self.state();
        let ghost reqv = req@;
        let mut req = req;
        // Add self to path.
        req.increment(self.id, NodeType::Server);
        // Path to initiator is the reverse of the path trace.
        let n = req.path_trace.len();
        let mut hops: Vec<NodeId> = Vec::new();
        let mut i: usize = 0;
        while i < n
            invariant
                n == req.path_trace@.len(),
                i <= n,
                hops@.len() == i as int,
                forall|j: int| 0 <= j < i as int ==> hops@[j] == req.path_trace@[n - 1 - j].0,
            decreases n - i,
        {
            hops.push(req.path_trace[n - 1 - i].0);
            i = i + 1;
        }
        proof {
            assert(hops@ =~= trace_route_hops(req.path_trace@));
        }
        let mut path = Route::with_first_hop(hops);
        // Handle a flood request whose initiator did not add itself
        // to the path trace.
        match path.destination() {
            Some(destination) => {
                if destination != req.initiator_id {
                    path.append_hop(req.initiator_id);
                }
            },
            None => {},
        }
        proof {
            assert(path@ =~= flood_route(reqv, pre.id));
        }
        // Set this path as the most recent path to the initiator.
        self.senders.node_path.insert(make_route_key(req.initiator_id), path);
        proof {
            assert(self.senders.routes() =~= pre.routes.insert(
                route_key(reqv.initiator_id),
                flood_route(reqv, pre.id),
            ));
        }
        // Send the flood response back.
        let _ = self.senders.send_packet(
            req.initiator_id,
            PacketType::FloodResponse(
                FloodResponse { flood_id: req.flood_id, path_trace: req.path_trace },
            ),
            None,
        );
        proof {
            let fr = flood_route(reqv, pre.id);
            let routes1 = pre.routes.insert(route_key(reqv.initiator_id), fr);
            let can = can_route(routes1, pre.nbrs, reqv.initiator_id);
            if can {
                assert(final(self).state().actions =~= pre.actions + packet_actions(
                    hop_of(routes1, reqv.initiator_id),
                    PacketModel {
                        routing_header: fr,
                        session_id: (pre.session_id + 1) as u64,
                        pack_type: PacketTypeModel::FloodResponse(
                            FloodResponseModel {
                                flood_id: reqv.flood_id,
                                path_trace: reqv.path_trace.push((pre.id, NodeType::Server)),
                            },
                        ),
                    },
                ));
            } else {
                assert(final(self).state().actions =~= pre.actions + Seq::<ActionModel>::empty());
            }
        }
    }

    /// Process nack received: a drop report retransmits the recorded
    /// packet verbatim; everything else is noted and dropped.
    pub fn on_nack(&mut self, session_id: Session, fragment_index: FragmentIdx, nack_type: NackKind)
        requires
            old(self).wf(),
        ensures
            final(self).wf(),
            nack_step(
                old(self).state(),
                final(self).state(),
                session_id,
                fragment_index,
                nack_type,
            ),
    {
        let ghost pre = self.state();
        match nack_type {
            NackKind::Dropped => {
                // Try to resend the packet that was dropped.
                let key = make_pair_key(session_id, fragment_index);
                let resend_packet = match self.senders.history.get(key) {
                    Some(p) => Some(p.clone()),
                    None => None,
                };
                match resend_packet {
                    Some(resend_packet) => {
                        match resend_packet.routing_header.current_hop() {
                            Some(neighbor_id) => {
                                if self.senders.has_neighbor(neighbor_id) {
                                    self.senders.send_packet_raw(neighbor_id, resend_packet);
                                    proof {
                                        // Re-recording the same packet
                                        // under its own key leaves the
                                        // history as it was.
                                        assert(self.senders.hist() =~= pre.history);
                                        assert(final(self).state().actions =~= pre.actions
                                            + packet_actions(
                                            pre.history[history_key(
                                                session_id,
                                                fragment_index,
                                            )].routing_header.current_hop()->0,
                                            pre.history[history_key(session_id, fragment_index)],
                                        ));
                                    }
                                } else {
                                    proof {
                                        assert(final(self).state().actions =~= pre.actions
                                            + Seq::<ActionModel>::empty());
                                    }
                                }
                            },
                            None => {
                                proof {
                                    assert(final(self).state().actions =~= pre.actions
                                        + Seq::<ActionModel>::empty());
                                }
                            },
                        }
                    },
                    None => {
                        proof {
                            assert(final(self).state().actions =~= pre.actions + Seq::<
                                ActionModel,
                            >::empty());
                        }
                    },
                }
            },
            _ => {
                proof {
                    assert(final(self).state().actions =~= pre.actions + Seq::<
                        ActionModel,
                    >::empty());
                }
            },
        }
    }

    /// Process one event: a controller command takes effect on the
    /// neighbor table, the routing table or the running flag; a
    /// packet is dispatched on its kind; kinds the engine does not
    /// handle are dropped.
    pub fn update(&mut self, event: ServerEvent)
        requires
            old(self).wf(),
            old(self).senders.session_id < u64::MAX,
        ensures
            final(self).wf(),
            match event {
                ServerEvent::Command(cmd) => match cmd {
                    LeafCommand::AddSender(n) => {
                        let pre = old(self).state();
                        let post = final(self).state();
                        &&& post.running == pre.running
                        &&& post.id == pre.id
                        &&& post.session_id == pre.session_id
                        &&& post.history == pre.history
                        &&& post.pending == pre.pending
                        &&& post.delivered == pre.delivered
                        &&& post.actions == pre.actions
                        &&& post.nbrs == pre.nbrs.insert(n)
                        &&& post.routes == pre.routes.insert(
                            route_key(n),
                            direct_route(pre.id, n),
                        )
                    },
                    LeafCommand::RemoveSender(n) => {
                        let pre = old(self).state();
                        let post = final(self).state();
                        &&& post.running == pre.running
                        &&& post.id == pre.id
                        &&& post.session_id == pre.session_id
                        &&& post.history == pre.history
                        &&& post.pending == pre.pending
                        &&& post.delivered == pre.delivered
                        &&& post.actions == pre.actions
                        &&& if pre.nbrs.contains(n) {
                            post.nbrs == pre.nbrs.remove(n) && post.routes == pre.routes.remove(
                                route_key(n),
                            )
                        } else {
                            post.nbrs == pre.nbrs && post.routes == pre.routes
                        }
                    },
                    LeafCommand::Kill => {
                        let pre = old(self).state();
                        let post = final(self).state();
                        &&& !post.running
                        &&& post == EngineState { running: post.running, ..pre }
                    },
                },
                ServerEvent::Packet(p) => match p@.pack_type {
                    PacketTypeModel::MsgFragment(f) => fragment_step(
                        old(self).state(),
                        final(self).state(),
                        p@.routing_header,
                        p@.session_id,
                        f,
                    ),
                    PacketTypeModel::FloodRequest(q) => flood_step(
                        old(self).state(),
                        final(self).state(),
                        q,
                    ),
                    PacketTypeModel::Nack { fragment_index, nack_type } => nack_step(
                        old(self).state(),
                        final(self).state(),
                        p@.session_id,
                        fragment_index,
                        nack_type,
                    ),
                    _ => final(self).state() == old(self).state(),
                },
            },
    {
        match event {
            ServerEvent::Command(cmd) => match cmd {
                LeafCommand::RemoveSender(node_id) => {
                    if self.senders.remove_neighbor(node_id) {
                        let _ = self.senders.node_path.remove(make_route_key(node_id));
                    }
                },
                LeafCommand::AddSender(node_id) => {
                    self.senders.add_neighbor(node_id);
                    // Every freshly connected neighbor is immediately
                    // reachable without waiting for discovery.
                    let mut hops: Vec<NodeId> = Vec::new();
                    hops.push(self.id);
                    hops.push(node_id);
                    let route = Route::with_first_hop(hops);
                    proof {
                        assert(route@.hops =~= direct_route(self.id, node_id).hops);
                    }
                    self.senders.node_path.insert(make_route_key(node_id), route);
                },
                LeafCommand::Kill => {
                    self.running = false;
                },
            },
            ServerEvent::Packet(packet) => {
                let Packet { routing_header, session_id, pack_type } = packet;
                match pack_type {
                    PacketType::MsgFragment(fragment) => {
                        self.on_fragment(routing_header, session_id, fragment);
                    },
                    PacketType::FloodRequest(req) => {
                        self.on_flood_request(req);
                    },
                    PacketType::Nack { fragment_index, nack_type } => {
                        self.on_nack(session_id, fragment_index, nack_type);
                    },
                    PacketType::Ack { .. } => {
                        // A hook point for liveness bookkeeping; not
                        // required.
                    },
                    PacketType::FloodResponse(_) => {
                        // A leaf never floods, so a response is not
                        // handled: dropped.
                    },
                }
            },
        }
    }

}

/// Send a message to a node and receive all errors.  The message
/// is split into fragment packets over one session: the
/// controller is told the send starts, every fragment is recorded
/// in the send history and queued in order, and the controller is
/// told the send finished.
fn send_message_raw(
        from: NodeId,
        senders: &mut ServerSenders,
        to: NodeId,
        message: Message,
        fixed_session: Option<u64>,
    ) -> (r: Result<(), PrepareNodeSendError>)
        requires
            old(senders).wf(),
            fixed_session is None && old(senders).can_send_to(to) ==> old(senders).session_id
                < u64::MAX,
        ensures
            final(senders).wf(),
            final(senders).routes() == old(senders).routes(),
            final(senders).nbrs() == old(senders).nbrs(),
            match r {
                Ok(()) => {
                    &&& old(senders).can_send_to(to)
                    &&& final(senders).session_id == if fixed_session is None {
                        old(senders).session_id + 1
                    } else {
                        old(senders).session_id as int
                    }
                    &&& {
                        let sid = match fixed_session {
                            Some(s) => s,
                            None => final(senders).session_id,
                        };
                        let route = old(senders).routes()[route_key(to)];
                        let neighbor = hop_of(old(senders).routes(), to);
                        let frags = frags_of(enc_msg(message@));
                        &&& final(senders).actions() == old(senders).actions()
                            + msg_send_all_actions(from, to, route, neighbor, sid, message@)
                        &&& final(senders).hist() == hist_with_frags(
                            old(senders).hist(),
                            route,
                            sid,
                            frags,
                            frags.len() as int,
                        )
                    }
                },
                Err(e) => {
                    &&& !old(senders).can_send_to(to)
                    &&& final(senders).session_id == old(senders).session_id
                    &&& final(senders).hist() == old(senders).hist()
                    &&& final(senders).actions() == old(senders).actions()
                    &&& e matches PrepareNodeSendError::UnknownInfo(info) ==> info.node_id == to
                    &&& e matches PrepareNodeSendError::UnknownId(info) ==> info.node_id == to
                },
            },
    {
        let prepared = match senders.prepare_node_send(to, fixed_session.is_none()) {
            Ok(p) => p,
            Err(e) => {
                return Err(e);
            },
        };
        let session = match fixed_session {
            Some(s) => s,
            None => prepared.session,
        };
        let ghost route = prepared.routing@;
        let ghost mv = message@;
        // Inform the controller we are sending a message.
        senders.outbox.push(
            Action::ControllerEvent(
                LeafEvent::MessageStartSend {
                    start: from,
                    session,
                    dest: to,
                    message: message.clone(),
                },
            ),
        );
        let ghost a0 = senders.actions();
        let ghost h0 = senders.hist();
        proof {
            assert(a0 =~= old(senders).actions() + seq![
                ActionModel::ControllerEvent(
                    LeafEventModel::MessageStartSend {
                        start: from,
                        session,
                        dest: to,
                        message: mv,
                    },
                ),
            ]);
        }
        // Send the message split into fragment packets.
        let fragments = message.into_fragments();
        let ghost fragsv = frags_view(fragments@);
        let n = fragments.len();
        proof {
            assert(senders.actions() =~= a0 + msg_frag_actions(
                route,
                prepared.neighbor,
                session,
                fragsv,
                0,
            ));
            assert(senders.hist() =~= hist_with_frags(h0, route, session, fragsv, 0));
        }
        let mut i: usize = 0;
        while i < n
            invariant
                senders.wf(),
                n == fragments@.len(),
                fragsv == frags_view(fragments@),
                route == prepared.routing@,
                i <= n,
                senders.session_id == if fixed_session is None {
                    old(senders).session_id + 1
                } else {
                    old(senders).session_id as int
                },
                senders.routes() == old(senders).routes(),
                senders.nbrs() == old(senders).nbrs(),
                senders.hist() == hist_with_frags(h0, route, session, fragsv, i as int),
                senders.actions() == a0 + msg_frag_actions(
                    route,
                    prepared.neighbor,
                    session,
                    fragsv,
                    i as int,
                ),
            decreases n - i,
        {
            let frag = fragments[i].clone();
            senders.send_packet_raw(
                prepared.neighbor,
                Packet {
                    routing_header: prepared.routing.clone(),
                    session_id: session,
                    pack_type: PacketType::MsgFragment(frag),
                },
            );
            proof {
                assert(fragments@[i as int]@ == fragsv[i as int]);
                assert(senders.actions() =~= a0 + msg_frag_actions(
                    route,
                    prepared.neighbor,
                    session,
                    fragsv,
                    i as int + 1,
                ));
                assert(senders.hist() =~= hist_with_frags(
                    h0,
                    route,
                    session,
                    fragsv,
                    i as int + 1,
                ));
            }
            i = i + 1;
        }
        // Inform the controller the message is fully sent.
        senders.outbox.push(Action::ControllerEvent(LeafEvent::MessageFullySent(from, session)));
        proof {
            let start_ce = seq![
                ActionModel::ControllerEvent(
                    LeafEventModel::MessageStartSend {
                        start: from,
                        session,
                        dest: to,
                        message: mv,
                    },
                ),
            ];
            let full_ce = seq![
                ActionModel::ControllerEvent(LeafEventModel::MessageFullySent(from, session)),
            ];
            let m_n = msg_frag_actions(route, prepared.neighbor, session, fragsv, n as int);
            assert(senders.actions() =~= (a0 + m_n) + full_ce);
            assert(fragsv == frags_of(enc_msg(mv)));
            assert(fragsv.len() == n);
            assert(msg_send_all_actions(from, to, route, prepared.neighbor, session, mv)
                == (start_ce + m_n) + full_ce) by {
                assert(msg_send_all_actions(from, to, route, prepared.neighbor, session, mv)
                    =~= (start_ce + m_n) + full_ce);
            }
            assert(senders.actions() =~= old(senders).actions() + msg_send_all_actions(
                from,
                to,
                route,
                prepared.neighbor,
                session,
                mv,
            ));
        }
        Ok(())
    }

/// Send a message to a node and process all errors: failures to
/// resolve a route are noted and swallowed, so a caller can fire
/// and forget.
pub fn send_message(
        from: NodeId,
        senders: &mut ServerSenders,
        to: NodeId,
        message: Message,
        fixed_session: Option<u64>,
    )
        requires
            old(senders).wf(),
            fixed_session is None && old(senders).can_send_to(to) ==> old(senders).session_id
                < u64::MAX,
        ensures
            final(senders).wf(),
            final(senders).routes() == old(senders).routes(),
            final(senders).nbrs() == old(senders).nbrs(),
            final(senders).session_id >= old(senders).session_id,
            history_keys_preserved(old(senders).hist(), final(senders).hist()),
            final(senders).actions().len() >= old(senders).actions().len(),
            final(senders).actions().take(old(senders).actions().len() as int) == old(
                senders,
            ).actions(),
            msg_sends_only(final(senders).actions().skip(old(senders).actions().len() as int)),
            if old(senders).can_send_to(to) {
                &&& final(senders).session_id == if fixed_session is None {
                    old(senders).session_id + 1
                } else {
                    old(senders).session_id as int
                }
                &&& {
                    let sid = match fixed_session {
                        Some(s) => s,
                        None => final(senders).session_id,
                    };
                    let route = old(senders).routes()[route_key(to)];
                    let neighbor = hop_of(old(senders).routes(), to);
                    &&& final(senders).actions() == old(senders).actions()
                        + msg_send_all_actions(from, to, route, neighbor, sid, message@)
                    &&& final(senders).hist() == hist_with_frags(
                        old(senders).hist(),
                        route,
                        sid,
                        frags_of(enc_msg(message@)),
                        frags_of(enc_msg(message@)).len() as int,
                    )
                }
            } else {
                &&& final(senders).session_id == old(senders).session_id
                &&& final(senders).hist() == old(senders).hist()
                &&& final(senders).actions() == old(senders).actions()
            },
    {
        let ghost mv = message@;
        let res = send_message_raw(from, senders, to, message, fixed_session);
        proof {
            match res {
                Ok(()) => {
                    let sid = match fixed_session {
                        Some(s) => s,
                        None => senders.session_id,
                    };
                    let route = old(senders).routes()[route_key(to)];
                    let neighbor = hop_of(old(senders).routes(), to);
                    let frags = frags_of(enc_msg(mv));
                    lemma_hist_with_frags_keys(
                        old(senders).hist(),
                        route,
                        sid,
                        frags,
                        frags.len() as int,
                    );
                    let appended = msg_send_all_actions(from, to, route, neighbor, sid, mv);
                    assert(senders.actions().take(old(senders).actions().len() as int)
                        =~= old(senders).actions());
                    assert(senders.actions().skip(old(senders).actions().len() as int)
                        =~= appended);
                    let start_ce = seq![
                        ActionModel::ControllerEvent(
                            LeafEventModel::MessageStartSend {
                                start: from,
                                session: sid,
                                dest: to,
                                message: mv,
                            },
                        ),
                    ];
                    let full_ce = seq![
                        ActionModel::ControllerEvent(LeafEventModel::MessageFullySent(from, sid)),
                    ];
                    assert(msg_sends_only(start_ce));
                    assert(msg_sends_only(full_ce));
                    lemma_msg_frag_actions_sends_only(
                        route,
                        neighbor,
                        sid,
                        frags,
                        frags.len() as int,
                    );
                    lemma_msg_sends_only_concat(
                        start_ce,
                        msg_frag_actions(route, neighbor, sid, frags, frags.len() as int),
                    );
                    lemma_msg_sends_only_concat(
                        start_ce + msg_frag_actions(route, neighbor, sid, frags, frags.len() as int),
                        full_ce,
                    );
                    assert(appended =~= (start_ce + msg_frag_actions(
                        route,
                        neighbor,
                        sid,
                        frags,
                        frags.len() as int,
                    )) + full_ce);
                },
                Err(_) => {
                    assert(senders.actions().take(old(senders).actions().len() as int)
                        =~= old(senders).actions());
                    assert(senders.actions().skip(old(senders).actions().len() as int)
                        =~= Seq::<ActionModel>::empty());
                },
            }
        }
    }

/// Every fragment of a message send leaves an entry in the send
/// history under its (session, fragment index) key, holding that very
/// fragment packet.  The fragment groups the engine sends number
/// their fragments by position, which makes the keys distinct.
pub proof fn lemma_send_history_records(
    h: Map<u128, PacketModel>,
    route: RouteModel,
    sid: u64,
    frags: Seq<FragmentModel>,
    i: int,
)
    requires
        forall|k: int| 0 <= k < frags.len() ==> #[trigger] frags[k].fragment_index == k,
        i <= frags.len(),
    ensures
        forall|k: int|
            0 <= k < i ==> hist_with_frags(h, route, sid, frags, i).contains_key(
                history_key(sid, #[trigger] frags[k].fragment_index),
            ) && hist_with_frags(h, route, sid, frags, i)[history_key(
                sid,
                frags[k].fragment_index,
            )] == frag_packet(route, sid, frags[k]),
    decreases i,
{
    if i > 0 {
        lemma_send_history_records(h, route, sid, frags, i - 1);
        assert forall|k: int|
            0 <= k < i implies hist_with_frags(h, route, sid, frags, i).contains_key(
            history_key(sid, #[trigger] frags[k].fragment_index),
        ) && hist_with_frags(h, route, sid, frags, i)[history_key(
            sid,
            frags[k].fragment_index,
        )] == frag_packet(route, sid, frags[k]) by {
            if k < i - 1 && history_key(sid, frags[k].fragment_index) == history_key(
                sid,
                frags[i - 1].fragment_index,
            ) {
                crate::store::lemma_pair_key_injective(
                    sid,
                    frags[k].fragment_index,
                    sid,
                    frags[i - 1].fragment_index,
                );
            }
        }
    }
}

/// Removing a neighbor drops at most its own direct routing entry:
/// the stored route of every other peer — transit routes that happen
/// to begin with the removed neighbor included — is untouched.
pub proof fn lemma_remove_sender_keeps_transit(routes: Map<u128, RouteModel>, n: NodeId)
    ensures
        !routes.remove(route_key(n)).contains_key(route_key(n)),
        forall|p: NodeId|
            p != n ==> (#[trigger] routes.remove(route_key(n)).contains_key(route_key(p))
                <==> routes.contains_key(route_key(p))),
        forall|p: NodeId|
            p != n && routes.contains_key(route_key(p)) ==> #[trigger] routes.remove(
                route_key(n),
            )[route_key(p)] == routes[route_key(p)],
{
}

/// Did the send side go from `pre` to `post` by exactly one
/// [`send_message`] of `m` from `from_id` to `to` on the fixed
/// session `sid`?  If `to` cannot be routed, nothing happened.
pub open spec fn sent_reply(
    pre: ServerSenders,
    post: ServerSenders,
    from_id: NodeId,
    to: NodeId,
    m: MsgModel,
    sid: u64,
) -> bool {
    &&& post.session_id == pre.session_id
    &&& if pre.can_send_to(to) {
        let route = pre.routes()[route_key(to)];
        let neighbor = hop_of(pre.routes(), to);
        let frags = frags_of(enc_msg(m));
        &&& post.actions() == pre.actions() + msg_send_all_actions(from_id, to, route, neighbor, sid, m)
        &&& post.hist() == hist_with_frags(pre.hist(), route, sid, frags, frags.len() as int)
    } else {
        post.actions() == pre.actions() && post.hist() == pre.hist()
    }
}

/// Did the send side go from `pre` to `post` by exactly one
/// [`send_message`] of `m` from `from_id` to `to` on a freshly
/// allocated session?  If `to` cannot be routed, nothing happened.
pub open spec fn sent_fresh(
    pre: ServerSenders,
    post: ServerSenders,
    from_id: NodeId,
    to: NodeId,
    m: MsgModel,
) -> bool {
    if pre.can_send_to(to) {
        let sid = (pre.session_id + 1) as u64;
        let route = pre.routes()[route_key(to)];
        let neighbor = hop_of(pre.routes(), to);
        let frags = frags_of(enc_msg(m));
        &&& post.session_id == pre.session_id + 1
        &&& post.actions() == pre.actions() + msg_send_all_actions(from_id, to, route, neighbor, sid, m)
        &&& post.hist() == hist_with_frags(pre.hist(), route, sid, frags, frags.len() as int)
    } else {
        &&& post.session_id == pre.session_id
        &&& post.actions() == pre.actions()
        &&& post.hist() == pre.hist()
    }
}

/// A protocol that sends back any message it receives, unchanged, on
/// the session it arrived on.
pub struct EchoServer {}

impl EchoServer {
    /// A fresh echo protocol.
    pub fn new() -> (r: EchoServer) {
        EchoServer {}
    }
}

impl ServerProtocol for EchoServer {
    fn on_message(
        &mut self,
        server: NodeId,
        senders: &mut ServerSenders,
        from: NodeId,
        message: Message,
        session_id: u64,
    ) {
        send_message(server, senders, from, message, Some(session_id));
    }
}

} // verus!
