//! The chat protocol: a registry of connected clients, a client
//! listing, and client-to-client message relay.

use vstd::prelude::*;

use crate::message::{Message, MsgModel};
use crate::server::{lemma_push_contains, send_message, sent_fresh, sent_reply, ServerProtocol,
    ServerSenders};
use crate::types::{NodeId, ServerType};

verus! {

/// A chat server: the set of clients that have registered themselves.
pub struct ChatServer {
    /// The registered clients, each recorded once.
    pub connected_clients: Vec<NodeId>,
}

impl ChatServer {
    /// The set of registered clients.
    pub open spec fn clients(&self) -> Set<NodeId> {
        Set::new(|n: NodeId| self.connected_clients@.contains(n))
    }

    /// A chat server over the given initial clients.
    pub fn new(connected_clients: Vec<NodeId>) -> (r: ChatServer)
        ensures
            forall|n: NodeId| r.clients().contains(n) <==> connected_clients@.contains(n),
    {
        let mut r = ChatServer { connected_clients: Vec::new() };
        let mut i: usize = 0;
        while i < connected_clients.len()
            invariant
                i <= connected_clients.len(),
                forall|n: NodeId|
                    r.clients().contains(n) <==> connected_clients@.subrange(
                        0,
                        i as int,
                    ).contains(n),
            decreases connected_clients.len() - i,
        {
            let ghost pre = r;
            r.register(connected_clients[i]);
            proof {
                assert(connected_clients@.subrange(0, i as int + 1) =~= connected_clients@.subrange(
                    0,
                    i as int,
                ).push(connected_clients@[i as int]));
                assert forall|n: NodeId|
                    r.clients().contains(n) <==> connected_clients@.subrange(
                        0,
                        i as int + 1,
                    ).contains(n) by {
                    lemma_push_contains(
                        connected_clients@.subrange(0, i as int),
                        connected_clients@[i as int],
                        n,
                    );
                    assert(r.clients() == pre.clients().insert(connected_clients@[i as int]));
                }
            }
            i = i + 1;
        }
        proof {
            assert(connected_clients@.subrange(0, connected_clients@.len() as int)
                =~= connected_clients@);
        }
        r
    }

    /// Record a client; registering an already known client changes
    /// nothing.
    fn register(&mut self, client: NodeId)
        ensures
            final(self).clients() == old(self).clients().insert(client),
    {
        let mut i: usize = 0;
        while i < self.connected_clients.len()
            invariant
                *self == *old(self),
                i <= self.connected_clients@.len(),
                forall|x: int| 0 <= x < i as int ==> self.connected_clients@[x] != client,
            decreases self.connected_clients@.len() - i,
        {
            if self.connected_clients[i] == client {
                proof {
                    assert(self.clients() =~= old(self).clients().insert(client));
                }
                return;
            }
            i = i + 1;
        }
        self.connected_clients.push(client);
        proof {
            assert forall|m: NodeId|
                self.clients().contains(m) <==> old(self).clients().insert(client).contains(
                    m,
                ) by {
                lemma_push_contains(old(self).connected_clients@, client, m);
            }
            assert(self.clients() =~= old(self).clients().insert(client));
        }
    }

    /// Is this client registered?
    fn is_registered(&self, client: NodeId) -> (r: bool)
        ensures
            r == self.clients().contains(client),
    {
        let mut i: usize = 0;
        while i < self.connected_clients.len()
            invariant
                i <= self.connected_clients@.len(),
                forall|x: int| 0 <= x < i as int ==> self.connected_clients@[x] != client,
            decreases self.connected_clients@.len() - i,
        {
            if self.connected_clients[i] == client {
                return true;
            }
            i = i + 1;
        }
        false
    }

    /// The registered clients as a list.
    fn client_list(&self) -> (r: Vec<NodeId>)
        ensures
            r@ == self.connected_clients@,
    {
        let mut out: Vec<NodeId> = Vec::new();
        let mut i: usize = 0;
        while i < self.connected_clients.len()
            invariant
                i <= self.connected_clients@.len(),
                out@ == self.connected_clients@.subrange(0, i as int),
            decreases self.connected_clients@.len() - i,
        {
            out.push(self.connected_clients[i]);
            i = i + 1;
        }
        proof {
            assert(out@ =~= self.connected_clients@);
        }
        out
    }

    /// Process one inbound message.
    ///
    /// A server-type probe is answered with `Chat`; a registration
    /// records the sender and sends nothing back; a client listing
    /// returns the registered clients; a chat relay forwards to the
    /// addressee if it is registered and reports
    /// `ErrNotExistentClient` to the sender otherwise; anything else
    /// is answered with `ErrUnsupportedRequestType`.
    pub fn handle_message(
        &mut self,
        server: NodeId,
        senders: &mut ServerSenders,
        from: NodeId,
        message: Message,
        session_id: u64,
    )
        requires
            old(senders).wf(),
            old(senders).session_id < u64::MAX,
        ensures
            final(senders).wf(),
            final(senders).session_id >= old(senders).session_id,
            final(senders).routes() == old(senders).routes(),
            final(senders).nbrs() == old(senders).nbrs(),
            crate::server::history_keys_preserved(old(senders).hist(), final(senders).hist()),
            final(senders).actions().len() >= old(senders).actions().len(),
            final(senders).actions().take(old(senders).actions().len() as int) == old(
                senders,
            ).actions(),
            crate::packet::msg_sends_only(
                final(senders).actions().skip(old(senders).actions().len() as int),
            ),
            match message@ {
                MsgModel::ReqServerType => {
                    &&& *final(self) == *old(self)
                    &&& sent_reply(
                        *old(senders),
                        *final(senders),
                        server,
                        from,
                        MsgModel::RespServerType(ServerType::Chat),
                        session_id,
                    )
                },
                MsgModel::ReqChatRegistration => {
                    &&& final(self).clients() == old(self).clients().insert(from)
                    &&& final(senders).actions() == old(senders).actions()
                    &&& final(senders).hist() == old(senders).hist()
                    &&& final(senders).session_id == old(senders).session_id
                },
                MsgModel::ReqChatClients => {
                    &&& *final(self) == *old(self)
                    &&& sent_reply(
                        *old(senders),
                        *final(senders),
                        server,
                        from,
                        MsgModel::RespClientList(old(self).connected_clients@),
                        session_id,
                    )
                },
                MsgModel::ReqChatSend { to, chat_msg } => {
                    &&& *final(self) == *old(self)
                    &&& if old(self).clients().contains(to) {
                        sent_fresh(
                            *old(senders),
                            *final(senders),
                            server,
                            to,
                            MsgModel::RespChatFrom { from, chat_msg },
                        )
                    } else {
                        sent_reply(
                            *old(senders),
                            *final(senders),
                            server,
                            from,
                            MsgModel::ErrNotExistentClient,
                            session_id,
                        )
                    }
                },
                _ => {
                    &&& *final(self) == *old(self)
                    &&& sent_reply(
                        *old(senders),
                        *final(senders),
                        server,
                        from,
                        MsgModel::ErrUnsupportedRequestType,
                        session_id,
                    )
                },
            },
    {
        match message {
            Message::ReqServerType => {
                send_message(
                    server,
                    senders,
                    from,
                    Message::RespServerType(ServerType::Chat),
                    Some(session_id),
                );
            },
            Message::ReqChatRegistration => {
                // Add the sender to the known clients; no direct
                // response is owed.
                self.register(from);
            },
            Message::ReqChatClients => {
                // List the known clients.
                send_message(
                    server,
                    senders,
                    from,
                    Message::RespClientList(self.client_list()),
                    Some(session_id),
                );
            },
            Message::ReqChatSend { to, chat_msg } => {
                if !self.is_registered(to) {
                    // The addressee has not registered itself.
                    send_message(
                        server,
                        senders,
                        from,
                        Message::ErrNotExistentClient,
                        Some(session_id),
                    );
                } else {
                    // Forward the message to the known client.
                    send_message(
                        server,
                        senders,
                        to,
                        Message::RespChatFrom { from, chat_msg },
                        None,
                    );
                }
            },
            _ => {
                // Default response.
                send_message(
                    server,
                    senders,
                    from,
                    Message::ErrUnsupportedRequestType,
                    Some(session_id),
                );
            },
        }
    }
}

impl ServerProtocol for ChatServer {
    fn on_message(
        &mut self,
        server: NodeId,
        senders: &mut ServerSenders,
        from: NodeId,
        message: Message,
        session_id: u64,
    ) {
        self.handle_message(server, senders, from, message, session_id);
    }
}

/// Registering a peer a second time leaves the client set exactly as
/// it stood after the first registration.
pub proof fn lemma_registration_idempotent(clients: Set<NodeId>, peer: NodeId)
    ensures
        clients.insert(peer).insert(peer) == clients.insert(peer),
{
    assert(clients.insert(peer).insert(peer) =~= clients.insert(peer));
}

} // verus!
