// Testing of the protocol-independent engine: fragmentation,
// acknowledgements, reassembly, flood handling, retransmission,
// controller commands and the message codec.

use leaf_server::chat::ChatServer;
use leaf_server::fragment::Fragment;
use leaf_server::message::{FileWithData, Message};
use leaf_server::packet::{Action, FloodRequest, Packet, PacketType};
use leaf_server::route::Route;
use leaf_server::server::{
    make_route_key, send_message, EchoServer, Server, ServerEvent, ServerSenders,
};
use leaf_server::store::{make_pair_key, KvStore};
use leaf_server::server::PreparedNodeSend;
use leaf_server::types::{
    LeafCommand, NackKind, NodeType, PrepareNodeSendError, UnknownNodeIdError,
    UnknownNodeInfoError,
};

const LOREM: &str = "Lorem ipsum dolor sit amet, consectetur adipiscing elit. Nullam non ultrices leo, ac dictum erat. In laoreet dui id augue placerat tempor. Aliquam nulla sem, tempor et aliquet tincidunt, iaculis eget lectus. Nam sagittis sodales augue in rhoncus. Sed eget augue at justo tempus dapibus. Nullam sodales diam ut eros finibus accumsan. Donec euismod eget odio eget suscipit. Suspendisse non sapien nec libero commodo euismod vitae vel orci. In sed ex sagittis, fringilla dui sed, gravida orci. Aliquam imperdiet vestibulum est, eget sagittis nibh porta vel. Pellentesque ut rhoncus nisl, vel varius purus. Proin mi sapien, bibendum eget quam eget, convallis euismod ex. Praesent fermentum lorem vitae tincidunt elementum. Pellentesque nisi orci, faucibus vitae neque eget, consequat vulputate tellus. Sed lacus nisl, consectetur at luctus vel, molestie at justo.

Donec a porta dolor. Phasellus vulputate risus nec porttitor dictum. Curabitur augue nulla, pharetra vel metus bibendum, sollicitudin posuere nunc. Vestibulum nec orci in turpis varius cursus. Suspendisse in suscipit dolor, non fringilla justo. Mauris ac quam dictum lorem interdum semper. Pellentesque velit erat, sagittis ultrices sapien id, vulputate consectetur justo.

Nullam porta scelerisque tortor at feugiat. Donec at elit sit amet sem ullamcorper luctus eget ac ante. Mauris diam libero, vestibulum ac elit sit amet, facilisis pharetra nibh. Cras mattis nulla a nunc lobortis aliquam. Nulla quis consequat odio. Vivamus elementum mattis pulvinar. Nunc mattis sem vel velit feugiat ornare. Ut porta nibh vitae ligula ultrices tristique. Duis ac lectus non augue laoreet commodo. Duis ac aliquet lacus, id maximus felis. Mauris finibus quam vitae felis egestas, id sollicitudin ligula vestibulum. Quisque dignissim massa sed tellus ultricies, sed tempus purus lobortis. Duis feugiat ligula nec diam ullamcorper malesuada.

Integer et consequat est. Ut aliquam urna ut scelerisque dignissim. Sed porta varius viverra. Mauris fermentum dictum metus, eget efficitur est euismod eu. Maecenas ut vestibulum eros. Etiam non sagittis dui. Cras tempus odio vitae est dapibus fermentum sed vitae tellus. Aenean lacus libero, elementum at consequat sit amet, mattis non ante. Mauris quis pellentesque ligula. Integer tempus fermentum vestibulum.

Etiam varius tortor vitae tincidunt rutrum. In tortor mauris, imperdiet malesuada cursus gravida, vehicula ut eros. Aliquam consequat mattis tincidunt. Integer dapibus lobortis ante, vitae suscipit mi rhoncus sit amet. Nunc eleifend venenatis euismod. Integer blandit tempus dapibus. Praesent vitae libero id lacus porttitor aliquet. Nam hendrerit sollicitudin libero, eget ultrices quam suscipit quis. Duis lacinia, sapien ut aliquam malesuada, turpis sapien lobortis ipsum, ut malesuada ligula arcu bibendum neque. Nullam sed libero eget diam eleifend sollicitudin non et mi. Curabitur vel ante non lacus placerat elementum id eget orci. Maecenas a dapibus nibh. Nam sed nulla quis lorem tincidunt sodales. Proin sit amet est augue. Sed leo ex, laoreet quis nulla eget, lacinia feugiat ex.";

/// The long chat message the fragmentation tests exercise.
fn lorem_message() -> Message {
    // Message can be fuzz tested for full coverage.
    Message::ReqChatSend {
        to: 0,
        chat_msg: String::from(LOREM).into_bytes(),
    }
}

/// The fragment packets among a drained action queue.
fn fragment_packets(actions: &mut Vec<Action>) -> Vec<Packet> {
    let mut out = Vec::new();
    for a in std::mem::take(actions) {
        if let Action::NeighborSend { packet, .. } = a {
            if matches!(packet.pack_type, PacketType::MsgFragment(_)) {
                out.push(packet);
            }
        }
    }
    out
}

/// The acknowledgement packets among a drained action queue.
fn neighbor_packets(actions: &Vec<Action>) -> Vec<&Packet> {
    let mut out = Vec::new();
    for a in actions {
        if let Action::NeighborSend { packet, .. } = a {
            out.push(packet);
        }
    }
    out
}

/// Reassemble a message from fragment packets.
fn message_of_packets(packets: Vec<Packet>) -> Message {
    let mut fragments = Vec::with_capacity(packets.len());
    for packet in packets {
        match packet.pack_type {
            PacketType::MsgFragment(fragment) => {
                fragments.push(fragment);
            }
            _ => panic!("Packet is not a fragment."),
        }
    }
    match Message::from_fragments(fragments) {
        Some(message) => message,
        None => panic!("Fragments are not a message."),
    }
}

#[test]
fn fragments() {
    let mut server = Server::create(0, vec![0], EchoServer::new());

    let message = lorem_message();
    let fragments = message.clone().into_fragments();
    let fragment_count = fragments.len();
    let session_id = 777;

    let mut echoed = Vec::new();
    for (i, fragment) in fragments.into_iter().enumerate() {
        server.update(ServerEvent::Packet(Packet::new_fragment(
            Route::with_first_hop(vec![0, 0]),
            session_id,
            fragment,
        )));
        let mut actions = server.take_actions();
        {
            let sent = neighbor_packets(&actions);
            assert!(!sent.is_empty(), "Did not receive packet (expected ACK)");
            let p = sent[0];
            assert_eq!(p.session_id, session_id);
            assert_eq!(
                p.pack_type,
                PacketType::Ack {
                    fragment_index: i as u64
                }
            );
        }
        echoed.append(&mut fragment_packets(&mut actions));
    }

    assert_eq!(echoed.len(), fragment_count);
    assert_eq!(message_of_packets(echoed), message);
}

#[test]
fn flood_request() {
    let mut server = Server::create(0, vec![0], EchoServer::new());

    let flood_id = 123;
    let path_trace = vec![(0, NodeType::Client)];
    let session_id = 777;
    server.update(ServerEvent::Packet(Packet::new_flood_request(
        Route::empty_route(),
        session_id,
        FloodRequest {
            flood_id,
            initiator_id: 0,
            path_trace: path_trace.clone(),
        },
    )));

    let actions = server.take_actions();
    let sent = neighbor_packets(&actions);
    assert!(!sent.is_empty(), "No packet could be received");
    match &sent[0].pack_type {
        PacketType::FloodResponse(resp) => {
            assert_eq!(resp.flood_id, flood_id);
            assert_eq!(
                resp.path_trace,
                [path_trace, vec![(0, NodeType::Server)]].concat()
            )
        }
        _ => panic!("Packet is not a flood response."),
    }

    // The routing table now holds the reversed-trace route to the
    // initiator.
    let route = server
        .senders
        .node_path
        .get(make_route_key(0))
        .expect("No route to the initiator was stored.");
    assert_eq!(route.hops, vec![0, 0]);
    assert_eq!(route.hop_index, 1);
}

#[test]
fn nack() {
    let mut server = Server::create(0, vec![0], EchoServer::new());

    let message = lorem_message();
    let fragments = message.clone().into_fragments();
    let fragment_count = fragments.len();
    let session_id = 777;

    let mut echoed = Vec::new();
    for (i, fragment) in fragments.clone().into_iter().enumerate() {
        server.update(ServerEvent::Packet(Packet::new_fragment(
            Route::with_first_hop(vec![0, 0]),
            session_id,
            fragment,
        )));
        let mut actions = server.take_actions();
        {
            let sent = neighbor_packets(&actions);
            assert!(!sent.is_empty(), "Did not receive packet (expected ACK)");
            assert_eq!(sent[0].session_id, session_id);
            assert_eq!(
                sent[0].pack_type,
                PacketType::Ack {
                    fragment_index: i as u64
                }
            );
        }
        echoed.append(&mut fragment_packets(&mut actions));
    }
    assert_eq!(echoed.len(), fragment_count);
    assert_eq!(message_of_packets(echoed), message);

    let nack_index = 2;
    server.update(ServerEvent::Packet(Packet::new_nack(
        Route::empty_route(),
        session_id,
        nack_index,
        NackKind::Dropped,
    )));

    let actions = server.take_actions();
    let sent = neighbor_packets(&actions);
    assert!(!sent.is_empty(), "No packet could be received");
    match &sent[0].pack_type {
        PacketType::MsgFragment(fragment) => {
            assert_eq!(fragment.fragment_index, nack_index);
            let index: usize = nack_index as usize;
            assert_eq!(*fragment, fragments[index]);
        }
        _ => panic!("Packet is not a fragment."),
    }
    // The session id was not incremented by the retransmission.
    assert_eq!(sent[0].session_id, session_id);
}

#[test]
fn server_type_probe() {
    // Peer 0 probes the server type on session 5 with a single
    // fragment over the route [0, self].
    let mut server = Server::create(1, vec![0], ChatServer::new(Vec::new()));

    let mut request_fragments = Message::ReqServerType.into_fragments();
    assert_eq!(request_fragments.len(), 1);
    server.update(ServerEvent::Packet(Packet::new_fragment(
        Route::with_first_hop(vec![0, 1]),
        5,
        request_fragments.remove(0),
    )));

    let actions = server.take_actions();
    let sent = neighbor_packets(&actions);
    assert_eq!(sent.len(), 2);
    // Exactly one acknowledgement first, then the reply fragment.
    assert_eq!(sent[0].session_id, 5);
    assert_eq!(sent[0].pack_type, PacketType::Ack { fragment_index: 0 });
    assert_eq!(sent[1].session_id, 5);
    match &sent[1].pack_type {
        PacketType::MsgFragment(fragment) => {
            match Message::from_fragments(vec![fragment.clone()]) {
                Some(Message::RespServerType(t)) => {
                    assert_eq!(t, leaf_server::types::ServerType::Chat)
                }
                m => panic!("Expected a server-type response, got {:?}", m),
            }
        }
        _ => panic!("Packet is not a fragment."),
    }
}

#[test]
fn multi_fragment_out_of_order() {
    // A three-fragment message does not reach the protocol until the
    // last fragment arrives, whatever the arrival order.
    let mut server = Server::create(0, vec![0], EchoServer::new());

    let message = Message::ReqChatSend {
        to: 0,
        chat_msg: vec![7; 300],
    };
    let fragments = message.clone().into_fragments();
    assert!(fragments.len() >= 3);
    let order = vec![2usize, 0, 1];

    let mut echoed = Vec::new();
    for (step, k) in order.iter().enumerate() {
        server.update(ServerEvent::Packet(Packet::new_fragment(
            Route::with_first_hop(vec![0, 0]),
            42,
            fragments[*k].clone(),
        )));
        let mut actions = server.take_actions();
        let echo_now = fragment_packets(&mut actions);
        if step + 1 < order.len() {
            assert!(
                echo_now.is_empty(),
                "The message was dispatched before the group was complete."
            );
        } else {
            echoed = echo_now;
        }
    }
    assert_eq!(message_of_packets(echoed), message);
}

#[test]
fn unexpected_recipient_nack() {
    // A fragment addressed to someone else provokes exactly one
    // refusal and touches no state.
    let mut server = Server::create(1, Vec::new(), ChatServer::new(Vec::new()));
    server.update(ServerEvent::Command(LeafCommand::AddSender(0)));
    let _ = server.take_actions();

    let mut fragments = Message::ReqServerType.into_fragments();
    server.update(ServerEvent::Packet(Packet::new_fragment(
        Route::with_first_hop(vec![0, 9]),
        42,
        fragments.remove(0),
    )));

    let actions = server.take_actions();
    let sent = neighbor_packets(&actions);
    assert_eq!(sent.len(), 1);
    assert_eq!(sent[0].session_id, 42);
    assert_eq!(
        sent[0].pack_type,
        PacketType::Nack {
            fragment_index: 0,
            nack_type: NackKind::UnexpectedRecipient(1)
        }
    );
    assert_eq!(server.senders.session_id, 0);
}

#[test]
fn remove_sender_keeps_transit_routes() {
    let mut server = Server::create(1, Vec::new(), EchoServer::new());
    server.update(ServerEvent::Command(LeafCommand::AddSender(2)));

    // A fragment from peer 3 arrives through neighbor 2 and teaches
    // the reverse path; its group stays incomplete.
    let fragment = Fragment {
        fragment_index: 0,
        total_n_fragments: 2,
        data: vec![1],
    };
    server.update(ServerEvent::Packet(Packet::new_fragment(
        Route::with_first_hop(vec![3, 2, 1]),
        8,
        fragment,
    )));
    let _ = server.take_actions();

    assert!(server.senders.node_path.get(make_route_key(2)).is_some());
    assert!(server.senders.node_path.get(make_route_key(3)).is_some());

    server.update(ServerEvent::Command(LeafCommand::RemoveSender(2)));

    // The direct route to 2 is gone; the transit route to 3, which
    // begins with 2, is kept.
    assert!(server.senders.node_path.get(make_route_key(2)).is_none());
    let transit = server
        .senders
        .node_path
        .get(make_route_key(3))
        .expect("The transit route was dropped.");
    assert_eq!(transit.hops, vec![1, 2, 3]);
}

#[test]
fn add_sender_stores_direct_route() {
    let mut server = Server::create(1, Vec::new(), EchoServer::new());
    server.update(ServerEvent::Command(LeafCommand::AddSender(5)));
    let route = server
        .senders
        .node_path
        .get(make_route_key(5))
        .expect("No direct route was stored.");
    assert_eq!(route.hops, vec![1, 5]);
    assert_eq!(route.hop_index, 1);
}

#[test]
fn kill_clears_running() {
    let mut server = Server::create(1, Vec::new(), EchoServer::new());
    assert!(server.running);
    server.update(ServerEvent::Command(LeafCommand::Kill));
    assert!(!server.running);
}

#[test]
fn sessions_strictly_monotonic() {
    let mut node_path: KvStore<Route> = KvStore::new();
    node_path.insert(make_route_key(0), Route::with_first_hop(vec![1, 0]));
    let mut senders = ServerSenders::with_node_path(vec![0], node_path);

    send_message(1, &mut senders, 0, Message::ReqChatClients, None);
    send_message(1, &mut senders, 0, Message::ReqChatClients, None);
    assert_eq!(senders.session_id, 2);

    let mut start_sessions = Vec::new();
    for a in std::mem::take(&mut senders.outbox) {
        if let Action::ControllerEvent(leaf_server::packet::LeafEvent::MessageStartSend {
            session,
            ..
        }) = a
        {
            start_sessions.push(session);
        }
    }
    assert_eq!(start_sessions, vec![1, 2]);
}

#[test]
fn send_history_holds_every_fragment() {
    let mut node_path: KvStore<Route> = KvStore::new();
    node_path.insert(make_route_key(0), Route::with_first_hop(vec![1, 0]));
    let mut senders = ServerSenders::with_node_path(vec![0], node_path);

    let message = lorem_message();
    let n = message.clone().into_fragments().len();
    send_message(1, &mut senders, 0, message, None);

    for i in 0..n {
        let packet = senders
            .history
            .get(make_pair_key(1, i as u64))
            .expect("A sent fragment is missing from the history.");
        match &packet.pack_type {
            PacketType::MsgFragment(f) => assert_eq!(f.fragment_index, i as u64),
            _ => panic!("A history entry is not a fragment packet."),
        }
    }
}

#[test]
fn prepare_errors() {
    // No route stored for the peer.
    let mut senders = ServerSenders::new(vec![0]);
    let r: Result<PreparedNodeSend, PrepareNodeSendError> = senders.prepare_node_send(9, false);
    assert_eq!(
        r.err(),
        Some(PrepareNodeSendError::UnknownInfo(UnknownNodeInfoError {
            node_id: 9
        }))
    );

    // A route whose current hop is out of range.
    let mut node_path: KvStore<Route> = KvStore::new();
    node_path.insert(make_route_key(9), Route::with_first_hop(vec![9]));
    let mut senders = ServerSenders::with_node_path(vec![0], node_path);
    let r = senders.prepare_node_send(9, false);
    assert_eq!(
        r.err(),
        Some(PrepareNodeSendError::UnknownInfo(UnknownNodeInfoError {
            node_id: 9
        }))
    );

    // A resolvable hop without a send endpoint.
    let mut node_path: KvStore<Route> = KvStore::new();
    node_path.insert(make_route_key(9), Route::with_first_hop(vec![1, 9]));
    let mut senders = ServerSenders::with_node_path(vec![0], node_path);
    let r = senders.prepare_node_send(9, false);
    assert_eq!(
        r.err(),
        Some(PrepareNodeSendError::UnknownId(UnknownNodeIdError {
            node_id: 9
        }))
    );
}

#[test]
fn message_roundtrip_all_variants() {
    let file = FileWithData {
        file: String::from("# Title").into_bytes(),
        related_data: vec![(String::from("pic.jpeg").into_bytes(), 99)],
    };
    let cases = vec![
        Message::ReqServerType,
        Message::ReqFilesList,
        Message::ReqFile(String::from("x").into_bytes()),
        Message::ReqMedia(String::from("m").into_bytes()),
        Message::ReqChatRegistration,
        Message::ReqChatClients,
        Message::ReqChatSend {
            to: 7,
            chat_msg: String::from("hello").into_bytes(),
        },
        Message::RespServerType(leaf_server::types::ServerType::Chat),
        Message::RespServerType(leaf_server::types::ServerType::Text(5)),
        Message::RespServerType(leaf_server::types::ServerType::Media(6)),
        Message::RespFilesList(vec![
            String::from("a").into_bytes(),
            String::from("bb").into_bytes(),
        ]),
        Message::RespFile(file),
        Message::RespMedia(vec![9; 200]),
        Message::RespClientList(vec![1, 2, 3]),
        Message::RespChatFrom {
            from: 3,
            chat_msg: String::from("hi").into_bytes(),
        },
        Message::ErrUnsupportedRequestType,
        Message::ErrNotFound,
        Message::ErrNotExistentClient,
    ];
    for m in cases {
        let rebuilt = Message::from_fragments(m.clone().into_fragments());
        assert_eq!(rebuilt, Some(m));
    }
}

#[test]
fn encoding_exact_bytes() {
    // A server-type request is a single tag byte.
    let frags = Message::ReqServerType.into_fragments();
    assert_eq!(frags.len(), 1);
    assert_eq!(frags[0].fragment_index, 0);
    assert_eq!(frags[0].total_n_fragments, 1);
    assert_eq!(frags[0].data, vec![0u8]);

    // A file request is its tag, a little-endian length, and the
    // identifier's bytes.
    let frags = Message::ReqFile(vec![97, 98]).into_fragments();
    assert_eq!(frags.len(), 1);
    assert_eq!(frags[0].data, vec![5u8, 2, 0, 0, 0, 0, 0, 0, 0, 97, 98]);
}

#[test]
fn decode_rejects_garbage() {
    // An unknown tag does not parse.
    let garbage = Fragment {
        fragment_index: 0,
        total_n_fragments: 1,
        data: vec![255],
    };
    assert_eq!(Message::from_fragments(vec![garbage]), None);

    // An incomplete group does not parse.
    let lonely = Fragment {
        fragment_index: 0,
        total_n_fragments: 2,
        data: vec![0],
    };
    assert_eq!(Message::from_fragments(vec![lonely]), None);

    // An empty group does not parse.
    assert_eq!(Message::from_fragments(Vec::new()), None);
}

#[test]
fn flood_trace_omits_initiator() {
    // The initiator did not stamp itself into the trace: the stored
    // return route gets the initiator appended.
    let mut server = Server::create(1, vec![3], EchoServer::new());

    server.update(ServerEvent::Packet(Packet::new_flood_request(
        Route::empty_route(),
        0,
        FloodRequest {
            flood_id: 9,
            initiator_id: 0,
            path_trace: vec![(3, NodeType::Drone)],
        },
    )));

    let actions = server.take_actions();
    let sent = neighbor_packets(&actions);
    assert_eq!(sent.len(), 1);
    match &sent[0].pack_type {
        PacketType::FloodResponse(resp) => {
            assert_eq!(resp.flood_id, 9);
            assert_eq!(
                resp.path_trace,
                vec![(3, NodeType::Drone), (1, NodeType::Server)]
            );
        }
        _ => panic!("Packet is not a flood response."),
    }

    let route = server
        .senders
        .node_path
        .get(make_route_key(0))
        .expect("No route to the initiator was stored.");
    assert_eq!(route.hops, vec![1, 3, 0]);
    assert_eq!(route.hop_index, 1);
}

#[test]
fn nack_without_history_entry() {
    // A drop report for a packet that was never sent changes nothing.
    let mut server = Server::create(0, vec![0], EchoServer::new());
    server.update(ServerEvent::Packet(Packet::new_nack(
        Route::empty_route(),
        5,
        0,
        NackKind::Dropped,
    )));
    assert!(server.take_actions().is_empty());
}

#[test]
fn nack_of_other_kind_is_dropped() {
    let mut server = Server::create(0, vec![0], EchoServer::new());
    server.update(ServerEvent::Packet(Packet::new_nack(
        Route::empty_route(),
        5,
        0,
        NackKind::DestinationIsDrone,
    )));
    assert!(server.take_actions().is_empty());
}

#[test]
fn fragment_without_source_is_dropped() {
    // A fragment with an empty routing header is malformed: nothing
    // happens.
    let mut server = Server::create(0, vec![0], EchoServer::new());
    let mut fragments = Message::ReqServerType.into_fragments();
    server.update(ServerEvent::Packet(Packet::new_fragment(
        Route::empty_route(),
        5,
        fragments.remove(0),
    )));
    assert!(server.take_actions().is_empty());
}

#[test]
fn unhandled_packet_kinds_are_dropped() {
    // Inbound acknowledgements and flood responses are not the
    // engine's to handle.
    let mut server = Server::create(0, vec![0], EchoServer::new());
    server.update(ServerEvent::Packet(Packet {
        routing_header: Route::empty_route(),
        session_id: 5,
        pack_type: PacketType::Ack { fragment_index: 0 },
    }));
    assert!(server.take_actions().is_empty());

    server.update(ServerEvent::Packet(Packet {
        routing_header: Route::empty_route(),
        session_id: 5,
        pack_type: PacketType::FloodResponse(leaf_server::packet::FloodResponse {
            flood_id: 1,
            path_trace: Vec::new(),
        }),
    }));
    assert!(server.take_actions().is_empty());
}

#[test]
fn remove_unknown_sender_changes_nothing() {
    let mut server = Server::create(1, vec![2], EchoServer::new());
    server.update(ServerEvent::Command(LeafCommand::AddSender(2)));
    let _ = server.take_actions();

    server.update(ServerEvent::Command(LeafCommand::RemoveSender(9)));
    assert!(server.take_actions().is_empty());
    assert!(server.senders.node_path.get(make_route_key(2)).is_some());
}
