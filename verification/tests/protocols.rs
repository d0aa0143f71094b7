// Testing of the chat, text and media protocol implementations.

use leaf_server::chat::ChatServer;
use leaf_server::media::MediaServer;
use leaf_server::message::{FileWithData, Message};
use leaf_server::packet::{Action, Packet, PacketType};
use leaf_server::route::Route;
use leaf_server::server::{make_route_key, ServerProtocol, ServerSenders};
use leaf_server::store::KvStore;
use leaf_server::text::TextServer;
use leaf_server::types::ServerType;

/// A send side with one neighbor (node 0) and a stored route to it.
fn setup_node0() -> ServerSenders {
    let mut node_path: KvStore<Route> = KvStore::new();
    node_path.insert(make_route_key(0), Route::with_first_hop(vec![0, 0]));
    ServerSenders::with_node_path(vec![0], node_path)
}

/// Drain the queued fragment packets handed to neighbors.
fn sent_fragment_packets(senders: &mut ServerSenders) -> Vec<Packet> {
    let actions = std::mem::take(&mut senders.outbox);
    let mut out = Vec::new();
    for a in actions {
        if let Action::NeighborSend { packet, .. } = a {
            if matches!(packet.pack_type, PacketType::MsgFragment(_)) {
                out.push(packet);
            }
        }
    }
    out
}

fn panic_to_message(packet: Packet) -> Message {
    match packet.pack_type {
        PacketType::MsgFragment(fragment) => match Message::from_fragments(vec![fragment]) {
            Some(message) => message,
            None => panic!("Fragment is not a message."),
        },
        _ => panic!("Packet is not a fragment."),
    }
}

fn assert_eq_message(packet: Packet, expected_message: Message) {
    assert_eq!(panic_to_message(packet), expected_message)
}

fn test_on_message<T: ServerProtocol>(server: &mut T, message: Message, response: Message) {
    let mut senders = setup_node0();

    server.on_message(0, &mut senders, 0, message, 0);

    let mut packets = sent_fragment_packets(&mut senders);
    assert!(!packets.is_empty(), "No packet was sent.");
    assert_eq_message(packets.remove(0), response);
}

fn test_on_message_fn<T: ServerProtocol>(
    server: &mut T,
    message: Message,
    check: Box<dyn FnOnce(Message)>,
) {
    let mut senders = setup_node0();

    server.on_message(0, &mut senders, 0, message, 0);

    let mut packets = sent_fragment_packets(&mut senders);
    assert!(!packets.is_empty(), "No packet was sent.");
    check(panic_to_message(packets.remove(0)));
}

#[test]
fn chat_server_type() {
    let mut server = ChatServer::new(Vec::new());
    test_on_message(
        &mut server,
        Message::ReqServerType,
        Message::RespServerType(ServerType::Chat),
    );
}

#[test]
fn chat_registration() {
    let mut senders = setup_node0();

    let mut server = ChatServer::new(Vec::new());

    server.on_message(0, &mut senders, 0, Message::ReqChatRegistration, 0);
    server.on_message(0, &mut senders, 0, Message::ReqChatClients, 1);

    let mut packets = sent_fragment_packets(&mut senders);
    assert!(!packets.is_empty(), "No packet was sent.");
    assert_eq_message(packets.remove(0), Message::RespClientList(vec![0]));
}

#[test]
fn chat_clients() {
    let ids = [1, 42, 123];
    let mut server = ChatServer::new(vec![1, 42, 123]);
    test_on_message_fn(
        &mut server,
        Message::ReqChatClients,
        Box::new(move |message| match message {
            Message::RespClientList(mut resp_ids) => {
                resp_ids.sort();
                assert_eq!(resp_ids, ids)
            }
            _ => panic!("Message was not of type RespClientList"),
        }),
    );
}

#[test]
fn chat_send() {
    let to = 0;
    let chat_msg = String::from("Hello, World!").into_bytes();
    let mut server = ChatServer::new(vec![0]);
    test_on_message(
        &mut server,
        Message::ReqChatSend {
            to,
            chat_msg: chat_msg.clone(),
        },
        Message::RespChatFrom { from: to, chat_msg },
    );
}

#[test]
fn chat_send_not_found() {
    let to = 0;
    let chat_msg = String::from("Hello, World!").into_bytes();
    let mut server = ChatServer::new(Vec::new());
    test_on_message(
        &mut server,
        Message::ReqChatSend { to, chat_msg },
        Message::ErrNotExistentClient,
    );
}

#[test]
fn media_server_type() {
    let mut server = MediaServer::new(Vec::new());
    test_on_message_fn(
        &mut server,
        Message::ReqServerType,
        Box::new(|message| match message {
            Message::RespServerType(ServerType::Media(_)) => {}
            m => {
                panic!("Response is not resp server type media. {:?}", m);
            }
        }),
    );
}

#[test]
fn media() {
    let id = String::from("test").into_bytes();
    let media = vec![1, 2, 3, 4, 5];
    let mut server = MediaServer::new(vec![(id.clone(), media.clone())]);
    test_on_message(
        &mut server,
        Message::ReqMedia(id),
        Message::RespMedia(media),
    );
}

#[test]
fn media_media_not_found() {
    let id = String::from("test").into_bytes();
    let mut server = MediaServer::new(Vec::new());
    test_on_message(&mut server, Message::ReqMedia(id), Message::ErrNotFound);
}

#[test]
fn text_server_type() {
    let mut server = TextServer::new(Vec::new());
    test_on_message_fn(
        &mut server,
        Message::ReqServerType,
        Box::new(|message| match message {
            Message::RespServerType(ServerType::Text(_)) => {}
            m => {
                panic!("Response is not resp server type text. {:?}", m);
            }
        }),
    );
}

#[test]
fn file_list() {
    // NOTE: Should be sorted in order!
    let ids = vec![
        String::from("demo").into_bytes(),
        String::from("test").into_bytes(),
        String::from("🍌").into_bytes(),
    ];
    let file = FileWithData {
        file: String::from("Hello, World!").into_bytes(),
        related_data: Vec::new(),
    };
    let mut file_map = Vec::new();
    for id in ids.iter() {
        file_map.push((id.clone(), file.clone()));
    }
    let mut server = TextServer::new(file_map);
    test_on_message_fn(
        &mut server,
        Message::ReqFilesList,
        Box::new(move |message| match message {
            Message::RespFilesList(mut resp_ids) => {
                resp_ids.sort();
                assert_eq!(resp_ids, ids)
            }
            m => panic!("Message was not of type RespFilesList. {:?}", m),
        }),
    );
}

#[test]
fn file() {
    let id = String::from("test").into_bytes();
    let file = FileWithData {
        file: String::from("Hello World!").into_bytes(),
        related_data: Vec::new(),
    };
    let mut server = TextServer::new(vec![(id.clone(), file.clone())]);
    test_on_message(&mut server, Message::ReqFile(id), Message::RespFile(file));
}

#[test]
fn text_media_not_found() {
    let id = String::from("test").into_bytes();
    let mut server = TextServer::new(Vec::new());
    test_on_message(&mut server, Message::ReqFile(id), Message::ErrNotFound);
}

#[test]
fn chat_unsupported_request() {
    let mut server = ChatServer::new(Vec::new());
    test_on_message(
        &mut server,
        Message::ReqFilesList,
        Message::ErrUnsupportedRequestType,
    );
}

#[test]
fn chat_registration_idempotent() {
    let mut senders = setup_node0();

    let mut server = ChatServer::new(Vec::new());

    server.on_message(0, &mut senders, 0, Message::ReqChatRegistration, 0);
    server.on_message(0, &mut senders, 0, Message::ReqChatRegistration, 1);
    server.on_message(0, &mut senders, 0, Message::ReqChatClients, 2);

    let mut packets = sent_fragment_packets(&mut senders);
    assert!(!packets.is_empty(), "No packet was sent.");
    assert_eq_message(packets.remove(0), Message::RespClientList(vec![0]));
}

#[test]
fn chat_registration_then_listing() {
    let mut node_path: KvStore<Route> = KvStore::new();
    for peer in [1u8, 42, 123] {
        node_path.insert(make_route_key(peer), Route::with_first_hop(vec![0, peer]));
    }
    let mut senders = ServerSenders::with_node_path(vec![1, 42, 123], node_path);
    let mut server = ChatServer::new(Vec::new());

    for peer in [1u8, 42, 123] {
        server.on_message(0, &mut senders, peer, Message::ReqChatRegistration, 0);
    }
    server.on_message(0, &mut senders, 1, Message::ReqChatClients, 9);

    let actions = std::mem::take(&mut senders.outbox);
    let mut reply_fragments = Vec::new();
    for a in actions {
        if let Action::NeighborSend { packet, .. } = a {
            if matches!(packet.pack_type, PacketType::MsgFragment(_)) {
                assert_eq!(packet.session_id, 9);
                if let PacketType::MsgFragment(f) = packet.pack_type {
                    reply_fragments.push(f);
                }
            }
        }
    }
    assert!(!reply_fragments.is_empty(), "No reply was sent.");
    match Message::from_fragments(reply_fragments) {
        Some(Message::RespClientList(mut ids)) => {
            ids.sort();
            assert_eq!(ids, vec![1, 42, 123]);
        }
        m => panic!("Expected a client list, got {:?}", m),
    }
}

#[test]
fn chat_relay_to_unknown() {
    let mut node_path: KvStore<Route> = KvStore::new();
    node_path.insert(make_route_key(5), Route::with_first_hop(vec![0, 5]));
    node_path.insert(make_route_key(7), Route::with_first_hop(vec![0, 7]));
    let mut senders = ServerSenders::with_node_path(vec![5, 7], node_path);
    let mut server = ChatServer::new(Vec::new());

    server.on_message(
        0,
        &mut senders,
        5,
        Message::ReqChatSend {
            to: 7,
            chat_msg: String::from("hi").into_bytes(),
        },
        3,
    );

    let actions = std::mem::take(&mut senders.outbox);
    let mut replies = Vec::new();
    for a in actions {
        if let Action::NeighborSend { neighbor, packet, .. } = a {
            assert_ne!(neighbor, 7, "Nothing may be sent toward the unknown client.");
            if matches!(packet.pack_type, PacketType::MsgFragment(_)) {
                assert_eq!(neighbor, 5);
                assert_eq!(packet.session_id, 3);
                replies.push(packet);
            }
        }
    }
    assert_eq!(replies.len(), 1);
    assert_eq_message(replies.remove(0), Message::ErrNotExistentClient);
}
