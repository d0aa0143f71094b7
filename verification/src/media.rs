//! The media protocol: a store of media blobs served by link.

use vstd::prelude::*;

use crate::message::{bytes_eq, clone_bytes, Link, Media, Message, MsgModel};
use crate::server::{send_message, sent_reply, ServerProtocol, ServerSenders};
use crate::types::{NodeId, ServerType};

verus! {

/// Identification metadata announced with the server type.  It has no
/// behavioural meaning.
pub const MEDIA_SERVER_UUID: u64 = 0x6d65646961207372;

/// View of a media store as identifier/blob pairs.
pub open spec fn media_view(s: Seq<(Link, Media)>) -> Seq<(Seq<u8>, Seq<u8>)> {
    s.map_values(|p: (Link, Media)| (p.0@, p.1@))
}

/// The first blob stored under this identifier, if any.
pub open spec fn lookup_media(ms: Seq<(Seq<u8>, Seq<u8>)>, id: Seq<u8>) -> Option<Seq<u8>>
    decreases ms.len(),
{
    if ms.len() == 0 {
        None
    } else if ms[0].0 == id {
        Some(ms[0].1)
    } else {
        lookup_media(ms.drop_first(), id)
    }
}

/// A media server: the blobs it hands out.
pub struct MediaServer {
    /// Identification metadata announced with the server type.
    pub uuid: u64,
    /// Per link, the stored blob.
    pub media_map: Vec<(Link, Media)>,
}

impl MediaServer {
    /// A media server over the given blobs.
    pub fn new(media_map: Vec<(Link, Media)>) -> (r: MediaServer)
        ensures
            r.uuid == MEDIA_SERVER_UUID,
            media_view(r.media_map@) == media_view(media_map@),
    {
        MediaServer { uuid: MEDIA_SERVER_UUID, media_map }
    }

    /// Position of the first blob stored under `id`, if any.
    fn find_media(&self, id: &Vec<u8>) -> (r: Option<usize>)
        ensures
            match r {
                Some(i) => i < self.media_map@.len() && lookup_media(
                    media_view(self.media_map@),
                    id@,
                ) == Some(self.media_map@[i as int].1@),
                None => lookup_media(media_view(self.media_map@), id@) is None,
            },
    {
        let ghost mv = media_view(self.media_map@);
        proof {
            assert(mv.skip(0) =~= mv);
        }
        let mut i: usize = 0;
        while i < self.media_map.len()
            invariant
                mv == media_view(self.media_map@),
                i <= self.media_map@.len(),
                lookup_media(mv, id@) == lookup_media(mv.skip(i as int), id@),
            decreases self.media_map@.len() - i,
        {
            let hit = bytes_eq(&self.media_map[i].0, id);
            proof {
                assert(mv.skip(i as int)[0] == mv[i as int]);
                assert(mv.skip(i as int).drop_first() =~= mv.skip(i as int + 1));
            }
            if hit {
                return Some(i);
            }
            i = i + 1;
        }
        proof {
            assert(mv.skip(mv.len() as int).len() == 0);
        }
        None
    }

    /// Process one inbound message.
    ///
    /// A server-type probe is answered with `Media`; a media request
    /// returns the stored blob, or `ErrNotFound` exactly when the
    /// link is not in the store; anything else is answered with
    /// `ErrUnsupportedRequestType`.  Every answer echoes the
    /// request's session.
    pub fn handle_message(
        &mut self,
        server: NodeId,
        senders: &mut ServerSenders,
        from: NodeId,
        message: Message,
        session_id: u64,
    )
        requires
            old(senders).wf(),
            old(senders).session_id < u64::MAX,
        ensures
            final(senders).wf(),
            final(senders).session_id >= old(senders).session_id,
            final(senders).routes() == old(senders).routes(),
            final(senders).nbrs() == old(senders).nbrs(),
            crate::server::history_keys_preserved(old(senders).hist(), final(senders).hist()),
            final(senders).actions().len() >= old(senders).actions().len(),
            final(senders).actions().take(old(senders).actions().len() as int) == old(
                senders,
            ).actions(),
            crate::packet::msg_sends_only(
                final(senders).actions().skip(old(senders).actions().len() as int),
            ),
            *final(self) == *old(self),
            match message@ {
                MsgModel::ReqServerType => sent_reply(
                    *old(senders),
                    *final(senders),
                    server,
                    from,
                    MsgModel::RespServerType(ServerType::Media(old(self).uuid)),
                    session_id,
                ),
                MsgModel::ReqMedia(id) => match lookup_media(media_view(old(self).media_map@), id) {
                    Some(m) => sent_reply(
                        *old(senders),
                        *final(senders),
                        server,
                        from,
                        MsgModel::RespMedia(m),
                        session_id,
                    ),
                    None => sent_reply(
                        *old(senders),
                        *final(senders),
                        server,
                        from,
                        MsgModel::ErrNotFound,
                        session_id,
                    ),
                },
                _ => sent_reply(
                    *old(senders),
                    *final(senders),
                    server,
                    from,
                    MsgModel::ErrUnsupportedRequestType,
                    session_id,
                ),
            },
    {
        match message {
            Message::ReqServerType => {
                send_message(
                    server,
                    senders,
                    from,
                    Message::RespServerType(ServerType::Media(self.uuid)),
                    Some(session_id),
                );
            },
            Message::ReqMedia(id) => {
                match self.find_media(&id) {
                    // The blob is present on this server.
                    Some(i) => {
                        let media = clone_bytes(&self.media_map[i].1);
                        send_message(
                            server,
                            senders,
                            from,
                            Message::RespMedia(media),
                            Some(session_id),
                        );
                    },
                    // No blob is stored under that link.
                    None => {
                        send_message(server, senders, from, Message::ErrNotFound, Some(session_id));
                    },
                }
            },
            _ => {
                // Default response.
                send_message(
                    server,
                    senders,
                    from,
                    Message::ErrUnsupportedRequestType,
                    Some(session_id),
                );
            },
        }
    }
}

impl ServerProtocol for MediaServer {
    fn on_message(
        &mut self,
        server: NodeId,
        senders: &mut ServerSenders,
        from: NodeId,
        message: Message,
        session_id: u64,
    ) {
        self.handle_message(server, senders, from, message, session_id);
    }
}

} // verus!
