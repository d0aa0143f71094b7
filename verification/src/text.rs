//! The text protocol: a catalog of text files, each possibly
//! referring to media links.

use vstd::prelude::*;

use crate::message::{bytes_eq, FileModel, FileWithData, Link, Message, MsgModel};
use crate::server::{send_message, sent_reply, ServerProtocol, ServerSenders};
use crate::types::{NodeId, ServerType};

verus! {

/// Identification metadata announced with the server type.  It has no
/// behavioural meaning.
pub const TEXT_SERVER_UUID: u64 = 0x7465787420737276;

/// View of a file catalog as identifier/file pairs.
pub open spec fn files_view(s: Seq<(Link, FileWithData)>) -> Seq<(Seq<u8>, FileModel)> {
    s.map_values(|p: (Link, FileWithData)| (p.0@, p.1@))
}

/// The first file stored under this identifier, if any.
pub open spec fn lookup_file(fs: Seq<(Seq<u8>, FileModel)>, id: Seq<u8>) -> Option<FileModel>
    decreases fs.len(),
{
    if fs.len() == 0 {
        None
    } else if fs[0].0 == id {
        Some(fs[0].1)
    } else {
        lookup_file(fs.drop_first(), id)
    }
}

/// The identifiers of a file catalog, in storage order.
pub open spec fn file_ids(fs: Seq<(Seq<u8>, FileModel)>) -> Seq<Seq<u8>> {
    fs.map_values(|p: (Seq<u8>, FileModel)| p.0)
}

/// A text server: the files it hands out.
pub struct TextServer {
    /// Identification metadata announced with the server type.
    pub uuid: u64,
    /// Per file identifier, the stored file.
    pub file_map: Vec<(Link, FileWithData)>,
}

impl TextServer {
    /// A text server over the given files.
    pub fn new(file_map: Vec<(Link, FileWithData)>) -> (r: TextServer)
        ensures
            r.uuid == TEXT_SERVER_UUID,
            files_view(r.file_map@) == files_view(file_map@),
    {
        TextServer { uuid: TEXT_SERVER_UUID, file_map }
    }

    /// Position of the first file stored under `id`, if any.
    fn find_file(&self, id: &Vec<u8>) -> (r: Option<usize>)
        ensures
            match r {
                Some(i) => i < self.file_map@.len() && lookup_file(
                    files_view(self.file_map@),
                    id@,
                ) == Some(self.file_map@[i as int].1@),
                None => lookup_file(files_view(self.file_map@), id@) is None,
            },
    {
        let ghost fv = files_view(self.file_map@);
        proof {
            assert(fv.skip(0) =~= fv);
        }
        let mut i: usize = 0;
        while i < self.file_map.len()
            invariant
                fv == files_view(self.file_map@),
                i <= self.file_map@.len(),
                lookup_file(fv, id@) == lookup_file(fv.skip(i as int), id@),
            decreases self.file_map@.len() - i,
        {
            let hit = bytes_eq(&self.file_map[i].0, id);
            proof {
                assert(fv.skip(i as int)[0] == fv[i as int]);
                assert(fv.skip(i as int).drop_first() =~= fv.skip(i as int + 1));
            }
            if hit {
                return Some(i);
            }
            i = i + 1;
        }
        proof {
            assert(fv.skip(fv.len() as int).len() == 0);
        }
        None
    }

    /// The stored file identifiers as a list.
    fn file_list(&self) -> (r: Vec<Link>)
        ensures
            crate::message::links_view(r@) == file_ids(files_view(self.file_map@)),
    {
        let mut out: Vec<Link> = Vec::new();
        let mut i: usize = 0;
        while i < self.file_map.len()
            invariant
                i <= self.file_map@.len(),
                out@.len() == i as int,
                forall|j: int| 0 <= j < i as int ==> out@[j]@ == self.file_map@[j].0@,
            decreases self.file_map@.len() - i,
        {
            out.push(crate::message::clone_bytes(&self.file_map[i].0));
            i = i + 1;
        }
        proof {
            assert(crate::message::links_view(out@) =~= file_ids(files_view(self.file_map@)));
        }
        out
    }

    /// Process one inbound message.
    ///
    /// A server-type probe is answered with `Text`; a file listing
    /// returns the stored identifiers; a file request returns the
    /// stored file, or `ErrNotFound` exactly when the identifier is
    /// not in the catalog; anything else is answered with
    /// `ErrUnsupportedRequestType`.  Every answer echoes the
    /// request's session.
    pub fn handle_message(
        &mut self,
        server: NodeId,
        senders: &mut ServerSenders,
        from: NodeId,
        message: Message,
        session_id: u64,
    )
        requires
            old(senders).wf(),
            old(senders).session_id < u64::MAX,
        ensures
            final(senders).wf(),
            final(senders).session_id >= old(senders).session_id,
            final(senders).routes() == old(senders).routes(),
            final(senders).nbrs() == old(senders).nbrs(),
            crate::server::history_keys_preserved(old(senders).hist(), final(senders).hist()),
            final(senders).actions().len() >= old(senders).actions().len(),
            final(senders).actions().take(old(senders).actions().len() as int) == old(
                senders,
            ).actions(),
            crate::packet::msg_sends_only(
                final(senders).actions().skip(old(senders).actions().len() as int),
            ),
            *final(self) == *old(self),
            match message@ {
                MsgModel::ReqServerType => sent_reply(
                    *old(senders),
                    *final(senders),
                    server,
                    from,
                    MsgModel::RespServerType(ServerType::Text(old(self).uuid)),
                    session_id,
                ),
                MsgModel::ReqFilesList => sent_reply(
                    *old(senders),
                    *final(senders),
                    server,
                    from,
                    MsgModel::RespFilesList(file_ids(files_view(old(self).file_map@))),
                    session_id,
                ),
                MsgModel::ReqFile(id) => match lookup_file(files_view(old(self).file_map@), id) {
                    Some(f) => sent_reply(
                        *old(senders),
                        *final(senders),
                        server,
                        from,
                        MsgModel::RespFile(f),
                        session_id,
                    ),
                    None => sent_reply(
                        *old(senders),
                        *final(senders),
                        server,
                        from,
                        MsgModel::ErrNotFound,
                        session_id,
                    ),
                },
                _ => sent_reply(
                    *old(senders),
                    *final(senders),
                    server,
                    from,
                    MsgModel::ErrUnsupportedRequestType,
                    session_id,
                ),
            },
    {
        match message {
            Message::ReqServerType => {
                send_message(
                    server,
                    senders,
                    from,
                    Message::RespServerType(ServerType::Text(self.uuid)),
                    Some(session_id),
                );
            },
            Message::ReqFilesList => {
                // List the files present on this server.
                send_message(
                    server,
                    senders,
                    from,
                    Message::RespFilesList(self.file_list()),
                    Some(session_id),
                );
            },
            Message::ReqFile(id) => {
                match self.find_file(&id) {
                    // The file is present on this server.
                    Some(i) => {
                        let file = self.file_map[i].1.clone();
                        send_message(
                            server,
                            senders,
                            from,
                            Message::RespFile(file),
                            Some(session_id),
                        );
                    },
                    // No file is stored under that identifier.
                    None => {
                        send_message(server, senders, from, Message::ErrNotFound, Some(session_id));
                    },
                }
            },
            _ => {
                // Default response.
                send_message(
                    server,
                    senders,
                    from,
                    Message::ErrUnsupportedRequestType,
                    Some(session_id),
                );
            },
        }
    }
}

impl ServerProtocol for TextServer {
    fn on_message(
        &mut self,
        server: NodeId,
        senders: &mut ServerSenders,
        from: NodeId,
        message: Message,
        session_id: u64,
    ) {
        self.handle_message(server, senders, from, message, session_id);
    }
}

} // verus!
