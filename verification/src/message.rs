//! Application messages: the tagged union of request, response and
//! error variants exchanged between leaves, together with its
//! mathematical model.
//!
//! Text payloads (chat messages, file identifiers, file bodies, media
//! blobs) are carried as plain byte strings.

use vstd::prelude::*;

use crate::types::{NodeId, ServerType};

verus! {

/// Identifier of a file or media blob, as a byte string.
pub type Link = Vec<u8>;

/// A media blob.
pub type Media = Vec<u8>;

/// Mathematical value of a [`FileWithData`].
pub struct FileModel {
    pub file: Seq<u8>,
    pub related_data: Seq<(Seq<u8>, u64)>,
}

/// A text file together with the media links it refers to, each paired
/// with the identification metadata of the media server that owns it.
#[derive(PartialEq, Eq, Debug)]
pub struct FileWithData {
    pub file: Vec<u8>,
    pub related_data: Vec<(Link, u64)>,
}

/// View of a sequence of links as a sequence of byte strings.
pub open spec fn links_view(l: Seq<Link>) -> Seq<Seq<u8>> {
    l.map_values(|x: Link| x@)
}

/// View of link/metadata pairs as pairs of byte strings and integers.
pub open spec fn pairs_view(l: Seq<(Link, u64)>) -> Seq<(Seq<u8>, u64)> {
    l.map_values(|x: (Link, u64)| (x.0@, x.1))
}

impl View for FileWithData {
    type V = FileModel;

    open spec fn view(&self) -> FileModel {
        FileModel { file: self.file@, related_data: pairs_view(self.related_data@) }
    }
}

/// Mathematical value of a [`Message`].
pub enum MsgModel {
    ReqServerType,
    ReqFilesList,
    ReqFile(Seq<u8>),
    ReqMedia(Seq<u8>),
    ReqChatRegistration,
    ReqChatClients,
    ReqChatSend { to: NodeId, chat_msg: Seq<u8> },
    RespServerType(ServerType),
    RespFilesList(Seq<Seq<u8>>),
    RespFile(FileModel),
    RespMedia(Seq<u8>),
    RespClientList(Seq<NodeId>),
    RespChatFrom { from: NodeId, chat_msg: Seq<u8> },
    ErrUnsupportedRequestType,
    ErrNotFound,
    ErrNotExistentClient,
}

/// An application message.  One message serialises into an ordered
/// group of fragments and is rebuilt from a complete group.
#[derive(PartialEq, Eq, Debug)]
pub enum Message {
    ReqServerType,
    ReqFilesList,
    ReqFile(Link),
    ReqMedia(Link),
    ReqChatRegistration,
    ReqChatClients,
    ReqChatSend { to: NodeId, chat_msg: Vec<u8> },
    RespServerType(ServerType),
    RespFilesList(Vec<Link>),
    RespFile(FileWithData),
    RespMedia(Media),
    RespClientList(Vec<NodeId>),
    RespChatFrom { from: NodeId, chat_msg: Vec<u8> },
    ErrUnsupportedRequestType,
    ErrNotFound,
    ErrNotExistentClient,
}

impl View for Message {
    type V = MsgModel;

    open spec fn view(&self) -> MsgModel {
        match self {
            Message::ReqServerType => MsgModel::ReqServerType,
            Message::ReqFilesList => MsgModel::ReqFilesList,
            Message::ReqFile(link) => MsgModel::ReqFile(link@),
            Message::ReqMedia(link) => MsgModel::ReqMedia(link@),
            Message::ReqChatRegistration => MsgModel::ReqChatRegistration,
            Message::ReqChatClients => MsgModel::ReqChatClients,
            Message::ReqChatSend { to, chat_msg } => MsgModel::ReqChatSend {
                to: *to,
                chat_msg: chat_msg@,
            },
            Message::RespServerType(t) => MsgModel::RespServerType(*t),
            Message::RespFilesList(links) => MsgModel::RespFilesList(links_view(links@)),
            Message::RespFile(f) => MsgModel::RespFile(f@),
            Message::RespMedia(m) => MsgModel::RespMedia(m@),
            Message::RespClientList(ids) => MsgModel::RespClientList(ids@),
            Message::RespChatFrom { from, chat_msg } => MsgModel::RespChatFrom {
                from: *from,
                chat_msg: chat_msg@,
            },
            Message::ErrUnsupportedRequestType => MsgModel::ErrUnsupportedRequestType,
            Message::ErrNotFound => MsgModel::ErrNotFound,
            Message::ErrNotExistentClient => MsgModel::ErrNotExistentClient,
        }
    }
}

/// Are two byte strings equal?
pub fn bytes_eq(a: &Vec<u8>, b: &Vec<u8>) -> (r: bool)
    ensures
        r == (a@ == b@),
{
    if a.len() != b.len() {
        return false;
    }
    let mut i: usize = 0;
    while i < a.len()
        invariant
            a@.len() == b@.len(),
            i <= a@.len(),
            forall|j: int| 0 <= j < i as int ==> a@[j] == b@[j],
        decreases a.len() - i,
    {
        if a[i] != b[i] {
            return false;
        }
        i = i + 1;
    }
    proof {
        assert(a@ =~= b@);
    }
    true
}

/// Copy a byte string.
pub fn clone_bytes(v: &Vec<u8>) -> (r: Vec<u8>)
    ensures
        r@ == v@,
{
    let mut out: Vec<u8> = Vec::new();
    let mut i: usize = 0;
    while i < v.len()
        invariant
            i <= v.len(),
            out@ == v@.subrange(0, i as int),
        decreases v.len() - i,
    {
        out.push(v[i]);
        i = i + 1;
    }
    proof {
        assert(out@ =~= v@);
    }
    out
}

fn clone_links(v: &Vec<Link>) -> (r: Vec<Link>)
    ensures
        links_view(r@) == links_view(v@),
{
    let mut out: Vec<Link> = Vec::new();
    let mut i: usize = 0;
    while i < v.len()
        invariant
            i <= v.len(),
            out@.len() == i as int,
            forall|j: int| 0 <= j < i as int ==> out@[j]@ == v@[j]@,
        decreases v.len() - i,
    {
        out.push(clone_bytes(&v[i]));
        i = i + 1;
    }
    proof {
        assert(links_view(out@) =~= links_view(v@));
    }
    out
}

fn clone_pairs(v: &Vec<(Link, u64)>) -> (r: Vec<(Link, u64)>)
    ensures
        pairs_view(r@) == pairs_view(v@),
{
    let mut out: Vec<(Link, u64)> = Vec::new();
    let mut i: usize = 0;
    while i < v.len()
        invariant
            i <= v.len(),
            out@.len() == i as int,
            forall|j: int| 0 <= j < i as int ==> out@[j].0@ == v@[j].0@ && out@[j].1 == v@[j].1,
        decreases v.len() - i,
    {
        let link = clone_bytes(&v[i].0);
        let meta = v[i].1;
        out.push((link, meta));
        i = i + 1;
    }
    proof {
        assert(pairs_view(out@) =~= pairs_view(v@));
    }
    out
}

fn clone_nodes(v: &Vec<NodeId>) -> (r: Vec<NodeId>)
    ensures
        r@ == v@,
{
    let mut out: Vec<NodeId> = Vec::new();
    let mut i: usize = 0;
    while i < v.len()
        invariant
            i <= v.len(),
            out@ == v@.subrange(0, i as int),
        decreases v.len() - i,
    {
        out.push(v[i]);
        i = i + 1;
    }
    proof {
        assert(out@ =~= v@);
    }
    out
}

impl Clone for FileWithData {
    fn clone(&self) -> (r: FileWithData)
        ensures
            r@ == self@,
    {
        FileWithData { file: clone_bytes(&self.file), related_data: clone_pairs(&self.related_data) }
    }
}

impl Clone for Message {
    fn clone(&self) -> (r: Message)
        ensures
            r@ == self@,
    {
        match self {
            Message::ReqServerType => Message::ReqServerType,
            Message::ReqFilesList => Message::ReqFilesList,
            Message::ReqFile(link) => Message::ReqFile(clone_bytes(link)),
            Message::ReqMedia(link) => Message::ReqMedia(clone_bytes(link)),
            Message::ReqChatRegistration => Message::ReqChatRegistration,
            Message::ReqChatClients => Message::ReqChatClients,
            Message::ReqChatSend { to, chat_msg } => Message::ReqChatSend {
                to: *to,
                chat_msg: clone_bytes(chat_msg),
            },
            Message::RespServerType(t) => Message::RespServerType(*t),
            Message::RespFilesList(links) => Message::RespFilesList(clone_links(links)),
            Message::RespFile(f) => Message::RespFile(f.clone()),
            Message::RespMedia(m) => Message::RespMedia(clone_bytes(m)),
            Message::RespClientList(ids) => Message::RespClientList(clone_nodes(ids)),
            Message::RespChatFrom { from, chat_msg } => Message::RespChatFrom {
                from: *from,
                chat_msg: clone_bytes(chat_msg),
            },
            Message::ErrUnsupportedRequestType => Message::ErrUnsupportedRequestType,
            Message::ErrNotFound => Message::ErrNotFound,
            Message::ErrNotExistentClient => Message::ErrNotExistentClient,
        }
    }
}

} // verus!
