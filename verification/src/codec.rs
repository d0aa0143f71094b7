//! Wire form of application messages.
//!
//! A message is serialised into a byte string — a one-byte variant tag
//! followed by the variant's fields, with 64-bit little-endian lengths
//! and values.  Decoding parses a complete byte string back into a
//! message and fails on anything else.  The cutting of the byte
//! string into fragments lives one layer up, with the fragments.
//!
//! The specification-level encoder and parser below are the reference
//! for both executable directions, and the round-trip lemmas prove
//! that parsing undoes encoding.

use vstd::prelude::*;

use crate::message::{links_view, pairs_view, FileModel, FileWithData, Link, Message, MsgModel};
use crate::types::ServerType;

verus! {

/// Does a length fit in an unsigned 64-bit wire field?
pub open spec fn fits_u64(n: nat) -> bool {
    n < 0x1_0000_0000_0000_0000
}

/// A 64-bit value as eight little-endian bytes.
pub open spec fn enc_u64(x: u64) -> Seq<u8> {
    seq![
        (x & 0xff) as u8,
        ((x >> 8) & 0xff) as u8,
        ((x >> 16) & 0xff) as u8,
        ((x >> 24) & 0xff) as u8,
        ((x >> 32) & 0xff) as u8,
        ((x >> 40) & 0xff) as u8,
        ((x >> 48) & 0xff) as u8,
        ((x >> 56) & 0xff) as u8,
    ]
}

/// The 64-bit value of eight little-endian bytes.
pub open spec fn dec_u64(b: Seq<u8>) -> u64
    recommends
        b.len() == 8,
{
    (b[0] as u64) | ((b[1] as u64) << 8) | ((b[2] as u64) << 16) | ((b[3] as u64) << 24) | (
    (b[4] as u64) << 32) | ((b[5] as u64) << 40) | ((b[6] as u64) << 48) | ((b[7] as u64) << 56)
}

proof fn lemma_u64_roundtrip(x: u64)
    ensures
        dec_u64(enc_u64(x)) == x,
{
    let b = enc_u64(x);
    assert(b[0] == (x & 0xff) as u8);
    assert(b[1] == ((x >> 8) & 0xff) as u8);
    assert(b[2] == ((x >> 16) & 0xff) as u8);
    assert(b[3] == ((x >> 24) & 0xff) as u8);
    assert(b[4] == ((x >> 32) & 0xff) as u8);
    assert(b[5] == ((x >> 40) & 0xff) as u8);
    assert(b[6] == ((x >> 48) & 0xff) as u8);
    assert(b[7] == ((x >> 56) & 0xff) as u8);
    assert((((x & 0xff) as u8 as u64) | ((((x >> 8) & 0xff) as u8 as u64) << 8) | ((((x >> 16)
        & 0xff) as u8 as u64) << 16) | ((((x >> 24) & 0xff) as u8 as u64) << 24) | ((((x >> 32)
        & 0xff) as u8 as u64) << 32) | ((((x >> 40) & 0xff) as u8 as u64) << 40) | ((((x >> 48)
        & 0xff) as u8 as u64) << 48) | ((((x >> 56) & 0xff) as u8 as u64) << 56)) == x)
        by (bit_vector);
}

/// Parse eight little-endian bytes; yields the value and the rest.
pub open spec fn parse_u64(b: Seq<u8>) -> Option<(u64, Seq<u8>)> {
    if b.len() >= 8 {
        Some((dec_u64(b.take(8)), b.skip(8)))
    } else {
        None
    }
}

proof fn lemma_parse_u64(x: u64, rest: Seq<u8>)
    ensures
        parse_u64(enc_u64(x) + rest) == Some((x, rest)),
{
    let b = enc_u64(x) + rest;
    assert(b.take(8) =~= enc_u64(x));
    assert(b.skip(8) =~= rest);
    lemma_u64_roundtrip(x);
}

/// A byte string: its length, then its bytes.
pub open spec fn enc_bytes(v: Seq<u8>) -> Seq<u8> {
    enc_u64(v.len() as u64) + v
}

/// Parse a length-prefixed byte string; yields the bytes and the rest.
pub open spec fn parse_bytes(b: Seq<u8>) -> Option<(Seq<u8>, Seq<u8>)> {
    match parse_u64(b) {
        None => None,
        Some((n, r)) => if r.len() >= n {
            Some((r.take(n as int), r.skip(n as int)))
        } else {
            None
        },
    }
}

proof fn lemma_parse_bytes(v: Seq<u8>, rest: Seq<u8>)
    requires
        fits_u64(v.len()),
    ensures
        parse_bytes(enc_bytes(v) + rest) == Some((v, rest)),
{
    let n = v.len() as u64;
    assert(enc_bytes(v) + rest =~= enc_u64(n) + (v + rest));
    lemma_parse_u64(n, v + rest);
    assert((v + rest).take(n as int) =~= v);
    assert((v + rest).skip(n as int) =~= rest);
}

/// Parse a single byte; yields it and the rest.
pub open spec fn parse_byte(b: Seq<u8>) -> Option<(u8, Seq<u8>)> {
    if b.len() >= 1 {
        Some((b[0], b.skip(1)))
    } else {
        None
    }
}

proof fn lemma_parse_byte(t: u8, rest: Seq<u8>)
    ensures
        parse_byte(seq![t] + rest) == Some((t, rest)),
{
    let b = seq![t] + rest;
    assert(b[0] == t);
    assert(b.skip(1) =~= rest);
}

/// A list of byte strings, without its count: each item in order.
pub open spec fn enc_links_items(l: Seq<Seq<u8>>) -> Seq<u8>
    decreases l.len(),
{
    if l.len() == 0 {
        Seq::empty()
    } else {
        enc_bytes(l[0]) + enc_links_items(l.drop_first())
    }
}

/// A list of byte strings: its count, then the items.
pub open spec fn enc_links(l: Seq<Seq<u8>>) -> Seq<u8> {
    enc_u64(l.len() as u64) + enc_links_items(l)
}

/// Parse `n` length-prefixed byte strings.
pub open spec fn parse_links_items(b: Seq<u8>, n: nat) -> Option<(Seq<Seq<u8>>, Seq<u8>)>
    decreases n,
{
    if n == 0 {
        Some((Seq::empty(), b))
    } else {
        match parse_bytes(b) {
            None => None,
            Some((v, r)) => match parse_links_items(r, (n - 1) as nat) {
                None => None,
                Some((l, r2)) => Some((seq![v] + l, r2)),
            },
        }
    }
}

/// Parse a counted list of byte strings.
pub open spec fn parse_links(b: Seq<u8>) -> Option<(Seq<Seq<u8>>, Seq<u8>)> {
    match parse_u64(b) {
        None => None,
        Some((n, r)) => parse_links_items(r, n as nat),
    }
}

/// Every item's length fits in a wire field.
pub open spec fn links_wf(l: Seq<Seq<u8>>) -> bool {
    forall|i: int| 0 <= i < l.len() ==> fits_u64(#[trigger] l[i].len())
}

proof fn lemma_parse_links_items(l: Seq<Seq<u8>>, rest: Seq<u8>)
    requires
        links_wf(l),
    ensures
        parse_links_items(enc_links_items(l) + rest, l.len()) == Some((l, rest)),
    decreases l.len(),
{
    if l.len() == 0 {
        assert(enc_links_items(l) + rest =~= rest);
        assert(l =~= Seq::<Seq<u8>>::empty());
    } else {
        let tail = l.drop_first();
        assert(enc_links_items(l) + rest =~= enc_bytes(l[0]) + (enc_links_items(tail) + rest));
        lemma_parse_bytes(l[0], enc_links_items(tail) + rest);
        assert(links_wf(tail)) by {
            assert(forall|i: int|
                0 <= i < tail.len() ==> tail[i] == l[i + 1] && fits_u64(#[trigger] tail[i].len()));
        }
        lemma_parse_links_items(tail, rest);
        assert(seq![l[0]] + tail =~= l);
    }
}

proof fn lemma_parse_links(l: Seq<Seq<u8>>, rest: Seq<u8>)
    requires
        links_wf(l),
        fits_u64(l.len()),
    ensures
        parse_links(enc_links(l) + rest) == Some((l, rest)),
{
    assert(enc_links(l) + rest =~= enc_u64(l.len() as u64) + (enc_links_items(l) + rest));
    lemma_parse_u64(l.len() as u64, enc_links_items(l) + rest);
    lemma_parse_links_items(l, rest);
}

/// A link/metadata pair: the link bytes, then the 64-bit value.
pub open spec fn enc_pair(p: (Seq<u8>, u64)) -> Seq<u8> {
    enc_bytes(p.0) + enc_u64(p.1)
}

/// A list of pairs, without its count.
pub open spec fn enc_pairs_items(l: Seq<(Seq<u8>, u64)>) -> Seq<u8>
    decreases l.len(),
{
    if l.len() == 0 {
        Seq::empty()
    } else {
        enc_pair(l[0]) + enc_pairs_items(l.drop_first())
    }
}

/// A list of pairs: its count, then the items.
pub open spec fn enc_pairs(l: Seq<(Seq<u8>, u64)>) -> Seq<u8> {
    enc_u64(l.len() as u64) + enc_pairs_items(l)
}

/// Parse one link/metadata pair.
pub open spec fn parse_pair(b: Seq<u8>) -> Option<((Seq<u8>, u64), Seq<u8>)> {
    match parse_bytes(b) {
        None => None,
        Some((v, r)) => match parse_u64(r) {
            None => None,
            Some((x, r2)) => Some(((v, x), r2)),
        },
    }
}

/// Parse `n` pairs.
pub open spec fn parse_pairs_items(b: Seq<u8>, n: nat) -> Option<(Seq<(Seq<u8>, u64)>, Seq<u8>)>
    decreases n,
{
    if n == 0 {
        Some((Seq::empty(), b))
    } else {
        match parse_pair(b) {
            None => None,
            Some((p, r)) => match parse_pairs_items(r, (n - 1) as nat) {
                None => None,
                Some((l, r2)) => Some((seq![p] + l, r2)),
            },
        }
    }
}

/// Parse a counted list of pairs.
pub open spec fn parse_pairs(b: Seq<u8>) -> Option<(Seq<(Seq<u8>, u64)>, Seq<u8>)> {
    match parse_u64(b) {
        None => None,
        Some((n, r)) => parse_pairs_items(r, n as nat),
    }
}

/// Every pair's link length fits in a wire field.
pub open spec fn pairs_wf(l: Seq<(Seq<u8>, u64)>) -> bool {
    forall|i: int| 0 <= i < l.len() ==> fits_u64(#[trigger] l[i].0.len())
}

proof fn lemma_parse_pair(p: (Seq<u8>, u64), rest: Seq<u8>)
    requires
        fits_u64(p.0.len()),
    ensures
        parse_pair(enc_pair(p) + rest) == Some((p, rest)),
{
    assert(enc_pair(p) + rest =~= enc_bytes(p.0) + (enc_u64(p.1) + rest));
    lemma_parse_bytes(p.0, enc_u64(p.1) + rest);
    lemma_parse_u64(p.1, rest);
}

#[verifier::rlimit(100)]
#[verifier::spinoff_prover]
proof fn lemma_parse_pairs_items(l: Seq<(Seq<u8>, u64)>, rest: Seq<u8>)
    requires
        pairs_wf(l),
    ensures
        parse_pairs_items(enc_pairs_items(l) + rest, l.len()) == Some((l, rest)),
    decreases l.len(),
{
    if l.len() == 0 {
        assert(enc_pairs_items(l) + rest =~= rest);
        assert(l =~= Seq::<(Seq<u8>, u64)>::empty());
    } else {
        let tail = l.drop_first();
        assert(enc_pairs_items(l) + rest =~= enc_pair(l[0]) + (enc_pairs_items(tail) + rest));
        lemma_parse_pair(l[0], enc_pairs_items(tail) + rest);
        assert forall|i: int| 0 <= i < tail.len() implies fits_u64(
            #[trigger] tail[i].0.len(),
        ) by {
            assert(tail[i] == l[i + 1]);
        }
        lemma_parse_pairs_items(tail, rest);
        assert(seq![l[0]] + tail =~= l);
    }
}

proof fn lemma_parse_pairs(l: Seq<(Seq<u8>, u64)>, rest: Seq<u8>)
    requires
        pairs_wf(l),
        fits_u64(l.len()),
    ensures
        parse_pairs(enc_pairs(l) + rest) == Some((l, rest)),
{
    assert(enc_pairs(l) + rest =~= enc_u64(l.len() as u64) + (enc_pairs_items(l) + rest));
    lemma_parse_u64(l.len() as u64, enc_pairs_items(l) + rest);
    lemma_parse_pairs_items(l, rest);
}

/// A server type: a one-byte tag, then its metadata if any.
pub open spec fn enc_server_type(st: ServerType) -> Seq<u8> {
    match st {
        ServerType::Chat => seq![0u8],
        ServerType::Text(u) => seq![1u8] + enc_u64(u),
        ServerType::Media(u) => seq![2u8] + enc_u64(u),
    }
}

/// Parse a server type.
pub open spec fn parse_server_type(b: Seq<u8>) -> Option<(ServerType, Seq<u8>)> {
    match parse_byte(b) {
        None => None,
        Some((tag, r)) => if tag == 0 {
            Some((ServerType::Chat, r))
        } else if tag == 1 {
            match parse_u64(r) {
                None => None,
                Some((u, r2)) => Some((ServerType::Text(u), r2)),
            }
        } else if tag == 2 {
            match parse_u64(r) {
                None => None,
                Some((u, r2)) => Some((ServerType::Media(u), r2)),
            }
        } else {
            None
        },
    }
}

proof fn lemma_parse_server_type(st: ServerType, rest: Seq<u8>)
    ensures
        parse_server_type(enc_server_type(st) + rest) == Some((st, rest)),
{
    match st {
        ServerType::Chat => {
            lemma_parse_byte(0u8, rest);
        },
        ServerType::Text(u) => {
            assert(enc_server_type(st) + rest =~= seq![1u8] + (enc_u64(u) + rest));
            lemma_parse_byte(1u8, enc_u64(u) + rest);
            lemma_parse_u64(u, rest);
        },
        ServerType::Media(u) => {
            assert(enc_server_type(st) + rest =~= seq![2u8] + (enc_u64(u) + rest));
            lemma_parse_byte(2u8, enc_u64(u) + rest);
            lemma_parse_u64(u, rest);
        },
    }
}

/// A file with its related data: the body, then the pairs.
pub open spec fn enc_file(f: FileModel) -> Seq<u8> {
    enc_bytes(f.file) + enc_pairs(f.related_data)
}

/// Parse a file with its related data.
pub open spec fn parse_file(b: Seq<u8>) -> Option<(FileModel, Seq<u8>)> {
    match parse_bytes(b) {
        None => None,
        Some((v, r)) => match parse_pairs(r) {
            None => None,
            Some((l, r2)) => Some((FileModel { file: v, related_data: l }, r2)),
        },
    }
}

/// All lengths in a file fit in wire fields.
pub open spec fn file_wf(f: FileModel) -> bool {
    &&& fits_u64(f.file.len())
    &&& fits_u64(f.related_data.len())
    &&& pairs_wf(f.related_data)
}

proof fn lemma_parse_file(f: FileModel, rest: Seq<u8>)
    requires
        file_wf(f),
    ensures
        parse_file(enc_file(f) + rest) == Some((f, rest)),
{
    assert(enc_file(f) + rest =~= enc_bytes(f.file) + (enc_pairs(f.related_data) + rest));
    lemma_parse_bytes(f.file, enc_pairs(f.related_data) + rest);
    lemma_parse_pairs(f.related_data, rest);
}

/// The byte string a message serialises to.
pub open spec fn enc_msg(m: MsgModel) -> Seq<u8> {
    match m {
        MsgModel::ReqServerType => seq![0u8],
        MsgModel::ReqChatRegistration => seq![1u8],
        MsgModel::ReqChatClients => seq![2u8],
        MsgModel::ReqChatSend { to, chat_msg } => seq![3u8, to] + enc_bytes(chat_msg),
        MsgModel::ReqFilesList => seq![4u8],
        MsgModel::ReqFile(link) => seq![5u8] + enc_bytes(link),
        MsgModel::ReqMedia(link) => seq![6u8] + enc_bytes(link),
        MsgModel::RespServerType(st) => seq![7u8] + enc_server_type(st),
        MsgModel::RespClientList(ids) => seq![8u8] + enc_bytes(ids),
        MsgModel::RespChatFrom { from, chat_msg } => seq![9u8, from] + enc_bytes(chat_msg),
        MsgModel::RespFilesList(links) => seq![10u8] + enc_links(links),
        MsgModel::RespFile(f) => seq![11u8] + enc_file(f),
        MsgModel::RespMedia(media) => seq![12u8] + enc_bytes(media),
        MsgModel::ErrUnsupportedRequestType => seq![13u8],
        MsgModel::ErrNotExistentClient => seq![14u8],
        MsgModel::ErrNotFound => seq![15u8],
    }
}

/// Parse a complete byte string as a message.  Trailing bytes make the
/// parse fail: a message owns its whole encoding.
pub open spec fn dec_msg(b: Seq<u8>) -> Option<MsgModel> {
    match parse_byte(b) {
        None => None,
        Some((tag, r)) => if tag == 0 {
            if r.len() == 0 {
                Some(MsgModel::ReqServerType)
            } else {
                None
            }
        } else if tag == 1 {
            if r.len() == 0 {
                Some(MsgModel::ReqChatRegistration)
            } else {
                None
            }
        } else if tag == 2 {
            if r.len() == 0 {
                Some(MsgModel::ReqChatClients)
            } else {
                None
            }
        } else if tag == 3 {
            match parse_byte(r) {
                None => None,
                Some((to, r1)) => match parse_bytes(r1) {
                    None => None,
                    Some((cm, r2)) => if r2.len() == 0 {
                        Some(MsgModel::ReqChatSend { to, chat_msg: cm })
                    } else {
                        None
                    },
                },
            }
        } else if tag == 4 {
            if r.len() == 0 {
                Some(MsgModel::ReqFilesList)
            } else {
                None
            }
        } else if tag == 5 {
            match parse_bytes(r) {
                None => None,
                Some((link, r1)) => if r1.len() == 0 {
                    Some(MsgModel::ReqFile(link))
                } else {
                    None
                },
            }
        } else if tag == 6 {
            match parse_bytes(r) {
                None => None,
                Some((link, r1)) => if r1.len() == 0 {
                    Some(MsgModel::ReqMedia(link))
                } else {
                    None
                },
            }
        } else if tag == 7 {
            match parse_server_type(r) {
                None => None,
                Some((st, r1)) => if r1.len() == 0 {
                    Some(MsgModel::RespServerType(st))
                } else {
                    None
                },
            }
        } else if tag == 8 {
            match parse_bytes(r) {
                None => None,
                Some((ids, r1)) => if r1.len() == 0 {
                    Some(MsgModel::RespClientList(ids))
                } else {
                    None
                },
            }
        } else if tag == 9 {
            match parse_byte(r) {
                None => None,
                Some((from, r1)) => match parse_bytes(r1) {
                    None => None,
                    Some((cm, r2)) => if r2.len() == 0 {
                        Some(MsgModel::RespChatFrom { from, chat_msg: cm })
                    } else {
                        None
                    },
                },
            }
        } else if tag == 10 {
            match parse_links(r) {
                None => None,
                Some((links, r1)) => if r1.len() == 0 {
                    Some(MsgModel::RespFilesList(links))
                } else {
                    None
                },
            }
        } else if tag == 11 {
            match parse_file(r) {
                None => None,
                Some((f, r1)) => if r1.len() == 0 {
                    Some(MsgModel::RespFile(f))
                } else {
                    None
                },
            }
        } else if tag == 12 {
            match parse_bytes(r) {
                None => None,
                Some((media, r1)) => if r1.len() == 0 {
                    Some(MsgModel::RespMedia(media))
                } else {
                    None
                },
            }
        } else if tag == 13 {
            if r.len() == 0 {
                Some(MsgModel::ErrUnsupportedRequestType)
            } else {
                None
            }
        } else if tag == 14 {
            if r.len() == 0 {
                Some(MsgModel::ErrNotExistentClient)
            } else {
                None
            }
        } else if tag == 15 {
            if r.len() == 0 {
                Some(MsgModel::ErrNotFound)
            } else {
                None
            }
        } else {
            None
        },
    }
}

/// All lengths in a message fit in wire fields.  Every message built
/// by executable code satisfies this.
pub open spec fn msg_wf(m: MsgModel) -> bool {
    match m {
        MsgModel::ReqChatSend { to, chat_msg } => fits_u64(chat_msg.len()),
        MsgModel::ReqFile(link) => fits_u64(link.len()),
        MsgModel::ReqMedia(link) => fits_u64(link.len()),
        MsgModel::RespClientList(ids) => fits_u64(ids.len()),
        MsgModel::RespChatFrom { from, chat_msg } => fits_u64(chat_msg.len()),
        MsgModel::RespFilesList(links) => fits_u64(links.len()) && links_wf(links),
        MsgModel::RespFile(f) => file_wf(f),
        MsgModel::RespMedia(media) => fits_u64(media.len()),
        _ => true,
    }
}

/// Parsing undoes encoding: the serialised form of a message decodes
/// back to that very message.
#[verifier::rlimit(100)]
#[verifier::spinoff_prover]
pub proof fn lemma_msg_roundtrip(m: MsgModel)
    requires
        msg_wf(m),
    ensures
        dec_msg(enc_msg(m)) == Some(m),
{
    let empty = Seq::<u8>::empty();
    match m {
        MsgModel::ReqServerType => {
            assert(enc_msg(m) =~= seq![0u8] + empty);
            lemma_parse_byte(0u8, empty);
        },
        MsgModel::ReqChatRegistration => {
            assert(enc_msg(m) =~= seq![1u8] + empty);
            lemma_parse_byte(1u8, empty);
        },
        MsgModel::ReqChatClients => {
            assert(enc_msg(m) =~= seq![2u8] + empty);
            lemma_parse_byte(2u8, empty);
        },
        MsgModel::ReqChatSend { to, chat_msg } => {
            assert(enc_msg(m) =~= seq![3u8] + (seq![to] + (enc_bytes(chat_msg) + empty)));
            lemma_parse_byte(3u8, seq![to] + (enc_bytes(chat_msg) + empty));
            lemma_parse_byte(to, enc_bytes(chat_msg) + empty);
            lemma_parse_bytes(chat_msg, empty);
        },
        MsgModel::ReqFilesList => {
            assert(enc_msg(m) =~= seq![4u8] + empty);
            lemma_parse_byte(4u8, empty);
        },
        MsgModel::ReqFile(link) => {
            assert(enc_msg(m) =~= seq![5u8] + (enc_bytes(link) + empty));
            lemma_parse_byte(5u8, enc_bytes(link) + empty);
            lemma_parse_bytes(link, empty);
        },
        MsgModel::ReqMedia(link) => {
            assert(enc_msg(m) =~= seq![6u8] + (enc_bytes(link) + empty));
            lemma_parse_byte(6u8, enc_bytes(link) + empty);
            lemma_parse_bytes(link, empty);
        },
        MsgModel::RespServerType(st) => {
            assert(enc_msg(m) =~= seq![7u8] + (enc_server_type(st) + empty));
            lemma_parse_byte(7u8, enc_server_type(st) + empty);
            lemma_parse_server_type(st, empty);
        },
        MsgModel::RespClientList(ids) => {
            assert(enc_msg(m) =~= seq![8u8] + (enc_bytes(ids) + empty));
            lemma_parse_byte(8u8, enc_bytes(ids) + empty);
            lemma_parse_bytes(ids, empty);
        },
        MsgModel::RespChatFrom { from, chat_msg } => {
            assert(enc_msg(m) =~= seq![9u8] + (seq![from] + (enc_bytes(chat_msg) + empty)));
            lemma_parse_byte(9u8, seq![from] + (enc_bytes(chat_msg) + empty));
            lemma_parse_byte(from, enc_bytes(chat_msg) + empty);
            lemma_parse_bytes(chat_msg, empty);
        },
        MsgModel::RespFilesList(links) => {
            assert(enc_msg(m) =~= seq![10u8] + (enc_links(links) + empty));
            lemma_parse_byte(10u8, enc_links(links) + empty);
            lemma_parse_links(links, empty);
        },
        MsgModel::RespFile(f) => {
            assert(enc_msg(m) =~= seq![11u8] + (enc_file(f) + empty));
            lemma_parse_byte(11u8, enc_file(f) + empty);
            lemma_parse_file(f, empty);
        },
        MsgModel::RespMedia(media) => {
            assert(enc_msg(m) =~= seq![12u8] + (enc_bytes(media) + empty));
            lemma_parse_byte(12u8, enc_bytes(media) + empty);
            lemma_parse_bytes(media, empty);
        },
        MsgModel::ErrUnsupportedRequestType => {
            assert(enc_msg(m) =~= seq![13u8] + empty);
            lemma_parse_byte(13u8, empty);
        },
        MsgModel::ErrNotExistentClient => {
            assert(enc_msg(m) =~= seq![14u8] + empty);
            lemma_parse_byte(14u8, empty);
        },
        MsgModel::ErrNotFound => {
            assert(enc_msg(m) =~= seq![15u8] + empty);
            lemma_parse_byte(15u8, empty);
        },
    }
}

proof fn lemma_enc_links_items_concat(a: Seq<Seq<u8>>, b: Seq<Seq<u8>>)
    ensures
        enc_links_items(a + b) == enc_links_items(a) + enc_links_items(b),
    decreases a.len(),
{
    if a.len() == 0 {
        assert(a + b =~= b);
        assert(enc_links_items(a) + enc_links_items(b) =~= enc_links_items(b));
    } else {
        assert((a + b)[0] == a[0]);
        assert((a + b).drop_first() =~= a.drop_first() + b);
        lemma_enc_links_items_concat(a.drop_first(), b);
        assert(enc_links_items(a + b) =~= enc_links_items(a) + enc_links_items(b));
    }
}

proof fn lemma_enc_pairs_items_concat(a: Seq<(Seq<u8>, u64)>, b: Seq<(Seq<u8>, u64)>)
    ensures
        enc_pairs_items(a + b) == enc_pairs_items(a) + enc_pairs_items(b),
    decreases a.len(),
{
    if a.len() == 0 {
        assert(a + b =~= b);
        assert(enc_pairs_items(a) + enc_pairs_items(b) =~= enc_pairs_items(b));
    } else {
        assert((a + b)[0] == a[0]);
        assert((a + b).drop_first() =~= a.drop_first() + b);
        lemma_enc_pairs_items_concat(a.drop_first(), b);
        assert(enc_pairs_items(a + b) =~= enc_pairs_items(a) + enc_pairs_items(b));
    }
}

/// Append the eight little-endian bytes of `x`.
fn push_u64(out: &mut Vec<u8>, x: u64)
    ensures
        final(out)@ == old(out)@ + enc_u64(x),
{
    out.push((x & 0xff) as u8);
    out.push(((x >> 8) & 0xff) as u8);
    out.push(((x >> 16) & 0xff) as u8);
    out.push(((x >> 24) & 0xff) as u8);
    out.push(((x >> 32) & 0xff) as u8);
    out.push(((x >> 40) & 0xff) as u8);
    out.push(((x >> 48) & 0xff) as u8);
    out.push(((x >> 56) & 0xff) as u8);
    proof {
        assert(out@ =~= old(out)@ + enc_u64(x));
    }
}

/// Append a length-prefixed byte string.
fn push_bytes(out: &mut Vec<u8>, v: &Vec<u8>)
    ensures
        final(out)@ == old(out)@ + enc_bytes(v@),
{
    push_u64(out, v.len() as u64);
    let mut i: usize = 0;
    while i < v.len()
        invariant
            i <= v.len(),
            out@ == old(out)@ + enc_u64(v@.len() as u64) + v@.subrange(0, i as int),
        decreases v.len() - i,
    {
        out.push(v[i]);
        proof {
            assert(old(out)@ + enc_u64(v@.len() as u64) + v@.subrange(0, i as int) + seq![v@[i as int]]
                =~= old(out)@ + enc_u64(v@.len() as u64) + v@.subrange(0, i as int + 1));
        }
        i = i + 1;
    }
    proof {
        assert(v@.subrange(0, v@.len() as int) =~= v@);
        assert(old(out)@ + enc_u64(v@.len() as u64) + v@ =~= old(out)@ + enc_bytes(v@));
    }
}

/// Append a counted list of length-prefixed byte strings.
fn push_links(out: &mut Vec<u8>, links: &Vec<Link>)
    ensures
        final(out)@ == old(out)@ + enc_links(links_view(links@)),
{
    let ghost l = links_view(links@);
    push_u64(out, links.len() as u64);
    let mut i: usize = 0;
    while i < links.len()
        invariant
            i <= links.len(),
            l == links_view(links@),
            out@ == old(out)@ + enc_u64(l.len() as u64) + enc_links_items(l.take(i as int)),
        decreases links.len() - i,
    {
        push_bytes(out, &links[i]);
        proof {
            assert(l.take(i as int) + seq![l[i as int]] =~= l.take(i as int + 1));
            lemma_enc_links_items_concat(l.take(i as int), seq![l[i as int]]);
            let ghost single = seq![l[i as int]];
            assert(single.drop_first() =~= Seq::<Seq<u8>>::empty());
            assert(enc_links_items(Seq::<Seq<u8>>::empty()) =~= Seq::<u8>::empty());
            assert(enc_links_items(single) =~= enc_bytes(single[0]) + enc_links_items(
                single.drop_first(),
            ));
            assert(enc_links_items(single) =~= enc_bytes(l[i as int]));
            assert(out@ =~= old(out)@ + enc_u64(l.len() as u64) + enc_links_items(
                l.take(i as int + 1),
            ));
        }
        i = i + 1;
    }
    proof {
        assert(l.take(l.len() as int) =~= l);
        assert(out@ =~= old(out)@ + enc_links(l));
    }
}

/// Append a counted list of link/metadata pairs.
fn push_pairs(out: &mut Vec<u8>, pairs: &Vec<(Link, u64)>)
    ensures
        final(out)@ == old(out)@ + enc_pairs(pairs_view(pairs@)),
{
    let ghost l = pairs_view(pairs@);
    push_u64(out, pairs.len() as u64);
    let mut i: usize = 0;
    while i < pairs.len()
        invariant
            i <= pairs.len(),
            l == pairs_view(pairs@),
            out@ == old(out)@ + enc_u64(l.len() as u64) + enc_pairs_items(l.take(i as int)),
        decreases pairs.len() - i,
    {
        push_bytes(out, &pairs[i].0);
        push_u64(out, pairs[i].1);
        proof {
            assert(l.take(i as int) + seq![l[i as int]] =~= l.take(i as int + 1));
            lemma_enc_pairs_items_concat(l.take(i as int), seq![l[i as int]]);
            let ghost single = seq![l[i as int]];
            assert(single.drop_first() =~= Seq::<(Seq<u8>, u64)>::empty());
            assert(enc_pairs_items(Seq::<(Seq<u8>, u64)>::empty()) =~= Seq::<u8>::empty());
            assert(enc_pairs_items(single) =~= enc_pair(single[0]) + enc_pairs_items(
                single.drop_first(),
            ));
            assert(enc_pairs_items(single) =~= enc_pair(l[i as int]));
            assert(out@ =~= old(out)@ + enc_u64(l.len() as u64) + enc_pairs_items(
                l.take(i as int + 1),
            ));
        }
        i = i + 1;
    }
    proof {
        assert(l.take(l.len() as int) =~= l);
        assert(out@ =~= old(out)@ + enc_pairs(l));
    }
}

/// Serialise a message into its byte string.
pub fn encode_message(m: &Message) -> (r: Vec<u8>)
    ensures
        r@ == enc_msg(m@),
{
    let mut out: Vec<u8> = Vec::new();
    match m {
        Message::ReqServerType => {
            out.push(0);
            proof {
                assert(out@ =~= enc_msg(m@));
            }
        },
        Message::ReqChatRegistration => {
            out.push(1);
            proof {
                assert(out@ =~= enc_msg(m@));
            }
        },
        Message::ReqChatClients => {
            out.push(2);
            proof {
                assert(out@ =~= enc_msg(m@));
            }
        },
        Message::ReqChatSend { to, chat_msg } => {
            out.push(3);
            out.push(*to);
            push_bytes(&mut out, chat_msg);
            proof {
                assert(out@ =~= enc_msg(m@));
            }
        },
        Message::ReqFilesList => {
            out.push(4);
            proof {
                assert(out@ =~= enc_msg(m@));
            }
        },
        Message::ReqFile(link) => {
            out.push(5);
            push_bytes(&mut out, link);
            proof {
                assert(out@ =~= enc_msg(m@));
            }
        },
        Message::ReqMedia(link) => {
            out.push(6);
            push_bytes(&mut out, link);
            proof {
                assert(out@ =~= enc_msg(m@));
            }
        },
        Message::RespServerType(st) => {
            out.push(7);
            match st {
                ServerType::Chat => {
                    out.push(0);
                },
                ServerType::Text(u) => {
                    out.push(1);
                    push_u64(&mut out, *u);
                },
                ServerType::Media(u) => {
                    out.push(2);
                    push_u64(&mut out, *u);
                },
            }
            proof {
                assert(out@ =~= enc_msg(m@));
            }
        },
        Message::RespClientList(ids) => {
            out.push(8);
            push_bytes(&mut out, ids);
            proof {
                assert(out@ =~= enc_msg(m@));
            }
        },
        Message::RespChatFrom { from, chat_msg } => {
            out.push(9);
            out.push(*from);
            push_bytes(&mut out, chat_msg);
            proof {
                assert(out@ =~= enc_msg(m@));
            }
        },
        Message::RespFilesList(links) => {
            out.push(10);
            push_links(&mut out, links);
            proof {
                assert(out@ =~= enc_msg(m@));
            }
        },
        Message::RespFile(f) => {
            out.push(11);
            push_bytes(&mut out, &f.file);
            push_pairs(&mut out, &f.related_data);
            proof {
                assert(out@ =~= enc_msg(m@));
            }
        },
        Message::RespMedia(media) => {
            out.push(12);
            push_bytes(&mut out, media);
            proof {
                assert(out@ =~= enc_msg(m@));
            }
        },
        Message::ErrUnsupportedRequestType => {
            out.push(13);
            proof {
                assert(out@ =~= enc_msg(m@));
            }
        },
        Message::ErrNotExistentClient => {
            out.push(14);
            proof {
                assert(out@ =~= enc_msg(m@));
            }
        },
        Message::ErrNotFound => {
            out.push(15);
            proof {
                assert(out@ =~= enc_msg(m@));
            }
        },
    }
    out
}

/// Read one byte at position `i`.
fn read_byte(b: &Vec<u8>, i: usize) -> (r: Option<(u8, usize)>)
    requires
        i <= b@.len(),
    ensures
        match r {
            Some(p) => p.1 <= b@.len() && parse_byte(b@.skip(i as int)) == Some(
                (p.0, b@.skip(p.1 as int)),
            ),
            None => parse_byte(b@.skip(i as int)) is None,
        },
{
    if i < b.len() {
        let v = b[i];
        proof {
            assert(b@.skip(i as int)[0] == v);
            assert(b@.skip(i as int).skip(1) =~= b@.skip(i as int + 1));
        }
        Some((v, i + 1))
    } else {
        None
    }
}

/// Read eight little-endian bytes at position `i`.
fn read_u64(b: &Vec<u8>, i: usize) -> (r: Option<(u64, usize)>)
    requires
        i <= b@.len(),
    ensures
        match r {
            Some(p) => p.1 <= b@.len() && parse_u64(b@.skip(i as int)) == Some(
                (p.0, b@.skip(p.1 as int)),
            ),
            None => parse_u64(b@.skip(i as int)) is None,
        },
{
    if b.len() - i >= 8 {
        let x = (b[i] as u64) | ((b[i + 1] as u64) << 8) | ((b[i + 2] as u64) << 16) | ((b[i
            + 3] as u64) << 24) | ((b[i + 4] as u64) << 32) | ((b[i + 5] as u64) << 40) | ((b[i
            + 6] as u64) << 48) | ((b[i + 7] as u64) << 56);
        proof {
            let s = b@.skip(i as int);
            assert(s.take(8)[0] == b@[i as int]);
            assert(s.take(8)[1] == b@[i as int + 1]);
            assert(s.take(8)[2] == b@[i as int + 2]);
            assert(s.take(8)[3] == b@[i as int + 3]);
            assert(s.take(8)[4] == b@[i as int + 4]);
            assert(s.take(8)[5] == b@[i as int + 5]);
            assert(s.take(8)[6] == b@[i as int + 6]);
            assert(s.take(8)[7] == b@[i as int + 7]);
            assert(x == dec_u64(s.take(8)));
            assert(s.skip(8) =~= b@.skip(i as int + 8));
        }
        Some((x, i + 8))
    } else {
        None
    }
}

/// Read a length-prefixed byte string at position `i`.
fn read_bytes(b: &Vec<u8>, i: usize) -> (r: Option<(Vec<u8>, usize)>)
    requires
        i <= b@.len(),
    ensures
        match r {
            Some(p) => p.1 <= b@.len() && parse_bytes(b@.skip(i as int)) == Some(
                (p.0@, b@.skip(p.1 as int)),
            ),
            None => parse_bytes(b@.skip(i as int)) is None,
        },
{
    match read_u64(b, i) {
        None => None,
        Some((n, j)) => {
            if n <= (b.len() - j) as u64 {
                let n_us = n as usize;
                let mut out: Vec<u8> = Vec::new();
                let mut k: usize = 0;
                while k < n_us
                    invariant
                        b@.len() <= usize::MAX,
                        j + n_us <= b@.len(),
                        k <= n_us,
                        out@ == b@.subrange(j as int, j as int + k as int),
                    decreases n_us - k,
                {
                    out.push(b[j + k]);
                    proof {
                        assert(b@.subrange(j as int, j as int + k as int) + seq![
                            b@[j as int + k as int],
                        ] =~= b@.subrange(j as int, j as int + k as int + 1));
                    }
                    k = k + 1;
                }
                proof {
                    let rr = b@.skip(j as int);
                    assert(rr.take(n as int) =~= b@.subrange(j as int, j as int + n as int));
                    assert(rr.skip(n as int) =~= b@.skip(j as int + n as int));
                }
                Some((out, j + n_us))
            } else {
                None
            }
        },
    }
}

spec fn opt_prepend_links(pre: Seq<Seq<u8>>, o: Option<(Seq<Seq<u8>>, Seq<u8>)>) -> Option<
    (Seq<Seq<u8>>, Seq<u8>),
> {
    match o {
        None => None,
        Some((l, r)) => Some((pre + l, r)),
    }
}

/// Read a counted list of length-prefixed byte strings at position `i`.
fn read_links(b: &Vec<u8>, i: usize) -> (r: Option<(Vec<Link>, usize)>)
    requires
        i <= b@.len(),
    ensures
        match r {
            Some(p) => p.1 <= b@.len() && parse_links(b@.skip(i as int)) == Some(
                (links_view(p.0@), b@.skip(p.1 as int)),
            ),
            None => parse_links(b@.skip(i as int)) is None,
        },
{
    match read_u64(b, i) {
        None => None,
        Some((n, j0)) => {
            let mut out: Vec<Link> = Vec::new();
            let mut j: usize = j0;
            let mut k: u64 = 0;
            while k < n
                invariant
                    i <= b@.len(),
                    k <= n,
                    j <= b@.len(),
                    parse_u64(b@.skip(i as int)) == Some((n, b@.skip(j0 as int))),
                    parse_links_items(b@.skip(j0 as int), n as nat) == opt_prepend_links(
                        links_view(out@),
                        parse_links_items(b@.skip(j as int), (n - k) as nat),
                    ),
                decreases n - k,
            {
                match read_bytes(b, j) {
                    None => {
                        return None;
                    },
                    Some((v, j2)) => {
                        proof {
                            let x = parse_links_items(b@.skip(j2 as int), (n - k - 1) as nat);
                            match x {
                                None => {
                                    assert(parse_links_items(b@.skip(j as int), (n - k) as nat)
                                        is None);
                                },
                                Some((l, r2)) => {
                                    assert(parse_links_items(b@.skip(j as int), (n - k) as nat)
                                        == Some((seq![v@] + l, r2)));
                                    assert(links_view(out@) + (seq![v@] + l) =~= links_view(
                                        out@.push(v),
                                    ) + l);
                                },
                            }
                        }
                        out.push(v);
                        j = j2;
                        k = k + 1;
                    },
                }
            }
            proof {
                assert(parse_links_items(b@.skip(j as int), 0) == Some(
                    (Seq::<Seq<u8>>::empty(), b@.skip(j as int)),
                ));
                assert(links_view(out@) + Seq::<Seq<u8>>::empty() =~= links_view(out@));
            }
            Some((out, j))
        },
    }
}

spec fn opt_prepend_pairs(pre: Seq<(Seq<u8>, u64)>, o: Option<(Seq<(Seq<u8>, u64)>, Seq<u8>)>)
    -> Option<(Seq<(Seq<u8>, u64)>, Seq<u8>)> {
    match o {
        None => None,
        Some((l, r)) => Some((pre + l, r)),
    }
}

/// Read a counted list of link/metadata pairs at position `i`.
fn read_pairs(b: &Vec<u8>, i: usize) -> (r: Option<(Vec<(Link, u64)>, usize)>)
    requires
        i <= b@.len(),
    ensures
        match r {
            Some(p) => p.1 <= b@.len() && parse_pairs(b@.skip(i as int)) == Some(
                (pairs_view(p.0@), b@.skip(p.1 as int)),
            ),
            None => parse_pairs(b@.skip(i as int)) is None,
        },
{
    match read_u64(b, i) {
        None => None,
        Some((n, j0)) => {
            let mut out: Vec<(Link, u64)> = Vec::new();
            let mut j: usize = j0;
            let mut k: u64 = 0;
            while k < n
                invariant
                    i <= b@.len(),
                    k <= n,
                    j <= b@.len(),
                    parse_u64(b@.skip(i as int)) == Some((n, b@.skip(j0 as int))),
                    parse_pairs_items(b@.skip(j0 as int), n as nat) == opt_prepend_pairs(
                        pairs_view(out@),
                        parse_pairs_items(b@.skip(j as int), (n - k) as nat),
                    ),
                decreases n - k,
            {
                match read_bytes(b, j) {
                    None => {
                        return None;
                    },
                    Some((v, j1)) => {
                        match read_u64(b, j1) {
                            None => {
                                proof {
                                    assert(parse_pair(b@.skip(j as int)) is None);
                                }
                                return None;
                            },
                            Some((x, j2)) => {
                                proof {
                                    assert(parse_pair(b@.skip(j as int)) == Some(
                                        ((v@, x), b@.skip(j2 as int)),
                                    ));
                                    let t = parse_pairs_items(
                                        b@.skip(j2 as int),
                                        (n - k - 1) as nat,
                                    );
                                    match t {
                                        None => {
                                            assert(parse_pairs_items(
                                                b@.skip(j as int),
                                                (n - k) as nat,
                                            ) is None);
                                        },
                                        Some((l, r2)) => {
                                            assert(parse_pairs_items(
                                                b@.skip(j as int),
                                                (n - k) as nat,
                                            ) == Some((seq![(v@, x)] + l, r2)));
                                            assert(pairs_view(out@) + (seq![(v@, x)] + l)
                                                =~= pairs_view(out@.push((v, x))) + l);
                                        },
                                    }
                                }
                                out.push((v, x));
                                j = j2;
                                k = k + 1;
                            },
                        }
                    },
                }
            }
            proof {
                assert(parse_pairs_items(b@.skip(j as int), 0) == Some(
                    (Seq::<(Seq<u8>, u64)>::empty(), b@.skip(j as int)),
                ));
                assert(pairs_view(out@) + Seq::<(Seq<u8>, u64)>::empty() =~= pairs_view(out@));
            }
            Some((out, j))
        },
    }
}

/// Read a server type at position `i`.
fn read_server_type(b: &Vec<u8>, i: usize) -> (r: Option<(ServerType, usize)>)
    requires
        i <= b@.len(),
    ensures
        match r {
            Some(p) => p.1 <= b@.len() && parse_server_type(b@.skip(i as int)) == Some(
                (p.0, b@.skip(p.1 as int)),
            ),
            None => parse_server_type(b@.skip(i as int)) is None,
        },
{
    match read_byte(b, i) {
        None => None,
        Some((tag, j)) => {
            if tag == 0 {
                Some((ServerType::Chat, j))
            } else if tag == 1 {
                match read_u64(b, j) {
                    None => None,
                    Some((u, j2)) => Some((ServerType::Text(u), j2)),
                }
            } else if tag == 2 {
                match read_u64(b, j) {
                    None => None,
                    Some((u, j2)) => Some((ServerType::Media(u), j2)),
                }
            } else {
                None
            }
        },
    }
}

/// Parse a complete byte string back into a message.
pub fn decode_message(b: &Vec<u8>) -> (r: Option<Message>)
    ensures
        match r {
            Some(m) => dec_msg(b@) == Some(m@),
            None => dec_msg(b@) is None,
        },
{
    proof {
        assert(b@.skip(0) =~= b@);
    }
    match read_byte(b, 0) {
        None => None,
        Some((tag, j)) => {
            if tag == 0 {
                if j == b.len() {
                    Some(Message::ReqServerType)
                } else {
                    None
                }
            } else if tag == 1 {
                if j == b.len() {
                    Some(Message::ReqChatRegistration)
                } else {
                    None
                }
            } else if tag == 2 {
                if j == b.len() {
                    Some(Message::ReqChatClients)
                } else {
                    None
                }
            } else if tag == 3 {
                match read_byte(b, j) {
                    None => None,
                    Some((to, j1)) => match read_bytes(b, j1) {
                        None => None,
                        Some((cm, j2)) => {
                            if j2 == b.len() {
                                Some(Message::ReqChatSend { to, chat_msg: cm })
                            } else {
                                None
                            }
                        },
                    },
                }
            } else if tag == 4 {
                if j == b.len() {
                    Some(Message::ReqFilesList)
                } else {
                    None
                }
            } else if tag == 5 {
                match read_bytes(b, j) {
                    None => None,
                    Some((link, j1)) => {
                        if j1 == b.len() {
                            Some(Message::ReqFile(link))
                        } else {
                            None
                        }
                    },
                }
            } else if tag == 6 {
                match read_bytes(b, j) {
                    None => None,
                    Some((link, j1)) => {
                        if j1 == b.len() {
                            Some(Message::ReqMedia(link))
                        } else {
                            None
                        }
                    },
                }
            } else if tag == 7 {
                match read_server_type(b, j) {
                    None => None,
                    Some((st, j1)) => {
                        if j1 == b.len() {
                            Some(Message::RespServerType(st))
                        } else {
                            None
                        }
                    },
                }
            } else if tag == 8 {
                match read_bytes(b, j) {
                    None => None,
                    Some((ids, j1)) => {
                        if j1 == b.len() {
                            Some(Message::RespClientList(ids))
                        } else {
                            None
                        }
                    },
                }
            } else if tag == 9 {
                match read_byte(b, j) {
                    None => None,
                    Some((from, j1)) => match read_bytes(b, j1) {
                        None => None,
                        Some((cm, j2)) => {
                            if j2 == b.len() {
                                Some(Message::RespChatFrom { from, chat_msg: cm })
                            } else {
                                None
                            }
                        },
                    },
                }
            } else if tag == 10 {
                match read_links(b, j) {
                    None => None,
                    Some((links, j1)) => {
                        if j1 == b.len() {
                            Some(Message::RespFilesList(links))
                        } else {
                            None
                        }
                    },
                }
            } else if tag == 11 {
                match read_bytes(b, j) {
                    None => None,
                    Some((file, j1)) => match read_pairs(b, j1) {
                        None => None,
                        Some((related_data, j2)) => {
                            if j2 == b.len() {
                                Some(Message::RespFile(FileWithData { file, related_data }))
                            } else {
                                None
                            }
                        },
                    },
                }
            } else if tag == 12 {
                match read_bytes(b, j) {
                    None => None,
                    Some((media, j1)) => {
                        if j1 == b.len() {
                            Some(Message::RespMedia(media))
                        } else {
                            None
                        }
                    },
                }
            } else if tag == 13 {
                if j == b.len() {
                    Some(Message::ErrUnsupportedRequestType)
                } else {
                    None
                }
            } else if tag == 14 {
                if j == b.len() {
                    Some(Message::ErrNotExistentClient)
                } else {
                    None
                }
            } else if tag == 15 {
                if j == b.len() {
                    Some(Message::ErrNotFound)
                } else {
                    None
                }
            } else {
                None
            }
        },
    }
}

} // verus!
