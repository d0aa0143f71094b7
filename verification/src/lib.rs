//! Core engine of a leaf node ("server") in a source-routed,
//! drone-forwarded overlay network.
//!
//! The engine turns an unreliable, fragmented, loosely-routed packet
//! stream into a reliable, message-oriented interface for a pluggable
//! application protocol.  It keeps a routing table learned from flood
//! responses and reverse paths, reassembles fragments per
//! (session, peer), acknowledges every fragment, and retransmits from
//! a send history on drop notifications.
//!
//! All decisions of the engine are verified here.  Channel plumbing
//! (the biased event loop over a controller channel and a packet
//! channel) lives outside the library and feeds events in; outbound
//! work is returned as a queue of explicit actions.

use vstd::prelude::*;

pub mod types;
pub mod route;
pub mod message;
pub mod codec;
pub mod fragment;
pub mod store;
pub mod packet;
pub mod server;
pub mod chat;
pub mod text;
pub mod media;

verus! {

/// A leaf running the chat protocol.
pub type ChatServer = server::Server<chat::ChatServer>;

/// A leaf running the media protocol.
pub type MediaServer = server::Server<media::MediaServer>;

/// A leaf running the text protocol.
pub type TextServer = server::Server<text::TextServer>;

} // verus!
