//! A real-time chat message relay.
//!
//! The relay accepts persistent bidirectional connections from clients and
//! broadcasts every message received from one client to all other connected
//! clients, rewriting the trust-sensitive `timestamp` field server-side.
//!
//! The verified core models the relay as a state machine: the wire codec for
//! message envelopes, the peer registry, and the per-event transition logic.
//! The surrounding binary performs the actual socket and channel work and
//! feeds events into this core.
use vstd::prelude::*;

pub mod clock;
pub mod registry;
pub mod relay;
pub mod codec;
pub mod text;

verus! {

/// One chat message envelope as exchanged on the wire.
///
/// `user_id` and `content` are client-supplied and never validated or
/// rewritten. `timestamp` is trust-sensitive: the relay overwrites it with a
/// server-assigned RFC 3339 string before rebroadcast, so the value a client
/// sends is never forwarded.
pub struct ChatMessage {
    pub user_id: String,
    pub timestamp: String,
    pub content: String,
}

impl ChatMessage {
    /// True when `other` carries the same fields.
    pub fn same_as(&self, other: &ChatMessage) -> (r: bool)
        ensures
            r <==> (self.user_id@ == other.user_id@ && self.timestamp@ == other.timestamp@
                && self.content@ == other.content@),
    {
        let ue = self.user_id == other.user_id;
        let te = self.timestamp == other.timestamp;
        let ce = self.content == other.content;
        ue && te && ce
    }
}

} // verus!
