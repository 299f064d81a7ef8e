//! The relay core: a state machine from events — a connection accepted, a
//! frame received, a session closed — to registry updates and fan-outs.
//!
//! The surrounding binary owns the sockets and channels. It feeds each event
//! into the methods here and carries out the returned [`Delivery`] by writing
//! the frame to every listed peer's outbound channel, best-effort; a peer
//! that cannot take the write is simply skipped, so one slow or vanished
//! peer never affects delivery to the others.
use vstd::prelude::*;
use crate::ChatMessage;
use crate::clock::MAX_STAMP_MS;
use crate::clock::now_millis;
use crate::clock::rfc3339_of;
use crate::clock::rfc3339_of_millis;
use crate::codec::parse_message;
use crate::codec::serialize_message;
use crate::codec::spec_parse_message;
use crate::codec::wire_of;
use crate::registry::Registry;

verus! {

/// The server-assigned timestamp for a message received at `now` when the
/// previous assignment was `last`: the receipt time, pushed forward where
/// needed so stamps from one relay never step back.
pub open spec fn stamp_of(last: i64, now: i64) -> i64 {
    if now >= last {
        now
    } else {
        last
    }
}

/// The frame rebroadcast for an inbound envelope carrying `user_id` and
/// `content`: the same two fields under a server-assigned timestamp. The
/// timestamp a client claimed does not appear in it.
pub open spec fn relayed_frame(user_id: Seq<char>, content: Seq<char>, last: i64, now: i64) -> Seq<
    char,
> {
    wire_of(user_id, rfc3339_of(stamp_of(last, now)), content)
}

/// One fan-out: the frame to write, and the peers to write it to.
pub struct Delivery {
    pub frame: String,
    pub recipients: Vec<u64>,
}

/// The lifecycle of the accept loop: bound and accepting, or ended for good
/// by a bind failure. There is no retry state.
pub enum RelayStatus {
    Listening,
    Terminated,
}

impl RelayStatus {
    /// The state after the one attempt to bind the listen address: a
    /// successful bind listens; a failed bind is fatal to the relay.
    pub fn after_bind(bind_ok: bool) -> (r: RelayStatus)
        ensures
            r is Listening <==> bind_ok,
            r is Terminated <==> !bind_ok,
    {
        if bind_ok {
            RelayStatus::Listening
        } else {
            RelayStatus::Terminated
        }
    }

    /// Only a listening relay accepts connections.
    pub fn can_accept(&self) -> (r: bool)
        ensures
            r <==> self is Listening,
    {
        match self {
            RelayStatus::Listening => true,
            RelayStatus::Terminated => false,
        }
    }
}

/// The relay's decision state: the peer registry, the next connection
/// identity, and the last timestamp it assigned.
pub struct Relay {
    registry: Registry,
    next_conn: u64,
    last_stamp_ms: i64,
}

impl Relay {
    /// Identities are unique per accept, and assigned stamps stay renderable.
    pub closed spec fn wf(&self) -> bool {
        &&& self.registry.wf()
        &&& forall|x: u64| self.registry.has(x) ==> x < self.next_conn
        &&& 0 <= self.last_stamp_ms <= MAX_STAMP_MS
    }

    /// Whether the peer `id` is registered.
    pub closed spec fn has_peer(&self, id: u64) -> bool {
        self.registry.has(id)
    }

    /// How many peers are registered.
    pub closed spec fn peer_count(&self) -> nat {
        self.registry.count()
    }

    /// The identity the next accepted connection will get.
    pub closed spec fn next_id(&self) -> u64 {
        self.next_conn
    }

    /// The last timestamp the relay assigned, in milliseconds.
    pub closed spec fn last_stamp(&self) -> i64 {
        self.last_stamp_ms
    }

    /// A fresh relay: no peers, identities from zero.
    pub fn new() -> (r: Relay)
        ensures
            r.wf(),
            forall|x: u64| !r.has_peer(x),
            r.peer_count() == 0,
            r.next_id() == 0,
            r.last_stamp() == 0,
    {
        Relay { registry: Registry::new(), next_conn: 0, last_stamp_ms: 0 }
    }

    /// How many peers are registered.
    pub fn peers_len(&self) -> (r: usize)
        ensures
            r == self.peer_count(),
    {
        self.registry.len()
    }

    /// Whether the peer `id` is registered.
    pub fn is_peer(&self, id: u64) -> (r: bool)
        ensures
            r == self.has_peer(id),
    {
        self.registry.contains(id)
    }

    /// The identity the next accepted connection will get.
    pub fn next_identity(&self) -> (r: u64)
        ensures
            r == self.next_id(),
    {
        self.next_conn
    }

    /// A connection completed its handshake: allocate a fresh identity and
    /// register it. The new peer set is the old one plus exactly that
    /// identity, which was never in use before.
    pub fn on_accept(&mut self) -> (id: u64)
        requires
            old(self).wf(),
            old(self).next_id() < u64::MAX,
        ensures
            final(self).wf(),
            id == old(self).next_id(),
            !old(self).has_peer(id),
            forall|x: u64| final(self).has_peer(x) <==> (old(self).has_peer(x) || x == id),
            final(self).next_id() == old(self).next_id() + 1,
            final(self).last_stamp() == old(self).last_stamp(),
    {
        let id = self.next_conn;
        proof {
            if old(self).registry.has(id) {
                assert(id < old(self).next_conn);
            }
        }
        self.registry.register(id);
        self.next_conn = self.next_conn + 1;
        id
    }

    /// A session ended, on either of its paths: its identity leaves the
    /// registry. Removal is idempotent; no other peer is touched.
    pub fn on_close(&mut self, id: u64)
        requires
            old(self).wf(),
        ensures
            final(self).wf(),
            forall|x: u64| final(self).has_peer(x) <==> (old(self).has_peer(x) && x != id),
            final(self).next_id() == old(self).next_id(),
            final(self).last_stamp() == old(self).last_stamp(),
    {
        self.registry.deregister(id);
    }

    /// A text frame arrived from peer `from` at time `now_ms`.
    ///
    /// A frame the codec grammar rejects is discarded: no delivery, no state
    /// change, the session stays up. A well-formed frame is rebroadcast with
    /// a server-assigned timestamp — never the client's — to every
    /// registered peer except the sender, each exactly once.
    pub fn on_frame(&mut self, from: u64, text: &str, now_ms: i64) -> (r: Option<Delivery>)
        requires
            old(self).wf(),
            0 <= now_ms <= MAX_STAMP_MS,
        ensures
            final(self).wf(),
            forall|x: u64| final(self).has_peer(x) == old(self).has_peer(x),
            final(self).next_id() == old(self).next_id(),
            match spec_parse_message(text@) {
                None => r is None && final(self).last_stamp() == old(self).last_stamp(),
                Some(m) => r matches Some(d) && {
                    &&& final(self).last_stamp() == stamp_of(old(self).last_stamp(), now_ms)
                    &&& d.frame@ == relayed_frame(m.0, m.2, old(self).last_stamp(), now_ms)
                    &&& forall|x: u64|
                        d.recipients@.contains(x) <==> (old(self).has_peer(x) && x != from)
                    &&& forall|i: int, j: int|
                        0 <= i < j < d.recipients@.len() ==> d.recipients@[i] != d.recipients@[j]
                },
            },
    {
        let parsed = match parse_message(text) {
            Some(m) => m,
            None => {
                return None;
            },
        };
        let stamp = if now_ms >= self.last_stamp_ms {
            now_ms
        } else {
            self.last_stamp_ms
        };
        self.last_stamp_ms = stamp;
        let ts = rfc3339_of_millis(stamp);
        let out = ChatMessage { user_id: parsed.user_id, timestamp: ts, content: parsed.content };
        let frame = serialize_message(&out);
        let recipients = self.registry.recipients(from);
        Some(Delivery { frame, recipients })
    }

    /// Receive one frame, stamping it with the server clock read now.
    ///
    /// The same as [`Relay::on_frame`] with the current time, clamped to the
    /// last renderable instant; the assigned stamp never steps back.
    pub fn handle_frame(&mut self, from: u64, text: &str) -> (r: Option<Delivery>)
        requires
            old(self).wf(),
        ensures
            final(self).wf(),
            forall|x: u64| final(self).has_peer(x) == old(self).has_peer(x),
            final(self).next_id() == old(self).next_id(),
            final(self).last_stamp() >= old(self).last_stamp(),
            match spec_parse_message(text@) {
                None => r is None && final(self).last_stamp() == old(self).last_stamp(),
                Some(m) => r matches Some(d) && {
                    &&& d.frame@ == wire_of(m.0, rfc3339_of(final(self).last_stamp()), m.2)
                    &&& forall|x: u64|
                        d.recipients@.contains(x) <==> (old(self).has_peer(x) && x != from)
                    &&& forall|i: int, j: int|
                        0 <= i < j < d.recipients@.len() ==> d.recipients@[i] != d.recipients@[j]
                },
            },
    {
        let now = now_millis();
        let now_clamped = if now > MAX_STAMP_MS {
            MAX_STAMP_MS
        } else {
            now
        };
        self.on_frame(from, text, now_clamped)
    }
}

/// An envelope leaving the relay carries a stamp at or after its receipt
/// time, and at or after every stamp the relay assigned before it: stamps
/// from one relay never step back.
pub proof fn lemma_stamp_monotone(last: i64, now: i64)
    ensures
        stamp_of(last, now) >= now,
        stamp_of(last, now) >= last,
{
}

/// The frame a client submits for sending: its own identifier and text,
/// stamped with its local clock. The relay never trusts this stamp; it is
/// carried only for display until the server's copy comes back.
pub fn compose_frame(user_id: &String, content: &String, now_ms: i64) -> (r: String)
    requires
        0 <= now_ms <= MAX_STAMP_MS,
    ensures
        r@ == wire_of(user_id@, rfc3339_of(now_ms), content@),
{
    let msg = ChatMessage {
        user_id: user_id.clone(),
        timestamp: rfc3339_of_millis(now_ms),
        content: content.clone(),
    };
    serialize_message(&msg)
}

/// The rebroadcast frame is independent of the timestamp a client claims:
/// two inbound frames carrying the same `user_id` and `content` — whatever
/// timestamps they forge — relay to the very same bytes, under the server's
/// own stamp.
pub proof fn lemma_timestamp_server_assigned(t1: Seq<char>, t2: Seq<char>, last: i64, now: i64)
    requires
        spec_parse_message(t1) is Some,
        spec_parse_message(t2) is Some,
        spec_parse_message(t1).unwrap().0 == spec_parse_message(t2).unwrap().0,
        spec_parse_message(t1).unwrap().2 == spec_parse_message(t2).unwrap().2,
    ensures
        relayed_frame(
            spec_parse_message(t1).unwrap().0,
            spec_parse_message(t1).unwrap().2,
            last,
            now,
        ) == relayed_frame(
            spec_parse_message(t2).unwrap().0,
            spec_parse_message(t2).unwrap().2,
            last,
            now,
        ),
{
}

/// What a receiver sees: a frame the relay fans out parses back, through the
/// same codec, to exactly the envelope the relay stamped — the sender's
/// `user_id` and `content`, under the server-assigned timestamp.
pub proof fn lemma_relayed_frame_parses(user_id: Seq<char>, content: Seq<char>, last: i64, now: i64)
    ensures
        spec_parse_message(relayed_frame(user_id, content, last, now)) == Some(
            (user_id, rfc3339_of(stamp_of(last, now)), content),
        ),
{
    crate::codec::lemma_wire_round_trip(user_id, rfc3339_of(stamp_of(last, now)), content);
}

/// One lifecycle step of a session, as the registry sees it.
pub enum SessionEvent {
    Connected(u64),
    Disconnected(u64),
}

/// The registry contents after a run of session events, starting empty: a
/// connect inserts the identity, a disconnect removes it. These are exactly
/// the steps `Relay::on_accept` and `Relay::on_close` take.
pub open spec fn registry_after(events: Seq<SessionEvent>) -> Set<u64>
    decreases events.len(),
{
    if events.len() == 0 {
        Set::empty()
    } else {
        let prior = registry_after(events.drop_last());
        match events.last() {
            SessionEvent::Connected(id) => prior.insert(id),
            SessionEvent::Disconnected(id) => prior.remove(id),
        }
    }
}

/// Whether the events connect `id` at position `k` and never disconnect it
/// afterwards.
pub open spec fn connects_at(events: Seq<SessionEvent>, id: u64, k: int) -> bool {
    &&& 0 <= k < events.len()
    &&& events[k] == SessionEvent::Connected(id)
    &&& forall|j: int| k < j < events.len() ==> events[j] != SessionEvent::Disconnected(id)
}

/// A session is open after a run of events when it was connected and not
/// disconnected afterwards.
pub open spec fn open_session(events: Seq<SessionEvent>, id: u64) -> bool {
    exists|k: int| connects_at(events, id, k)
}

/// After any run of connects and disconnects the registry holds exactly the
/// identities of the currently open sessions: no entry leaks past its
/// disconnect, and none is dropped while its session is open.
pub proof fn lemma_registry_tracks_sessions(events: Seq<SessionEvent>, id: u64)
    ensures
        registry_after(events).contains(id) <==> open_session(events, id),
    decreases events.len(),
{
    if events.len() == 0 {
        assert(!open_session(events, id));
    } else {
        let init = events.drop_last();
        let last = events.last();
        lemma_registry_tracks_sessions(init, id);
        assert(forall|j: int| 0 <= j < init.len() ==> init[j] == events[j]);
        match last {
            SessionEvent::Connected(c) => {
                if id == c {
                    assert(connects_at(events, id, events.len() - 1));
                    assert(registry_after(events).contains(id));
                } else {
                    if open_session(init, id) {
                        let k = choose|k: int| connects_at(init, id, k);
                        assert(connects_at(events, id, k));
                    }
                    if open_session(events, id) {
                        let k = choose|k: int| connects_at(events, id, k);
                        assert(k < events.len() - 1);
                        assert(connects_at(init, id, k));
                    }
                }
            },
            SessionEvent::Disconnected(c) => {
                if id == c {
                    assert(!registry_after(events).contains(id));
                    if open_session(events, id) {
                        let k = choose|k: int| connects_at(events, id, k);
                        assert(k < events.len() - 1);
                        assert(events[events.len() - 1] != SessionEvent::Disconnected(id));
                        assert(false);
                    }
                } else {
                    if open_session(init, id) {
                        let k = choose|k: int| connects_at(init, id, k);
                        assert(connects_at(events, id, k));
                    }
                    if open_session(events, id) {
                        let k = choose|k: int| connects_at(events, id, k);
                        if k == events.len() - 1 {
                            assert(events[k] == SessionEvent::Disconnected(c));
                            assert(false);
                        }
                        assert(connects_at(init, id, k));
                    }
                }
            },
        }
    }
}

} // verus!
