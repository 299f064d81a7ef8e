//! The peer registry: the set of connection identities whose outbound
//! delivery channel is still able to accept messages. This is the relay's
//! single shared structure; each operation here is one atomic step of it.
use vstd::prelude::*;
use vstd::seq_lib::group_seq_properties;

verus! {

/// The registry of connected peers, keyed by connection identity.
///
/// An entry exists exactly while the peer's session is open: it is added
/// once at session start and removed once at session end, and removal is
/// idempotent.
pub struct Registry {
    ids: Vec<u64>,
}

impl Registry {
    /// Identities never repeat in the underlying vector.
    pub closed spec fn wf(&self) -> bool {
        forall|i: int, j: int| 0 <= i < j < self.ids@.len() ==> self.ids@[i] != self.ids@[j]
    }

    /// Whether `id` is registered.
    pub closed spec fn has(&self, id: u64) -> bool {
        self.ids@.contains(id)
    }

    /// How many peers are registered.
    pub closed spec fn count(&self) -> nat {
        self.ids@.len()
    }

    /// An empty registry.
    pub fn new() -> (r: Registry)
        ensures
            r.wf(),
            forall|x: u64| !r.has(x),
            r.count() == 0,
    {
        Registry { ids: Vec::new() }
    }

    /// How many peers are registered.
    pub fn len(&self) -> (r: usize)
        ensures
            r == self.count(),
    {
        self.ids.len()
    }

    fn position_of(&self, id: u64) -> (r: Option<usize>)
        ensures
            match r {
                Some(k) => k < self.ids@.len() && self.ids@[k as int] == id,
                None => !self.has(id),
            },
    {
        let mut k: usize = 0;
        while k < self.ids.len()
            invariant
                0 <= k <= self.ids@.len(),
                forall|m: int| 0 <= m < k ==> self.ids@[m] != id,
            decreases self.ids@.len() - k,
        {
            if self.ids[k] == id {
                return Some(k);
            }
            k += 1;
        }
        None
    }

    /// Whether `id` is registered.
    pub fn contains(&self, id: u64) -> (r: bool)
        ensures
            r == self.has(id),
    {
        self.position_of(id).is_some()
    }

    /// Insert `id`. A colliding insert leaves the entry in place, so the set
    /// of registered identities afterwards is the old set plus `id`.
    pub fn register(&mut self, id: u64)
        requires
            old(self).wf(),
        ensures
            final(self).wf(),
            forall|x: u64| final(self).has(x) <==> (old(self).has(x) || x == id),
            final(self).count() <= old(self).count() + 1,
    {
        proof {
            broadcast use group_seq_properties;

        }
        let present = self.contains(id);
        if !present {
            self.ids.push(id);
        }
    }

    /// Remove `id` if present; a no-op otherwise. The set of registered
    /// identities afterwards is the old set without `id`.
    pub fn deregister(&mut self, id: u64)
        requires
            old(self).wf(),
        ensures
            final(self).wf(),
            forall|x: u64| final(self).has(x) <==> (old(self).has(x) && x != id),
            final(self).count() <= old(self).count(),
    {
        proof {
            broadcast use group_seq_properties;

        }
        let pos = self.position_of(id);
        if let Some(k) = pos {
            self.ids.remove(k);
            proof {
                let pre = old(self).ids@;
                let post = self.ids@;
                assert(post =~= pre.take(k as int) + pre.skip(k as int + 1));
                assert forall|x: u64| post.contains(x) <==> (pre.contains(x) && x != id) by {
                    if post.contains(x) {
                        assert(pre.take(k as int).contains(x) || pre.skip(k as int + 1).contains(
                            x,
                        ));
                        if pre.take(k as int).contains(x) {
                            let w = choose|w: int|
                                0 <= w < k && pre.take(k as int)[w] == x;
                            assert(pre[w] == x);
                            assert(pre[w] != pre[k as int]);
                        } else {
                            let tail = pre.skip(k as int + 1);
                            let w = choose|w: int| 0 <= w < tail.len() && tail[w] == x;
                            assert(pre[w + k + 1] == x);
                            assert(pre[w + k + 1] != pre[k as int]);
                        }
                    }
                    if pre.contains(x) && x != id {
                        let w = choose|w: int| 0 <= w < pre.len() && pre[w] == x;
                        if w < k {
                            assert(pre.take(k as int)[w] == x);
                            assert(post[w] == x);
                        } else {
                            assert(w != k);
                            assert(pre.skip(k as int + 1)[w - k - 1] == x);
                            assert(post[w - 1] == x);
                        }
                    }
                }
            }
        }
    }

    /// The identities that a broadcast from `exclude` is delivered to: every
    /// registered peer except the sender itself, each exactly once.
    pub fn recipients(&self, exclude: u64) -> (r: Vec<u64>)
        requires
            self.wf(),
        ensures
            forall|x: u64| r@.contains(x) <==> (self.has(x) && x != exclude),
            forall|i: int, j: int| 0 <= i < j < r@.len() ==> r@[i] != r@[j],
    {
        proof {
            broadcast use group_seq_properties;

        }
        let mut out: Vec<u64> = Vec::new();
        let mut k: usize = 0;
        while k < self.ids.len()
            invariant
                0 <= k <= self.ids@.len(),
                self.wf(),
                forall|x: u64|
                    out@.contains(x) <==> (self.ids@.take(k as int).contains(x) && x != exclude),
                forall|i: int, j: int| 0 <= i < j < out@.len() ==> out@[i] != out@[j],
            decreases self.ids@.len() - k,
        {
            proof {
                broadcast use group_seq_properties;

                assert(self.ids@.take(k + 1 as int) =~= self.ids@.take(k as int).push(
                    self.ids@[k as int],
                ));
            }
            let id = self.ids[k];
            if id != exclude {
                proof {
                    if out@.contains(id) {
                        let m = choose|m: int|
                            0 <= m < k && self.ids@.take(k as int)[m] == id;
                        assert(self.ids@[m] == self.ids@[k as int]);
                        assert(false);
                    }
                }
                out.push(id);
            }
            k += 1;
        }
        proof {
            assert(self.ids@.take(self.ids@.len() as int) =~= self.ids@);
        }
        out
    }
}

} // verus!
