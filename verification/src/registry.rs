//! The identity registry: the single source of truth for who is
//! connected, which identity a transport endpoint belongs to, and which
//! endpoint an identity is currently reachable at.
//!
//! Endpoints are opaque `u64` keys; whatever runs the sockets picks a
//! stable key per transport address and converts at the boundary.  The
//! two endpoint maps are kept mutually inverse, and every bound identity
//! is a member of the connected set, so a lookup either sees a whole
//! entry or none at all.

use vstd::prelude::*;
use std::collections::HashMap;
use crate::game_state::UserId;

verus! {

broadcast use vstd::std_specs::hash::group_hash_axioms;

/// Opaque key for a transport address.
pub type Endpoint = u64;

pub struct IdentityRegistry {
    endpoint_to_id: HashMap<Endpoint, UserId>,
    id_to_endpoint: HashMap<UserId, Endpoint>,
    connected: HashMap<UserId, ()>,
}

impl IdentityRegistry {
    /// The endpoint-to-identity direction of the registry.
    pub closed spec fn endpoints(&self) -> Map<Endpoint, UserId> {
        self.endpoint_to_id@
    }

    /// The identity-to-endpoint direction of the registry.
    pub closed spec fn identities(&self) -> Map<UserId, Endpoint> {
        self.id_to_endpoint@
    }

    /// The identities currently held by live sessions (an identity is
    /// reserved at login, before its endpoint is known).
    pub closed spec fn connected_ids(&self) -> Set<UserId> {
        self.connected@.dom()
    }

    /// The two directions agree entry for entry, and every bound
    /// identity is connected.
    pub open spec fn wf(&self) -> bool {
        &&& forall|e: Endpoint| #[trigger] self.endpoints().contains_key(e)
            ==> self.identities().contains_key(self.endpoints()[e])
                && self.identities()[self.endpoints()[e]] == e
        &&& forall|i: UserId| #[trigger] self.identities().contains_key(i)
            ==> self.endpoints().contains_key(self.identities()[i])
                && self.endpoints()[self.identities()[i]] == i
        &&& forall|i: UserId| #[trigger] self.identities().contains_key(i)
            ==> self.connected_ids().contains(i)
    }

    /// An empty registry: nobody connected, nothing bound.
    pub fn new() -> (r: IdentityRegistry)
        ensures
            r.wf(),
            r.endpoints() == Map::<Endpoint, UserId>::empty(),
            r.identities() == Map::<UserId, Endpoint>::empty(),
            r.connected_ids() == Set::<UserId>::empty(),
    {
        IdentityRegistry {
            endpoint_to_id: HashMap::new(),
            id_to_endpoint: HashMap::new(),
            connected: HashMap::new(),
        }
    }

    /// Whether an identity is held by a live session.
    pub fn is_in_use(&self, id: UserId) -> (r: bool)
        ensures
            r == self.connected_ids().contains(id),
    {
        self.connected.contains_key(&id)
    }

    /// Reserves an identity for a new session.  Returns whether the
    /// identity was free; a reservation of an identity already in use
    /// changes nothing.
    pub fn reserve(&mut self, id: UserId) -> (fresh: bool)
        ensures
            fresh == !old(self).connected_ids().contains(id),
            final(self).connected_ids() == if fresh {
                old(self).connected_ids().insert(id)
            } else {
                old(self).connected_ids()
            },
            final(self).endpoints() == old(self).endpoints(),
            final(self).identities() == old(self).identities(),
            old(self).wf() ==> final(self).wf(),
    {
        if self.connected.contains_key(&id) {
            false
        } else {
            self.connected.insert(id, ());
            proof {
                assert(final(self).connected_ids() =~= old(self).connected_ids().insert(id));
            }
            true
        }
    }

    /// Resolves an endpoint to the identity bound to it.
    pub fn resolve(&self, endpoint: Endpoint) -> (r: Option<UserId>)
        ensures
            r == if self.endpoints().contains_key(endpoint) {
                Some(self.endpoints()[endpoint])
            } else {
                None::<UserId>
            },
    {
        match self.endpoint_to_id.get(&endpoint) {
            Some(id) => Some(*id),
            None => None,
        }
    }

    /// Looks up the endpoint an identity is currently reachable at.
    pub fn current_endpoint(&self, id: UserId) -> (r: Option<Endpoint>)
        ensures
            r == if self.identities().contains_key(id) {
                Some(self.identities()[id])
            } else {
                None::<Endpoint>
            },
    {
        match self.id_to_endpoint.get(&id) {
            Some(e) => Some(*e),
            None => None,
        }
    }

    /// Binds an endpoint to a connected identity, replacing any stale
    /// binding either of them had (a peer may migrate address).
    pub fn register(&mut self, endpoint: Endpoint, id: UserId)
        requires
            old(self).wf(),
            old(self).connected_ids().contains(id),
        ensures
            final(self).wf(),
            final(self).connected_ids() == old(self).connected_ids(),
            final(self).endpoints() == (if old(self).identities().contains_key(id) {
                old(self).endpoints().remove(old(self).identities()[id])
            } else {
                old(self).endpoints()
            }).insert(endpoint, id),
            final(self).identities() == (if old(self).endpoints().contains_key(endpoint) {
                old(self).identities().remove(old(self).endpoints()[endpoint])
            } else {
                old(self).identities()
            }).insert(id, endpoint),
    {
        let prev_ep: Option<Endpoint> = match self.id_to_endpoint.get(&id) {
            Some(e) => Some(*e),
            None => None,
        };
        let prev_id: Option<UserId> = match self.endpoint_to_id.get(&endpoint) {
            Some(i) => Some(*i),
            None => None,
        };
        if let Some(pid) = prev_id {
            self.id_to_endpoint.remove(&pid);
        }
        if let Some(pep) = prev_ep {
            self.endpoint_to_id.remove(&pep);
        }
        self.endpoint_to_id.insert(endpoint, id);
        self.id_to_endpoint.insert(id, endpoint);
        proof {
            assert forall|e: Endpoint| #[trigger] self.endpoints().contains_key(e) implies self
                .identities().contains_key(self.endpoints()[e]) && self.identities()[self.endpoints()[e]]
                == e by {
                if e != endpoint {
                    assert(old(self).endpoints().contains_key(e));
                    assert(old(self).identities().contains_key(old(self).endpoints()[e]));
                    assert(self.endpoints()[e] != id);
                }
            }
            assert forall|i: UserId| #[trigger] self.identities().contains_key(i) implies self
                .endpoints().contains_key(self.identities()[i]) && self.endpoints()[self.identities()[i]]
                == i by {
                if i != id {
                    assert(old(self).identities().contains_key(i));
                    assert(old(self).endpoints().contains_key(old(self).identities()[i]));
                    assert(self.identities()[i] != endpoint);
                }
            }
            assert forall|i: UserId| #[trigger] self.identities().contains_key(i) implies self
                .connected_ids().contains(i) by {
                if i != id {
                    assert(old(self).identities().contains_key(i));
                }
            }
        }
    }

    /// Tears down whatever session is bound to an endpoint: the binding
    /// disappears in both directions and the identity is freed.
    pub fn unregister(&mut self, endpoint: Endpoint)
        requires
            old(self).wf(),
        ensures
            final(self).wf(),
            !final(self).endpoints().contains_key(endpoint),
            if old(self).endpoints().contains_key(endpoint) {
                let id = old(self).endpoints()[endpoint];
                &&& final(self).endpoints() == old(self).endpoints().remove(endpoint)
                &&& final(self).identities() == old(self).identities().remove(id)
                &&& final(self).connected_ids() == old(self).connected_ids().remove(id)
            } else {
                &&& final(self).endpoints() == old(self).endpoints()
                &&& final(self).identities() == old(self).identities()
                &&& final(self).connected_ids() == old(self).connected_ids()
            },
    {
        let resolved: Option<UserId> = match self.endpoint_to_id.get(&endpoint) {
            Some(i) => Some(*i),
            None => None,
        };
        if let Some(id) = resolved {
            self.endpoint_to_id.remove(&endpoint);
            self.id_to_endpoint.remove(&id);
            self.connected.remove(&id);
            proof {
                assert(self.connected@.dom() =~= old(self).connected@.dom().remove(id));
                assert forall|e: Endpoint| #[trigger] self.endpoints().contains_key(e) implies self
                    .identities().contains_key(self.endpoints()[e]) && self.identities()[self
                    .endpoints()[e]] == e by {
                    assert(old(self).endpoints().contains_key(e));
                    assert(old(self).identities().contains_key(old(self).endpoints()[e]));
                    assert(self.endpoints()[e] != id);
                }
                assert forall|i: UserId| #[trigger] self.identities().contains_key(i) implies self
                    .endpoints().contains_key(self.identities()[i]) && self.endpoints()[self
                    .identities()[i]] == i by {
                    assert(old(self).identities().contains_key(i));
                    assert(old(self).endpoints().contains_key(old(self).identities()[i]));
                    assert(self.identities()[i] != endpoint);
                }
                assert forall|i: UserId| #[trigger] self.identities().contains_key(i) implies self
                    .connected_ids().contains(i) by {
                    assert(old(self).identities().contains_key(i));
                    assert(i != id);
                }
            }
        }
    }

    /// Tears down a session by identity, for sessions that never bound
    /// an endpoint (or whose endpoint is unknown to the caller).
    pub fn release(&mut self, id: UserId)
        requires
            old(self).wf(),
        ensures
            final(self).wf(),
            final(self).connected_ids() == old(self).connected_ids().remove(id),
            final(self).identities() == old(self).identities().remove(id),
            final(self).endpoints() == if old(self).identities().contains_key(id) {
                old(self).endpoints().remove(old(self).identities()[id])
            } else {
                old(self).endpoints()
            },
    {
        let bound: Option<Endpoint> = match self.id_to_endpoint.get(&id) {
            Some(e) => Some(*e),
            None => None,
        };
        if let Some(ep) = bound {
            self.endpoint_to_id.remove(&ep);
        }
        self.id_to_endpoint.remove(&id);
        self.connected.remove(&id);
        proof {
            assert(self.connected@.dom() =~= old(self).connected@.dom().remove(id));
            assert forall|e: Endpoint| #[trigger] self.endpoints().contains_key(e) implies self
                .identities().contains_key(self.endpoints()[e]) && self.identities()[self.endpoints()[e]]
                == e by {
                assert(old(self).endpoints().contains_key(e));
                assert(old(self).identities().contains_key(old(self).endpoints()[e]));
                assert(self.endpoints()[e] != id);
            }
            assert forall|i: UserId| #[trigger] self.identities().contains_key(i) implies self
                .endpoints().contains_key(self.identities()[i]) && self.endpoints()[self.identities()[i]]
                == i by {
                assert(old(self).identities().contains_key(i));
                assert(old(self).endpoints().contains_key(old(self).identities()[i]));
            }
            assert forall|i: UserId| #[trigger] self.identities().contains_key(i) implies self
                .connected_ids().contains(i) by {
                assert(old(self).identities().contains_key(i));
                assert(i != id);
            }
        }
    }

    /// Picks an identity that no live session holds, probing upward from
    /// `seed` (wrapping around at the top) until an unused one is found.
    /// Fewer than `2^64` sessions can be connected, so the probe always
    /// lands.
    pub fn fresh_id(&self, seed: u64) -> (id: UserId)
        ensures
            !self.connected_ids().contains(id),
    {
        let ghost s = self.connected@.dom();
        let n: usize = self.connected.len();
        let mut c: u64 = seed;
        while c < u64::MAX
            invariant
                self.connected@.dom() == s,
                n == s.len(),
                seed <= c,
                forall|k: u64| seed <= k < c ==> s.contains(k),
            decreases u64::MAX - c,
        {
            if !self.connected.contains_key(&c) {
                return c;
            }
            c = c + 1;
        }
        if !self.connected.contains_key(&c) {
            return c;
        }
        // every identity from `seed` upward is taken; probe below it
        let mut j: u64 = 0;
        loop
            invariant
                self.connected@.dom() == s,
                n == s.len(),
                j <= seed,
                forall|k: u64| seed <= k ==> s.contains(k),
                forall|k: u64| k < j ==> s.contains(k),
            decreases seed - j,
        {
            proof {
                lemma_probe_below_seed(s, seed, j);
            }
            if !self.connected.contains_key(&j) {
                return j;
            }
            j = j + 1;
        }
    }
}

/// Pigeonhole step of the identity probe: if every identity from `seed`
/// upward and every identity below `j` is connected, then — the connected
/// set being smaller than the whole identity space — `j` lies strictly
/// below `seed`, so the downward probe has room to continue.
proof fn lemma_probe_below_seed(s: Set<u64>, seed: u64, j: u64)
    requires
        s.finite(),
        s.len() < 0x1_0000_0000_0000_0000nat,
        forall|k: u64| seed <= k ==> s.contains(k),
        forall|k: u64| k < j ==> s.contains(k),
    ensures
        j < seed,
{
    broadcast use vstd::set_lib::range_set_properties;
    broadcast use vstd::set::group_set_axioms;

    let high = Set::new(|k: u64| seed <= k);
    assert(high =~= Set::<u64>::range_inclusive(seed, u64::MAX));
    assert(!Set::<u64>::range(seed, u64::MAX).contains(u64::MAX));
    assert(high.finite() && high.len() == (u64::MAX - seed) + 1);
    if j >= seed {
        let all = Set::new(|k: u64| true);
        assert(all =~= Set::<u64>::range_inclusive(0, u64::MAX));
        assert(!Set::<u64>::range(0, u64::MAX).contains(u64::MAX));
        assert(all.finite() && all.len() == 0x1_0000_0000_0000_0000nat);
        assert(all.subset_of(s));
        vstd::set_lib::lemma_len_subset(all, s);
        assert(false);
    }
    let low = Set::<u64>::range(0, j);
    assert(low.subset_of(s));
    assert(high.subset_of(s));
    assert(low.disjoint(high));
    vstd::set_lib::lemma_set_disjoint_lens(low, high);
    vstd::set_lib::lemma_len_subset(low + high, s);
    assert(j + ((u64::MAX - seed) + 1) <= s.len());
}

} // verus!
