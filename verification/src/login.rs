//! The login handshake: the one decision a new reliable connection goes
//! through before any gameplay message is accepted.
//!
//! A peer either asks for a fresh identity (`ConnectNew`) or brings one
//! of its own (`ConnectWithId`).  The server grants an identity only if
//! no live session holds it; a collision is answered with
//! `IdAlreadyInUse` and changes nothing, so the peer can retry on the
//! same connection.  The session-event trace model at the bottom states
//! the protocol's central law: identities of concurrently-active
//! sessions never collide.

use vstd::prelude::*;
use crate::game_state::UserId;
use crate::message::{ClientConnectionMessage, ServerConnectionMessage};
use crate::registry::IdentityRegistry;

verus! {

/// One identity-lifecycle event: a session is granted an identity at
/// login, or releases it at teardown.
#[derive(Clone, Copy, PartialEq, Eq, Structural, Debug)]
pub enum SessionEvent {
    Granted(UserId),
    Released(UserId),
}

/// Whether an event may happen while `held` is the set of identities of
/// active sessions: a grant requires the identity to be free.
pub open spec fn event_allowed(held: Set<UserId>, e: SessionEvent) -> bool {
    match e {
        SessionEvent::Granted(id) => !held.contains(id),
        SessionEvent::Released(_) => true,
    }
}

/// The set of held identities after an event.
pub open spec fn apply_event(held: Set<UserId>, e: SessionEvent) -> Set<UserId> {
    match e {
        SessionEvent::Granted(id) => held.insert(id),
        SessionEvent::Released(id) => held.remove(id),
    }
}

/// The set of held identities after the first `i` events of a trace.
pub open spec fn held_after(held0: Set<UserId>, events: Seq<SessionEvent>, i: int) -> Set<UserId>
    decreases i,
{
    if i <= 0 {
        held0
    } else {
        apply_event(held_after(held0, events, i - 1), events[i - 1])
    }
}

/// A trace is valid when every event was allowed in the state it met.
pub open spec fn valid_trace(held0: Set<UserId>, events: Seq<SessionEvent>) -> bool {
    forall|i: int|
        0 <= i < events.len() ==> event_allowed(held_after(held0, events, i), #[trigger] events[i])
}

/// Runs one login exchange against the registry.  Returns the reply to
/// send to the peer and the identity granted, if any.
///
/// `ConnectNew` always grants a fresh identity derived from `seed` (the
/// caller derives the seed from the connection's endpoint); the reply
/// carries it.  `ConnectWithId` grants the requested identity exactly
/// when no live session holds it; otherwise it answers `IdAlreadyInUse`
/// and leaves the registry untouched.  Every grant is a valid
/// `Granted` event on the connected-identity set.
pub fn login_step(reg: &mut IdentityRegistry, msg: ClientConnectionMessage, seed: u64) -> (r: (
    ServerConnectionMessage,
    Option<UserId>,
))
    requires
        old(reg).wf(),
    ensures
        final(reg).wf(),
        final(reg).endpoints() == old(reg).endpoints(),
        final(reg).identities() == old(reg).identities(),
        match r.1 {
            Some(id) => {
                &&& event_allowed(old(reg).connected_ids(), SessionEvent::Granted(id))
                &&& final(reg).connected_ids() == apply_event(
                    old(reg).connected_ids(),
                    SessionEvent::Granted(id),
                )
            },
            None => final(reg).connected_ids() == old(reg).connected_ids(),
        },
        match msg {
            ClientConnectionMessage::ConnectNew => {
                &&& r.1 is Some
                &&& r.0 == ServerConnectionMessage::AssignUserId(r.1->0)
            },
            ClientConnectionMessage::ConnectWithId(requested) => {
                if old(reg).connected_ids().contains(requested) {
                    r == (ServerConnectionMessage::IdAlreadyInUse, None::<UserId>)
                } else {
                    r == (ServerConnectionMessage::AcknowledgeId, Some(requested))
                }
            },
        },
{
    match msg {
        ClientConnectionMessage::ConnectNew => {
            let id = reg.fresh_id(seed);
            reg.reserve(id);
            (ServerConnectionMessage::AssignUserId(id), Some(id))
        },
        ClientConnectionMessage::ConnectWithId(requested) => {
            if reg.reserve(requested) {
                (ServerConnectionMessage::AcknowledgeId, Some(requested))
            } else {
                (ServerConnectionMessage::IdAlreadyInUse, None)
            }
        },
    }
}

/// Law: an identity granted at step `k` of a valid trace and not
/// released before step `l` is still held at step `l`.
proof fn lemma_grant_persists(
    held0: Set<UserId>,
    events: Seq<SessionEvent>,
    k: int,
    l: int,
    id: UserId,
)
    requires
        valid_trace(held0, events),
        0 <= k < l <= events.len(),
        events[k] == SessionEvent::Granted(id),
        forall|m: int| k < m < l ==> events[m] != SessionEvent::Released(id),
    ensures
        held_after(held0, events, l).contains(id),
    decreases l - k,
{
    if l == k + 1 {
        assert(held_after(held0, events, l) == apply_event(
            held_after(held0, events, k),
            events[k],
        ));
    } else {
        lemma_grant_persists(held0, events, k, l - 1, id);
        assert(events[l - 1] != SessionEvent::Released(id));
        assert(held_after(held0, events, l) == apply_event(
            held_after(held0, events, l - 1),
            events[l - 1],
        ));
    }
}

/// Law: no two concurrently-active sessions ever hold the same identity.
/// Along any valid trace of grants and releases, once an identity is
/// granted it cannot be granted again until it has been released.
pub proof fn lemma_no_concurrent_duplicate_grant(
    held0: Set<UserId>,
    events: Seq<SessionEvent>,
    k: int,
    l: int,
    id: UserId,
)
    requires
        valid_trace(held0, events),
        0 <= k < l < events.len(),
        events[k] == SessionEvent::Granted(id),
        forall|m: int| k < m < l ==> events[m] != SessionEvent::Released(id),
    ensures
        events[l] != SessionEvent::Granted(id),
{
    lemma_grant_persists(held0, events, k, l, id);
    assert(event_allowed(held_after(held0, events, l), events[l]));
}

/// Law: a collision reply leaves the requester able to retry.  If
/// `ConnectWithId(requested)` is answered `IdAlreadyInUse`, the
/// connected set is unchanged, and a retry with any identity that is
/// free (or a `ConnectNew`) succeeds on the same connection.
pub proof fn lemma_collision_then_retry(held: Set<UserId>, requested: UserId, retry: UserId)
    requires
        held.contains(requested),
        !held.contains(retry),
    ensures
        !event_allowed(held, SessionEvent::Granted(requested)),
        event_allowed(held, SessionEvent::Granted(retry)),
{
}

} // verus!
