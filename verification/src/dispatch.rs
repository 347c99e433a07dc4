//! The dispatcher and the snapshot fan-out.
//!
//! Inbound messages, reliable or not, arrive here as `(message,
//! identity)` pairs and are applied to the world: a respawn request
//! becomes a spawn, a movement intent moves the identity's player.
//! Teardown events free the identity in the registry.  Once per tick
//! the fan-out builds one private snapshot per registered identity
//! with a slot; the network side delivers them best-effort.

use vstd::prelude::*;
use crate::game_state::{GameStateUpdate, UserId};
use crate::message::{ClientEvent, ClientMessage, ClientTcpMessage, ClientUdpMessage};
use crate::registry::IdentityRegistry;
use crate::world::{spawn_outcome, spec_move, ServerGameState};

verus! {

broadcast use vstd::std_specs::hash::group_hash_axioms;

/// Applies one reliable gameplay message from `userid` to the world: a
/// respawn request spawns its player as `spec_spawn` says, at whatever
/// position was drawn.
pub fn handle_tcp_message(state: &mut ServerGameState, message: ClientTcpMessage, userid: UserId)
    requires
        old(state).wf(),
    ensures
        final(state).wf(),
        match message {
            ClientTcpMessage::Respawn => exists|pos: crate::game_state::Position|
                #[trigger] spawn_outcome(*old(state), *final(state), userid, pos),
        },
{
    match message {
        ClientTcpMessage::Respawn => {
            state.spawn_player(userid);
        },
    }
}

/// Applies one unreliable gameplay message from `userid` to the world:
/// a movement intent moves its player as `spec_move` says; intents for
/// unknown or dead identities change nothing.
pub fn handle_udp_message(state: &mut ServerGameState, message: ClientUdpMessage, userid: UserId)
    requires
        old(state).wf(),
    ensures
        final(state).wf(),
        match message {
            ClientUdpMessage::Move { new_pos } => {
                &&& final(state).players@ == spec_move(
                    old(state).players@,
                    old(state).user_id_to_index@,
                    userid,
                    new_pos,
                )
                &&& final(state).user_id_to_index@ == old(state).user_id_to_index@
                &&& final(state).foods@ == old(state).foods@
                &&& final(state).board_size == old(state).board_size
            },
        },
{
    match message {
        ClientUdpMessage::Move { new_pos } => {
            state.move_player(userid, new_pos);
        },
    }
}

/// Applies one gameplay message of either transport.
pub fn handle_incoming_message(state: &mut ServerGameState, message: ClientMessage, userid: UserId)
    requires
        old(state).wf(),
    ensures
        final(state).wf(),
        match message {
            ClientMessage::Tcp(m) => match m {
                ClientTcpMessage::Respawn => exists|pos: crate::game_state::Position|
                    #[trigger] spawn_outcome(*old(state), *final(state), userid, pos),
            },
            ClientMessage::Udp(m) => match m {
                ClientUdpMessage::Move { new_pos } => {
                    &&& final(state).players@ == spec_move(
                        old(state).players@,
                        old(state).user_id_to_index@,
                        userid,
                        new_pos,
                    )
                    &&& final(state).user_id_to_index@ == old(state).user_id_to_index@
                    &&& final(state).foods@ == old(state).foods@
                    &&& final(state).board_size == old(state).board_size
                },
            },
        },
{
    match message {
        ClientMessage::Tcp(m) => handle_tcp_message(state, m, userid),
        ClientMessage::Udp(m) => handle_udp_message(state, m, userid),
    }
}

/// Applies one client event.  A connection becoming active changes
/// nothing here (login already reserved the identity); a disconnect
/// frees the identity in the registry and leaves the world alone (the
/// slot stays, dead or alive, for a later reconnect); a gameplay
/// message goes to the dispatcher.
pub fn handle_client_event(
    state: &mut ServerGameState,
    registry: &mut IdentityRegistry,
    event: ClientEvent,
    userid: UserId,
)
    requires
        old(state).wf(),
        old(registry).wf(),
    ensures
        final(state).wf(),
        final(registry).wf(),
        match event {
            ClientEvent::Connected => *final(state) == *old(state) && *final(registry) == *old(
                registry,
            ),
            ClientEvent::Disconnected => {
                &&& *final(state) == *old(state)
                &&& final(registry).connected_ids() == old(registry).connected_ids().remove(userid)
                &&& final(registry).identities() == old(registry).identities().remove(userid)
            },
            ClientEvent::ClientMessage(_) => *final(registry) == *old(registry),
        },
{
    match event {
        ClientEvent::Connected => {
        },
        ClientEvent::Disconnected => {
            registry.release(userid);
        },
        ClientEvent::ClientMessage(message) => {
            handle_incoming_message(state, message, userid);
        },
    }
}

/// The identities of `ids`, in order, that have a slot in the world
/// under map `m` — the recipients of one tick's snapshot fan-out.
pub open spec fn fanout_targets(m: Map<UserId, usize>, ids: Seq<UserId>) -> Seq<UserId>
    decreases ids.len(),
{
    if ids.len() == 0 {
        Seq::empty()
    } else if m.contains_key(ids[0]) {
        seq![ids[0]] + fanout_targets(m, ids.drop_first())
    } else {
        fanout_targets(m, ids.drop_first())
    }
}

/// The identities a snapshot list addresses, in order.
pub open spec fn recipients(out: Seq<(UserId, GameStateUpdate)>) -> Seq<UserId> {
    Seq::new(out.len(), |k: int| out[k].0)
}

/// Builds the per-tick snapshots: one `(identity, view)` pair for each
/// identity of `ids` that has a slot, in order.  Every view carries the
/// recipient's own slot index and a private copy of the whole player
/// and food lists.
pub fn snapshots(state: &ServerGameState, ids: &Vec<UserId>) -> (out: Vec<(UserId, GameStateUpdate)>)
    requires
        state.wf(),
    ensures
        recipients(out@) == fanout_targets(state.user_id_to_index@, ids@),
        forall|k: int|
            0 <= k < out@.len() ==> {
                &&& state.user_id_to_index@.contains_key((#[trigger] out@[k]).0)
                &&& out@[k].1.you == state.user_id_to_index@[out@[k].0]
                &&& out@[k].1.players@ == state.players@
                &&& out@[k].1.foods@ == state.foods@
            },
{
    let ghost m = state.user_id_to_index@;
    let mut out: Vec<(UserId, GameStateUpdate)> = Vec::new();
    let mut n: usize = 0;
    proof {
        assert(ids@.skip(0) =~= ids@);
        assert(recipients(out@) =~= Seq::<UserId>::empty());
        assert(Seq::<UserId>::empty() + fanout_targets(m, ids@) =~= fanout_targets(m, ids@));
    }
    while n < ids.len()
        invariant
            n <= ids@.len(),
            state.wf(),
            m == state.user_id_to_index@,
            recipients(out@) + fanout_targets(m, ids@.skip(n as int)) == fanout_targets(m, ids@),
            forall|k: int|
                0 <= k < out@.len() ==> {
                    &&& m.contains_key((#[trigger] out@[k]).0)
                    &&& out@[k].1.you == m[out@[k].0]
                    &&& out@[k].1.players@ == state.players@
                    &&& out@[k].1.foods@ == state.foods@
                },
        decreases ids@.len() - n,
    {
        let id = ids[n];
        proof {
            assert(ids@.skip(n as int)[0] == ids@[n as int]);
            assert(ids@.skip(n as int).drop_first() =~= ids@.skip(n as int + 1));
        }
        if state.user_id_to_index.contains_key(&id) {
            let view = state.to_player(&id);
            let ghost out0 = out@;
            out.push((id, view));
            proof {
                assert(recipients(out@) =~= recipients(out0) + seq![id]);
                assert((recipients(out0) + seq![id]) + fanout_targets(m, ids@.skip(n as int + 1))
                    =~= recipients(out0) + (seq![id] + fanout_targets(m, ids@.skip(n as int + 1))));
            }
        }
        n = n + 1;
    }
    proof {
        assert(ids@.skip(ids@.len() as int) =~= Seq::<UserId>::empty());
        assert(recipients(out@) + Seq::<UserId>::empty() =~= recipients(out@));
    }
    out
}

} // verus!
