use bgario::dispatch::{handle_client_event, handle_incoming_message, snapshots};
use bgario::game_state::{ClientGameState, Food, Player, PlayerState, Position, UserId};
use bgario::login::login_step;
use bgario::message::{
    ClientConnectionMessage,
    ClientEvent,
    ClientMessage,
    ClientTcpMessage,
    ClientUdpMessage,
};
use bgario::registry::IdentityRegistry;
use bgario::world::ServerGameState;

fn pos(x: i32, y: i32) -> Position {
    Position { x, y }
}

#[test]
fn respawn_message_spawns_the_player() {
    let mut w = ServerGameState::new();
    handle_incoming_message(&mut w, ClientMessage::Tcp(ClientTcpMessage::Respawn), 7);
    assert_eq!(w.players.len(), 1);
    assert!(matches!(w.players[0], PlayerState::Alive(_)));
}

#[test]
fn move_message_moves_the_player() {
    let mut w = ServerGameState::new();
    w.spawn_player_at(7, pos(0, 0));
    handle_incoming_message(
        &mut w,
        ClientMessage::Udp(ClientUdpMessage::Move { new_pos: pos(30, 40) }),
        7,
    );
    assert_eq!(
        w.players[0],
        PlayerState::Alive(Player { position: pos(30, 40), size: 20 })
    );
}

#[test]
fn move_message_for_stranger_changes_nothing() {
    let mut w = ServerGameState::new();
    w.spawn_player_at(7, pos(0, 0));
    let before = w.players.clone();
    handle_incoming_message(
        &mut w,
        ClientMessage::Udp(ClientUdpMessage::Move { new_pos: pos(30, 40) }),
        99,
    );
    assert_eq!(w.players, before);
}

#[test]
fn snapshots_cover_exactly_the_identities_with_slots() {
    let mut w = ServerGameState::new();
    w.spawn_player_at(1, pos(0, 0));
    w.spawn_player_at(2, pos(50, 50));
    let out = snapshots(&w, &vec![1, 2, 99]);
    assert_eq!(out.len(), 2, "an identity without a slot gets no snapshot");
    assert_eq!(out[0].0, 1);
    assert_eq!(out[1].0, 2);
    assert_eq!(out[0].1.you, 0);
    assert_eq!(out[1].1.you, 1);
    assert_eq!(out[0].1.players, w.players);
    assert_eq!(out[0].1.foods, w.foods);
}

#[test]
fn client_state_update_splits_own_slot_from_the_rest() {
    let mut c = ClientGameState::new();
    let mut w = ServerGameState::new();
    w.spawn_player_at(1, pos(0, 0));
    w.spawn_player_at(2, pos(50, 50));
    w.foods = vec![Food { position: pos(9, 9) }];
    let out = snapshots(&w, &vec![1, 2]);
    let own = out[1].1.players[1];
    c.update_with_state(out.into_iter().nth(1).unwrap().1);
    assert_eq!(c.player, own);
    assert_eq!(c.other_players, vec![w.players[0]]);
    assert_eq!(c.foods, w.foods);
}

#[test]
fn two_clients_connect_move_and_the_bigger_eats() {
    // two clients connect, both respawn, A grows by one food, then A
    // moves within reach of B: after the next tick B's snapshot shows
    // it dead and A grew by B's prior size
    let mut reg = IdentityRegistry::new();
    let mut w = ServerGameState::new();

    let (_, a) = login_step(&mut reg, ClientConnectionMessage::ConnectNew, 100);
    let (_, b) = login_step(&mut reg, ClientConnectionMessage::ConnectNew, 200);
    let a = a.unwrap();
    let b = b.unwrap();
    reg.register(10, a);
    reg.register(20, b);

    w.spawn_player_at(a, pos(0, 0));
    w.spawn_player_at(b, pos(100, 0));

    // A eats one food and ends one size ahead of B
    w.foods = vec![Food { position: pos(5, 0) }];
    w.tick_step(None);
    assert_eq!(
        w.players[0],
        PlayerState::Alive(Player { position: pos(0, 0), size: 21 })
    );

    // A moves within reach of B
    handle_incoming_message(
        &mut w,
        ClientMessage::Udp(ClientUdpMessage::Move { new_pos: pos(90, 0) }),
        a,
    );
    w.tick_step(None);

    let out = snapshots(&w, &vec![a, b]);
    assert_eq!(out[1].0, b);
    assert_eq!(out[1].1.players[1], PlayerState::Dead, "B's snapshot shows it dead");
    assert_eq!(
        out[1].1.players[0],
        PlayerState::Alive(Player { position: pos(90, 0), size: 41 }),
        "A grew by B's prior size"
    );
}

#[test]
fn teardown_is_idempotent() {
    // two sibling tasks of one session may both signal the failure;
    // the second teardown must change nothing and not panic
    let mut reg = IdentityRegistry::new();
    let mut w = ServerGameState::new();
    let (_, a) = login_step(&mut reg, ClientConnectionMessage::ConnectNew, 100);
    let a = a.unwrap();
    reg.register(10, a);
    w.spawn_player_at(a, pos(0, 0));

    handle_client_event(&mut w, &mut reg, ClientEvent::Disconnected, a);
    handle_client_event(&mut w, &mut reg, ClientEvent::Disconnected, a);

    assert_eq!(reg.resolve(10), None);
    assert!(!reg.is_in_use(a));
    assert_eq!(w.players.len(), 1, "the world keeps the slot for a reconnect");
}

#[test]
fn disconnect_removes_the_identity_and_stops_its_fanout() {
    let mut reg = IdentityRegistry::new();
    let mut w = ServerGameState::new();

    let (_, a) = login_step(&mut reg, ClientConnectionMessage::ConnectNew, 100);
    let (_, b) = login_step(&mut reg, ClientConnectionMessage::ConnectNew, 200);
    let a = a.unwrap();
    let b = b.unwrap();
    reg.register(10, a);
    reg.register(20, b);
    w.spawn_player_at(a, pos(0, 0));
    w.spawn_player_at(b, pos(100, 0));

    // A's reliable read fails: its session tears down
    handle_client_event(&mut w, &mut reg, ClientEvent::Disconnected, a);

    assert_eq!(reg.resolve(10), None, "the next lookup no longer sees A");
    assert_eq!(reg.current_endpoint(a), None);
    assert!(!reg.is_in_use(a));
    assert!(reg.is_in_use(b), "other sessions are unaffected");

    // the fan-out addresses the sessions that still have an endpoint
    let mut live: Vec<UserId> = Vec::new();
    for id in [a, b] {
        if reg.current_endpoint(id).is_some() {
            live.push(id);
        }
    }
    let out = snapshots(&w, &live);
    assert_eq!(out.len(), 1);
    assert_eq!(out[0].0, b, "no snapshot is attempted for A");
}
