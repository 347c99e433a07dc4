use std::collections::HashMap;
use bgario::game_state::{dist_sq_exec, reaches_exec, Food, Player, PlayerState, Position};
use bgario::world::ServerGameState;

fn pos(x: i32, y: i32) -> Position {
    Position { x, y }
}

fn two_player_world(a: Player, b: Player) -> ServerGameState {
    let mut m: HashMap<u64, usize> = HashMap::new();
    m.insert(1, 0);
    m.insert(2, 1);
    ServerGameState {
        user_id_to_index: m,
        players: vec![PlayerState::Alive(a), PlayerState::Alive(b)],
        foods: vec![],
        board_size: pos(200, 200),
    }
}

#[test]
fn squared_distance_is_exact() {
    assert_eq!(dist_sq_exec(pos(0, 0), pos(3, 4)), 25);
    assert_eq!(dist_sq_exec(pos(-3, 4), pos(0, 0)), 25);
    assert_eq!(dist_sq_exec(pos(7, 7), pos(7, 7)), 0);
    assert_eq!(
        dist_sq_exec(pos(i32::MIN, i32::MIN), pos(i32::MAX, i32::MAX)),
        2 * (u32::MAX as i128) * (u32::MAX as i128)
    );
}

#[test]
fn reach_is_a_strict_comparison() {
    // distance 5: a size of 5 does not reach, a size of 6 does
    assert!(!reaches_exec(5, pos(0, 0), pos(3, 4)));
    assert!(reaches_exec(6, pos(0, 0), pos(3, 4)));
}

#[test]
fn spawn_creates_a_living_player_with_start_size() {
    let mut w = ServerGameState::new();
    w.spawn_player_at(7, pos(10, 20));
    assert_eq!(w.players.len(), 1);
    assert_eq!(w.user_id_to_index.get(&7), Some(&0));
    assert_eq!(
        w.players[0],
        PlayerState::Alive(Player { position: pos(10, 20), size: 20 })
    );
}

#[test]
fn respawn_of_an_alive_player_changes_nothing() {
    let mut w = ServerGameState::new();
    w.spawn_player_at(7, pos(10, 20));
    let before = w.players.clone();
    w.spawn_player_at(7, pos(90, 90));
    assert_eq!(w.players, before, "a second respawn in a row is a no-op");
    assert_eq!(w.user_id_to_index.get(&7), Some(&0));
}

#[test]
fn respawn_revives_a_dead_slot_in_place() {
    let mut m: HashMap<u64, usize> = HashMap::new();
    m.insert(1, 0);
    let mut w = ServerGameState {
        user_id_to_index: m,
        players: vec![PlayerState::Dead],
        foods: vec![],
        board_size: pos(200, 200),
    };
    w.spawn_player_at(1, pos(3, 4));
    assert_eq!(w.players.len(), 1, "the slot is reused, not appended");
    assert_eq!(
        w.players[0],
        PlayerState::Alive(Player { position: pos(3, 4), size: 20 })
    );
}

#[test]
fn move_intent_for_unknown_identity_is_a_noop() {
    let mut w = ServerGameState::new();
    w.spawn_player_at(7, pos(10, 20));
    let before = w.players.clone();
    w.move_player(99, pos(1, 1));
    assert_eq!(w.players, before);
}

#[test]
fn move_intent_for_dead_slot_is_a_noop() {
    let mut m: HashMap<u64, usize> = HashMap::new();
    m.insert(1, 0);
    let mut w = ServerGameState {
        user_id_to_index: m,
        players: vec![PlayerState::Dead],
        foods: vec![],
        board_size: pos(200, 200),
    };
    w.move_player(1, pos(1, 1));
    assert_eq!(w.players, vec![PlayerState::Dead]);
}

#[test]
fn move_intent_keeps_size_and_changes_position() {
    let mut w = ServerGameState::new();
    w.spawn_player_at(7, pos(10, 20));
    w.move_player(7, pos(50, 60));
    assert_eq!(
        w.players[0],
        PlayerState::Alive(Player { position: pos(50, 60), size: 20 })
    );
}

#[test]
fn larger_in_reach_consumes_smaller() {
    // distance 10, sizes 30 and 20: the larger reaches, absorbs the smaller
    let a = Player { position: pos(0, 0), size: 30 };
    let b = Player { position: pos(10, 0), size: 20 };
    let mut w = two_player_world(a, b);
    w.tick_step(None);
    assert_eq!(
        w.players[0],
        PlayerState::Alive(Player { position: pos(0, 0), size: 50 })
    );
    assert_eq!(w.players[1], PlayerState::Dead);
}

#[test]
fn larger_in_reach_consumes_smaller_whatever_the_slot_order() {
    // the larger sits in the later slot; it still wins
    let a = Player { position: pos(0, 0), size: 20 };
    let b = Player { position: pos(10, 0), size: 30 };
    let mut w = two_player_world(a, b);
    w.tick_step(None);
    assert_eq!(w.players[0], PlayerState::Dead);
    assert_eq!(
        w.players[1],
        PlayerState::Alive(Player { position: pos(10, 0), size: 50 })
    );
}

#[test]
fn out_of_reach_pair_is_untouched() {
    // distance 100, sizes 30 and 20: nobody reaches anybody
    let a = Player { position: pos(0, 0), size: 30 };
    let b = Player { position: pos(100, 0), size: 20 };
    let mut w = two_player_world(a, b);
    w.tick_step(None);
    assert_eq!(w.players[0], PlayerState::Alive(a));
    assert_eq!(w.players[1], PlayerState::Alive(b));
}

#[test]
fn equal_sizes_in_reach_favor_the_first_slot() {
    let a = Player { position: pos(0, 0), size: 20 };
    let b = Player { position: pos(10, 0), size: 20 };
    let mut w = two_player_world(a, b);
    w.tick_step(None);
    assert_eq!(
        w.players[0],
        PlayerState::Alive(Player { position: pos(0, 0), size: 40 })
    );
    assert_eq!(w.players[1], PlayerState::Dead);
}

#[test]
fn exact_distance_does_not_reach() {
    // size equals distance: strict comparison, nothing happens
    let a = Player { position: pos(0, 0), size: 10 };
    let b = Player { position: pos(10, 0), size: 5 };
    let mut w = two_player_world(a, b);
    w.tick_step(None);
    assert_eq!(w.players[0], PlayerState::Alive(a));
    assert_eq!(w.players[1], PlayerState::Alive(b));
}

#[test]
fn food_in_reach_is_consumed_and_grows_the_player() {
    let mut m: HashMap<u64, usize> = HashMap::new();
    m.insert(1, 0);
    let mut w = ServerGameState {
        user_id_to_index: m,
        players: vec![PlayerState::Alive(Player { position: pos(0, 0), size: 20 })],
        foods: vec![Food { position: pos(5, 0) }],
        board_size: pos(200, 200),
    };
    w.tick_step(None);
    assert_eq!(w.foods.len(), 0, "the food count decreases by exactly one");
    assert_eq!(
        w.players[0],
        PlayerState::Alive(Player { position: pos(0, 0), size: 21 })
    );
}

#[test]
fn food_out_of_reach_is_untouched() {
    let mut m: HashMap<u64, usize> = HashMap::new();
    m.insert(1, 0);
    let mut w = ServerGameState {
        user_id_to_index: m,
        players: vec![PlayerState::Alive(Player { position: pos(0, 0), size: 20 })],
        foods: vec![Food { position: pos(50, 0) }],
        board_size: pos(200, 200),
    };
    w.tick_step(None);
    assert_eq!(w.foods, vec![Food { position: pos(50, 0) }]);
    assert_eq!(
        w.players[0],
        PlayerState::Alive(Player { position: pos(0, 0), size: 20 })
    );
}

#[test]
fn growth_from_one_food_brings_the_next_in_reach() {
    // the second food sits exactly at the starting size, out of reach;
    // eating the first food grows the player past it
    let mut m: HashMap<u64, usize> = HashMap::new();
    m.insert(1, 0);
    let mut w = ServerGameState {
        user_id_to_index: m,
        players: vec![PlayerState::Alive(Player { position: pos(0, 0), size: 20 })],
        foods: vec![Food { position: pos(19, 0) }, Food { position: pos(20, 0) }],
        board_size: pos(200, 200),
    };
    w.tick_step(None);
    assert_eq!(w.foods.len(), 0);
    assert_eq!(
        w.players[0],
        PlayerState::Alive(Player { position: pos(0, 0), size: 22 })
    );
}

#[test]
fn a_food_is_consumed_by_at_most_one_player() {
    // both players reach the food but not each other; the first in
    // slot order eats it
    let a = Player { position: pos(0, 0), size: 5 };
    let b = Player { position: pos(8, 0), size: 5 };
    let mut w = two_player_world(a, b);
    w.foods = vec![Food { position: pos(4, 0) }];
    w.tick_step(None);
    assert_eq!(w.foods.len(), 0);
    assert_eq!(
        w.players[0],
        PlayerState::Alive(Player { position: pos(0, 0), size: 6 })
    );
    assert_eq!(w.players[1], PlayerState::Alive(b));
}

#[test]
fn tick_step_appends_the_spawned_food() {
    let mut w = ServerGameState::new();
    w.tick_step(Some(Food { position: pos(1, 2) }));
    assert_eq!(w.foods, vec![Food { position: pos(1, 2) }]);
}

#[test]
fn tick_without_alive_players_leaves_food_alone() {
    let mut m: HashMap<u64, usize> = HashMap::new();
    m.insert(1, 0);
    let mut w = ServerGameState {
        user_id_to_index: m,
        players: vec![PlayerState::Dead],
        foods: vec![Food { position: pos(5, 0) }],
        board_size: pos(200, 200),
    };
    w.tick_step(None);
    assert_eq!(w.foods.len(), 1);
    assert_eq!(w.players, vec![PlayerState::Dead]);
}

#[test]
fn random_spawn_lands_on_the_board() {
    let mut w = ServerGameState::new();
    w.spawn_player(7);
    match w.players[0] {
        PlayerState::Alive(p) => {
            assert!(0 <= p.position.x && p.position.x < 200);
            assert!(0 <= p.position.y && p.position.y < 200);
            assert_eq!(p.size, 20);
        },
        PlayerState::Dead => panic!("a respawned player must be alive"),
    }
}

#[test]
fn random_food_lands_on_the_board() {
    let mut w = ServerGameState::new();
    w.spawn_food();
    assert_eq!(w.foods.len(), 1);
    assert!(0 <= w.foods[0].position.x && w.foods[0].position.x < 200);
    assert!(0 <= w.foods[0].position.y && w.foods[0].position.y < 200);
}

#[test]
fn tick_delay_saturates_on_overrun() {
    assert_eq!(bgario::world::tick_delay(10, 50), 40);
    assert_eq!(bgario::world::tick_delay(50, 50), 0);
    assert_eq!(bgario::world::tick_delay(120, 50), 0, "an overrun tick runs immediately");
}

#[test]
fn tick_keeps_the_world_sound() {
    let mut w = ServerGameState::new();
    w.spawn_player_at(1, pos(0, 0));
    w.spawn_player_at(2, pos(150, 150));
    for _ in 0..50 {
        w.tick();
    }
    assert_eq!(w.players.len(), 2);
    assert_eq!(w.user_id_to_index.len(), 2);
}
