use bgario::game_state::UserId;
use bgario::login::login_step;
use bgario::message::{ClientConnectionMessage, ServerConnectionMessage};
use bgario::registry::IdentityRegistry;

#[test]
fn connect_new_assigns_unused_id() {
    let mut reg = IdentityRegistry::new();
    let (reply, granted) = login_step(&mut reg, ClientConnectionMessage::ConnectNew, 7);
    let id = granted.expect("a fresh connect must be granted an identity");
    assert!(matches!(reply, ServerConnectionMessage::AssignUserId(assigned) if assigned == id));
    assert!(reg.is_in_use(id));
}

#[test]
fn connect_with_free_id_is_acknowledged() {
    let mut reg = IdentityRegistry::new();
    let (reply, granted) = login_step(&mut reg, ClientConnectionMessage::ConnectWithId(42), 0);
    assert!(matches!(reply, ServerConnectionMessage::AcknowledgeId));
    assert_eq!(granted, Some(42));
    assert!(reg.is_in_use(42));
}

#[test]
fn connect_with_id_in_use_yields_id_already_in_use() {
    let mut reg = IdentityRegistry::new();
    login_step(&mut reg, ClientConnectionMessage::ConnectWithId(42), 0);

    // the same identity again: refused, and nothing changes
    let (reply, granted) = login_step(&mut reg, ClientConnectionMessage::ConnectWithId(42), 0);
    assert!(matches!(reply, ServerConnectionMessage::IdAlreadyInUse));
    assert_eq!(granted, None);
    assert!(reg.is_in_use(42));

    // the requester retries with another identity on the same connection
    let (reply, granted) = login_step(&mut reg, ClientConnectionMessage::ConnectWithId(43), 0);
    assert!(matches!(reply, ServerConnectionMessage::AcknowledgeId));
    assert_eq!(granted, Some(43));
}

#[test]
fn two_connects_never_share_an_identity() {
    let mut reg = IdentityRegistry::new();
    let (_, a) = login_step(&mut reg, ClientConnectionMessage::ConnectNew, 900);
    let (_, b) = login_step(&mut reg, ClientConnectionMessage::ConnectNew, 900);
    let a = a.unwrap();
    let b = b.unwrap();
    assert_ne!(a, b, "two active sessions must never hold the same identity");
}

#[test]
fn fresh_id_probes_upward_past_taken_ids() {
    let mut reg = IdentityRegistry::new();
    reg.reserve(5);
    reg.reserve(6);
    let id = reg.fresh_id(5);
    assert_eq!(id, 7);
    assert!(!reg.is_in_use(id));
}

#[test]
fn fresh_id_wraps_at_the_top_of_the_space() {
    let mut reg = IdentityRegistry::new();
    reg.reserve(u64::MAX - 1);
    reg.reserve(u64::MAX);
    reg.reserve(0);
    let id = reg.fresh_id(u64::MAX - 1);
    assert_eq!(id, 1);
}

#[test]
fn register_and_resolve_round_trip() {
    let mut reg = IdentityRegistry::new();
    reg.reserve(9);
    reg.register(1000, 9);
    assert_eq!(reg.resolve(1000), Some(9));
    assert_eq!(reg.current_endpoint(9), Some(1000));
    assert_eq!(reg.resolve(2000), None);
}

#[test]
fn register_follows_an_endpoint_migration() {
    let mut reg = IdentityRegistry::new();
    reg.reserve(9);
    reg.register(1000, 9);
    reg.register(2000, 9);
    assert_eq!(reg.resolve(1000), None, "the stale binding must be gone");
    assert_eq!(reg.resolve(2000), Some(9));
    assert_eq!(reg.current_endpoint(9), Some(2000));
}

#[test]
fn unregister_removes_the_whole_entry() {
    let mut reg = IdentityRegistry::new();
    reg.reserve(9);
    reg.register(1000, 9);
    reg.unregister(1000);
    assert_eq!(reg.resolve(1000), None);
    assert_eq!(reg.current_endpoint(9), None);
    assert!(!reg.is_in_use(9));
}

#[test]
fn an_identity_freed_by_teardown_can_be_granted_again() {
    let mut reg = IdentityRegistry::new();
    login_step(&mut reg, ClientConnectionMessage::ConnectWithId(42), 0);
    reg.release(42);
    let (reply, granted) = login_step(&mut reg, ClientConnectionMessage::ConnectWithId(42), 0);
    assert!(matches!(reply, ServerConnectionMessage::AcknowledgeId));
    assert_eq!(granted, Some(42));
}

#[test]
fn connect_new_probes_past_a_taken_seed() {
    let mut reg = IdentityRegistry::new();
    login_step(&mut reg, ClientConnectionMessage::ConnectWithId(77), 0);
    let (_, granted) = login_step(&mut reg, ClientConnectionMessage::ConnectNew, 77);
    assert_eq!(granted, Some(78), "the probe increments until an unused identity");
    let ids: Vec<UserId> = vec![77, 78];
    for id in ids {
        assert!(reg.is_in_use(id));
    }
}
