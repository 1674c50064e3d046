use paste_store::{Error, State, User};

fn user(username: &str, password: &str, owned: &[&str]) -> User {
    User {
        username: username.to_string(),
        password: password.to_string(),
        owned_ids: owned.iter().map(|id| id.to_string()).collect(),
    }
}

#[test]
fn new_registry_has_no_users() {
    let state = State::new();
    assert_eq!(state.user_count(), 0);
    assert!(state.dump().is_empty());
    assert!(state.authenticate("alice", "pw1").is_none());
    assert_eq!(state.position("alice"), None);
}

#[test]
fn load_without_a_snapshot_starts_empty() {
    let state = State::load(None).unwrap();
    assert_eq!(state.user_count(), 0);
}

#[test]
fn load_keeps_the_snapshot_as_it_is() {
    let users = vec![user("alice", "pw1", &["a", "b"]), user("bob", "pw2", &[])];
    let state = State::load(Some(users.clone())).unwrap();
    assert_eq!(state.dump(), users);
    assert_eq!(state.user_count(), 2);
    assert_eq!(state.user(1), &users[1]);
}

#[test]
fn load_refuses_a_snapshot_with_a_name_twice() {
    let users = vec![
        user("alice", "pw1", &[]),
        user("bob", "pw2", &[]),
        user("alice", "pw3", &[]),
    ];
    assert!(matches!(State::load(Some(users)), Err(Error::CorruptState)));
    let adjacent = vec![user("bob", "pw2", &[]), user("bob", "pw2", &[])];
    assert!(matches!(State::load(Some(adjacent)), Err(Error::CorruptState)));
}

#[test]
fn authenticate_wants_the_exact_password() {
    let mut state = State::new();
    state.create_user("alice", "pw1").unwrap();
    state.create_user("bob", "pw2").unwrap();

    assert_eq!(state.authenticate("alice", "pw1"), Some(&user("alice", "pw1", &[])));
    assert_eq!(state.authenticate("bob", "pw2"), Some(&user("bob", "pw2", &[])));
    assert_eq!(state.authenticate("alice", "pw2"), None);
    assert_eq!(state.authenticate("alice", "PW1"), None);
    assert_eq!(state.authenticate("alice", "pw1 "), None);
    assert_eq!(state.authenticate("carol", "pw1"), None);

    assert_eq!(state.authenticate_mutable("alice", "pw1"), Some(0));
    assert_eq!(state.authenticate_mutable("bob", "pw2"), Some(1));
    assert_eq!(state.authenticate_mutable("bob", "pw1"), None);
    assert_eq!(state.authenticate_mutable("carol", "pw2"), None);
}

#[test]
fn create_user_refuses_a_name_that_is_taken() {
    let mut state = State::new();
    assert_eq!(state.create_user("alice", "pw1"), Ok(()));
    assert_eq!(state.create_user("alice", "pw9"), Err(Error::AlreadyExists));
    assert_eq!(state.dump(), vec![user("alice", "pw1", &[])]);
    assert_eq!(state.create_user("", ""), Ok(()));
    assert_eq!(state.create_user("", "x"), Err(Error::AlreadyExists));
    assert_eq!(state.position(""), Some(1));
}

#[test]
fn grant_and_revoke_change_one_users_list() {
    let mut state = State::new();
    state.create_user("alice", "pw1").unwrap();
    state.create_user("bob", "pw2").unwrap();
    let slot = state.authenticate_mutable("bob", "pw2").unwrap();

    state.grant(slot, "x".to_string());
    state.grant(slot, "y".to_string());
    state.grant(slot, "x".to_string());
    assert_eq!(state.user(slot).owned_ids, vec!["x", "y", "x"]);
    assert!(state.user(0).owned_ids.is_empty());

    assert!(state.revoke(slot, "x"));
    assert_eq!(state.user(slot).owned_ids, vec!["y", "x"]);
    assert!(!state.revoke(slot, "z"));
    assert_eq!(state.user(slot).owned_ids, vec!["y", "x"]);
    assert!(state.revoke(slot, "x"));
    assert!(!state.revoke(slot, "x"));
    assert_eq!(state.user(slot).owned_ids, vec!["y"]);

    state.set_owned(0, vec!["p".to_string(), "q".to_string()]);
    assert_eq!(state.dump(), vec![user("alice", "pw1", &["p", "q"]), user("bob", "pw2", &["y"])]);
}

#[test]
fn user_knows_what_it_owns() {
    let alice = user("alice", "pw1", &["a", "b"]);
    assert!(alice.owns("a"));
    assert!(alice.owns("b"));
    assert!(!alice.owns("c"));
    assert!(!alice.owns(""));
    assert!(!User::new("bob".to_string(), "pw".to_string()).owns("a"));
    assert_eq!(User::new("bob".to_string(), "pw".to_string()), user("bob", "pw", &[]));
}

#[test]
fn user_copies_hold_the_same_values() {
    let alice = user("alice", "pw1", &["a", "b"]);
    assert_eq!(alice.duplicate(), alice);
    assert_eq!(alice.clone(), alice);
}
