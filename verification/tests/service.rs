use paste_store::{BlobStore, Error, Service, State, User};

fn empty_service() -> Service {
    let (service, purged) = Service::new(BlobStore::new(), State::new());
    assert!(purged.is_empty());
    service
}

fn draw() -> [u8; 16] {
    uuid::Uuid::new_v4().into_bytes()
}

fn credentials(username: &str, password: &str) -> Option<(String, String)> {
    Some((username.to_string(), password.to_string()))
}

fn sorted(mut ids: Vec<String>) -> Vec<String> {
    ids.sort();
    ids
}

#[test]
fn owned_paste_lives_until_its_owner_deletes_it() {
    let mut service = empty_service();
    assert_eq!(service.register_user("alice", "pw1"), Ok(()));

    let id = service.create(b"hello".to_vec(), credentials("alice", "pw1"), draw()).unwrap();
    assert_eq!(service.read(&id), Ok(&b"hello".to_vec()));
    assert_eq!(service.list("alice", "pw1"), Ok(vec![id.clone()]));

    assert_eq!(service.delete(&id, "alice", "pw1"), Ok(vec![id.clone()]));
    assert_eq!(service.read(&id), Err(Error::NotFound));
    assert_eq!(service.list("alice", "pw1"), Ok(vec![]));
}

#[test]
fn anonymous_paste_is_purged_by_the_repair_pass() {
    let mut service = empty_service();
    let id = service.create(b"x".to_vec(), None, draw()).unwrap();
    assert_eq!(service.read(&id), Ok(&b"x".to_vec()));

    let purged = service.cleanup_dangling_files();
    assert_eq!(purged, vec![id.clone()]);
    assert_eq!(service.read(&id), Err(Error::NotFound));
}

#[test]
fn unregistered_user_cannot_create_and_leaves_no_blob() {
    let mut service = empty_service();
    let refused = service.create(b"secret".to_vec(), credentials("bob", "wrong"), draw());
    assert_eq!(refused, Err(Error::Unauthorized));
    // Had a blob been left without an owner, the pass would report its removal.
    assert!(service.cleanup_dangling_files().is_empty());
    assert!(service.dump_state().is_empty());
}

#[test]
fn wrong_password_cannot_create() {
    let mut service = empty_service();
    service.register_user("alice", "pw1").unwrap();
    let refused = service.create(b"body".to_vec(), credentials("alice", "pw2"), draw());
    assert_eq!(refused, Err(Error::Unauthorized));
    assert_eq!(service.list("alice", "pw1"), Ok(vec![]));
    assert!(service.cleanup_dangling_files().is_empty());
}

#[test]
fn create_then_read_returns_the_same_bytes() {
    let mut service = empty_service();
    service.register_user("alice", "pw1").unwrap();
    let bodies: Vec<Vec<u8>> = vec![vec![], vec![0], vec![0, 255, 10, 13], b"hello world".to_vec()];
    for body in bodies {
        let anonymous = service.create(body.clone(), None, draw()).unwrap();
        assert_eq!(service.read(&anonymous), Ok(&body));
        let owned = service.create(body.clone(), credentials("alice", "pw1"), draw()).unwrap();
        assert_eq!(service.read(&owned), Ok(&body));
    }
}

#[test]
fn create_appends_to_the_owners_list() {
    let mut service = empty_service();
    service.register_user("alice", "pw1").unwrap();
    service.register_user("bob", "pw2").unwrap();
    let first = service.create(b"1".to_vec(), credentials("alice", "pw1"), draw()).unwrap();
    assert_eq!(service.list("alice", "pw1"), Ok(vec![first.clone()]));
    let second = service.create(b"2".to_vec(), credentials("alice", "pw1"), draw()).unwrap();
    assert_eq!(service.list("alice", "pw1"), Ok(vec![first.clone(), second.clone()]));
    let other = service.create(b"3".to_vec(), credentials("bob", "pw2"), draw()).unwrap();
    assert_eq!(service.list("alice", "pw1"), Ok(vec![first, second]));
    assert_eq!(service.list("bob", "pw2"), Ok(vec![other]));
}

#[test]
fn create_with_stores_under_the_given_identifier() {
    let mut service = empty_service();
    service.register_user("alice", "pw1").unwrap();
    let id = "11111111-2222-4333-8444-555555555555".to_string();
    let created = service.create_with(id.clone(), b"a".to_vec(), credentials("alice", "pw1"));
    assert_eq!(created, Ok(id.clone()));
    assert_eq!(service.read(&id), Ok(&b"a".to_vec()));
    assert_eq!(service.list("alice", "pw1"), Ok(vec![id]));
}

#[test]
fn create_with_refuses_an_identifier_that_is_taken() {
    let mut service = empty_service();
    service.register_user("alice", "pw1").unwrap();
    let id = "11111111-2222-4333-8444-555555555555".to_string();
    service.create_with(id.clone(), b"first".to_vec(), credentials("alice", "pw1")).unwrap();

    let again = service.create_with(id.clone(), b"second".to_vec(), credentials("alice", "pw1"));
    assert_eq!(again, Err(Error::AlreadyExists));
    let anonymous = service.create_with(id.clone(), b"third".to_vec(), None);
    assert_eq!(anonymous, Err(Error::AlreadyExists));

    assert_eq!(service.read(&id), Ok(&b"first".to_vec()));
    assert_eq!(service.list("alice", "pw1"), Ok(vec![id]));
}

#[test]
fn create_with_checks_credentials_before_the_identifier() {
    let mut service = empty_service();
    let id = "11111111-2222-4333-8444-555555555555".to_string();
    service.create_with(id.clone(), b"first".to_vec(), None).unwrap();
    let refused = service.create_with(id.clone(), b"second".to_vec(), credentials("bob", "pw"));
    assert_eq!(refused, Err(Error::Unauthorized));
    assert_eq!(service.read(&id), Ok(&b"first".to_vec()));
}

#[test]
fn read_of_an_unknown_identifier_is_not_found() {
    let service = empty_service();
    assert_eq!(service.read("11111111-2222-4333-8444-555555555555"), Err(Error::NotFound));
    assert_eq!(service.read(""), Err(Error::NotFound));
}

#[test]
fn replace_overwrites_the_content() {
    let mut service = empty_service();
    service.register_user("alice", "pw1").unwrap();
    let id = service.create(b"old".to_vec(), credentials("alice", "pw1"), draw()).unwrap();
    assert_eq!(service.replace(&id, b"new".to_vec(), credentials("alice", "pw1")), Ok(()));
    assert_eq!(service.read(&id), Ok(&b"new".to_vec()));
    assert_eq!(service.list("alice", "pw1"), Ok(vec![id]));
}

#[test]
fn replace_without_credentials_needs_only_the_blob() {
    let mut service = empty_service();
    service.register_user("alice", "pw1").unwrap();
    let id = service.create(b"old".to_vec(), credentials("alice", "pw1"), draw()).unwrap();
    assert_eq!(service.replace(&id, b"new".to_vec(), None), Ok(()));
    assert_eq!(service.read(&id), Ok(&b"new".to_vec()));
    assert_eq!(
        service.replace("00000000-0000-4000-8000-000000000000", b"new".to_vec(), None),
        Err(Error::NotFound)
    );
}

#[test]
fn replace_of_a_paste_owned_by_someone_else_is_not_found() {
    let mut service = empty_service();
    service.register_user("alice", "pw1").unwrap();
    service.register_user("bob", "pw2").unwrap();
    let id = service.create(b"alice's".to_vec(), credentials("alice", "pw1"), draw()).unwrap();

    let refused = service.replace(&id, b"bob's".to_vec(), credentials("bob", "pw2"));
    assert_eq!(refused, Err(Error::NotFound));
    assert_eq!(service.read(&id), Ok(&b"alice's".to_vec()));
}

#[test]
fn replace_of_an_anonymous_paste_with_credentials_is_not_found() {
    let mut service = empty_service();
    service.register_user("alice", "pw1").unwrap();
    let id = service.create(b"anonymous".to_vec(), None, draw()).unwrap();
    let refused = service.replace(&id, b"mine".to_vec(), credentials("alice", "pw1"));
    assert_eq!(refused, Err(Error::NotFound));
    assert_eq!(service.read(&id), Ok(&b"anonymous".to_vec()));
}

#[test]
fn replace_with_bad_credentials_is_unauthorized() {
    let mut service = empty_service();
    service.register_user("alice", "pw1").unwrap();
    let id = service.create(b"old".to_vec(), credentials("alice", "pw1"), draw()).unwrap();
    assert_eq!(
        service.replace(&id, b"new".to_vec(), credentials("alice", "nope")),
        Err(Error::Unauthorized)
    );
    assert_eq!(
        service.replace(&id, b"new".to_vec(), credentials("carol", "pw1")),
        Err(Error::Unauthorized)
    );
    assert_eq!(service.read(&id), Ok(&b"old".to_vec()));
}

#[test]
fn delete_then_read_is_not_found() {
    let mut service = empty_service();
    service.register_user("alice", "pw1").unwrap();
    let kept = service.create(b"kept".to_vec(), credentials("alice", "pw1"), draw()).unwrap();
    let gone = service.create(b"gone".to_vec(), credentials("alice", "pw1"), draw()).unwrap();

    assert_eq!(service.delete(&gone, "alice", "pw1"), Ok(vec![gone.clone()]));
    assert_eq!(service.read(&gone), Err(Error::NotFound));
    assert_eq!(service.read(&kept), Ok(&b"kept".to_vec()));
    assert_eq!(service.list("alice", "pw1"), Ok(vec![kept]));
    assert_eq!(service.delete(&gone, "alice", "pw1"), Err(Error::NotFound));
}

#[test]
fn delete_needs_the_owner() {
    let mut service = empty_service();
    service.register_user("alice", "pw1").unwrap();
    service.register_user("bob", "pw2").unwrap();
    let id = service.create(b"alice's".to_vec(), credentials("alice", "pw1"), draw()).unwrap();

    assert_eq!(service.delete(&id, "alice", "wrong"), Err(Error::Unauthorized));
    assert_eq!(service.delete(&id, "carol", "pw1"), Err(Error::Unauthorized));
    assert_eq!(service.delete(&id, "bob", "pw2"), Err(Error::NotFound));
    assert_eq!(service.read(&id), Ok(&b"alice's".to_vec()));
    assert_eq!(service.list("alice", "pw1"), Ok(vec![id]));
}

#[test]
fn delete_cannot_remove_an_anonymous_paste() {
    let mut service = empty_service();
    service.register_user("alice", "pw1").unwrap();
    let id = service.create(b"anonymous".to_vec(), None, draw()).unwrap();
    assert_eq!(service.delete(&id, "alice", "pw1"), Err(Error::NotFound));
    assert_eq!(service.read(&id), Ok(&b"anonymous".to_vec()));
}

#[test]
fn delete_also_purges_pastes_without_an_owner() {
    let mut service = empty_service();
    service.register_user("alice", "pw1").unwrap();
    let anonymous = service.create(b"anonymous".to_vec(), None, draw()).unwrap();
    let kept = service.create(b"kept".to_vec(), credentials("alice", "pw1"), draw()).unwrap();
    let gone = service.create(b"gone".to_vec(), credentials("alice", "pw1"), draw()).unwrap();

    let removed = service.delete(&gone, "alice", "pw1").unwrap();
    assert_eq!(sorted(removed), sorted(vec![anonymous.clone(), gone.clone()]));
    assert_eq!(service.read(&anonymous), Err(Error::NotFound));
    assert_eq!(service.read(&gone), Err(Error::NotFound));
    assert_eq!(service.read(&kept), Ok(&b"kept".to_vec()));
}

#[test]
fn register_refuses_a_name_that_is_taken() {
    let mut service = empty_service();
    assert_eq!(service.register_user("alice", "pw1"), Ok(()));
    assert_eq!(service.register_user("alice", "other"), Err(Error::AlreadyExists));
    assert_eq!(service.list("alice", "pw1"), Ok(vec![]));
    assert_eq!(service.list("alice", "other"), Err(Error::Unauthorized));
    assert_eq!(service.dump_state().len(), 1);
}

#[test]
fn list_needs_matching_credentials() {
    let mut service = empty_service();
    service.register_user("alice", "pw1").unwrap();
    assert_eq!(service.list("alice", "pw1"), Ok(vec![]));
    assert_eq!(service.list("alice", "pw"), Err(Error::Unauthorized));
    assert_eq!(service.list("alice", "pw11"), Err(Error::Unauthorized));
    assert_eq!(service.list("alice", ""), Err(Error::Unauthorized));
    assert_eq!(service.list("Alice", "pw1"), Err(Error::Unauthorized));
    assert_eq!(service.list("", ""), Err(Error::Unauthorized));
}

fn user(username: &str, password: &str, owned: &[&str]) -> User {
    User {
        username: username.to_string(),
        password: password.to_string(),
        owned_ids: owned.iter().map(|id| id.to_string()).collect(),
    }
}

fn diverged() -> (BlobStore, State) {
    let mut store = BlobStore::new();
    store.create_exclusive("a".to_string(), b"A".to_vec()).unwrap();
    store.create_exclusive("b".to_string(), b"B".to_vec()).unwrap();
    store.create_exclusive("orphan".to_string(), b"O".to_vec()).unwrap();
    store.create_exclusive("c".to_string(), b"C".to_vec()).unwrap();
    let state = State::load(Some(vec![
        user("alice", "pw1", &["a", "missing", "b"]),
        user("bob", "pw2", &["lost"]),
        user("carol", "pw3", &["c", "a"]),
    ]))
    .unwrap();
    (store, state)
}

#[test]
fn new_repairs_what_it_is_given() {
    let (store, state) = diverged();
    let (service, purged) = Service::new(store, state);

    assert_eq!(purged, vec!["orphan".to_string()]);
    assert_eq!(service.list("alice", "pw1"), Ok(vec!["a".to_string(), "b".to_string()]));
    assert_eq!(service.list("bob", "pw2"), Ok(vec![]));
    assert_eq!(service.list("carol", "pw3"), Ok(vec!["c".to_string(), "a".to_string()]));
    assert_eq!(service.read("a"), Ok(&b"A".to_vec()));
    assert_eq!(service.read("b"), Ok(&b"B".to_vec()));
    assert_eq!(service.read("c"), Ok(&b"C".to_vec()));
    assert_eq!(service.read("orphan"), Err(Error::NotFound));
    assert_eq!(service.read("missing"), Err(Error::NotFound));
}

#[test]
fn after_the_repair_pass_owners_and_blobs_agree() {
    let (store, state) = diverged();
    let (service, _) = Service::new(store, state);
    let users = service.dump_state();
    let mut owned: Vec<String> = Vec::new();
    for user in &users {
        for id in &user.owned_ids {
            assert!(service.read(id).is_ok());
            owned.push(id.clone());
        }
    }
    for id in ["a", "b", "c", "orphan", "missing", "lost"] {
        assert_eq!(service.read(id).is_ok(), owned.iter().any(|o| o == id));
    }
}

#[test]
fn a_second_repair_pass_changes_nothing() {
    let (store, state) = diverged();
    let (mut service, _) = Service::new(store, state);
    let users = service.dump_state();

    assert!(service.cleanup_dangling_files().is_empty());
    assert_eq!(service.dump_state(), users);
    assert_eq!(service.read("a"), Ok(&b"A".to_vec()));
    assert_eq!(service.read("b"), Ok(&b"B".to_vec()));
    assert_eq!(service.read("c"), Ok(&b"C".to_vec()));

    assert!(service.cleanup_dangling_files().is_empty());
    assert_eq!(service.dump_state(), users);
}

#[test]
fn delete_gives_up_the_oldest_claim_and_the_pass_drops_the_rest() {
    let mut store = BlobStore::new();
    store.create_exclusive("a".to_string(), b"A".to_vec()).unwrap();
    store.create_exclusive("b".to_string(), b"B".to_vec()).unwrap();
    let state = State::load(Some(vec![
        user("alice", "pw1", &["a", "b", "a"]),
        user("bob", "pw2", &["a", "b"]),
    ]))
    .unwrap();
    let (mut service, purged) = Service::new(store, state);
    assert!(purged.is_empty());
    assert_eq!(
        service.list("alice", "pw1"),
        Ok(vec!["a".to_string(), "b".to_string(), "a".to_string()])
    );

    assert_eq!(service.delete("a", "alice", "pw1"), Ok(vec!["a".to_string()]));
    assert_eq!(service.list("alice", "pw1"), Ok(vec!["b".to_string()]));
    assert_eq!(service.list("bob", "pw2"), Ok(vec!["b".to_string()]));
    assert_eq!(service.read("a"), Err(Error::NotFound));
    assert_eq!(service.read("b"), Ok(&b"B".to_vec()));
}

#[test]
fn dump_state_lists_every_user_in_order() {
    let mut service = empty_service();
    service.register_user("alice", "pw1").unwrap();
    service.register_user("bob", "pw2").unwrap();
    let id = service.create(b"1".to_vec(), credentials("bob", "pw2"), draw()).unwrap();
    assert_eq!(
        service.dump_state(),
        vec![user("alice", "pw1", &[]), user("bob", "pw2", &[id.as_str()])]
    );
}

#[test]
fn a_dumped_state_can_be_loaded_again() {
    let mut service = empty_service();
    service.register_user("alice", "pw1").unwrap();
    let id = service.create(b"1".to_vec(), credentials("alice", "pw1"), draw()).unwrap();
    let snapshot = service.dump_state();

    let mut store = BlobStore::new();
    store.create_exclusive(id.clone(), b"1".to_vec()).unwrap();
    let (restored, purged) = Service::new(store, State::load(Some(snapshot)).unwrap());
    assert!(purged.is_empty());
    assert_eq!(restored.list("alice", "pw1"), Ok(vec![id.clone()]));
    assert_eq!(restored.read(&id), Ok(&b"1".to_vec()));
}

#[test]
fn new_reports_every_blob_it_removes() {
    let mut store = BlobStore::new();
    for id in ["o1", "kept", "o2", "o3"] {
        store.create_exclusive(id.to_string(), id.as_bytes().to_vec()).unwrap();
    }
    let state = State::load(Some(vec![user("alice", "pw1", &["kept"])])).unwrap();
    let (service, purged) = Service::new(store, state);
    assert_eq!(sorted(purged), vec!["o1".to_string(), "o2".to_string(), "o3".to_string()]);
    assert_eq!(service.read("kept"), Ok(&b"kept".to_vec()));
}

#[test]
fn operations_keep_every_claim_backed_and_single() {
    let mut service = empty_service();
    service.register_user("alice", "pw1").unwrap();
    service.register_user("bob", "pw2").unwrap();
    let a1 = service.create(b"a1".to_vec(), credentials("alice", "pw1"), draw()).unwrap();
    let _a2 = service.create(b"a2".to_vec(), credentials("alice", "pw1"), draw()).unwrap();
    let b1 = service.create(b"b1".to_vec(), credentials("bob", "pw2"), draw()).unwrap();
    let _anonymous = service.create(b"x".to_vec(), None, draw()).unwrap();
    service.replace(&b1, b"b1 again".to_vec(), credentials("bob", "pw2")).unwrap();
    service.delete(&a1, "alice", "pw1").unwrap();
    service.register_user("carol", "pw3").unwrap();
    let _c1 = service.create(b"c1".to_vec(), credentials("carol", "pw3"), draw()).unwrap();

    let mut claims: Vec<String> = Vec::new();
    for user in service.dump_state() {
        for id in user.owned_ids {
            assert!(service.read(&id).is_ok());
            assert!(!claims.contains(&id));
            claims.push(id);
        }
    }
    assert_eq!(claims.len(), 3);
}

#[test]
fn create_succeeds_beside_blobs_under_other_names() {
    let mut store = BlobStore::new();
    store.create_exclusive("plain-name".to_string(), b"kept".to_vec()).unwrap();
    let state = State::load(Some(vec![user("alice", "pw1", &["plain-name"])])).unwrap();
    let (mut service, purged) = Service::new(store, state);
    assert!(purged.is_empty());

    let owned = service.create(b"hello".to_vec(), credentials("alice", "pw1"), draw());
    assert!(owned.is_ok());
    let anonymous = service.create(b"x".to_vec(), None, draw());
    assert!(anonymous.is_ok());
    assert_eq!(
        service.list("alice", "pw1"),
        Ok(vec!["plain-name".to_string(), owned.unwrap()])
    );
}

#[test]
fn discard_takes_back_a_paste_without_an_owner() {
    let mut service = empty_service();
    service.register_user("alice", "pw1").unwrap();
    let owned = service.create(b"owned".to_vec(), credentials("alice", "pw1"), draw()).unwrap();
    let other = service.create(b"other".to_vec(), None, draw()).unwrap();
    let before = service.dump_state();

    let id = service.create(b"lost".to_vec(), None, draw()).unwrap();
    assert_eq!(service.discard(&id), Ok(()));

    assert_eq!(service.read(&id), Err(Error::NotFound));
    assert_eq!(service.read(&other), Ok(&b"other".to_vec()));
    assert_eq!(service.read(&owned), Ok(&b"owned".to_vec()));
    assert_eq!(service.dump_state(), before);
    assert_eq!(service.discard(&id), Err(Error::NotFound));
}

#[test]
fn discard_refuses_a_paste_that_a_user_owns() {
    let mut service = empty_service();
    service.register_user("alice", "pw1").unwrap();
    service.register_user("bob", "pw2").unwrap();
    let id = service.create(b"bob's".to_vec(), credentials("bob", "pw2"), draw()).unwrap();

    assert_eq!(service.discard(&id), Err(Error::Unauthorized));
    assert_eq!(service.read(&id), Ok(&b"bob's".to_vec()));
    assert_eq!(service.list("bob", "pw2"), Ok(vec![id]));
    assert_eq!(service.discard("no-such-paste"), Err(Error::NotFound));
}

#[test]
fn create_refuses_the_same_random_bytes_twice() {
    let mut service = empty_service();
    service.register_user("alice", "pw1").unwrap();
    let random = [7u8; 16];
    let id = service.create(b"first".to_vec(), credentials("alice", "pw1"), random).unwrap();
    assert_eq!(id, "07070707-0707-4707-8707-070707070707");

    let again = service.create(b"second".to_vec(), credentials("alice", "pw1"), random);
    assert_eq!(again, Err(Error::AlreadyExists));
    let anonymous = service.create(b"third".to_vec(), None, random);
    assert_eq!(anonymous, Err(Error::AlreadyExists));
    let unknown = service.create(b"fourth".to_vec(), credentials("bob", "pw"), random);
    assert_eq!(unknown, Err(Error::Unauthorized));

    assert_eq!(service.read(&id), Ok(&b"first".to_vec()));
    assert_eq!(service.list("alice", "pw1"), Ok(vec![id]));
}

#[test]
fn create_on_a_new_service_always_succeeds() {
    for byte in [0u8, 1, 0x4f, 0x80, 0xff] {
        let mut service = empty_service();
        service.register_user("alice", "pw1").unwrap();
        assert!(service.create(b"hello".to_vec(), credentials("alice", "pw1"), [byte; 16]).is_ok());
        let mut anonymous = empty_service();
        assert!(anonymous.create(b"x".to_vec(), None, [byte; 16]).is_ok());
    }
}
