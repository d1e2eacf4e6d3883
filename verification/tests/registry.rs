use gus::user::{User, Users};
use gus::error::GusError;

fn user(id: &str, name: &str, email: &str, path: Option<&str>) -> User {
    User {
        id: id.to_string(),
        name: name.to_string(),
        email: email.to_string(),
        sshkey_path: path.map(|p| p.to_string()),
    }
}

#[test]
fn add_then_get_returns_equal_record() {
    let mut users = Users::new();
    assert_eq!(users.list().len(), 0);
    let alice = user("alice", "Alice A", "a@x.com", None);
    users.add(alice.clone()).unwrap();
    assert_eq!(users.list().len(), 1);
    assert_eq!(users.get("alice"), Some(&alice));
    let bob = user("bob", "Bob B", "b@x.com", Some("/k/bob"));
    users.add(bob.clone()).unwrap();
    assert_eq!(users.list().len(), 2);
    assert_eq!(users.get("bob"), Some(&bob));
    assert_eq!(users.get("alice"), Some(&alice));
}

#[test]
fn add_duplicate_fails_and_leaves_registry_unchanged() {
    let mut users = Users::new();
    users.add(user("alice", "Alice A", "a@x.com", None)).unwrap();
    let before = users.list();
    let err = users
        .add(user("alice", "Someone Else", "e@x.com", None))
        .unwrap_err();
    assert_eq!(
        err,
        GusError::DuplicateId {
            id: "alice".to_string()
        }
    );
    assert_eq!(users.list(), before);
}

#[test]
fn remove_nonexistent_returns_none_and_leaves_registry_unchanged() {
    let mut users = Users::new();
    users.add(user("alice", "Alice A", "a@x.com", None)).unwrap();
    let before = users.list();
    assert_eq!(users.remove("bob"), None);
    assert_eq!(users.list(), before);
}

#[test]
fn remove_existing_makes_exists_false() {
    let mut users = Users::new();
    let alice = user("alice", "Alice A", "a@x.com", None);
    users.add(alice.clone()).unwrap();
    assert!(users.exists_id("alice"));
    assert_eq!(users.remove("alice"), Some(alice));
    assert!(!users.exists_id("alice"));
    assert_eq!(users.list().len(), 0);
}

#[test]
fn get_mut_updates_record_in_place() {
    let mut users = Users::new();
    users.add(user("alice", "Alice A", "a@x.com", None)).unwrap();
    let r = users.get_mut("alice").unwrap();
    r.name = "Alice B".to_string();
    assert_eq!(users.get("alice").unwrap().name, "Alice B");
    assert!(users.get_mut("bob").is_none());
}

#[test]
fn sshkey_name_from_explicit_path() {
    let u = user("alice", "Alice A", "a@x.com", Some("/k/deep/alice_key"));
    assert_eq!(u.get_sshkey_name(), "alice_key");
}

#[test]
fn sshkey_name_defaults_to_id() {
    let u = user("alice", "Alice A", "a@x.com", None);
    assert_eq!(u.get_sshkey_name(), "id_alice");
}

#[test]
fn sshkey_path_prefers_explicit_path() {
    let u = user("alice", "Alice A", "a@x.com", Some("/k/alice"));
    assert_eq!(u.get_sshkey_path("/keys"), "/k/alice");
}

#[test]
fn sshkey_path_defaults_into_directory() {
    let u = user("alice", "Alice A", "a@x.com", None);
    assert_eq!(u.get_sshkey_path("/keys"), "/keys/id_alice");
    assert_eq!(u.get_sshkey_path("/keys/"), "/keys/id_alice");
}

#[test]
fn valid_sshkey_name_check() {
    assert!(user("a", "n", "e", None).has_valid_sshkey_name());
    assert!(user("a", "n", "e", Some("/k/a")).has_valid_sshkey_name());
    assert!(!user("a", "n", "e", Some("/k/")).has_valid_sshkey_name());
}

#[test]
fn empty_explicit_sshkey_path_derives_default() {
    let u = user("alice", "Alice A", "a@x.com", Some(""));
    assert!(u.has_valid_sshkey_name());
    assert_eq!(u.get_sshkey_name(), "id_alice");
    assert_eq!(u.get_sshkey_path("/keys"), "/keys/id_alice");
}
