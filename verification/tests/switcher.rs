use gus::config::Config;
use gus::error::GusError;
use gus::gus::GitUserSwitcher;
use gus::sshkey::SshKeyType;
use gus::user::{User, Users};

fn user(id: &str, name: &str, email: &str, path: Option<&str>) -> User {
    User {
        id: id.to_string(),
        name: name.to_string(),
        email: email.to_string(),
        sshkey_path: path.map(|p| p.to_string()),
    }
}

fn config() -> Config {
    Config {
        users_file_path: "/data/users.toml".to_string(),
        default_sshkey_dir: "/data/sshkeys/".to_string(),
        default_sshkey_type: SshKeyType::Ed25519,
    }
}

fn switcher_with(users: Vec<User>) -> GitUserSwitcher {
    let mut registry = Users::new();
    for u in users {
        registry.add(u).unwrap();
    }
    GitUserSwitcher::new(registry, config())
}

#[test]
fn switch_user_nonexistent_fails_with_not_found() {
    let gus = switcher_with(vec![user("alice", "Alice A", "a@x.com", None)]);
    let err = gus.switch_user("bob").unwrap_err();
    assert_eq!(
        err,
        GusError::NotFound {
            id: "bob".to_string()
        }
    );
    assert_eq!(err.message(), "user with id 'bob' does not exist");
}

#[test]
fn switch_user_renders_exact_session_script() {
    let gus = switcher_with(vec![user("alice", "Alice A", "a@x.com", Some("/k/alice"))]);
    let script = gus.switch_user("alice").unwrap();
    assert_eq!(
        script,
        "export GIT_USER_SWITCHER_USER_ID=\"alice\"\n\
         export GIT_AUTHOR_NAME=\"Alice A\"\n\
         export GIT_AUTHOR_EMAIL=\"a@x.com\"\n\
         export GIT_COMMITTER_NAME=\"Alice A\"\n\
         export GIT_COMMITTER_EMAIL=\"a@x.com\"\n\
         export GIT_SSH_COMMAND=\"ssh -i /k/alice -F /dev/null\"\n"
    );
}

#[test]
fn switch_user_resolves_default_key_path() {
    let gus = switcher_with(vec![user("bob", "Bob B", "b@x.com", None)]);
    let script = gus.switch_user("bob").unwrap();
    assert!(script.contains("export GIT_SSH_COMMAND=\"ssh -i /data/sshkeys/id_bob -F /dev/null\"\n"));
}

#[test]
fn add_user_without_key_and_without_passphrase_fails() {
    let mut gus = switcher_with(vec![]);
    let err = gus
        .add_user(&user("carol", "Carol C", "c@x.com", None), None, false)
        .unwrap_err();
    assert_eq!(err, GusError::PassphraseRequired);
    assert_eq!(err.message(), "ssh key passphrase required");
    // The registry was never touched, so the persisted text stays that of an
    // empty registry.
    assert!(!gus.exists_user("carol"));
    let contents = gus.remove_user("carol").unwrap_err();
    assert_eq!(
        contents,
        GusError::NotFound {
            id: "carol".to_string()
        }
    );
}

#[test]
fn add_user_with_passphrase_requests_key_generation() {
    let gus = switcher_with(vec![]);
    let req = gus
        .add_user(&user("carol", "Carol C", "c@x.com", None), Some("hunter2"), false)
        .unwrap()
        .unwrap();
    assert_eq!(req.key_type, SshKeyType::Ed25519);
    assert_eq!(req.comment, "id_carol");
    assert_eq!(req.passphrase, "hunter2");
    assert_eq!(req.path, "/data/sshkeys/id_carol");
    let argv: Vec<String> = req.argv();
    assert_eq!(
        argv,
        vec!["-t", "ed25519", "-C", "id_carol", "-f", "/data/sshkeys/id_carol", "-N", "hunter2"]
    );
}

#[test]
fn add_user_with_present_key_needs_no_generation() {
    let gus = switcher_with(vec![]);
    let req = gus
        .add_user(&user("carol", "Carol C", "c@x.com", Some("/k/carol")), None, true)
        .unwrap();
    assert!(req.is_none());
}

#[test]
fn add_user_duplicate_fails() {
    let gus = switcher_with(vec![user("alice", "Alice A", "a@x.com", None)]);
    let err = gus
        .add_user(&user("alice", "Alice A", "a@x.com", None), Some("pw"), false)
        .unwrap_err();
    assert_eq!(
        err,
        GusError::DuplicateId {
            id: "alice".to_string()
        }
    );
    assert_eq!(err.message(), "user with id 'alice' already exists");
}

#[test]
fn commit_add_user_persists_and_rejects_duplicates() {
    let mut gus = switcher_with(vec![]);
    let carol = user("carol", "Carol C", "c@x.com", Some("/k/carol"));
    let contents = gus.commit_add_user(carol.clone()).unwrap();
    assert!(gus.exists_user("carol"));
    assert!(contents.contains("[\"carol\"]\n"));
    assert!(contents.contains("id = \"carol\"\n"));
    let err = gus.commit_add_user(carol).unwrap_err();
    assert_eq!(
        err,
        GusError::DuplicateId {
            id: "carol".to_string()
        }
    );
}

#[test]
fn remove_user_persists_removal() {
    let mut gus = switcher_with(vec![
        user("alice", "Alice A", "a@x.com", None),
        user("bob", "Bob B", "b@x.com", None),
    ]);
    let contents = gus.remove_user("alice").unwrap();
    assert!(!gus.exists_user("alice"));
    assert!(gus.exists_user("bob"));
    assert!(!contents.contains("alice"));
    assert!(contents.contains("[\"bob\"]\n"));
}

#[test]
fn read_delegations() {
    let alice = user("alice", "Alice A", "a@x.com", None);
    let gus = switcher_with(vec![alice.clone()]);
    assert!(gus.exists_user("alice"));
    assert!(!gus.exists_user("bob"));
    assert_eq!(gus.get_user("alice"), Some(&alice));
    assert_eq!(gus.get_user("bob"), None);
    assert_eq!(gus.list_users(), vec![alice]);
}

#[test]
fn error_messages_for_filesystem_errors() {
    assert_eq!(
        GusError::AlreadyExists {
            path: "/k/a".to_string()
        }
        .message(),
        "ssh key already exists at path: /k/a"
    );
    assert_eq!(
        GusError::Keygen {
            stderr: "boom".to_string()
        }
        .message(),
        "ssh-keygen failed: boom"
    );
    assert_eq!(
        GusError::Persistence {
            path: "/data/users.toml".to_string(),
            detail: "failed to read users file".to_string()
        }
        .message(),
        "failed to read users file: /data/users.toml"
    );
}
