use gus::codec::{config_round_trip, escape, parse_config, parse_users, render_config, render_users, save_load_round_trip, unescape};
use gus::config::Config;
use gus::sshkey::SshKeyType;
use gus::user::{User, Users};

fn user(id: &str, name: &str, email: &str, path: Option<&str>) -> User {
    User {
        id: id.to_string(),
        name: name.to_string(),
        email: email.to_string(),
        sshkey_path: path.map(|p| p.to_string()),
    }
}

#[test]
fn escape_and_unescape_are_inverse() {
    let original = "a\"b\\c\nd";
    let escaped = escape(original);
    assert_eq!(escaped, "a\\\"b\\\\c\\nd");
    assert_eq!(unescape(&escaped), Some(original.to_string()));
}

#[test]
fn unescape_rejects_bad_escapes() {
    assert_eq!(unescape("a\\x"), None);
    assert_eq!(unescape("trailing\\"), None);
    assert_eq!(unescape("raw\"quote"), None);
    assert_eq!(unescape("raw\nnewline"), None);
}

#[test]
fn render_empty_registry_is_empty() {
    assert_eq!(render_users(&Users::new()), "");
}

#[test]
fn render_one_record_exactly() {
    let mut users = Users::new();
    users.add(user("alice", "Alice A", "a@x.com", Some("/k/alice"))).unwrap();
    assert_eq!(
        render_users(&users),
        "[\"alice\"]\n\
         id = \"alice\"\n\
         name = \"Alice A\"\n\
         email = \"a@x.com\"\n\
         sshkey_path = \"/k/alice\"\n\
         \n"
    );
}

#[test]
fn render_omits_absent_key_path() {
    let mut users = Users::new();
    users.add(user("bob", "Bob B", "b@x.com", None)).unwrap();
    let text = render_users(&users);
    assert!(!text.contains("sshkey_path"));
}

#[test]
fn registry_round_trip() {
    let mut users = Users::new();
    users.add(user("alice", "Alice A", "a@x.com", Some("/k/alice"))).unwrap();
    users.add(user("bob", "Bob \"the\" B\\ob", "b@x.com", None)).unwrap();
    users.add(user("carol", "Carol\nC", "c@x.com", Some("/k/carol"))).unwrap();
    let text = render_users(&users);
    let parsed = parse_users(&text).unwrap();
    // Order-independent comparison: every id maps to an equal record, and
    // nothing else is present.
    assert_eq!(parsed.list().len(), users.list().len());
    for u in users.list() {
        assert_eq!(parsed.get(&u.id), Some(&u));
    }
}

#[test]
fn parse_empty_text_gives_empty_registry() {
    let parsed = parse_users("").unwrap();
    assert_eq!(parsed.list().len(), 0);
}

#[test]
fn parse_rejects_corrupt_text() {
    assert!(parse_users("garbage").is_none());
    assert!(parse_users("[\"alice\"]\nid = \"alice\"\n\n").is_none());
    assert!(
        parse_users(
            "[\"alice\"]\nid = \"bob\"\nname = \"A\"\nemail = \"a@x.com\"\n\n"
        )
        .is_none()
    );
    let one = "[\"alice\"]\nid = \"alice\"\nname = \"A\"\nemail = \"a@x.com\"\n\n";
    let twice = format!("{}{}", one, one);
    assert!(parse_users(one).is_some());
    assert!(parse_users(&twice).is_none());
    assert!(parse_users("[\"alice\"]\nid = \"ali\\qce\"\n\n").is_none());
}

#[test]
fn parse_rejects_record_without_key_file_name() {
    let text = "[\"a\"]\nid = \"a\"\nname = \"A\"\nemail = \"a@x\"\nsshkey_path = \"/k/\"\n\n";
    assert!(parse_users(text).is_none());
}

#[test]
fn config_text_round_trip() {
    let c = Config {
        users_file_path: "/home/u/.gus/users.toml".to_string(),
        default_sshkey_dir: "/home/u/.gus/sshkeys/".to_string(),
        default_sshkey_type: SshKeyType::EcdsaSk,
    };
    let text = render_config(&c);
    assert_eq!(
        text,
        "users_file_path = \"/home/u/.gus/users.toml\"\n\
         default_sshkey_dir = \"/home/u/.gus/sshkeys/\"\n\
         default_sshkey_type = \"ecdsa-sk\"\n"
    );
    assert_eq!(parse_config(&text), Some(c));
}

#[test]
fn parse_config_rejects_bad_text() {
    assert_eq!(parse_config(""), None);
    assert_eq!(parse_config("users_file_path = \"/a\"\n"), None);
    assert_eq!(
        parse_config(
            "users_file_path = \"/a\"\n\
             default_sshkey_dir = \"/b\"\n\
             default_sshkey_type = \"unknown\"\n"
        ),
        None
    );
}

#[test]
fn default_config_paths() {
    let c = Config::default_in("/home/u");
    assert_eq!(c.users_file_path, "/home/u/.gus/users.toml");
    assert_eq!(c.default_sshkey_dir, "/home/u/.gus/sshkeys/");
    assert_eq!(c.default_sshkey_type, SshKeyType::Ed25519);
}

#[test]
fn save_load_round_trip_preserves_records() {
    let mut users = Users::new();
    users.add(user("alice", "Alice A", "a@x.com", Some("/k/alice"))).unwrap();
    users.add(user("bob", "B\"ob\\", "b@x.com", None)).unwrap();
    let reloaded = save_load_round_trip(&users);
    assert_eq!(reloaded.list(), users.list());
}

#[test]
fn config_round_trip_function_preserves_fields() {
    let c = Config {
        users_file_path: "/a/users.toml".to_string(),
        default_sshkey_dir: "/a/keys/".to_string(),
        default_sshkey_type: SshKeyType::Rsa,
    };
    assert_eq!(config_round_trip(&c), c);
}

#[test]
fn parse_config_rejects_reordered_lines() {
    let text = "default_sshkey_dir = \"/b\"\n\
                users_file_path = \"/a\"\n\
                default_sshkey_type = \"rsa\"\n";
    assert_eq!(parse_config(text), None);
}
