use gus::shell::{get_session_script_path, get_setup_script, str2envkey};
use gus::sshkey::SshKeyType;
use gus::strings::{dec_u32, join_path};

#[test]
fn env_key_keeps_valid_names() {
    assert_eq!(str2envkey("gus"), "gus");
    assert_eq!(str2envkey("_x9"), "_x9");
    assert_eq!(str2envkey(""), "");
}

#[test]
fn env_key_guards_leading_character_and_filters_tail() {
    assert_eq!(str2envkey("1abc"), "_1abc");
    assert_eq!(str2envkey("a-b c"), "abc");
    assert_eq!(str2envkey("my.app"), "myapp");
}

#[test]
fn session_script_path_shape() {
    assert_eq!(get_session_script_path("/tmp", "gus", 123), "/tmp/gus/session123.sh");
    assert_eq!(get_session_script_path("/tmp/", "gus", 1), "/tmp/gus/session1.sh");
}

#[test]
fn session_script_paths_differ_per_parent_process() {
    let a = get_session_script_path("/tmp", "gus", 41);
    let b = get_session_script_path("/tmp", "gus", 42);
    assert_ne!(a, b);
}

#[test]
fn decimal_rendering() {
    assert_eq!(dec_u32(0), "0");
    assert_eq!(dec_u32(7), "7");
    assert_eq!(dec_u32(409623), "409623");
    assert_eq!(dec_u32(u32::MAX), "4294967295");
}

#[test]
fn join_path_inserts_single_separator() {
    assert_eq!(join_path("/a", "b"), "/a/b");
    assert_eq!(join_path("/a/", "b"), "/a/b");
    assert_eq!(join_path("", "b"), "/b");
}

#[test]
fn setup_script_exact_text() {
    let s = get_setup_script("gus", "gus", "/usr/bin/gus", "/tmp/gus/session1.sh");
    assert_eq!(
        s,
        "if [ -z $GUS_LOADED ]; then\n    \
         export GUS_LOADED=1\n    \
         function git() {\n        \
         source \"/tmp/gus/session1.sh\"\n        \
         command git $@\n    \
         }\n    \
         function gus() {\n        \
         command /usr/bin/gus $@\n        \
         source \"/tmp/gus/session1.sh\"\n    \
         }\nfi\n"
    );
}

#[test]
fn key_type_names_round_trip() {
    let all = [
        (SshKeyType::Ed25519, "ed25519"),
        (SshKeyType::Ed25519Sk, "ed25519-sk"),
        (SshKeyType::Rsa, "rsa"),
        (SshKeyType::Ecdsa, "ecdsa"),
        (SshKeyType::EcdsaSk, "ecdsa-sk"),
        (SshKeyType::Dsa, "dsa"),
    ];
    for (t, name) in all {
        assert_eq!(t.to_string(), name);
        assert_eq!(SshKeyType::from_name(name), Some(t));
    }
    assert_eq!(SshKeyType::from_name("ed448"), None);
}
