//! A library for maintaining multiple named git identities and switching the
//! active identity for the current shell session.
//!
//! The core pieces are a user registry with unique ids ([`user::Users`]), a
//! switcher that orchestrates add/remove/switch decisions ([`gus`]), a
//! renderer and parser for the registry's on-disk text ([`codec`]), and the
//! session-script machinery that scopes the active identity to one shell
//! session by its parent process id ([`shell`]).
//!
//! All file and process I/O is left to the embedding application: functions
//! here compute the exact text to write and the exact command arguments to
//! run, with contracts pinning both down.

pub mod codec;
pub mod config;
pub mod error;
pub mod gus;
pub mod shell;
pub mod sshkey;
pub mod strings;
pub mod user;
