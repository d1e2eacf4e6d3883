use vstd::prelude::*;
use crate::sshkey::SshKeyType;
use crate::strings::{join_path, spec_join};

verus! {

/// Process-wide settings: where the registry lives, where generated keys go
/// by default, and which key algorithm new keys use.
#[derive(Debug, Clone, PartialEq, Eq)]
pub struct Config {
    pub users_file_path: String,
    pub default_sshkey_dir: String,
    pub default_sshkey_type: SshKeyType,
}

impl Config {
    /// The registry path the defaults use, under the given home directory.
    pub open spec fn spec_default_users_file(home: Seq<char>) -> Seq<char> {
        spec_join(spec_join(home, ".gus"@), "users.toml"@)
    }

    /// The key directory the defaults use, under the given home directory.
    pub open spec fn spec_default_sshkey_dir(home: Seq<char>) -> Seq<char> {
        spec_join(spec_join(home, ".gus"@), "sshkeys/"@)
    }

    /// The default settings, rooted in the given home directory: the
    /// registry and the key directory under a dot-directory of the home,
    /// and the default key algorithm.
    pub fn default_in(home: &str) -> (r: Config)
        ensures
            r.users_file_path@ == Self::spec_default_users_file(home@),
            r.default_sshkey_dir@ == Self::spec_default_sshkey_dir(home@),
            r.default_sshkey_type == SshKeyType::Ed25519,
    {
        let data_dir = join_path(home, ".gus");
        Config {
            users_file_path: join_path(data_dir.as_str(), "users.toml"),
            default_sshkey_dir: join_path(data_dir.as_str(), "sshkeys/"),
            default_sshkey_type: SshKeyType::Ed25519,
        }
    }

    /// Copies these settings, field by field.
    pub fn duplicate(&self) -> (r: Config)
        ensures
            r == self,
    {
        Config {
            users_file_path: self.users_file_path.clone(),
            default_sshkey_dir: self.default_sshkey_dir.clone(),
            default_sshkey_type: self.default_sshkey_type,
        }
    }
}

} // verus!
