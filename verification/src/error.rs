use vstd::prelude::*;

verus! {

use vstd::string::StringExecFns;

/// The error kinds reported by this library and by the application around it.
///
/// `DuplicateId` and `NotFound` come from registry and switcher operations;
/// `PassphraseRequired` from planning an addition whose key must be generated;
/// `AlreadyExists`, `Keygen` and `Persistence` describe failures of the
/// filesystem and key-generation work that the application performs.
#[derive(Debug, Clone, PartialEq, Eq)]
pub enum GusError {
    DuplicateId { id: String },
    NotFound { id: String },
    PassphraseRequired,
    AlreadyExists { path: String },
    Keygen { stderr: String },
    Persistence { path: String, detail: String },
}

impl GusError {
    /// The human-readable message for this error.
    pub open spec fn spec_message(&self) -> Seq<char> {
        match self {
            GusError::DuplicateId { id } => "user with id '"@ + id@ + "' already exists"@,
            GusError::NotFound { id } => "user with id '"@ + id@ + "' does not exist"@,
            GusError::PassphraseRequired => "ssh key passphrase required"@,
            GusError::AlreadyExists { path } => "ssh key already exists at path: "@ + path@,
            GusError::Keygen { stderr } => "ssh-keygen failed: "@ + stderr@,
            GusError::Persistence { path, detail } => detail@ + ": "@ + path@,
        }
    }

    /// Renders the human-readable message for this error.
    pub fn message(&self) -> (r: String)
        ensures
            r@ == self.spec_message(),
    {
        match self {
            GusError::DuplicateId { id } => {
                let mut s = String::new();
                s.append("user with id '");
                s.append(id.as_str());
                s.append("' already exists");
                s
            },
            GusError::NotFound { id } => {
                let mut s = String::new();
                s.append("user with id '");
                s.append(id.as_str());
                s.append("' does not exist");
                s
            },
            GusError::PassphraseRequired => {
                let mut s = String::new();
                s.append("ssh key passphrase required");
                s
            },
            GusError::AlreadyExists { path } => {
                let mut s = String::new();
                s.append("ssh key already exists at path: ");
                s.append(path.as_str());
                s
            },
            GusError::Keygen { stderr } => {
                let mut s = String::new();
                s.append("ssh-keygen failed: ");
                s.append(stderr.as_str());
                s
            },
            GusError::Persistence { path, detail } => {
                let mut s = String::new();
                s.append(detail.as_str());
                s.append(": ");
                s.append(path.as_str());
                s
            },
        }
    }
}

} // verus!
