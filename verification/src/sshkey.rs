use vstd::prelude::*;

verus! {

use vstd::string::StringExecFns;

/// The key algorithms the external key generator accepts.
#[derive(Debug, Clone, Copy, PartialEq, Eq)]
pub enum SshKeyType {
    Ed25519,
    Ed25519Sk,
    Rsa,
    Ecdsa,
    EcdsaSk,
    Dsa,
}

impl SshKeyType {
    /// The algorithm selector handed to the key generator.
    pub open spec fn spec_name(&self) -> Seq<char> {
        match self {
            SshKeyType::Ed25519 => "ed25519"@,
            SshKeyType::Ed25519Sk => "ed25519-sk"@,
            SshKeyType::Rsa => "rsa"@,
            SshKeyType::Ecdsa => "ecdsa"@,
            SshKeyType::EcdsaSk => "ecdsa-sk"@,
            SshKeyType::Dsa => "dsa"@,
        }
    }

    /// Renders the algorithm selector.
    pub fn to_string(&self) -> (r: String)
        ensures
            r@ == self.spec_name(),
    {
        match self {
            SshKeyType::Ed25519 => "ed25519".to_owned(),
            SshKeyType::Ed25519Sk => "ed25519-sk".to_owned(),
            SshKeyType::Rsa => "rsa".to_owned(),
            SshKeyType::Ecdsa => "ecdsa".to_owned(),
            SshKeyType::EcdsaSk => "ecdsa-sk".to_owned(),
            SshKeyType::Dsa => "dsa".to_owned(),
        }
    }

    /// Reads an algorithm selector back; `None` for an unknown name.
    pub fn from_name(s: &str) -> (r: Option<SshKeyType>)
        ensures
            match r {
                Some(t) => s@ == t.spec_name(),
                None => forall|t: SshKeyType| s@ != t.spec_name(),
            },
    {
        if crate::strings::str_eq(s, "ed25519") {
            Some(SshKeyType::Ed25519)
        } else if crate::strings::str_eq(s, "ed25519-sk") {
            Some(SshKeyType::Ed25519Sk)
        } else if crate::strings::str_eq(s, "rsa") {
            Some(SshKeyType::Rsa)
        } else if crate::strings::str_eq(s, "ecdsa") {
            Some(SshKeyType::Ecdsa)
        } else if crate::strings::str_eq(s, "ecdsa-sk") {
            Some(SshKeyType::EcdsaSk)
        } else if crate::strings::str_eq(s, "dsa") {
            Some(SshKeyType::Dsa)
        } else {
            proof {
                assert forall|t: SshKeyType| s@ != t.spec_name() by {}
            }
            None
        }
    }
}

/// Algorithm selectors are distinct, so rendering a selector and reading it
/// back with `from_name` always yields the same algorithm.
pub proof fn lemma_key_type_names_distinct(a: SshKeyType, b: SshKeyType)
    requires
        a.spec_name() == b.spec_name(),
    ensures
        a == b,
{
    reveal_strlit("ed25519");
    reveal_strlit("ed25519-sk");
    reveal_strlit("rsa");
    reveal_strlit("ecdsa");
    reveal_strlit("ecdsa-sk");
    reveal_strlit("dsa");
    assert("ed25519"@.len() == 7);
    assert("ed25519-sk"@.len() == 10);
    assert("rsa"@.len() == 3);
    assert("ecdsa"@.len() == 5);
    assert("ecdsa-sk"@.len() == 8);
    assert("dsa"@.len() == 3);
    assert("rsa"@[0] == 'r');
    assert("dsa"@[0] == 'd');
    assert(a.spec_name().len() == b.spec_name().len());
    assert(a.spec_name()[0] == b.spec_name()[0]);
    assert(a == b);
}

/// Everything the external key generator needs for one invocation: the
/// algorithm, a comment naming the key, the passphrase, and the destination
/// path of the key pair.
#[derive(Debug, Clone, PartialEq, Eq)]
pub struct KeygenRequest {
    pub key_type: SshKeyType,
    pub comment: String,
    pub passphrase: String,
    pub path: String,
}

impl KeygenRequest {
    /// The argument list for the external key generator, after the program
    /// name: the algorithm, comment, destination and passphrase selectors,
    /// each followed by its value.
    pub open spec fn spec_argv(&self) -> Seq<Seq<char>> {
        seq![
            "-t"@,
            self.key_type.spec_name(),
            "-C"@,
            self.comment@,
            "-f"@,
            self.path@,
            "-N"@,
            self.passphrase@,
        ]
    }

    /// Builds the argument list for the external key generator.
    pub fn argv(&self) -> (r: Vec<String>)
        ensures
            r@.map_values(|s: String| s@) == self.spec_argv(),
    {
        let mut r: Vec<String> = Vec::new();
        r.push("-t".to_owned());
        r.push(self.key_type.to_string());
        r.push("-C".to_owned());
        r.push(self.comment.clone());
        r.push("-f".to_owned());
        r.push(self.path.clone());
        r.push("-N".to_owned());
        r.push(self.passphrase.clone());
        proof {
            assert(r@.map_values(|s: String| s@) =~= self.spec_argv());
        }
        r
    }
}

} // verus!
