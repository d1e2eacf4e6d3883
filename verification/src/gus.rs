use vstd::prelude::*;
use crate::codec::{render_users, spec_render_users};
use crate::config::Config;
use crate::error::GusError;
use crate::sshkey::KeygenRequest;
use crate::user::{has_id, lookup, remove_id, User, Users, UserView};

verus! {

use vstd::string::StringExecFns;

/// The text of the session script for one identity: one export per line for
/// the id, the author and committer name and email, and the SSH command
/// pointing at the identity's key.
pub open spec fn spec_session_script(u: UserView, resolved_key_path: Seq<char>) -> Seq<char> {
    "export GIT_USER_SWITCHER_USER_ID=\""@ + u.id + "\"\n"@ + "export GIT_AUTHOR_NAME=\""@ + u.name
        + "\"\n"@ + "export GIT_AUTHOR_EMAIL=\""@ + u.email + "\"\n"@
        + "export GIT_COMMITTER_NAME=\""@ + u.name + "\"\n"@ + "export GIT_COMMITTER_EMAIL=\""@
        + u.email + "\"\n"@ + "export GIT_SSH_COMMAND=\"ssh -i "@ + resolved_key_path
        + " -F /dev/null\"\n"@
}

/// The orchestrator: one registry and one set of settings, held for the
/// process lifetime.  Mutating operations return the new text of the
/// registry file, for the caller to persist; switching returns the text of
/// the session script, for the caller to write at the session's path.
pub struct GitUserSwitcher {
    pub users: Users,
    pub config: Config,
}

impl GitUserSwitcher {
    /// The orchestrator's invariant: the registry's ids are unique and every
    /// record can name its key file.
    pub open spec fn wf(&self) -> bool {
        self.users.wf() && self.users.paths_ok()
    }

    /// Builds the orchestrator from an opened registry and settings.
    pub fn new(users: Users, config: Config) -> (r: GitUserSwitcher)
        requires
            users.wf(),
            users.paths_ok(),
        ensures
            r.users == users,
            r.config == config,
            r.wf(),
    {
        GitUserSwitcher { users, config }
    }

    /// Decides an addition.  Fails with `DuplicateId` when the id is taken.
    /// When the identity's key file is not yet present, a passphrase is
    /// required — failing with `PassphraseRequired` when none is supplied —
    /// and a request for the external key generator is returned; when the
    /// key file is present, no generation is needed.  The registry itself is
    /// not touched: the caller inserts the record with `commit_add_user`
    /// only after any key generation has succeeded, so a failed generation
    /// never leaves a dangling record behind.
    pub fn add_user(&self, user: &User, sshkey_passphrase: Option<&str>, sshkey_present: bool)
        -> (r: Result<Option<KeygenRequest>, GusError>)
        requires
            self.wf(),
            user@.path_ok(),
        ensures
            match r {
                Err(e) => (e matches GusError::DuplicateId { id } && id@ == user@.id && has_id(
                    self.users.seq_view(),
                    user@.id,
                )) || (e matches GusError::PassphraseRequired && !has_id(
                    self.users.seq_view(),
                    user@.id,
                ) && !sshkey_present && sshkey_passphrase is None),
                Ok(req) => !has_id(self.users.seq_view(), user@.id) && match req {
                    None => sshkey_present,
                    Some(req) => !sshkey_present && (sshkey_passphrase matches Some(p)
                        && req.key_type == self.config.default_sshkey_type && req.comment@
                        == user@.spec_sshkey_name() && req.passphrase@ == p@ && req.path@
                        == user@.spec_sshkey_path(self.config.default_sshkey_dir@)),
                },
            },
    {
        if self.users.exists_id(user.id.as_str()) {
            return Err(GusError::DuplicateId { id: user.id.clone() });
        }
        if sshkey_present {
            return Ok(None);
        }
        let pass = match sshkey_passphrase {
            Some(p) => p,
            None => {
                return Err(GusError::PassphraseRequired);
            },
        };
        let comment = user.get_sshkey_name();
        let path = user.get_sshkey_path(self.config.default_sshkey_dir.as_str());
        Ok(
            Some(
                KeygenRequest {
                    key_type: self.config.default_sshkey_type,
                    comment,
                    passphrase: pass.to_owned(),
                    path,
                },
            ),
        )
    }

    /// Inserts a decided addition into the registry and returns the new text
    /// of the registry file.  Fails with `DuplicateId`, leaving the registry
    /// unchanged, when the id is taken.
    pub fn commit_add_user(&mut self, user: User) -> (r: Result<String, GusError>)
        requires
            old(self).wf(),
            user@.path_ok(),
        ensures
            final(self).wf(),
            final(self).config == old(self).config,
            match r {
                Ok(contents) => !has_id(old(self).users.seq_view(), user@.id)
                    && final(self).users.seq_view() == old(self).users.seq_view().push(user@)
                    && contents@
                    == spec_render_users(final(self).users.seq_view()),
                Err(e) => has_id(old(self).users.seq_view(), user@.id)
                    && *final(self) == *old(self)
                    && (e matches GusError::DuplicateId { id } && id@ == user@.id),
            },
    {
        let ghost before = self.users.seq_view();
        let ghost uv = user@;
        match self.users.add(user) {
            Ok(()) => {
                proof {
                    assert forall|j: int|
                        0 <= j < self.users.seq_view().len()
                        implies self.users.seq_view()[j].path_ok() by {
                        if j < before.len() {
                            assert(self.users.seq_view()[j] == before[j]);
                        } else {
                            assert(self.users.seq_view()[j] == uv);
                        }
                    }
                }
                Ok(render_users(&self.users))
            },
            Err(e) => Err(e),
        }
    }

    /// Removes an identity and returns the new text of the registry file.
    /// Fails with `NotFound`, leaving the registry unchanged, when the id is
    /// absent.
    pub fn remove_user(&mut self, id: &str) -> (r: Result<String, GusError>)
        requires
            old(self).wf(),
        ensures
            final(self).wf(),
            final(self).config == old(self).config,
            match r {
                Ok(contents) => has_id(old(self).users.seq_view(), id@)
                    && final(self).users.seq_view() == remove_id(old(self).users.seq_view(), id@)
                    && contents@
                    == spec_render_users(final(self).users.seq_view()),
                Err(e) => !has_id(old(self).users.seq_view(), id@) && *final(self) == *old(self)
                    && (e matches GusError::NotFound { id: i } && i@ == id@),
            },
    {
        let ghost before = self.users.seq_view();
        match self.users.remove(id) {
            Some(_) => {
                proof {
                    let k = id@;
                    let idx = crate::user::id_index(before, k);
                    assert(self.users.seq_view() == before.remove(idx));
                    assert forall|j: int|
                        0 <= j < self.users.seq_view().len()
                        implies self.users.seq_view()[j].path_ok() by {
                        if j < idx {
                            assert(self.users.seq_view()[j] == before[j]);
                        } else {
                            assert(self.users.seq_view()[j] == before[j + 1]);
                        }
                    }
                }
                Ok(render_users(&self.users))
            },
            None => Err(GusError::NotFound { id: id.to_owned() }),
        }
    }

    /// Renders the session script for an identity: the exports of the id,
    /// the author and committer identity, and the SSH command using the
    /// identity's resolved key path.  Fails with `NotFound` when the id is
    /// absent; nothing is written in that case, since no script text exists
    /// to write.
    pub fn switch_user(&self, id: &str) -> (r: Result<String, GusError>)
        requires
            self.wf(),
        ensures
            match r {
                Ok(script) => has_id(self.users.seq_view(), id@) && script@ == spec_session_script(
                    lookup(self.users.seq_view(), id@),
                    lookup(self.users.seq_view(), id@).spec_sshkey_path(
                        self.config.default_sshkey_dir@,
                    ),
                ),
                Err(e) => !has_id(self.users.seq_view(), id@) && (e matches GusError::NotFound {
                    id: i,
                } && i@ == id@),
            },
    {
        let user = match self.users.get(id) {
            Some(u) => u,
            None => {
                return Err(GusError::NotFound { id: id.to_owned() });
            },
        };
        proof {
            let k = id@;
            let idx = crate::user::id_index(self.users.seq_view(), k);
            assert(0 <= idx < self.users.seq_view().len());
            assert(self.users.seq_view()[idx].path_ok());
        }
        let key_path = user.get_sshkey_path(self.config.default_sshkey_dir.as_str());
        let mut s = String::new();
        s.append("export GIT_USER_SWITCHER_USER_ID=\"");
        s.append(user.id.as_str());
        s.append("\"\n");
        s.append("export GIT_AUTHOR_NAME=\"");
        s.append(user.name.as_str());
        s.append("\"\n");
        s.append("export GIT_AUTHOR_EMAIL=\"");
        s.append(user.email.as_str());
        s.append("\"\n");
        s.append("export GIT_COMMITTER_NAME=\"");
        s.append(user.name.as_str());
        s.append("\"\n");
        s.append("export GIT_COMMITTER_EMAIL=\"");
        s.append(user.email.as_str());
        s.append("\"\n");
        s.append("export GIT_SSH_COMMAND=\"ssh -i ");
        s.append(key_path.as_str());
        s.append(" -F /dev/null\"\n");
        Ok(s)
    }

    /// Returns all identities, in storage order.
    pub fn list_users(&self) -> (r: Vec<User>)
        ensures
            r@.map_values(|u: User| u@) == self.users.seq_view(),
    {
        self.users.list()
    }

    /// Returns the identity with the given id, if present.
    pub fn get_user(&self, id: &str) -> (r: Option<&User>)
        requires
            self.wf(),
        ensures
            match r {
                Some(u) => has_id(self.users.seq_view(), id@) && u@ == lookup(
                    self.users.seq_view(),
                    id@,
                ),
                None => !has_id(self.users.seq_view(), id@),
            },
    {
        self.users.get(id)
    }

    /// Whether an identity with the given id is present.
    pub fn exists_user(&self, id: &str) -> (r: bool)
        ensures
            r == has_id(self.users.seq_view(), id@),
    {
        self.users.exists_id(id)
    }
}

} // verus!
