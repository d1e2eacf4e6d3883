use vstd::prelude::*;
use crate::error::GusError;
use crate::strings::{join_path, push_char, spec_join, str_eq};

verus! {

use vstd::string::StringExecFns;

/// The mathematical model of one user record.
pub struct UserView {
    pub id: Seq<char>,
    pub name: Seq<char>,
    pub email: Seq<char>,
    pub sshkey_path: Option<Seq<char>>,
}

/// One identity: a unique id, the display name and email exported to git,
/// and an optional explicit path to the identity's SSH key.  When the path
/// is absent, a default path is derived from the id.
#[derive(Debug, Clone, PartialEq, Eq)]
pub struct User {
    pub id: String,
    pub name: String,
    pub email: String,
    pub sshkey_path: Option<String>,
}

impl View for User {
    type V = UserView;

    open spec fn view(&self) -> UserView {
        UserView {
            id: self.id@,
            name: self.name@,
            email: self.email@,
            sshkey_path: match self.sshkey_path {
                Some(p) => Some(p@),
                None => None,
            },
        }
    }
}

/// The final component of a path: everything after the last separator.
pub open spec fn spec_file_name(p: Seq<char>) -> Seq<char>
    decreases p.len(),
{
    if p.len() == 0 {
        p
    } else if p.last() == '/' {
        Seq::<char>::empty()
    } else {
        spec_file_name(p.drop_last()).push(p.last())
    }
}

impl UserView {
    /// The name of the user's key file: the final component of the explicit
    /// path when a nonempty one is set, and `id_` followed by the id when
    /// the path is empty or absent.
    pub open spec fn spec_sshkey_name(&self) -> Seq<char> {
        match self.sshkey_path {
            Some(p) => if p.len() == 0 {
                "id_"@ + self.id
            } else {
                spec_file_name(p)
            },
            None => "id_"@ + self.id,
        }
    }

    /// The user's effective key path: the explicit path when a nonempty one
    /// is set, and the default key name inside the given directory when the
    /// path is empty or absent.
    pub open spec fn spec_sshkey_path(&self, default_dir: Seq<char>) -> Seq<char> {
        match self.sshkey_path {
            Some(p) => if p.len() == 0 {
                spec_join(default_dir, self.spec_sshkey_name())
            } else {
                p
            },
            None => spec_join(default_dir, self.spec_sshkey_name()),
        }
    }

    /// Whether a key-file name can be derived from the record: an explicit
    /// nonempty path must have a nonempty final component; an empty or
    /// absent path derives the default name.
    pub open spec fn path_ok(&self) -> bool {
        match self.sshkey_path {
            Some(p) => p.len() == 0 || spec_file_name(p).len() > 0,
            None => true,
        }
    }
}

impl User {
    /// Checks that a key-file name can be derived from this record.
    pub fn has_valid_sshkey_name(&self) -> (r: bool)
        ensures
            r == self@.path_ok(),
    {
        match &self.sshkey_path {
            Some(p) => {
                if p.as_str().unicode_len() == 0 {
                    return true;
                }
                let n = file_name_of(p.as_str());
                n.unicode_len() > 0
            },
            None => true,
        }
    }

    /// The name of this user's key file.
    pub fn get_sshkey_name(&self) -> (r: String)
        requires
            self@.path_ok(),
        ensures
            r@ == self@.spec_sshkey_name(),
    {
        if let Some(p) = &self.sshkey_path {
            if p.as_str().unicode_len() > 0 {
                return file_name_of(p.as_str());
            }
        }
        let mut s = String::new();
        s.append("id_");
        s.append(self.id.as_str());
        s
    }

    /// Copies this record, field by field.
    pub fn duplicate(&self) -> (r: User)
        ensures
            r@ == self@,
    {
        User {
            id: self.id.clone(),
            name: self.name.clone(),
            email: self.email.clone(),
            sshkey_path: match &self.sshkey_path {
                Some(p) => Some(p.clone()),
                None => None,
            },
        }
    }

    /// The effective path of this user's key, under the given default key
    /// directory.
    pub fn get_sshkey_path(&self, default_sshkey_dir: &str) -> (r: String)
        requires
            self@.path_ok(),
        ensures
            r@ == self@.spec_sshkey_path(default_sshkey_dir@),
    {
        if let Some(p) = &self.sshkey_path {
            if p.as_str().unicode_len() > 0 {
                return p.clone();
            }
        }
        let name = self.get_sshkey_name();
        join_path(default_sshkey_dir, name.as_str())
    }
}

/// Extracts the final component of a path.
fn file_name_of(p: &str) -> (r: String)
    ensures
        r@ == spec_file_name(p@),
{
    let n: usize = p.unicode_len();
    let mut start: usize = n;
    let mut found = false;
    while !found && start > 0
        invariant
            0 <= start <= n,
            n == p@.len(),
            forall|j: int| start <= j < n ==> p@[j] != '/',
            found ==> start > 0 && p@[start - 1] == '/',
        decreases (if found { 0int } else { 1int }) + start,
    {
        if p.get_char(start - 1) == '/' {
            found = true;
        } else {
            start = start - 1;
        }
    }
    let mut r = String::new();
    let mut i: usize = start;
    while i < n
        invariant
            start <= i <= n,
            n == p@.len(),
            r@ == p@.subrange(start as int, i as int),
        decreases n - i,
    {
        push_char(&mut r, p.get_char(i));
        assert(r@ =~= p@.subrange(start as int, i + 1 as int));
        i = i + 1;
    }
    proof {
        lemma_file_name_suffix(p@, start as int);
    }
    r
}

/// After the last separator, `spec_file_name` is exactly the remaining
/// suffix of the path.
proof fn lemma_file_name_suffix(p: Seq<char>, start: int)
    requires
        0 <= start <= p.len(),
        forall|j: int| start <= j < p.len() ==> p[j] != '/',
        start > 0 ==> p[start - 1] == '/',
    ensures
        spec_file_name(p) == p.subrange(start, p.len() as int),
    decreases p.len() - start,
{
    if start == p.len() {
        if p.len() == 0 {
            assert(spec_file_name(p) =~= p.subrange(start, p.len() as int));
        } else {
            assert(p.last() == '/');
            assert(spec_file_name(p) =~= p.subrange(start, p.len() as int));
        }
    } else {
        assert(p.last() != '/');
        lemma_file_name_suffix(p.drop_last(), start);
        assert(p.drop_last().subrange(start, p.drop_last().len() as int) =~= p.subrange(
            start,
            p.len() - 1,
        ));
        assert(spec_file_name(p) =~= p.subrange(start, p.len() - 1).push(p.last()));
        assert(p.subrange(start, p.len() - 1).push(p.last()) =~= p.subrange(
            start,
            p.len() as int,
        ));
    }
}

/// Whether some record in `s` carries the id `k`.
pub open spec fn has_id(s: Seq<UserView>, k: Seq<char>) -> bool {
    exists|i: int| 0 <= i < s.len() && s[i].id == k
}

/// The index of the record with id `k`.
pub open spec fn id_index(s: Seq<UserView>, k: Seq<char>) -> int {
    choose|i: int| 0 <= i < s.len() && s[i].id == k
}

/// The record with id `k`.
pub open spec fn lookup(s: Seq<UserView>, k: Seq<char>) -> UserView {
    s[id_index(s, k)]
}

/// Whether no two records in `s` share an id.
pub open spec fn unique_ids(s: Seq<UserView>) -> bool {
    forall|i: int, j: int|
        0 <= i < s.len() && 0 <= j < s.len() && i != j ==> s[i].id != s[j].id
}

/// The sequence with the record carrying id `k` removed.
pub open spec fn remove_id(s: Seq<UserView>, k: Seq<char>) -> Seq<UserView> {
    s.remove(id_index(s, k))
}

/// The registry of identities.  Records are held in insertion order; the
/// registry's invariant is that ids are unique across it.
#[derive(Debug, Clone)]
pub struct Users {
    users: Vec<User>,
}

impl Users {
    /// The model of the registry: its records, in storage order.
    pub closed spec fn seq_view(&self) -> Seq<UserView> {
        self.users@.map_values(|u: User| u@)
    }

    /// The registry invariant: ids are unique.
    pub open spec fn wf(&self) -> bool {
        unique_ids(self.seq_view())
    }

    /// Whether a key-file name can be derived from every record.
    pub open spec fn paths_ok(&self) -> bool {
        forall|i: int| 0 <= i < self.seq_view().len() ==> self.seq_view()[i].path_ok()
    }

    /// Creates an empty registry.
    pub fn new() -> (r: Users)
        ensures
            r.seq_view() == Seq::<UserView>::empty(),
            r.wf(),
    {
        let r = Users { users: Vec::new() };
        proof {
            assert(r.seq_view() =~= Seq::<UserView>::empty());
        }
        r
    }

    /// Finds the index of the record with the given id, if any.
    fn index_of(&self, id: &str) -> (r: Option<usize>)
        ensures
            match r {
                Some(i) => i < self.seq_view().len() && self.seq_view()[i as int].id == id@,
                None => !has_id(self.seq_view(), id@),
            },
    {
        let mut i: usize = 0;
        while i < self.users.len()
            invariant
                0 <= i <= self.users.len(),
                forall|j: int| 0 <= j < i ==> self.seq_view()[j].id != id@,
            decreases self.users.len() - i,
        {
            if str_eq(self.users[i].id.as_str(), id) {
                assert(self.seq_view()[i as int].id == id@);
                return Some(i);
            }
            i = i + 1;
        }
        None
    }

    /// Whether a record with the given id is present.
    pub fn exists_id(&self, id: &str) -> (r: bool)
        ensures
            r == has_id(self.seq_view(), id@),
    {
        match self.index_of(id) {
            Some(_) => true,
            None => false,
        }
    }

    /// Inserts a record.  Fails, leaving the registry unchanged, when the
    /// record's id is already present.
    pub fn add(&mut self, user: User) -> (r: Result<(), GusError>)
        requires
            old(self).wf(),
        ensures
            final(self).wf(),
            match r {
                Ok(()) => !has_id(old(self).seq_view(), user@.id) && final(self).seq_view()
                    == old(self).seq_view().push(user@),
                Err(e) => has_id(old(self).seq_view(), user@.id) && *final(self) == *old(self)
                    && (e matches GusError::DuplicateId { id } && id@ == user@.id),
            },
    {
        if self.exists_id(user.id.as_str()) {
            return Err(GusError::DuplicateId { id: user.id.clone() });
        }
        let ghost before = self.seq_view();
        self.users.push(user);
        proof {
            assert(self.seq_view() =~= before.push(user@));
            assert forall|i: int, j: int|
                0 <= i < self.seq_view().len() && 0 <= j < self.seq_view().len() && i != j
                implies self.seq_view()[i].id != self.seq_view()[j].id by {
                if i < before.len() && j < before.len() {
                } else if i == before.len() {
                    assert(!has_id(before, user@.id));
                    assert(self.seq_view()[j].id != user@.id);
                } else {
                    assert(!has_id(before, user@.id));
                    assert(self.seq_view()[i].id != user@.id);
                }
            }
        }
        Ok(())
    }

    /// Returns the record with the given id, if present.
    pub fn get(&self, id: &str) -> (r: Option<&User>)
        requires
            self.wf(),
        ensures
            match r {
                Some(u) => has_id(self.seq_view(), id@) && u@ == lookup(self.seq_view(), id@),
                None => !has_id(self.seq_view(), id@),
            },
    {
        match self.index_of(id) {
            Some(i) => {
                proof {
                    let j = id_index(self.seq_view(), id@);
                    assert(0 <= j < self.seq_view().len() && self.seq_view()[j].id == id@);
                    assert(j == i as int);
                }
                Some(&self.users[i])
            },
            None => None,
        }
    }

    /// Returns the record with the given id for in-place update, if present.
    pub fn get_mut(&mut self, id: &str) -> (r: Option<&mut User>)
        requires
            old(self).wf(),
        ensures
            match r {
                Some(u) => has_id(old(self).seq_view(), id@) && (*u)@ == lookup(
                    old(self).seq_view(),
                    id@,
                ) && final(self).seq_view() == old(self).seq_view().update(
                    id_index(old(self).seq_view(), id@),
                    (*final(u))@,
                ),
                None => !has_id(old(self).seq_view(), id@) && *final(self) == *old(self),
            },
    {
        match self.index_of(id) {
            Some(i) => {
                proof {
                    let j = id_index(self.seq_view(), id@);
                    assert(0 <= j < self.seq_view().len() && self.seq_view()[j].id == id@);
                    assert(j == i as int);
                }
                Some(&mut self.users[i])
            },
            None => None,
        }
    }

    /// Removes and returns the record with the given id.  Returns `None`,
    /// leaving the registry unchanged, when the id is absent.
    pub fn remove(&mut self, id: &str) -> (r: Option<User>)
        requires
            old(self).wf(),
        ensures
            final(self).wf(),
            match r {
                Some(u) => has_id(old(self).seq_view(), id@) && u@ == lookup(
                    old(self).seq_view(),
                    id@,
                ) && final(self).seq_view() == remove_id(old(self).seq_view(), id@),
                None => !has_id(old(self).seq_view(), id@) && *final(self) == *old(self),
            },
    {
        match self.index_of(id) {
            Some(i) => {
                proof {
                    let j = id_index(self.seq_view(), id@);
                    assert(0 <= j < self.seq_view().len() && self.seq_view()[j].id == id@);
                    assert(j == i as int);
                }
                let ghost before = self.seq_view();
                let u = self.users.remove(i);
                proof {
                    assert(self.seq_view() =~= before.remove(i as int));
                }
                Some(u)
            },
            None => None,
        }
    }

    /// Returns all records, in storage order.
    pub fn list(&self) -> (r: Vec<User>)
        ensures
            r@.map_values(|u: User| u@) == self.seq_view(),
    {
        let mut r: Vec<User> = Vec::new();
        let mut i: usize = 0;
        while i < self.users.len()
            invariant
                0 <= i <= self.users.len(),
                r@.len() == i,
                forall|j: int| 0 <= j < i ==> r@[j]@ == self.seq_view()[j],
            decreases self.users.len() - i,
        {
            r.push(self.users[i].duplicate());
            i = i + 1;
        }
        proof {
            assert(r@.map_values(|u: User| u@) =~= self.seq_view());
        }
        r
    }
}

/// Adding a fresh record and then looking its id up returns that record, and
/// the registry grows by exactly one entry; uniqueness of ids is preserved.
pub proof fn lemma_add_then_get(s: Seq<UserView>, u: UserView)
    requires
        unique_ids(s),
        !has_id(s, u.id),
    ensures
        has_id(s.push(u), u.id),
        lookup(s.push(u), u.id) == u,
        s.push(u).len() == s.len() + 1,
        unique_ids(s.push(u)),
{
    let t = s.push(u);
    assert(t[s.len() as int] == u);
    assert(has_id(t, u.id));
    let i = id_index(t, u.id);
    assert(0 <= i < t.len() && t[i].id == u.id);
    if i < s.len() {
        assert(s[i] == t[i]);
        assert(has_id(s, u.id));
        assert(false);
    }
    assert(lookup(t, u.id) == u);
    assert forall|i: int, j: int| 0 <= i < t.len() && 0 <= j < t.len() && i != j implies t[i].id
        != t[j].id by {
        if i < s.len() && j < s.len() {
        } else if i == s.len() {
            assert(t[j].id != u.id);
        } else {
            assert(t[i].id != u.id);
        }
    }
}

/// Removing an id removes it for good: a lookup of the removed id fails
/// afterwards, the registry shrinks by exactly one entry, all other records
/// survive, and uniqueness of ids is preserved.
pub proof fn lemma_remove_clears(s: Seq<UserView>, k: Seq<char>)
    requires
        unique_ids(s),
        has_id(s, k),
    ensures
        !has_id(remove_id(s, k), k),
        remove_id(s, k).len() == s.len() - 1,
        unique_ids(remove_id(s, k)),
        forall|k2: Seq<char>| k2 != k ==> (has_id(remove_id(s, k), k2) == has_id(s, k2)),
{
    let i = id_index(s, k);
    assert(0 <= i < s.len() && s[i].id == k);
    let t = s.remove(i);
    assert forall|j: int| 0 <= j < t.len() implies t[j].id != k by {
        if j < i {
            assert(t[j] == s[j]);
        } else {
            assert(t[j] == s[j + 1]);
        }
    }
    assert forall|a: int, b: int| 0 <= a < t.len() && 0 <= b < t.len() && a != b implies t[a].id
        != t[b].id by {
        let a0 = if a < i { a } else { a + 1 };
        let b0 = if b < i { b } else { b + 1 };
        assert(t[a] == s[a0]);
        assert(t[b] == s[b0]);
    }
    assert forall|k2: Seq<char>| k2 != k implies (has_id(t, k2) == has_id(s, k2)) by {
        if has_id(t, k2) {
            let j = choose|j: int| 0 <= j < t.len() && t[j].id == k2;
            if j < i {
                assert(s[j].id == k2);
            } else {
                assert(s[j + 1].id == k2);
            }
            assert(has_id(s, k2));
        }
        if has_id(s, k2) {
            let j = choose|j: int| 0 <= j < s.len() && s[j].id == k2;
            assert(j != i);
            if j < i {
                assert(t[j].id == k2);
            } else {
                assert(t[j - 1] == s[j]);
            }
            assert(has_id(t, k2));
        }
    }
}

} // verus!
