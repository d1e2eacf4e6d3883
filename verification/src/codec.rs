use vstd::prelude::*;
use crate::config::Config;
use crate::sshkey::SshKeyType;
use crate::strings::{push_char, spec_starts_with, starts_with_str, str_eq};
use crate::user::{unique_ids, User, Users, UserView};

verus! {

use vstd::string::StrSliceExecFns;
use vstd::string::StringExecFns;

/// The escaping of one character inside a quoted value: backslash, quote and
/// newline are written as two-character escapes, everything else stands for
/// itself.
pub open spec fn spec_esc_char(c: char) -> Seq<char> {
    if c == '\\' {
        seq!['\\', '\\']
    } else if c == '"' {
        seq!['\\', '"']
    } else if c == '\n' {
        seq!['\\', 'n']
    } else {
        seq![c]
    }
}

/// The escaping of a whole value.
pub open spec fn spec_esc(s: Seq<char>) -> Seq<char>
    decreases s.len(),
{
    if s.len() == 0 {
        Seq::<char>::empty()
    } else {
        spec_esc_char(s[0]) + spec_esc(s.skip(1))
    }
}

/// Unescaping, with the characters read so far in `acc`: `None` when the
/// input ends inside an escape, holds an unknown escape, or holds a raw
/// quote or newline — the characters escaping never leaves bare.
pub open spec fn spec_unesc_acc(s: Seq<char>, acc: Seq<char>) -> Option<Seq<char>>
    decreases s.len(),
{
    if s.len() == 0 {
        Some(acc)
    } else if s[0] == '\\' {
        if s.len() < 2 {
            None
        } else if s[1] == 'n' {
            spec_unesc_acc(s.skip(2), acc.push('\n'))
        } else if s[1] == '\\' {
            spec_unesc_acc(s.skip(2), acc.push('\\'))
        } else if s[1] == '"' {
            spec_unesc_acc(s.skip(2), acc.push('"'))
        } else {
            None
        }
    } else if s[0] == '"' || s[0] == '\n' {
        None
    } else {
        spec_unesc_acc(s.skip(1), acc.push(s[0]))
    }
}

/// The inverse of `spec_esc`.
pub open spec fn spec_unesc(s: Seq<char>) -> Option<Seq<char>> {
    spec_unesc_acc(s, Seq::<char>::empty())
}

/// Escaping distributes over appending one character.
proof fn lemma_esc_push(a: Seq<char>, c: char)
    ensures
        spec_esc(a.push(c)) == spec_esc(a) + spec_esc_char(c),
    decreases a.len(),
{
    assert(spec_esc(Seq::<char>::empty()) == Seq::<char>::empty());
    if a.len() == 0 {
        assert(a.push(c)[0] == c);
        assert(a.push(c).skip(1) =~= Seq::<char>::empty());
        assert(spec_esc(a.push(c)) =~= spec_esc(a) + spec_esc_char(c));
    } else {
        assert(a.push(c)[0] == a[0]);
        assert(a.push(c).skip(1) =~= a.skip(1).push(c));
        lemma_esc_push(a.skip(1), c);
        assert(spec_esc(a.push(c)) =~= spec_esc(a) + spec_esc_char(c));
    }
}

/// Escaping is injective: two values with the same escaping are the same
/// value, so the quoted fields of a rendered registry determine the records.
pub proof fn lemma_esc_injective(a: Seq<char>, b: Seq<char>)
    requires
        spec_esc(a) == spec_esc(b),
    ensures
        a == b,
{
    lemma_esc_round_trip(a);
    lemma_esc_round_trip(b);
}

/// Unescaping an escaped value recovers it exactly: escaping loses nothing.
pub proof fn lemma_esc_round_trip(s: Seq<char>)
    ensures
        spec_unesc(spec_esc(s)) == Some(s),
{
    lemma_esc_round_trip_acc(s, Seq::<char>::empty());
    assert(Seq::<char>::empty() + s =~= s);
}

proof fn lemma_esc_round_trip_acc(s: Seq<char>, acc: Seq<char>)
    ensures
        spec_unesc_acc(spec_esc(s), acc) == Some(acc + s),
    decreases s.len(),
{
    if s.len() == 0 {
        assert(acc + s =~= acc);
    } else {
        let c = s[0];
        let rest = s.skip(1);
        let e = spec_esc(s);
        assert(e == spec_esc_char(c) + spec_esc(rest));
        if c == '\\' || c == '"' || c == '\n' {
            assert(e[0] == '\\');
            assert(e.len() >= 2);
            assert(e[1] == spec_esc_char(c)[1]);
            assert(e.skip(2) =~= spec_esc(rest));
            lemma_esc_round_trip_acc(rest, acc.push(c));
            assert(acc.push(c) + rest =~= acc + s);
        } else {
            assert(e[0] == c);
            assert(e.skip(1) =~= spec_esc(rest));
            lemma_esc_round_trip_acc(rest, acc.push(c));
            assert(acc.push(c) + rest =~= acc + s);
        }
    }
}

/// Unescaping accepts only canonical escapings: whatever it accepts,
/// escaping the result reproduces the input.
pub proof fn lemma_unesc_canonical(s: Seq<char>, v: Seq<char>)
    requires
        spec_unesc(s) == Some(v),
    ensures
        spec_esc(v) == s,
{
    lemma_unesc_canonical_acc(s, Seq::<char>::empty());
    assert(v.skip(0) =~= v);
}

proof fn lemma_unesc_canonical_acc(s: Seq<char>, acc: Seq<char>)
    ensures
        spec_unesc_acc(s, acc) matches Some(t) ==> t.len() >= acc.len() && t.subrange(
            0,
            acc.len() as int,
        ) == acc && spec_esc(t.skip(acc.len() as int)) == s,
    decreases s.len(),
{
    if s.len() == 0 {
        match spec_unesc_acc(s, acc) {
            Some(t) => {
                assert(t == acc);
                assert(t.subrange(0, acc.len() as int) =~= acc);
                assert(t.skip(acc.len() as int) =~= Seq::<char>::empty());
            },
            None => {},
        }
    } else if s[0] == '\\' {
        if s.len() >= 2 && (s[1] == 'n' || s[1] == '\\' || s[1] == '"') {
            let c = if s[1] == 'n' {
                '\n'
            } else if s[1] == '\\' {
                '\\'
            } else {
                '"'
            };
            lemma_unesc_canonical_acc(s.skip(2), acc.push(c));
            match spec_unesc_acc(s, acc) {
                Some(t) => {
                    assert(spec_unesc_acc(s.skip(2), acc.push(c)) == Some(t));
                    assert(t.subrange(0, acc.len() as int + 1) == acc.push(c));
                    assert(t.subrange(0, acc.len() as int) =~= acc);
                    assert(t.subrange(0, acc.len() as int + 1)[acc.len() as int] == t[acc.len() as int]);
                    assert(acc.push(c)[acc.len() as int] == c);
                    assert(t[acc.len() as int] == c);
                    let rest = t.skip(acc.len() as int);
                    assert(rest[0] == c);
                    assert(rest.skip(1) =~= t.skip(acc.len() as int + 1));
                    assert(spec_esc(rest) == spec_esc_char(c) + spec_esc(rest.skip(1)));
                    assert(spec_esc_char(c) + s.skip(2) =~= s);
                },
                None => {},
            }
        }
    } else if s[0] == '"' || s[0] == '\n' {
    } else {
        let c = s[0];
        lemma_unesc_canonical_acc(s.skip(1), acc.push(c));
        match spec_unesc_acc(s, acc) {
            Some(t) => {
                assert(spec_unesc_acc(s.skip(1), acc.push(c)) == Some(t));
                assert(t.subrange(0, acc.len() as int + 1) == acc.push(c));
                assert(t.subrange(0, acc.len() as int) =~= acc);
                assert(t.subrange(0, acc.len() as int + 1)[acc.len() as int] == t[acc.len() as int]);
                assert(acc.push(c)[acc.len() as int] == c);
                assert(t[acc.len() as int] == c);
                let rest = t.skip(acc.len() as int);
                assert(rest[0] == c);
                assert(rest.skip(1) =~= t.skip(acc.len() as int + 1));
                assert(spec_esc(rest) == spec_esc_char(c) + spec_esc(rest.skip(1)));
                assert(spec_esc_char(c) + s.skip(1) =~= s);
            },
            None => {},
        }
    }
}

/// Escapes a value for embedding in a quoted string.
pub fn escape(s: &str) -> (r: String)
    ensures
        r@ == spec_esc(s@),
{
    let n: usize = s.unicode_len();
    let mut r = String::new();
    let mut i: usize = 0;
    while i < n
        invariant
            0 <= i <= n,
            n == s@.len(),
            r@ == spec_esc(s@.subrange(0, i as int)),
        decreases n - i,
    {
        let ghost prefix = s@.subrange(0, i as int);
        let c = s.get_char(i);
        if c == '\\' {
            push_char(&mut r, '\\');
            push_char(&mut r, '\\');
        } else if c == '"' {
            push_char(&mut r, '\\');
            push_char(&mut r, '"');
        } else if c == '\n' {
            push_char(&mut r, '\\');
            push_char(&mut r, 'n');
        } else {
            push_char(&mut r, c);
        }
        proof {
            assert(s@.subrange(0, i + 1 as int) =~= prefix.push(s@[i as int]));
            lemma_esc_push(prefix, s@[i as int]);
            assert(r@ =~= spec_esc(prefix) + spec_esc_char(s@[i as int]));
        }
        i = i + 1;
    }
    proof {
        assert(s@.subrange(0, n as int) =~= s@);
    }
    r
}

/// Unescapes a quoted value; `None` when the text is not a valid escaping.
pub fn unescape(s: &str) -> (r: Option<String>)
    ensures
        match r {
            Some(t) => spec_unesc(s@) == Some(t@),
            None => spec_unesc(s@) is None,
        },
{
    let n: usize = s.unicode_len();
    let mut out = String::new();
    let mut i: usize = 0;
    proof {
        assert(s@.skip(0) =~= s@);
    }
    while i < n
        invariant
            0 <= i <= n,
            n == s@.len(),
            spec_unesc(s@) == spec_unesc_acc(s@.skip(i as int), out@),
        decreases n - i,
    {
        let ghost tail = s@.skip(i as int);
        let c = s.get_char(i);
        proof {
            assert(tail.len() == n - i);
            assert(tail[0] == s@[i as int]);
        }
        if c == '\\' {
            if i + 1 >= n {
                return None;
            }
            let d = s.get_char(i + 1);
            proof {
                assert(tail[1] == s@[i + 1]);
            }
            if d == 'n' {
                push_char(&mut out, '\n');
            } else if d == '\\' {
                push_char(&mut out, '\\');
            } else if d == '"' {
                push_char(&mut out, '"');
            } else {
                return None;
            }
            proof {
                assert(s@.skip(i + 2) =~= tail.skip(2));
            }
            i = i + 2;
        } else if c == '"' || c == '\n' {
            return None;
        } else {
            push_char(&mut out, c);
            proof {
                assert(s@.skip(i + 1) =~= tail.skip(1));
            }
            i = i + 1;
        }
    }
    proof {
        assert(s@.skip(n as int) =~= Seq::<char>::empty());
    }
    Some(out)
}

/// One quoted `key = value` line.
pub open spec fn spec_kv_line(key: Seq<char>, value: Seq<char>) -> Seq<char> {
    key + " = \""@ + spec_esc(value) + "\"\n"@
}

/// The rendering of one registry record: a section headed by the quoted id,
/// then one quoted `key = value` line per field, then a blank line.  The
/// optional key path line is present exactly when the record carries one.
pub open spec fn spec_render_user(u: UserView) -> Seq<char> {
    "[\""@ + spec_esc(u.id) + "\"]\n"@ + spec_kv_line("id"@, u.id) + spec_kv_line(
        "name"@,
        u.name,
    ) + spec_kv_line("email"@, u.email) + (match u.sshkey_path {
        Some(p) => spec_kv_line("sshkey_path"@, p),
        None => Seq::<char>::empty(),
    }) + "\n"@
}

/// The rendering of a whole registry: its records' sections, in storage
/// order.
pub open spec fn spec_render_users(s: Seq<UserView>) -> Seq<char>
    decreases s.len(),
{
    if s.len() == 0 {
        Seq::<char>::empty()
    } else {
        spec_render_users(s.drop_last()) + spec_render_user(s.last())
    }
}

fn render_quoted_line(out: &mut String, key: &str, value: &str)
    ensures
        final(out)@ == old(out)@ + spec_kv_line(key@, value@),
{
    out.append(key);
    out.append(" = \"");
    let e = escape(value);
    out.append(e.as_str());
    out.append("\"\n");
}

/// Renders one registry record.
pub fn render_user(u: &User) -> (r: String)
    ensures
        r@ == spec_render_user(u@),
{
    let mut s = String::new();
    s.append("[\"");
    let e = escape(u.id.as_str());
    s.append(e.as_str());
    s.append("\"]\n");
    render_quoted_line(&mut s, "id", u.id.as_str());
    render_quoted_line(&mut s, "name", u.name.as_str());
    render_quoted_line(&mut s, "email", u.email.as_str());
    match &u.sshkey_path {
        Some(p) => {
            render_quoted_line(&mut s, "sshkey_path", p.as_str());
        },
        None => {},
    }
    s.append("\n");
    proof {
        assert(s@ =~= spec_render_user(u@));
    }
    s
}

/// Renders a whole registry as the text of its file.
pub fn render_users(users: &Users) -> (r: String)
    ensures
        r@ == spec_render_users(users.seq_view()),
{
    let list = users.list();
    let mut s = String::new();
    let mut i: usize = 0;
    proof {
        assert(users.seq_view().subrange(0, 0) =~= Seq::<UserView>::empty());
    }
    while i < list.len()
        invariant
            0 <= i <= list.len(),
            list@.map_values(|u: User| u@) == users.seq_view(),
            s@ == spec_render_users(users.seq_view().subrange(0, i as int)),
        decreases list.len() - i,
    {
        let part = render_user(&list[i]);
        s.append(part.as_str());
        proof {
            let view = users.seq_view();
            assert(view.subrange(0, i + 1 as int).drop_last() =~= view.subrange(0, i as int));
            assert(view.subrange(0, i + 1 as int).last() == list@[i as int]@);
        }
        i = i + 1;
    }
    proof {
        assert(users.seq_view().subrange(0, users.seq_view().len() as int) =~= users.seq_view());
    }
    s
}

/// The rendering of the settings file: one quoted `key = value` line per
/// field.
pub open spec fn spec_render_config(c: Config) -> Seq<char> {
    spec_kv_line("users_file_path"@, c.users_file_path@) + spec_kv_line(
        "default_sshkey_dir"@,
        c.default_sshkey_dir@,
    ) + "default_sshkey_type"@ + " = \""@ + c.default_sshkey_type.spec_name() + "\"\n"@
}

/// Renders the settings as the text of their file.
pub fn render_config(c: &Config) -> (r: String)
    ensures
        r@ == spec_render_config(*c),
{
    let mut s = String::new();
    render_quoted_line(&mut s, "users_file_path", c.users_file_path.as_str());
    render_quoted_line(&mut s, "default_sshkey_dir", c.default_sshkey_dir.as_str());
    s.append("default_sshkey_type");
    s.append(" = \"");
    let name = c.default_sshkey_type.to_string();
    s.append(name.as_str());
    s.append("\"\n");
    proof {
        assert(s@ =~= spec_render_config(*c));
    }
    s
}

/// The partial line left at the end of `s`, when its first characters
/// continue `cur`.
pub open spec fn run_cur(s: Seq<char>, cur: Seq<char>) -> Seq<char>
    decreases s.len(),
{
    if s.len() == 0 {
        cur
    } else if s[0] == '\n' {
        run_cur(s.skip(1), Seq::<char>::empty())
    } else {
        run_cur(s.skip(1), cur.push(s[0]))
    }
}

/// The complete lines of `s`, appended to `acc`, when the first line of `s`
/// continues `cur`.
pub open spec fn run_acc(s: Seq<char>, cur: Seq<char>, acc: Seq<Seq<char>>) -> Seq<Seq<char>>
    decreases s.len(),
{
    if s.len() == 0 {
        acc
    } else if s[0] == '\n' {
        run_acc(s.skip(1), Seq::<char>::empty(), acc.push(cur))
    } else {
        run_acc(s.skip(1), cur.push(s[0]), acc)
    }
}

/// The lines of a text: split at newline characters, with one final
/// (possibly empty) line.
pub open spec fn spec_split(s: Seq<char>) -> Seq<Seq<char>> {
    run_acc(s, Seq::<char>::empty(), Seq::<Seq<char>>::empty()).push(
        run_cur(s, Seq::<char>::empty()),
    )
}

/// Splits text into lines at newline characters.
fn split_lines(s: &str) -> (lines: Vec<String>)
    ensures
        lines@.map_values(|l: String| l@) == spec_split(s@),
        lines@.len() >= 1,
{
    let n: usize = s.unicode_len();
    let mut lines: Vec<String> = Vec::new();
    let mut cur = String::new();
    let mut i: usize = 0;
    proof {
        assert(s@.skip(0) =~= s@);
        assert(lines@.map_values(|l: String| l@) =~= Seq::<Seq<char>>::empty());
    }
    while i < n
        invariant
            0 <= i <= n,
            n == s@.len(),
            run_acc(s@, Seq::<char>::empty(), Seq::<Seq<char>>::empty()) == run_acc(
                s@.skip(i as int),
                cur@,
                lines@.map_values(|l: String| l@),
            ),
            run_cur(s@, Seq::<char>::empty()) == run_cur(s@.skip(i as int), cur@),
        decreases n - i,
    {
        let ghost tail = s@.skip(i as int);
        let ghost before = lines@.map_values(|l: String| l@);
        let c = s.get_char(i);
        proof {
            assert(tail.len() == n - i);
            assert(tail[0] == s@[i as int]);
            assert(s@.skip(i + 1) =~= tail.skip(1));
        }
        if c == '\n' {
            let ghost curv = cur@;
            lines.push(cur);
            cur = String::new();
            proof {
                assert(lines@.map_values(|l: String| l@) =~= before.push(curv));
            }
        } else {
            push_char(&mut cur, c);
        }
        i = i + 1;
    }
    proof {
        assert(s@.skip(n as int) =~= Seq::<char>::empty());
    }
    lines.push(cur);
    proof {
        assert(lines@.map_values(|l: String| l@) =~= spec_split(s@));
    }
    lines
}

/// Reads the quoted value out of a line of the form `<prefix>"<value>"`,
/// unescaping it; `None` when the line has another shape.  On a line this
/// library rendered, it recovers the rendered value exactly.
fn parse_quoted_tail(line: &str, prefix: &str) -> (r: Option<String>)
    ensures
        forall|v: Seq<char>|
            line@ == prefix@ + #[trigger] spec_esc(v) + "\""@ ==> (r matches Some(t) && t@ == v),
        r matches Some(t) ==> line@ == prefix@ + spec_esc(t@) + "\""@,
{
    proof {
        reveal_strlit("\"");
    }
    if !starts_with_str(line, prefix) {
        proof {
            assert forall|v: Seq<char>|
                line@ == prefix@ + #[trigger] spec_esc(v) + "\""@ implies false by {
                let l = prefix@ + spec_esc(v) + "\""@;
                assert(l.subrange(0, prefix@.len() as int) =~= prefix@);
                assert(spec_starts_with(l, prefix@));
            }
        }
        return None;
    }
    let n: usize = line.unicode_len();
    let p: usize = prefix.unicode_len();
    if n <= p {
        proof {
            assert forall|v: Seq<char>|
                line@ == prefix@ + #[trigger] spec_esc(v) + "\""@ implies false by {
                assert(line@.len() == p + spec_esc(v).len() + 1);
            }
        }
        return None;
    }
    if line.get_char(n - 1) != '"' {
        proof {
            assert forall|v: Seq<char>|
                line@ == prefix@ + #[trigger] spec_esc(v) + "\""@ implies false by {
                let l = prefix@ + spec_esc(v) + "\""@;
                assert(l[l.len() - 1] == '"');
            }
        }
        return None;
    }
    let inner = line.substring_char(p, n - 1);
    match unescape(inner) {
        Some(t) => {
            proof {
                assert forall|v: Seq<char>|
                    line@ == prefix@ + #[trigger] spec_esc(v) + "\""@ implies t@ == v by {
                    assert(line@.len() == p + spec_esc(v).len() + 1);
                    assert(inner@ =~= spec_esc(v));
                    lemma_esc_round_trip(v);
                }
                lemma_unesc_canonical(inner@, t@);
                assert forall|j: int| 0 <= j < p implies line@[j] == prefix@[j] by {
                    assert(line@.subrange(0, p as int)[j] == line@[j]);
                }
                assert(line@ =~= prefix@ + spec_esc(t@) + "\""@);
            }
            Some(t)
        },
        None => {
            proof {
                assert forall|v: Seq<char>|
                    line@ == prefix@ + #[trigger] spec_esc(v) + "\""@ implies false by {
                    assert(line@.len() == p + spec_esc(v).len() + 1);
                    assert(inner@ =~= spec_esc(v));
                    lemma_esc_round_trip(v);
                }
            }
            None
        },
    }
}

/// Reads the id out of a section header line `["<id>"]`; `None` when the
/// line has another shape.  On a header line this library rendered, it
/// recovers the rendered id exactly.
fn parse_header(line: &str) -> (r: Option<String>)
    ensures
        forall|v: Seq<char>|
            line@ == "[\""@ + #[trigger] spec_esc(v) + "\"]"@ ==> (r matches Some(t) && t@ == v),
        r matches Some(t) ==> line@ == "[\""@ + spec_esc(t@) + "\"]"@,
{
    proof {
        reveal_strlit("[\"");
        reveal_strlit("\"]");
    }
    if !starts_with_str(line, "[\"") {
        proof {
            assert forall|v: Seq<char>|
                line@ == "[\""@ + #[trigger] spec_esc(v) + "\"]"@ implies false by {
                let l = "[\""@ + spec_esc(v) + "\"]"@;
                assert(l.subrange(0, 2) =~= "[\""@);
                assert(spec_starts_with(l, "[\""@));
            }
        }
        return None;
    }
    let n: usize = line.unicode_len();
    if n < 4 {
        proof {
            assert forall|v: Seq<char>|
                line@ == "[\""@ + #[trigger] spec_esc(v) + "\"]"@ implies false by {
                assert(line@.len() == 4 + spec_esc(v).len());
            }
        }
        return None;
    }
    if line.get_char(n - 1) != ']' {
        proof {
            assert forall|v: Seq<char>|
                line@ == "[\""@ + #[trigger] spec_esc(v) + "\"]"@ implies false by {
                let l = "[\""@ + spec_esc(v) + "\"]"@;
                assert(l[l.len() - 1] == ']');
            }
        }
        return None;
    }
    if line.get_char(n - 2) != '"' {
        proof {
            assert forall|v: Seq<char>|
                line@ == "[\""@ + #[trigger] spec_esc(v) + "\"]"@ implies false by {
                let l = "[\""@ + spec_esc(v) + "\"]"@;
                assert(l[l.len() - 2] == '"');
            }
        }
        return None;
    }
    let inner = line.substring_char(2, n - 2);
    match unescape(inner) {
        Some(t) => {
            proof {
                assert forall|v: Seq<char>|
                    line@ == "[\""@ + #[trigger] spec_esc(v) + "\"]"@ implies t@ == v by {
                    assert(line@.len() == 4 + spec_esc(v).len());
                    assert(inner@ =~= spec_esc(v));
                    lemma_esc_round_trip(v);
                }
                lemma_unesc_canonical(inner@, t@);
                assert forall|j: int| 0 <= j < 2 implies line@[j] == "[\""@[j] by {
                    assert(line@.subrange(0, 2)[j] == line@[j]);
                }
                assert(line@ =~= "[\""@ + spec_esc(t@) + "\"]"@);
            }
            Some(t)
        },
        None => {
            proof {
                assert forall|v: Seq<char>|
                    line@ == "[\""@ + #[trigger] spec_esc(v) + "\"]"@ implies false by {
                    assert(line@.len() == 4 + spec_esc(v).len());
                    assert(inner@ =~= spec_esc(v));
                    lemma_esc_round_trip(v);
                }
            }
            None
        },
    }
}

/// Whether `w` is a registry model that this library would render as the
/// text `s`: ids unique, every record able to name its key file, and `s`
/// its rendering.
pub open spec fn valid_witness(w: Seq<UserView>, s: Seq<char>) -> bool {
    unique_ids(w) && (forall|j: int| 0 <= j < w.len() ==> w[j].path_ok()) && s
        == spec_render_users(w)
}

/// Parses the text of a registry file.  Returns `None` on text this library
/// did not render: a malformed or misordered section, a duplicate id, a
/// mismatch between a section header and its id field, or a record from
/// which no key-file name can be derived.  On the rendering of a registry
/// it recovers that registry exactly, record for record, so saving and
/// reopening a registry reproduces it.
#[verifier::rlimit(100)]
#[verifier::loop_isolation(false)]
pub fn parse_users(s: &str) -> (r: Option<Users>)
    ensures
        match r {
            Some(u) => u.wf() && u.paths_ok() && valid_witness(u.seq_view(), s@) && (forall|
                w: Seq<UserView>,
            |
                #[trigger] valid_witness(w, s@) ==> u.seq_view() == w),
            None => forall|w: Seq<UserView>| !(#[trigger] valid_witness(w, s@)),
        },
{
    let lines = split_lines(s);
    let n: usize = lines.len();
    let ghost lv = lines@.map_values(|l: String| l@);
    let ghost good = exists|w0: Seq<UserView>| valid_witness(w0, s@);
    let ghost w = choose|w0: Seq<UserView>| valid_witness(w0, s@);
    let ghost e = Seq::<char>::empty();
    proof {
        reveal_strlit("[\"");
        reveal_strlit("\"]");
        reveal_strlit("\n");
        reveal_strlit("\"");
        reveal_strlit("id");
        reveal_strlit("name");
        reveal_strlit("email");
        reveal_strlit("sshkey_path");
        reveal_strlit(" = \"");
        reveal_strlit("id = \"");
        reveal_strlit("name = \"");
        reveal_strlit("email = \"");
        reveal_strlit("sshkey_path = \"");
        if good {
            lemma_split_render(w);
            assert(lv.skip(0) =~= lv);
            assert(w.skip(0) =~= w);
        }
    }
    let mut users = Users::new();
    proof {
        assert(lv.subrange(0, 0) =~= Seq::<Seq<char>>::empty());
        assert(groups_lines(users.seq_view()) == Seq::<Seq<char>>::empty());
    }
    let mut i: usize = 0;
    let ghost mut k: int = 0;
    while i < n - 1
        invariant
            users.wf(),
            users.paths_ok(),
            0 <= i <= n,
            n >= 1,
            n == lines@.len(),
            lv == lines@.map_values(|l: String| l@),
            lv.subrange(0, i as int) == groups_lines(users.seq_view()),
            good == exists|w0: Seq<UserView>| valid_witness(w0, s@),
            good ==> valid_witness(w, s@),
            good ==> 0 <= k <= w.len(),
            good ==> users.seq_view() == w.subrange(0, k),
            good ==> lv.skip(i as int) == groups_lines(w.skip(k)) + seq![
                Seq::<char>::empty(),
            ],
        decreases n - i,
    {
        let ghost tail = lv.skip(i as int);
        let ghost u = if good && k < w.len() {
            w[k]
        } else {
            vstd::pervasive::arbitrary()
        };
        let ghost glen: int = if u.sshkey_path is Some {
            6int
        } else {
            5int
        };
        proof {
            if good {
                assert(tail.len() == n - i);
                if k == w.len() {
                    assert(w.skip(k).len() == 0);
                    assert(tail.len() == 1);
                    assert(false);
                }
                assert(w.skip(k)[0] == w[k]);
                assert(groups_lines(w.skip(k)) == group_lines(u) + groups_lines(
                    w.skip(k).skip(1),
                ));
                assert(w.skip(k).skip(1) =~= w.skip(k + 1));
                lemma_group_fields(u);
                let gl = group_lines(u);
                assert(gl.len() == glen);
                assert(tail[0] == gl[0] && tail[1] == gl[1] && tail[2] == gl[2] && tail[3]
                    == gl[3]);
                assert(lines@[i as int]@ == tail[0]);
                assert(lines@[i + 1]@ == tail[1]);
                assert(lines@[i + 2]@ == tail[2]);
                assert(lines@[i + 3]@ == tail[3]);
                match u.sshkey_path {
                    Some(p) => {
                        assert(tail[4] == gl[4] && tail[5] == gl[5]);
                        assert(lines@[i + 4]@ == tail[4]);
                        assert(lines@[i + 5]@ == tail[5]);
                    },
                    None => {
                        assert(tail[4] == gl[4]);
                        assert(lines@[i + 4]@ == tail[4]);
                    },
                }
                assert(tail.len() >= glen + 1);
                lemma_kv_prefixes();
            }
        }
        if n - 1 - i < 4 {
            proof {
                if good {
                    assert(false);
                }
            }
            return None;
        }
        let h = match parse_header(lines[i].as_str()) {
            Some(h) => h,
            None => {
                proof {
                    if good {
                        assert(lines@[i as int]@ == "[\""@ + spec_esc(u.id) + "\"]"@);
                        assert(false);
                    }
                }
                return None;
            },
        };
        let vid = match parse_quoted_tail(lines[i + 1].as_str(), "id = \"") {
            Some(v) => v,
            None => {
                proof {
                    if good {
                        assert(lines@[i + 1]@ == "id = \""@ + spec_esc(u.id) + "\""@);
                        assert(false);
                    }
                }
                return None;
            },
        };
        let vname = match parse_quoted_tail(lines[i + 2].as_str(), "name = \"") {
            Some(v) => v,
            None => {
                proof {
                    if good {
                        assert(lines@[i + 2]@ == "name = \""@ + spec_esc(u.name) + "\""@);
                        assert(false);
                    }
                }
                return None;
            },
        };
        let vemail = match parse_quoted_tail(lines[i + 3].as_str(), "email = \"") {
            Some(v) => v,
            None => {
                proof {
                    if good {
                        assert(lines@[i + 3]@ == "email = \""@ + spec_esc(u.email) + "\""@);
                        assert(false);
                    }
                }
                return None;
            },
        };
        let mut sshkey_path: Option<String> = None;
        let mut step: usize = 5;
        if lines[i + 4].unicode_len() != 0 {
            proof {
                if good && u.sshkey_path is None {
                    assert(lines@[i + 4]@ == e);
                    assert(false);
                }
            }
            let p = match parse_quoted_tail(lines[i + 4].as_str(), "sshkey_path = \"") {
                Some(v) => v,
                None => {
                    proof {
                        if good {
                            let pv = u.sshkey_path->0;
                            assert(lines@[i + 4]@ == "sshkey_path = \""@ + spec_esc(pv)
                                + "\""@);
                            assert(false);
                        }
                    }
                    return None;
                },
            };
            if n - 1 - i < 5 {
                proof {
                    if good {
                        assert(false);
                    }
                }
                return None;
            }
            if lines[i + 5].unicode_len() != 0 {
                proof {
                    if good {
                        assert(lines@[i + 5]@ == e);
                        assert(false);
                    }
                }
                return None;
            }
            sshkey_path = Some(p);
            step = 6;
        } else {
            proof {
                if good && u.sshkey_path is Some {
                    let pv = u.sshkey_path->0;
                    assert(lines@[i + 4]@ == "sshkey_path = \""@ + spec_esc(pv) + "\""@);
                    assert(lines@[i + 4]@.len() >= 16);
                    assert(false);
                }
            }
        }
        if !str_eq(h.as_str(), vid.as_str()) {
            proof {
                if good {
                    assert(false);
                }
            }
            return None;
        }
        let record = User { id: vid, name: vname, email: vemail, sshkey_path };
        proof {
            lemma_kv_prefixes();
            lemma_group_fields(record@);
            assert(lines@[i as int]@ == lv[i as int]);
            assert(lines@[i + 1]@ == lv[i + 1]);
            assert(lines@[i + 2]@ == lv[i + 2]);
            assert(lines@[i + 3]@ == lv[i + 3]);
            assert(lines@[i + 4]@ == lv[i + 4]);
            assert(lv[i as int] =~= "[\""@ + spec_esc(record@.id) + "\"]"@);
            assert(lv[i + 1] =~= kv_head("id"@, record@.id));
            assert(lv[i + 2] =~= kv_head("name"@, record@.name));
            assert(lv[i + 3] =~= kv_head("email"@, record@.email));
            match record@.sshkey_path {
                Some(pv) => {
                    assert(lv[i + 4] =~= kv_head("sshkey_path"@, pv));
                    assert(lines@[i + 5]@ == lv[i + 5]);
                    assert(lv[i + 5] =~= Seq::<char>::empty());
                    assert(step == 6);
                },
                None => {
                    assert(lv[i + 4] =~= Seq::<char>::empty());
                    assert(step == 5);
                },
            }
            assert forall|off: int| 0 <= off < step implies lv[i as int + off] == group_lines(
                record@,
            )[off] by {
                if off == 0 {
                } else if off == 1 {
                } else if off == 2 {
                } else if off == 3 {
                } else if off == 4 {
                } else {
                    assert(off == 5);
                }
            }
            if good {
                assert(record@ == u);
                assert(step as int == glen);
            }
        }
        if !record.has_valid_sshkey_name() {
            proof {
                if good {
                    assert(u.path_ok());
                    assert(false);
                }
            }
            return None;
        }
        let ghost before = users.seq_view();
        let ghost rv = record@;
        match users.add(record) {
            Ok(()) => {
                proof {
                    assert forall|j: int|
                        0 <= j < users.seq_view().len()
                        implies users.seq_view()[j].path_ok() by {
                        if j < before.len() {
                            assert(users.seq_view()[j] == before[j]);
                        } else {
                            assert(users.seq_view()[j] == rv);
                        }
                    }
                    lemma_groups_push(before, rv);
                    assert(groups_lines(before).len() == i);
                    assert(users.seq_view() =~= before.push(rv));
                    assert forall|j: int|
                        0 <= j < i + step implies lv.subrange(
                        0,
                        i as int + step as int,
                    )[j] == (groups_lines(before) + group_lines(rv))[j] by {
                        assert(lv.subrange(0, i as int + step as int)[j] == lv[j]);
                        if j < i {
                            assert((groups_lines(before) + group_lines(rv))[j] == groups_lines(
                                before,
                            )[j]);
                            assert(lv.subrange(0, i as int)[j] == lv[j]);
                        } else {
                            assert((groups_lines(before) + group_lines(rv))[j] == group_lines(
                                rv,
                            )[j - i]);
                            assert(lv[i as int + (j - i)] == group_lines(rv)[j - i]);
                        }
                    }
                    assert(lv.subrange(0, i as int + step as int) =~= groups_lines(
                        users.seq_view(),
                    ));
                    if good {
                        assert(users.seq_view() =~= w.subrange(0, k + 1));
                        assert(u == w[k]);
                        let gl = group_lines(u);
                        lemma_group_fields(u);
                        assert(gl.len() == glen);
                        let rest = groups_lines(w.skip(k + 1)) + seq![e];
                        assert(w.skip(k)[0] == w[k]);
                        assert(groups_lines(w.skip(k)) == gl + groups_lines(w.skip(k).skip(1)));
                        assert(w.skip(k).skip(1) =~= w.skip(k + 1));
                        assert(groups_lines(w.skip(k).skip(1)) == groups_lines(w.skip(k + 1)));
                        assert(lv.skip(i as int) =~= (gl + groups_lines(w.skip(k + 1))) + seq![e]);
                        assert((gl + groups_lines(w.skip(k + 1))) + seq![e] =~= gl + rest);
                        assert(step as int == gl.len());
                        assert(lv.skip(i as int).len() == n - i);
                        assert forall|j: int|
                            0 <= j < rest.len() implies lv.skip(i as int + step as int)[j]
                            == rest[j] by {
                            assert(lv.skip(i as int + step as int)[j] == lv[i as int
                                + step as int + j]);
                            assert(lv.skip(i as int)[step as int + j] == lv[i as int
                                + step as int + j]);
                            assert((gl + rest)[step as int + j] == rest[j]);
                        }
                        assert(lv.skip(i as int + step as int) =~= rest);
                        k = k + 1;
                    }
                }
            },
            Err(_) => {
                proof {
                    if good {
                        let j = crate::user::id_index(before, rv.id);
                        assert(w.subrange(0, k)[j] == w[j]);
                        assert(w[j].id == w[k].id);
                        assert(false);
                    }
                }
                return None;
            },
        }
        i = i + step;
    }
    proof {
        if good {
            assert(lv.skip(i as int).len() == n - i);
            assert(lv.skip(i as int).len() >= 1);
        }
    }
    if i != n - 1 {
        proof {
            if good {
                assert(false);
            }
        }
        return None;
    }
    proof {
        if good {
            if k < w.len() {
                assert(groups_lines(w.skip(k)) == group_lines(w.skip(k)[0]) + groups_lines(
                    w.skip(k).skip(1),
                ));
                assert(group_lines(w.skip(k)[0]).len() >= 5);
                assert(lv.skip(i as int).len() >= 6);
                assert(false);
            }
            assert(w.skip(k).len() == 0);
            assert(lv.skip(i as int) =~= seq![lv[i as int]]);
            assert(lv[i as int] == e);
            assert(lines@[i as int]@ == e);
        }
    }
    if lines[i].unicode_len() != 0 {
        proof {
            if good {
                assert(false);
            }
        }
        return None;
    }
    proof {
        assert(lines@[i as int]@ == lv[i as int]);
        assert(lv[i as int] =~= Seq::<char>::empty());
        assert(lv =~= lv.subrange(0, i as int) + seq![Seq::<char>::empty()]);
        lemma_split_render(users.seq_view());
        assert(lv =~= groups_lines(users.seq_view()) + seq![Seq::<char>::empty()]);
        assert(spec_split(spec_render_users(users.seq_view())) == spec_split(s@));
        lemma_split_injective(s@, spec_render_users(users.seq_view()));
        assert(valid_witness(users.seq_view(), s@));
        if good {
            assert(users.seq_view() =~= w);
        }
        assert forall|w2: Seq<UserView>| #[trigger] valid_witness(w2, s@)
            implies users.seq_view() == w2 by {
            assert(good);
            assert(valid_witness(w, s@));
            assert(spec_render_users(w2) == spec_render_users(w));
            lemma_render_users_injective(w2, w);
        }
    }
    Some(users)
}

/// Each key followed by its quoting equals the one prefix the parser
/// matches for it.
proof fn lemma_kv_prefixes()
    ensures
        "id"@ + " = \""@ == "id = \""@,
        "name"@ + " = \""@ == "name = \""@,
        "email"@ + " = \""@ == "email = \""@,
        "sshkey_path"@ + " = \""@ == "sshkey_path = \""@,
{
    reveal_strlit("id");
    reveal_strlit("name");
    reveal_strlit("email");
    reveal_strlit("sshkey_path");
    reveal_strlit(" = \"");
    reveal_strlit("id = \"");
    reveal_strlit("name = \"");
    reveal_strlit("email = \"");
    reveal_strlit("sshkey_path = \"");
    assert("id"@ + " = \""@ =~= "id = \""@);
    assert("name"@ + " = \""@ =~= "name = \""@);
    assert("email"@ + " = \""@ =~= "email = \""@);
    assert("sshkey_path"@ + " = \""@ =~= "sshkey_path = \""@);
}

/// Saving a registry and reading the saved text back yields an equal
/// registry, record for record: nothing is lost between a registry and its
/// file.
pub fn save_load_round_trip(users: &Users) -> (r: Users)
    requires
        users.wf(),
        users.paths_ok(),
    ensures
        r.seq_view() == users.seq_view(),
{
    let text = render_users(users);
    proof {
        assert(valid_witness(users.seq_view(), text@));
    }
    match parse_users(text.as_str()) {
        Some(u) => u,
        None => {
            proof {
                assert(false);
            }
            Users::new()
        },
    }
}

/// The lines of a rendered settings file: one quoted line per field and a
/// final empty line.
spec fn config_lines(c: Config) -> Seq<Seq<char>> {
    Seq::<Seq<char>>::empty().push(kv_head("users_file_path"@, c.users_file_path@)).push(
        kv_head("default_sshkey_dir"@, c.default_sshkey_dir@),
    ).push("default_sshkey_type"@ + " = \""@ + c.default_sshkey_type.spec_name() + "\""@).push(
        Seq::<char>::empty(),
    )
}

/// The individual lines of a rendered settings file.
proof fn lemma_config_fields(c: Config)
    ensures
        config_lines(c).len() == 4,
        config_lines(c)[0] == kv_head("users_file_path"@, c.users_file_path@),
        config_lines(c)[1] == kv_head("default_sshkey_dir"@, c.default_sshkey_dir@),
        config_lines(c)[2] == "default_sshkey_type"@ + " = \""@ + c.default_sshkey_type.spec_name()
            + "\""@,
        config_lines(c)[3] == Seq::<char>::empty(),
{
    assert(config_lines(c)[3] =~= Seq::<char>::empty());
}

/// Escaping leaves a value without backslashes, quotes or newlines as it
/// stands.
proof fn lemma_esc_plain(s: Seq<char>)
    requires
        forall|i: int| 0 <= i < s.len() ==> s[i] != '\\' && s[i] != '"' && s[i] != '\n',
    ensures
        spec_esc(s) == s,
    decreases s.len(),
{
    if s.len() > 0 {
        lemma_esc_plain(s.skip(1));
        assert(spec_esc_char(s[0]) =~= seq![s[0]]);
        assert(seq![s[0]] + s.skip(1) =~= s);
    }
}

/// An algorithm selector holds no escapes and no newline, so it stands in
/// its quoted line unchanged.
proof fn lemma_name_plain(t: SshKeyType)
    ensures
        spec_esc(t.spec_name()) == t.spec_name(),
        forall|i: int| 0 <= i < t.spec_name().len() ==> t.spec_name()[i] != '\n',
{
    reveal_strlit("ed25519");
    reveal_strlit("ed25519-sk");
    reveal_strlit("rsa");
    reveal_strlit("ecdsa");
    reveal_strlit("ecdsa-sk");
    reveal_strlit("dsa");
    let nm = t.spec_name();
    assert forall|i: int| 0 <= i < nm.len() implies nm[i] != '\\' && nm[i] != '"' && nm[i]
        != '\n' by {
        match t {
            SshKeyType::Ed25519 => {
                assert(nm == "ed25519"@);
            },
            SshKeyType::Ed25519Sk => {
                assert(nm == "ed25519-sk"@);
            },
            SshKeyType::Rsa => {
                assert(nm == "rsa"@);
            },
            SshKeyType::Ecdsa => {
                assert(nm == "ecdsa"@);
            },
            SshKeyType::EcdsaSk => {
                assert(nm == "ecdsa-sk"@);
            },
            SshKeyType::Dsa => {
                assert(nm == "dsa"@);
            },
        }
    }
    lemma_esc_plain(nm);
}

/// Each settings key followed by its quoting equals the one prefix the
/// parser matches for it.
proof fn lemma_config_prefixes()
    ensures
        "users_file_path"@ + " = \""@ == "users_file_path = \""@,
        "default_sshkey_dir"@ + " = \""@ == "default_sshkey_dir = \""@,
        "default_sshkey_type"@ + " = \""@ == "default_sshkey_type = \""@,
{
    reveal_strlit("users_file_path");
    reveal_strlit("default_sshkey_dir");
    reveal_strlit("default_sshkey_type");
    reveal_strlit(" = \"");
    reveal_strlit("users_file_path = \"");
    reveal_strlit("default_sshkey_dir = \"");
    reveal_strlit("default_sshkey_type = \"");
    assert("users_file_path"@ + " = \""@ =~= "users_file_path = \""@);
    assert("default_sshkey_dir"@ + " = \""@ =~= "default_sshkey_dir = \""@);
    assert("default_sshkey_type"@ + " = \""@ =~= "default_sshkey_type = \""@);
}

/// The lines of a rendered settings file are exactly `config_lines`.
proof fn lemma_split_render_config(c: Config)
    ensures
        spec_split(spec_render_config(c)) == config_lines(c),
{
    reveal_strlit("users_file_path");
    reveal_strlit("default_sshkey_dir");
    reveal_strlit("default_sshkey_type");
    reveal_strlit(" = \"");
    reveal_strlit("\"");
    reveal_strlit("\"\n");
    reveal_strlit("\n");
    lemma_kv_line_split("users_file_path"@, c.users_file_path@);
    lemma_kv_line_split("default_sshkey_dir"@, c.default_sshkey_dir@);
    lemma_name_plain(c.default_sshkey_type);
    let e = Seq::<char>::empty();
    let ea = Seq::<Seq<char>>::empty();
    let nm = c.default_sshkey_type.spec_name();
    let h0 = kv_head("users_file_path"@, c.users_file_path@);
    let h1 = kv_head("default_sshkey_dir"@, c.default_sshkey_dir@);
    let h2 = "default_sshkey_type"@ + " = \""@ + nm + "\""@;
    assert forall|i: int| 0 <= i < h2.len() implies h2[i] != '\n' by {
        let a = "default_sshkey_type"@;
        let b = " = \""@;
        if i < a.len() {
            assert(h2[i] == a[i]);
        } else if i < a.len() + b.len() {
            assert(h2[i] == b[i - a.len()]);
        } else if i < a.len() + b.len() + nm.len() {
            assert(h2[i] == nm[i - a.len() - b.len()]);
        } else {
            assert(h2[i] == '"');
        }
    }
    let b2 = (h2 + "\n"@) + e;
    let b1 = (h1 + "\n"@) + b2;
    assert(spec_render_config(c) =~= (h0 + "\n"@) + b1);
    lemma_consume_line(h0, b1, e, ea);
    lemma_consume_line(h1, b2, e, ea.push(h0));
    lemma_consume_line(h2, e, e, ea.push(h0).push(h1));
    assert(e + h0 =~= h0);
    assert(e + h1 =~= h1);
    assert(e + h2 =~= h2);
    assert(ea.push(h0).push(h1).push(h2).push(e) =~= config_lines(c));
}

/// Rendered settings with the same text are the same settings.
pub proof fn lemma_render_config_injective(c1: Config, c2: Config)
    requires
        spec_render_config(c1) == spec_render_config(c2),
    ensures
        c1.users_file_path@ == c2.users_file_path@,
        c1.default_sshkey_dir@ == c2.default_sshkey_dir@,
        c1.default_sshkey_type == c2.default_sshkey_type,
{
    lemma_split_render_config(c1);
    lemma_split_render_config(c2);
    lemma_config_fields(c1);
    lemma_config_fields(c2);
    assert(config_lines(c1)[0] == config_lines(c2)[0]);
    assert(config_lines(c1)[1] == config_lines(c2)[1]);
    assert(config_lines(c1)[2] == config_lines(c2)[2]);
    lemma_kv_head_cancel("users_file_path"@, c1.users_file_path@, c2.users_file_path@);
    lemma_kv_head_cancel("default_sshkey_dir"@, c1.default_sshkey_dir@, c2.default_sshkey_dir@);
    let p = "default_sshkey_type"@ + " = \""@;
    let n1 = c1.default_sshkey_type.spec_name();
    let n2 = c2.default_sshkey_type.spec_name();
    assert(config_lines(c1)[2] =~= p + (n1 + "\""@));
    assert(config_lines(c2)[2] =~= p + (n2 + "\""@));
    lemma_skip_concat(p, n1 + "\""@);
    lemma_skip_concat(p, n2 + "\""@);
    assert(n1 + "\""@ == n2 + "\""@);
    reveal_strlit("\"");
    assert(n1 =~= (n1 + "\""@).subrange(0, (n1 + "\""@).len() - 1));
    assert(n2 =~= (n2 + "\""@).subrange(0, (n2 + "\""@).len() - 1));
    crate::sshkey::lemma_key_type_names_distinct(c1.default_sshkey_type, c2.default_sshkey_type);
}

/// Parses the text of a settings file.  Succeeds exactly on the renderings
/// of settings — three quoted `key = value` lines naming the registry path,
/// the key directory and a known key algorithm — and then returns exactly
/// the settings whose rendering the text is.
pub fn parse_config(s: &str) -> (r: Option<Config>)
    ensures
        match r {
            Some(c) => s@ == spec_render_config(c),
            None => forall|c: Config| s@ != #[trigger] spec_render_config(c),
        },
{
    let lines = split_lines(s);
    let ghost lv = lines@.map_values(|l: String| l@);
    proof {
        lemma_config_prefixes();
    }
    if lines.len() != 4 {
        proof {
            assert forall|c: Config| s@ != #[trigger] spec_render_config(c) by {
                if s@ == spec_render_config(c) {
                    lemma_split_render_config(c);
                    lemma_config_fields(c);
                }
            }
        }
        return None;
    }
    let ufp = match parse_quoted_tail(lines[0].as_str(), "users_file_path = \"") {
        Some(v) => v,
        None => {
            proof {
                assert forall|c: Config| s@ != #[trigger] spec_render_config(c) by {
                    if s@ == spec_render_config(c) {
                        lemma_split_render_config(c);
                        lemma_config_fields(c);
                        assert(lines@[0]@ == lv[0]);
                        assert(lines@[0]@ == "users_file_path = \""@ + spec_esc(
                            c.users_file_path@,
                        ) + "\""@);
                    }
                }
            }
            return None;
        },
    };
    let dir = match parse_quoted_tail(lines[1].as_str(), "default_sshkey_dir = \"") {
        Some(v) => v,
        None => {
            proof {
                assert forall|c: Config| s@ != #[trigger] spec_render_config(c) by {
                    if s@ == spec_render_config(c) {
                        lemma_split_render_config(c);
                        lemma_config_fields(c);
                        assert(lines@[1]@ == lv[1]);
                        assert(lines@[1]@ == "default_sshkey_dir = \""@ + spec_esc(
                            c.default_sshkey_dir@,
                        ) + "\""@);
                    }
                }
            }
            return None;
        },
    };
    let tname = match parse_quoted_tail(lines[2].as_str(), "default_sshkey_type = \"") {
        Some(v) => v,
        None => {
            proof {
                assert forall|c: Config| s@ != #[trigger] spec_render_config(c) by {
                    if s@ == spec_render_config(c) {
                        lemma_split_render_config(c);
                        lemma_config_fields(c);
                        lemma_name_plain(c.default_sshkey_type);
                        assert(lines@[2]@ == lv[2]);
                        assert(lines@[2]@ == "default_sshkey_type = \""@ + spec_esc(
                            c.default_sshkey_type.spec_name(),
                        ) + "\""@);
                    }
                }
            }
            return None;
        },
    };
    let ty = match crate::sshkey::SshKeyType::from_name(tname.as_str()) {
        Some(t) => t,
        None => {
            proof {
                assert forall|c: Config| s@ != #[trigger] spec_render_config(c) by {
                    if s@ == spec_render_config(c) {
                        lemma_split_render_config(c);
                        lemma_config_fields(c);
                        lemma_name_plain(c.default_sshkey_type);
                        assert(lines@[2]@ == lv[2]);
                        assert(lines@[2]@ == "default_sshkey_type = \""@ + spec_esc(
                            c.default_sshkey_type.spec_name(),
                        ) + "\""@);
                        assert(tname@ == c.default_sshkey_type.spec_name());
                    }
                }
            }
            return None;
        },
    };
    if lines[3].unicode_len() != 0 {
        proof {
            assert forall|c: Config| s@ != #[trigger] spec_render_config(c) by {
                if s@ == spec_render_config(c) {
                    lemma_split_render_config(c);
                    lemma_config_fields(c);
                    assert(lines@[3]@ == lv[3]);
                }
            }
        }
        return None;
    }
    let c = Config { users_file_path: ufp, default_sshkey_dir: dir, default_sshkey_type: ty };
    proof {
        lemma_name_plain(ty);
        lemma_config_fields(c);
        assert(lines@[0]@ == lv[0]);
        assert(lines@[1]@ == lv[1]);
        assert(lines@[2]@ == lv[2]);
        assert(lines@[3]@ == lv[3]);
        assert(lv[3] =~= Seq::<char>::empty());
        assert(spec_esc(ty.spec_name()) == ty.spec_name());
        assert(lv[2] =~= "default_sshkey_type"@ + " = \""@ + ty.spec_name() + "\""@);
        assert(lv =~= config_lines(c));
        lemma_split_render_config(c);
        lemma_split_injective(s@, spec_render_config(c));
    }
    Some(c)
}

/// Saving settings and reading the saved text back yields the same
/// settings, field for field: nothing is lost between the settings and
/// their file.
pub fn config_round_trip(c: &Config) -> (r: Config)
    ensures
        r.users_file_path@ == c.users_file_path@,
        r.default_sshkey_dir@ == c.default_sshkey_dir@,
        r.default_sshkey_type == c.default_sshkey_type,
{
    let text = render_config(c);
    match parse_config(text.as_str()) {
        Some(c2) => {
            proof {
                lemma_render_config_injective(c2, *c);
            }
            c2
        },
        None => {
            proof {
                assert(text@ != spec_render_config(*c));
                assert(false);
            }
            Config {
                users_file_path: text,
                default_sshkey_dir: String::new(),
                default_sshkey_type: crate::sshkey::SshKeyType::Ed25519,
            }
        },
    }
}

/// Splitting a concatenation at the boundary recovers the pieces.
proof fn lemma_skip_concat(a: Seq<char>, b: Seq<char>)
    ensures
        (a + b).skip(a.len() as int) == b,
        (a + b).subrange(0, a.len() as int) == a,
{
    assert((a + b).skip(a.len() as int) =~= b);
    assert((a + b).subrange(0, a.len() as int) =~= a);
}

/// No character of an escaped value is a newline, so one quoted line holds
/// a whole value.
proof fn lemma_esc_newline_free(s: Seq<char>)
    ensures
        forall|i: int| 0 <= i < spec_esc(s).len() ==> spec_esc(s)[i] != '\n',
    decreases s.len(),
{
    if s.len() > 0 {
        lemma_esc_newline_free(s.skip(1));
        assert forall|i: int| 0 <= i < spec_esc(s).len() implies spec_esc(s)[i] != '\n' by {
            let h = spec_esc_char(s[0]);
            if i < h.len() {
                assert(spec_esc(s)[i] == h[i]);
            } else {
                assert(spec_esc(s)[i] == spec_esc(s.skip(1))[i - h.len()]);
            }
        }
    }
}

/// Two newline-free pieces, each followed by text opening with a newline,
/// are aligned: the pieces agree and the remainders agree.
proof fn lemma_cancel_at_newline(x: Seq<char>, s: Seq<char>, y: Seq<char>, t: Seq<char>)
    requires
        x + s == y + t,
        forall|i: int| 0 <= i < x.len() ==> x[i] != '\n',
        forall|i: int| 0 <= i < y.len() ==> y[i] != '\n',
        s.len() > 0 && s[0] == '\n',
        t.len() > 0 && t[0] == '\n',
    ensures
        x == y,
        s == t,
{
    if x.len() < y.len() {
        assert((x + s)[x.len() as int] == '\n');
        assert((y + t)[x.len() as int] == y[x.len() as int]);
        assert(false);
    }
    if y.len() < x.len() {
        assert((y + t)[y.len() as int] == '\n');
        assert((x + s)[y.len() as int] == x[y.len() as int]);
        assert(false);
    }
    assert forall|i: int| 0 <= i < x.len() implies x[i] == y[i] by {
        assert((x + s)[i] == x[i]);
        assert((y + t)[i] == y[i]);
    }
    assert(x =~= y);
    assert((x + s).len() == x.len() + s.len());
    assert((y + t).len() == y.len() + t.len());
    assert(x.len() == y.len());
    assert(s.len() == t.len());
    assert forall|i: int| 0 <= i < s.len() implies s[i] == t[i] by {
        assert((x + s)[x.len() + i] == s[i]);
        assert((y + t)[y.len() + i] == t[i]);
    }
    assert(s =~= t);
}

/// The newline-free head of one quoted `key = value` line, without its
/// closing newline.
spec fn kv_head(key: Seq<char>, value: Seq<char>) -> Seq<char> {
    key + " = \""@ + spec_esc(value) + "\""@
}

/// A quoted line is its newline-free head plus a newline.
proof fn lemma_kv_line_split(key: Seq<char>, value: Seq<char>)
    requires
        forall|i: int| 0 <= i < key.len() ==> key[i] != '\n',
    ensures
        spec_kv_line(key, value) == kv_head(key, value) + "\n"@,
        forall|i: int|
            0 <= i < kv_head(key, value).len() ==> kv_head(key, value)[i] != '\n',
{
    reveal_strlit(" = \"");
    reveal_strlit("\"");
    reveal_strlit("\"\n");
    reveal_strlit("\n");
    assert(spec_kv_line(key, value) =~= kv_head(key, value) + "\n"@);
    lemma_esc_newline_free(value);
    assert forall|i: int|
        0 <= i < kv_head(key, value).len() implies kv_head(key, value)[i] != '\n' by {
        let a = key;
        let b = " = \""@;
        let c = spec_esc(value);
        if i < a.len() {
            assert(kv_head(key, value)[i] == a[i]);
        } else if i < a.len() + b.len() {
            assert(kv_head(key, value)[i] == b[i - a.len()]);
        } else if i < a.len() + b.len() + c.len() {
            assert(kv_head(key, value)[i] == c[i - a.len() - b.len()]);
        } else {
            assert(kv_head(key, value)[i] == '"');
        }
    }
}

/// Matching quoted lines carry the same value.
proof fn lemma_kv_head_cancel(key: Seq<char>, v1: Seq<char>, v2: Seq<char>)
    requires
        kv_head(key, v1) == kv_head(key, v2),
    ensures
        v1 == v2,
{
    let p = key + " = \""@;
    assert(kv_head(key, v1) =~= p + (spec_esc(v1) + "\""@));
    assert(kv_head(key, v2) =~= p + (spec_esc(v2) + "\""@));
    lemma_skip_concat(p, spec_esc(v1) + "\""@);
    lemma_skip_concat(p, spec_esc(v2) + "\""@);
    assert(spec_esc(v1) + "\""@ == spec_esc(v2) + "\""@);
    reveal_strlit("\"");
    assert(spec_esc(v1) =~= (spec_esc(v1) + "\""@).subrange(
        0,
        (spec_esc(v1) + "\""@).len() - 1,
    ));
    assert(spec_esc(v2) =~= (spec_esc(v2) + "\""@).subrange(
        0,
        (spec_esc(v2) + "\""@).len() - 1,
    ));
    lemma_esc_injective(v1, v2);
}

/// A record's rendered section determines the record: saving a registry
/// loses nothing of any of its records.
/// Peeling one header line off equal texts: the ids agree and the
/// remainders agree.
proof fn lemma_peel_header(id1: Seq<char>, r1: Seq<char>, id2: Seq<char>, r2: Seq<char>)
    requires
        "[\""@ + spec_esc(id1) + "\"]\n"@ + r1 == "[\""@ + spec_esc(id2) + "\"]\n"@ + r2,
    ensures
        id1 == id2,
        r1 == r2,
{
    reveal_strlit("[\"");
    reveal_strlit("\"]");
    reveal_strlit("\"]\n");
    reveal_strlit("\n");
    lemma_esc_newline_free(id1);
    lemma_esc_newline_free(id2);
    let h1 = spec_esc(id1) + "\"]"@;
    let h2 = spec_esc(id2) + "\"]"@;
    assert("[\""@ + spec_esc(id1) + "\"]\n"@ + r1 =~= "[\""@ + (h1 + ("\n"@ + r1)));
    assert("[\""@ + spec_esc(id2) + "\"]\n"@ + r2 =~= "[\""@ + (h2 + ("\n"@ + r2)));
    lemma_skip_concat("[\""@, h1 + ("\n"@ + r1));
    lemma_skip_concat("[\""@, h2 + ("\n"@ + r2));
    assert(h1 + ("\n"@ + r1) == h2 + ("\n"@ + r2));
    assert forall|i: int| 0 <= i < h1.len() implies h1[i] != '\n' by {
        if i < spec_esc(id1).len() {
            assert(h1[i] == spec_esc(id1)[i]);
        } else {
            assert(h1[i] == "\"]"@[i - spec_esc(id1).len()]);
        }
    }
    assert forall|i: int| 0 <= i < h2.len() implies h2[i] != '\n' by {
        if i < spec_esc(id2).len() {
            assert(h2[i] == spec_esc(id2)[i]);
        } else {
            assert(h2[i] == "\"]"@[i - spec_esc(id2).len()]);
        }
    }
    lemma_cancel_at_newline(h1, "\n"@ + r1, h2, "\n"@ + r2);
    assert(spec_esc(id1) =~= h1.subrange(0, h1.len() - 2));
    assert(spec_esc(id2) =~= h2.subrange(0, h2.len() - 2));
    lemma_esc_injective(id1, id2);
    lemma_skip_concat("\n"@, r1);
    lemma_skip_concat("\n"@, r2);
}

/// Peeling one quoted line off equal texts: the values agree and the
/// remainders agree.
proof fn lemma_peel_kv(key: Seq<char>, v1: Seq<char>, r1: Seq<char>, v2: Seq<char>, r2: Seq<char>)
    requires
        spec_kv_line(key, v1) + r1 == spec_kv_line(key, v2) + r2,
        forall|i: int| 0 <= i < key.len() ==> key[i] != '\n',
    ensures
        v1 == v2,
        r1 == r2,
{
    reveal_strlit("\n");
    lemma_kv_line_split(key, v1);
    lemma_kv_line_split(key, v2);
    assert(spec_kv_line(key, v1) + r1 =~= kv_head(key, v1) + ("\n"@ + r1));
    assert(spec_kv_line(key, v2) + r2 =~= kv_head(key, v2) + ("\n"@ + r2));
    lemma_cancel_at_newline(kv_head(key, v1), "\n"@ + r1, kv_head(key, v2), "\n"@ + r2);
    lemma_kv_head_cancel(key, v1, v2);
    lemma_skip_concat("\n"@, r1);
    lemma_skip_concat("\n"@, r2);
}

/// The optional key-path lines of two records that close equal texts agree:
/// both absent, or both present with the same path.
proof fn lemma_peel_opt(p1: Option<Seq<char>>, p2: Option<Seq<char>>)
    requires
        opt_of(p1) + "\n"@ == opt_of(p2) + "\n"@,
    ensures
        p1 == p2,
{
    reveal_strlit("\n");
    reveal_strlit("sshkey_path");
    reveal_strlit(" = \"");
    reveal_strlit("\"");
    match (p1, p2) {
        (Option::None, Option::None) => {},
        (Option::Some(q1), Option::Some(q2)) => {
            lemma_kv_line_split("sshkey_path"@, q1);
            lemma_kv_line_split("sshkey_path"@, q2);
            assert(opt_of(p1) + "\n"@ =~= kv_head("sshkey_path"@, q1) + ("\n"@ + "\n"@));
            assert(opt_of(p2) + "\n"@ =~= kv_head("sshkey_path"@, q2) + ("\n"@ + "\n"@));
            lemma_cancel_at_newline(
                kv_head("sshkey_path"@, q1),
                "\n"@ + "\n"@,
                kv_head("sshkey_path"@, q2),
                "\n"@ + "\n"@,
            );
            lemma_kv_head_cancel("sshkey_path"@, q1, q2);
        },
        (Option::None, Option::Some(q2)) => {
            lemma_kv_line_split("sshkey_path"@, q2);
            assert((opt_of(p1) + "\n"@).len() == 1);
            assert((opt_of(p2) + "\n"@).len() >= 17);
            assert(false);
        },
        (Option::Some(q1), Option::None) => {
            lemma_kv_line_split("sshkey_path"@, q1);
            assert((opt_of(p2) + "\n"@).len() == 1);
            assert((opt_of(p1) + "\n"@).len() >= 17);
            assert(false);
        },
    }
}

/// A record's rendered section determines the record: saving a registry
/// loses nothing of any of its records.
pub proof fn lemma_render_user_injective(u1: UserView, u2: UserView)
    requires
        spec_render_user(u1) == spec_render_user(u2),
    ensures
        u1 == u2,
{
    reveal_strlit("id");
    reveal_strlit("name");
    reveal_strlit("email");
    let t1 = spec_kv_line("id"@, u1.id) + (spec_kv_line("name"@, u1.name) + (spec_kv_line(
        "email"@,
        u1.email,
    ) + (opt_part(u1) + "\n"@)));
    let t2 = spec_kv_line("id"@, u2.id) + (spec_kv_line("name"@, u2.name) + (spec_kv_line(
        "email"@,
        u2.email,
    ) + (opt_part(u2) + "\n"@)));
    assert(spec_render_user(u1) =~= "[\""@ + spec_esc(u1.id) + "\"]\n"@ + t1);
    assert(spec_render_user(u2) =~= "[\""@ + spec_esc(u2.id) + "\"]\n"@ + t2);
    lemma_peel_header(u1.id, t1, u2.id, t2);
    lemma_peel_kv(
        "id"@,
        u1.id,
        spec_kv_line("name"@, u1.name) + (spec_kv_line("email"@, u1.email) + (opt_part(u1)
            + "\n"@)),
        u2.id,
        spec_kv_line("name"@, u2.name) + (spec_kv_line("email"@, u2.email) + (opt_part(u2)
            + "\n"@)),
    );
    lemma_peel_kv(
        "name"@,
        u1.name,
        spec_kv_line("email"@, u1.email) + (opt_part(u1) + "\n"@),
        u2.name,
        spec_kv_line("email"@, u2.email) + (opt_part(u2) + "\n"@),
    );
    lemma_peel_kv("email"@, u1.email, opt_part(u1) + "\n"@, u2.email, opt_part(u2) + "\n"@);
    assert(opt_of(u1.sshkey_path) == opt_part(u1));
    assert(opt_of(u2.sshkey_path) == opt_part(u2));
    lemma_peel_opt(u1.sshkey_path, u2.sshkey_path);
}

/// The optional key-path line for an optional path.
spec fn opt_of(p: Option<Seq<char>>) -> Seq<char> {
    match p {
        Some(q) => spec_kv_line("sshkey_path"@, q),
        None => Seq::<char>::empty(),
    }
}

/// The optional key-path line of a record's rendered section.
spec fn opt_part(u: UserView) -> Seq<char> {
    match u.sshkey_path {
        Some(p) => spec_kv_line("sshkey_path"@, p),
        None => Seq::<char>::empty(),
    }
}

/// No two consecutive characters of `a` are newlines: no line of `a` is
/// empty.
spec fn no_empty_line(a: Seq<char>) -> bool {
    forall|i: int| 0 <= i && i + 1 < a.len() ==> !((#[trigger] a[i]) == '\n' && a[i + 1] == '\n')
}

/// Appending one nonempty newline-free line keeps every line nonempty.
proof fn lemma_append_line(a: Seq<char>, h: Seq<char>)
    requires
        no_empty_line(a),
        a.len() > 0 ==> a.last() == '\n',
        h.len() > 0,
        forall|i: int| 0 <= i < h.len() ==> h[i] != '\n',
    ensures
        no_empty_line(a + h + "\n"@),
        (a + h + "\n"@).last() == '\n',
        (a + h + "\n"@).len() > 0,
{
    reveal_strlit("\n");
    let l = a + h + "\n"@;
    assert(l.len() == a.len() + h.len() + 1);
    assert(l.last() == '\n');
    assert forall|i: int|
        0 <= i && i + 1 < l.len() implies !((#[trigger] l[i]) == '\n' && l[i + 1] == '\n') by {
        if i + 1 < a.len() {
            assert(l[i] == a[i] && l[i + 1] == a[i + 1]);
        } else if i + 1 == a.len() {
            assert(l[i + 1] == h[0]);
        } else if i + 1 < a.len() + h.len() {
            assert(l[i + 1] == h[i + 1 - a.len()]);
        } else {
            assert(l[i] == h[h.len() - 1]);
        }
    }
}

/// A record's rendered section, without its final blank line.
spec fn section_body(u: UserView) -> Seq<char> {
    "[\""@ + spec_esc(u.id) + "\"]\n"@ + spec_kv_line("id"@, u.id) + spec_kv_line(
        "name"@,
        u.name,
    ) + spec_kv_line("email"@, u.email) + opt_part(u)
}

/// A rendered section is a block of nonempty lines closed by one blank
/// line.
proof fn lemma_section_shape(u: UserView)
    ensures
        spec_render_user(u) == section_body(u) + "\n"@,
        no_empty_line(section_body(u)),
        section_body(u).len() > 0,
        section_body(u).last() == '\n',
{
    reveal_strlit("[\"");
    reveal_strlit("\"]");
    reveal_strlit("\"]\n");
    reveal_strlit("\n");
    reveal_strlit("id");
    reveal_strlit("name");
    reveal_strlit("email");
    reveal_strlit("sshkey_path");
    reveal_strlit(" = \"");
    assert(spec_render_user(u) =~= section_body(u) + "\n"@);
    lemma_esc_newline_free(u.id);
    lemma_kv_line_split("id"@, u.id);
    lemma_kv_line_split("name"@, u.name);
    lemma_kv_line_split("email"@, u.email);
    let h1 = "[\""@ + spec_esc(u.id) + "\"]"@;
    assert(h1.len() > 0);
    assert forall|i: int| 0 <= i < h1.len() implies h1[i] != '\n' by {
        if i < 2 {
            assert(h1[i] == "[\""@[i]);
        } else if i < 2 + spec_esc(u.id).len() {
            assert(h1[i] == spec_esc(u.id)[i - 2]);
        } else {
            assert(h1[i] == "\"]"@[i - 2 - spec_esc(u.id).len()]);
        }
    }
    let a0 = Seq::<char>::empty();
    lemma_append_line(a0, h1);
    let a1 = a0 + h1 + "\n"@;
    lemma_append_line(a1, kv_head("id"@, u.id));
    let a2 = a1 + kv_head("id"@, u.id) + "\n"@;
    lemma_append_line(a2, kv_head("name"@, u.name));
    let a3 = a2 + kv_head("name"@, u.name) + "\n"@;
    lemma_append_line(a3, kv_head("email"@, u.email));
    let a4 = a3 + kv_head("email"@, u.email) + "\n"@;
    match u.sshkey_path {
        Some(p) => {
            lemma_kv_line_split("sshkey_path"@, p);
            lemma_append_line(a4, kv_head("sshkey_path"@, p));
            let a5 = a4 + kv_head("sshkey_path"@, p) + "\n"@;
            assert(section_body(u) =~= a5);
        },
        None => {
            assert(section_body(u) =~= a4);
        },
    }
}

/// Two blocks of nonempty lines, each closed by one blank line, split a
/// common text the same way: the first blank line is where either block
/// ends.
proof fn lemma_cancel_section(b1: Seq<char>, r1: Seq<char>, b2: Seq<char>, r2: Seq<char>)
    requires
        (b1 + "\n"@) + r1 == (b2 + "\n"@) + r2,
        no_empty_line(b1),
        no_empty_line(b2),
        b1.len() > 0 && b1.last() == '\n',
        b2.len() > 0 && b2.last() == '\n',
    ensures
        b1 == b2,
        r1 == r2,
{
    reveal_strlit("\n");
    let l = (b1 + "\n"@) + r1;
    assert(l.len() == b1.len() + 1 + r1.len());
    assert(l.len() == b2.len() + 1 + r2.len());
    if b1.len() < b2.len() {
        assert(l[b1.len() - 1] == b1.last());
        assert(l[b1.len() as int] == '\n');
        assert(l[b1.len() - 1] == b2[b1.len() - 1]);
        assert(l[b1.len() as int] == b2[b1.len() as int]);
        assert(false);
    }
    if b2.len() < b1.len() {
        assert(l[b2.len() - 1] == b2.last());
        assert(l[b2.len() as int] == '\n');
        assert(l[b2.len() - 1] == b1[b2.len() - 1]);
        assert(l[b2.len() as int] == b1[b2.len() as int]);
        assert(false);
    }
    assert forall|i: int| 0 <= i < b1.len() implies b1[i] == b2[i] by {
        assert(l[i] == b1[i]);
        assert(l[i] == b2[i]);
    }
    assert(b1 =~= b2);
    assert(r1.len() == r2.len());
    assert forall|i: int| 0 <= i < r1.len() implies r1[i] == r2[i] by {
        assert(l[b1.len() + 1 + i] == r1[i]);
        assert(l[b2.len() + 1 + i] == r2[i]);
    }
    assert(r1 =~= r2);
}

/// A rendered registry opens with its first record's section.
proof fn lemma_render_users_front(s: Seq<UserView>)
    requires
        s.len() > 0,
    ensures
        spec_render_users(s) == spec_render_user(s[0]) + spec_render_users(s.skip(1)),
    decreases s.len(),
{
    if s.len() == 1 {
        assert(s.drop_last() =~= Seq::<UserView>::empty());
        assert(s.skip(1) =~= Seq::<UserView>::empty());
        assert(spec_render_users(s) =~= spec_render_user(s[0]) + spec_render_users(s.skip(1)));
    } else {
        let d = s.drop_last();
        lemma_render_users_front(d);
        assert(d[0] == s[0]);
        assert(s.skip(1).drop_last() =~= d.skip(1));
        assert(s.skip(1).last() == s.last());
        assert(spec_render_users(s.skip(1)) == spec_render_users(d.skip(1)) + spec_render_user(
            s.last(),
        ));
        assert(spec_render_users(s) == (spec_render_user(s[0]) + spec_render_users(d.skip(1)))
            + spec_render_user(s.last()));
        assert((spec_render_user(s[0]) + spec_render_users(d.skip(1))) + spec_render_user(
            s.last(),
        ) =~= spec_render_user(s[0]) + (spec_render_users(d.skip(1)) + spec_render_user(
            s.last(),
        )));
    }
}

/// The rendered text of a registry determines the registry, record for
/// record: saving loses nothing.
pub proof fn lemma_render_users_injective(s1: Seq<UserView>, s2: Seq<UserView>)
    requires
        spec_render_users(s1) == spec_render_users(s2),
    ensures
        s1 == s2,
    decreases s1.len(),
{
    if s1.len() == 0 && s2.len() == 0 {
        assert(s1 =~= s2);
    } else if s1.len() == 0 {
        lemma_render_users_front(s2);
        lemma_section_shape(s2[0]);
        assert(spec_render_users(s2).len() >= spec_render_user(s2[0]).len());
        assert(false);
    } else if s2.len() == 0 {
        lemma_render_users_front(s1);
        lemma_section_shape(s1[0]);
        assert(spec_render_users(s1).len() >= spec_render_user(s1[0]).len());
        assert(false);
    } else {
        lemma_render_users_front(s1);
        lemma_render_users_front(s2);
        lemma_section_shape(s1[0]);
        lemma_section_shape(s2[0]);
        assert(spec_render_users(s1) == (section_body(s1[0]) + "\n"@) + spec_render_users(
            s1.skip(1),
        ));
        assert(spec_render_users(s2) == (section_body(s2[0]) + "\n"@) + spec_render_users(
            s2.skip(1),
        ));
        lemma_cancel_section(
            section_body(s1[0]),
            spec_render_users(s1.skip(1)),
            section_body(s2[0]),
            spec_render_users(s2.skip(1)),
        );
        assert(spec_render_user(s1[0]) == spec_render_user(s2[0]));
        lemma_render_user_injective(s1[0], s2[0]);
        lemma_render_users_injective(s1.skip(1), s2.skip(1));
        assert(s1.skip(1).len() == s2.skip(1).len());
        assert forall|i: int| 0 <= i < s1.len() implies s1[i] == s2[i] by {
            if i > 0 {
                assert(s1[i] == s1.skip(1)[i - 1]);
                assert(s2[i] == s2.skip(1)[i - 1]);
            }
        }
        assert(s1 =~= s2);
    }
}

/// Reading one newline-free line head and its newline emits exactly that
/// line.
proof fn lemma_consume_line(h: Seq<char>, b: Seq<char>, cur: Seq<char>, acc: Seq<Seq<char>>)
    requires
        forall|i: int| 0 <= i < h.len() ==> h[i] != '\n',
    ensures
        run_acc((h + "\n"@) + b, cur, acc) == run_acc(b, Seq::<char>::empty(), acc.push(cur + h)),
        run_cur((h + "\n"@) + b, cur) == run_cur(b, Seq::<char>::empty()),
    decreases h.len(),
{
    reveal_strlit("\n");
    let x = (h + "\n"@) + b;
    if h.len() == 0 {
        assert(x[0] == '\n');
        assert(x.skip(1) =~= b);
        assert(cur + h =~= cur);
    } else {
        assert(x[0] == h[0]);
        assert(x.skip(1) =~= (h.skip(1) + "\n"@) + b);
        lemma_consume_line(h.skip(1), b, cur.push(h[0]), acc);
        assert(cur.push(h[0]) + h.skip(1) =~= cur + h);
    }
}

/// The lines of one record's rendered section: the header, one line per
/// field, and the closing blank line.
spec fn group_lines(u: UserView) -> Seq<Seq<char>> {
    let base = Seq::<Seq<char>>::empty().push("[\""@ + spec_esc(u.id) + "\"]"@).push(
        kv_head("id"@, u.id),
    ).push(kv_head("name"@, u.name)).push(kv_head("email"@, u.email));
    match u.sshkey_path {
        Some(p) => base.push(kv_head("sshkey_path"@, p)).push(Seq::<char>::empty()),
        None => base.push(Seq::<char>::empty()),
    }
}

/// The lines of a whole rendered registry, one record after another.
spec fn groups_lines(w: Seq<UserView>) -> Seq<Seq<char>>
    decreases w.len(),
{
    if w.len() == 0 {
        Seq::<Seq<char>>::empty()
    } else {
        group_lines(w[0]) + groups_lines(w.skip(1))
    }
}

/// Reading one rendered section emits exactly its lines.
proof fn lemma_section_lines(u: UserView, b: Seq<char>, acc: Seq<Seq<char>>)
    ensures
        run_acc(spec_render_user(u) + b, Seq::<char>::empty(), acc) == run_acc(
            b,
            Seq::<char>::empty(),
            acc + group_lines(u),
        ),
        run_cur(spec_render_user(u) + b, Seq::<char>::empty()) == run_cur(
            b,
            Seq::<char>::empty(),
        ),
{
    reveal_strlit("[\"");
    reveal_strlit("\"]");
    reveal_strlit("\"]\n");
    reveal_strlit("\n");
    reveal_strlit("id");
    reveal_strlit("name");
    reveal_strlit("email");
    reveal_strlit("sshkey_path");
    reveal_strlit(" = \"");
    lemma_esc_newline_free(u.id);
    lemma_kv_line_split("id"@, u.id);
    lemma_kv_line_split("name"@, u.name);
    lemma_kv_line_split("email"@, u.email);
    let e = Seq::<char>::empty();
    let h0 = "[\""@ + spec_esc(u.id) + "\"]"@;
    let h1 = kv_head("id"@, u.id);
    let h2 = kv_head("name"@, u.name);
    let h3 = kv_head("email"@, u.email);
    assert forall|i: int| 0 <= i < h0.len() implies h0[i] != '\n' by {
        if i < 2 {
            assert(h0[i] == "[\""@[i]);
        } else if i < 2 + spec_esc(u.id).len() {
            assert(h0[i] == spec_esc(u.id)[i - 2]);
        } else {
            assert(h0[i] == "\"]"@[i - 2 - spec_esc(u.id).len()]);
        }
    }
    match u.sshkey_path {
        Some(p) => {
            lemma_kv_line_split("sshkey_path"@, p);
            let h4 = kv_head("sshkey_path"@, p);
            let b5 = (e + "\n"@) + b;
            let b4 = (h4 + "\n"@) + b5;
            let b3 = (h3 + "\n"@) + b4;
            let b2 = (h2 + "\n"@) + b3;
            let b1 = (h1 + "\n"@) + b2;
            assert(spec_render_user(u) + b =~= (h0 + "\n"@) + b1);
            lemma_consume_line(h0, b1, e, acc);
            lemma_consume_line(h1, b2, e, acc.push(h0));
            lemma_consume_line(h2, b3, e, acc.push(h0).push(h1));
            lemma_consume_line(h3, b4, e, acc.push(h0).push(h1).push(h2));
            lemma_consume_line(h4, b5, e, acc.push(h0).push(h1).push(h2).push(h3));
            lemma_consume_line(e, b, e, acc.push(h0).push(h1).push(h2).push(h3).push(h4));
            assert(e + h0 =~= h0);
            assert(e + h1 =~= h1);
            assert(e + h2 =~= h2);
            assert(e + h3 =~= h3);
            assert(e + h4 =~= h4);
            assert(e + e =~= e);
            assert(acc.push(h0).push(h1).push(h2).push(h3).push(h4).push(e) =~= acc
                + group_lines(u));
        },
        None => {
            let b5 = (e + "\n"@) + b;
            let b3 = (h3 + "\n"@) + b5;
            let b2 = (h2 + "\n"@) + b3;
            let b1 = (h1 + "\n"@) + b2;
            assert(spec_render_user(u) + b =~= (h0 + "\n"@) + b1);
            lemma_consume_line(h0, b1, e, acc);
            lemma_consume_line(h1, b2, e, acc.push(h0));
            lemma_consume_line(h2, b3, e, acc.push(h0).push(h1));
            lemma_consume_line(h3, b5, e, acc.push(h0).push(h1).push(h2));
            lemma_consume_line(e, b, e, acc.push(h0).push(h1).push(h2).push(h3));
            assert(e + h0 =~= h0);
            assert(e + h1 =~= h1);
            assert(e + h2 =~= h2);
            assert(e + h3 =~= h3);
            assert(e + e =~= e);
            assert(acc.push(h0).push(h1).push(h2).push(h3).push(e) =~= acc + group_lines(u));
        },
    }
}

/// Reading a whole rendered registry emits exactly its records' lines.
proof fn lemma_registry_lines(w: Seq<UserView>, b: Seq<char>, acc: Seq<Seq<char>>)
    ensures
        run_acc(spec_render_users(w) + b, Seq::<char>::empty(), acc) == run_acc(
            b,
            Seq::<char>::empty(),
            acc + groups_lines(w),
        ),
        run_cur(spec_render_users(w) + b, Seq::<char>::empty()) == run_cur(
            b,
            Seq::<char>::empty(),
        ),
    decreases w.len(),
{
    if w.len() == 0 {
        assert(spec_render_users(w) + b =~= b);
        assert(acc + groups_lines(w) =~= acc);
    } else {
        lemma_render_users_front(w);
        assert(spec_render_users(w) + b =~= spec_render_user(w[0]) + (spec_render_users(
            w.skip(1),
        ) + b));
        lemma_section_lines(w[0], spec_render_users(w.skip(1)) + b, acc);
        lemma_registry_lines(w.skip(1), b, acc + group_lines(w[0]));
        assert((acc + group_lines(w[0])) + groups_lines(w.skip(1)) =~= acc + groups_lines(w));
    }
}

/// The lines of a rendered registry: its records' lines, then one final
/// empty line.
proof fn lemma_split_render(w: Seq<UserView>)
    ensures
        spec_split(spec_render_users(w)) == groups_lines(w) + seq![Seq::<char>::empty()],
{
    let e = Seq::<char>::empty();
    let ea = Seq::<Seq<char>>::empty();
    assert(spec_render_users(w) + e =~= spec_render_users(w));
    lemma_registry_lines(w, e, ea);
    assert(run_acc(e, e, ea + groups_lines(w)) == ea + groups_lines(w));
    assert(run_cur(e, e) == e);
    assert(ea + groups_lines(w) =~= groups_lines(w));
    assert(groups_lines(w).push(e) =~= groups_lines(w) + seq![e]);
}

/// The individual lines of one record's rendered section.
proof fn lemma_group_fields(u: UserView)
    ensures
        group_lines(u).len() == (if u.sshkey_path is Some {
            6int
        } else {
            5int
        }),
        group_lines(u)[0] == "[\""@ + spec_esc(u.id) + "\"]"@,
        group_lines(u)[1] == kv_head("id"@, u.id),
        group_lines(u)[2] == kv_head("name"@, u.name),
        group_lines(u)[3] == kv_head("email"@, u.email),
        u.sshkey_path matches Some(p) ==> group_lines(u)[4] == kv_head("sshkey_path"@, p),
        u.sshkey_path is Some ==> group_lines(u)[5] == Seq::<char>::empty(),
        u.sshkey_path is None ==> group_lines(u)[4] == Seq::<char>::empty(),
{
    let gl = group_lines(u);
    match u.sshkey_path {
        Some(p) => {
            assert(gl[5] =~= Seq::<char>::empty());
        },
        None => {
            assert(gl[4] =~= Seq::<char>::empty());
        },
    }
}

/// The text whose lines are `ls`: the lines joined by newlines.
spec fn join_lines(ls: Seq<Seq<char>>) -> Seq<char>
    decreases ls.len(),
{
    if ls.len() == 0 {
        Seq::<char>::empty()
    } else if ls.len() == 1 {
        ls[0]
    } else {
        ls[0] + seq!['\n'] + join_lines(ls.skip(1))
    }
}

/// Lines already accumulated only stand in front of what follows.
proof fn lemma_run_acc_prefix(s: Seq<char>, cur: Seq<char>, acc: Seq<Seq<char>>)
    ensures
        run_acc(s, cur, acc) == acc + run_acc(s, cur, Seq::<Seq<char>>::empty()),
    decreases s.len(),
{
    let ea = Seq::<Seq<char>>::empty();
    if s.len() == 0 {
        assert(acc + ea =~= acc);
    } else if s[0] == '\n' {
        lemma_run_acc_prefix(s.skip(1), Seq::<char>::empty(), acc.push(cur));
        lemma_run_acc_prefix(s.skip(1), Seq::<char>::empty(), ea.push(cur));
        assert(acc.push(cur) + run_acc(s.skip(1), Seq::<char>::empty(), ea) =~= acc + (
        ea.push(cur) + run_acc(s.skip(1), Seq::<char>::empty(), ea)));
    } else {
        lemma_run_acc_prefix(s.skip(1), cur.push(s[0]), acc);
    }
}

/// Joining the split of a text, with the first line continuing `cur`,
/// recovers `cur` followed by the text.
proof fn lemma_join_split_gen(s: Seq<char>, cur: Seq<char>)
    ensures
        join_lines(run_acc(s, cur, Seq::<Seq<char>>::empty()).push(run_cur(s, cur))) == cur + s,
    decreases s.len(),
{
    let ea = Seq::<Seq<char>>::empty();
    let e = Seq::<char>::empty();
    if s.len() == 0 {
        assert(run_acc(s, cur, ea).push(run_cur(s, cur)) =~= ea.push(cur));
        assert(join_lines(ea.push(cur)) == cur);
        assert(cur + s =~= cur);
    } else if s[0] == '\n' {
        lemma_run_acc_prefix(s.skip(1), e, ea.push(cur));
        let a2 = run_acc(s.skip(1), e, ea);
        let c2 = run_cur(s.skip(1), e);
        assert(run_acc(s, cur, ea) == ea.push(cur) + a2);
        assert(run_cur(s, cur) == c2);
        let l = (ea.push(cur) + a2).push(c2);
        assert(l =~= seq![cur] + a2.push(c2));
        assert(l.len() >= 2);
        assert(l[0] == cur);
        assert(l.skip(1) =~= a2.push(c2));
        lemma_join_split_gen(s.skip(1), e);
        assert(join_lines(a2.push(c2)) == e + s.skip(1));
        assert(e + s.skip(1) =~= s.skip(1));
        assert(join_lines(l) == cur + seq!['\n'] + join_lines(l.skip(1)));
        assert(cur + seq!['\n'] + s.skip(1) =~= cur + s);
    } else {
        lemma_join_split_gen(s.skip(1), cur.push(s[0]));
        assert(run_acc(s, cur, ea) == run_acc(s.skip(1), cur.push(s[0]), ea));
        assert(run_cur(s, cur) == run_cur(s.skip(1), cur.push(s[0])));
        assert(cur.push(s[0]) + s.skip(1) =~= cur + s);
    }
}

/// Two texts with the same lines are the same text: splitting loses
/// nothing.
proof fn lemma_split_injective(a: Seq<char>, b: Seq<char>)
    requires
        spec_split(a) == spec_split(b),
    ensures
        a == b,
{
    let e = Seq::<char>::empty();
    lemma_join_split_gen(a, e);
    lemma_join_split_gen(b, e);
    assert(e + a =~= a);
    assert(e + b =~= b);
}

/// The lines of a registry grown by one record are the lines so far
/// followed by the new record's section.
proof fn lemma_groups_push(s: Seq<UserView>, u: UserView)
    ensures
        groups_lines(s.push(u)) == groups_lines(s) + group_lines(u),
    decreases s.len(),
{
    assert(groups_lines(Seq::<UserView>::empty()) == Seq::<Seq<char>>::empty());
    if s.len() == 0 {
        assert(s.push(u)[0] == u);
        assert(s.push(u).skip(1) =~= Seq::<UserView>::empty());
        assert(groups_lines(s.push(u)) =~= groups_lines(s) + group_lines(u));
    } else {
        assert(s.push(u)[0] == s[0]);
        assert(s.push(u).skip(1) =~= s.skip(1).push(u));
        lemma_groups_push(s.skip(1), u);
        assert(groups_lines(s.push(u)) =~= groups_lines(s) + group_lines(u));
    }
}

} // verus!
