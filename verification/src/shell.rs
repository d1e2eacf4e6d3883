use vstd::prelude::*;
use crate::strings::{dec_u32, join_path, lemma_dec_injective, push_char, spec_dec, spec_join};

verus! {

use vstd::string::StrSliceExecFns;
use vstd::string::StringExecFns;

/// Whether a character may appear in an environment-variable name after the
/// first position.
pub open spec fn env_tail_ok(c: char) -> bool {
    ('a' <= c && c <= 'z') || ('A' <= c && c <= 'Z') || ('0' <= c && c <= '9') || c == '_'
}

/// The predicate selecting characters kept in the tail of a name.
pub open spec fn env_tail_pred() -> spec_fn(char) -> bool {
    |c: char| env_tail_ok(c)
}

/// Whether a character may open an environment-variable name.
pub open spec fn env_head_ok(c: char) -> bool {
    ('a' <= c && c <= 'z') || ('A' <= c && c <= 'Z') || c == '_'
}

/// The sanitized environment-variable name derived from a string: the first
/// character is kept, prefixed with an underscore unless it could open a
/// name; of the remaining characters only letters, digits and underscores
/// are kept.
pub open spec fn spec_env_key(s: Seq<char>) -> Seq<char> {
    if s.len() == 0 {
        s
    } else {
        (if env_head_ok(s[0]) {
            seq![s[0]]
        } else {
            seq!['_', s[0]]
        }) + s.skip(1).filter(env_tail_pred())
    }
}

fn is_env_tail(c: char) -> (r: bool)
    ensures
        r == env_tail_ok(c),
{
    ('a' <= c && c <= 'z') || ('A' <= c && c <= 'Z') || ('0' <= c && c <= '9') || c == '_'
}

/// Derives an environment-variable name from an arbitrary string.
pub fn str2envkey(s: &str) -> (r: String)
    ensures
        r@ == spec_env_key(s@),
{
    let n: usize = s.unicode_len();
    let mut r = String::new();
    if n == 0 {
        assert(r@ =~= spec_env_key(s@));
        return r;
    }
    let c0 = s.get_char(0);
    if ('a' <= c0 && c0 <= 'z') || ('A' <= c0 && c0 <= 'Z') || c0 == '_' {
        push_char(&mut r, c0);
    } else {
        push_char(&mut r, '_');
        push_char(&mut r, c0);
    }
    let ghost head = r@;
    let mut i: usize = 1;
    while i < n
        invariant
            1 <= i <= n,
            n == s@.len(),
            r@ == head + s@.subrange(1, i as int).filter(env_tail_pred()),
        decreases n - i,
    {
        let ghost prefix = s@.subrange(1, i as int);
        let c = s.get_char(i);
        if is_env_tail(c) {
            push_char(&mut r, c);
        }
        proof {
            let x = s@[i as int];
            assert(s@.subrange(1, i + 1 as int) =~= prefix.push(x));
            reveal(Seq::filter);
            assert(prefix.push(x).drop_last() =~= prefix);
            assert(prefix.push(x).last() == x);
            if env_tail_ok(x) {
                assert(prefix.push(x).filter(env_tail_pred()) =~= prefix.filter(
                    env_tail_pred(),
                ).push(x));
            } else {
                assert(prefix.push(x).filter(env_tail_pred()) =~= prefix.filter(env_tail_pred()));
            }
        }
        i = i + 1;
    }
    proof {
        assert(s@.subrange(1, n as int) =~= s@.skip(1));
    }
    r
}

/// The session-script path for one shell session: a file named after the
/// session's parent process id, inside a directory named after the running
/// executable, inside the temporary directory.
pub open spec fn spec_session_script_path(
    temp_dir: Seq<char>,
    exe_name: Seq<char>,
    parent_pid: u32,
) -> Seq<char> {
    spec_join(spec_join(temp_dir, exe_name), "session"@ + spec_dec(parent_pid as nat) + ".sh"@)
}

/// Builds the session-script path for one shell session.
pub fn get_session_script_path(temp_dir: &str, exe_name: &str, parent_pid: u32) -> (r: String)
    ensures
        r@ == spec_session_script_path(temp_dir@, exe_name@, parent_pid),
{
    let mut file = String::new();
    file.append("session");
    let num = dec_u32(parent_pid);
    file.append(num.as_str());
    file.append(".sh");
    let dir = join_path(temp_dir, exe_name);
    join_path(dir.as_str(), file.as_str())
}

/// A middle piece of a concatenation is determined by the whole, when the
/// surrounding pieces are fixed and the middle pieces have equal lengths.
proof fn lemma_mid_cancel(a: Seq<char>, x: Seq<char>, y: Seq<char>, s: Seq<char>)
    requires
        a + x + s == a + y + s,
        x.len() == y.len(),
    ensures
        x == y,
{
    assert forall|i: int| 0 <= i < x.len() implies x[i] == y[i] by {
        assert((a + x + s)[a.len() + i] == x[i]);
        assert((a + y + s)[a.len() + i] == y[i]);
    }
    assert(x =~= y);
}

/// Distinct parent process ids get distinct session-script paths, so
/// concurrently open shell sessions never overwrite one another's scripts.
pub proof fn lemma_session_paths_distinct(
    temp_dir: Seq<char>,
    exe_name: Seq<char>,
    pid1: u32,
    pid2: u32,
)
    requires
        pid1 != pid2,
    ensures
        spec_session_script_path(temp_dir, exe_name, pid1) != spec_session_script_path(
            temp_dir,
            exe_name,
            pid2,
        ),
{
    let base = spec_join(temp_dir, exe_name);
    let name1 = "session"@ + spec_dec(pid1 as nat) + ".sh"@;
    let name2 = "session"@ + spec_dec(pid2 as nat) + ".sh"@;
    if spec_session_script_path(temp_dir, exe_name, pid1) == spec_session_script_path(
        temp_dir,
        exe_name,
        pid2,
    ) {
        let pre = if base.len() > 0 && base.last() == '/' {
            base
        } else {
            base + seq!['/']
        };
        assert(spec_join(base, name1) =~= (pre + "session"@) + spec_dec(pid1 as nat) + ".sh"@);
        assert(spec_join(base, name2) =~= (pre + "session"@) + spec_dec(pid2 as nat) + ".sh"@);
        assert(spec_dec(pid1 as nat).len() == spec_dec(pid2 as nat).len());
        lemma_mid_cancel(
            pre + "session"@,
            spec_dec(pid1 as nat),
            spec_dec(pid2 as nat),
            ".sh"@,
        );
        lemma_dec_injective(pid1 as nat, pid2 as nat);
        assert(false);
    }
}

/// The shell-integration snippet: behind a load guard named after the
/// package, it wraps `git` so that every invocation first sources the
/// session script, and wraps this tool so that every invocation re-sources
/// the session script afterwards.
pub open spec fn spec_setup_script(
    loaded_flag: Seq<char>,
    app_name: Seq<char>,
    app_path: Seq<char>,
    session_script_path: Seq<char>,
) -> Seq<char> {
    "if [ -z $"@ + loaded_flag + " ]; then\n    export "@ + loaded_flag
        + "=1\n    function git() {\n        source \""@ + session_script_path
        + "\"\n        command git $@\n    }\n    function "@ + app_name
        + "() {\n        command "@ + app_path + " $@\n        source \""@ + session_script_path
        + "\"\n    }\nfi\n"@
}

/// The ASCII-uppercase counterpart of a character; anything but a lower
/// case ASCII letter stands for itself.
pub open spec fn upper_char(c: char) -> char {
    if c == 'a' {
        'A'
    } else if c == 'b' {
        'B'
    } else if c == 'c' {
        'C'
    } else if c == 'd' {
        'D'
    } else if c == 'e' {
        'E'
    } else if c == 'f' {
        'F'
    } else if c == 'g' {
        'G'
    } else if c == 'h' {
        'H'
    } else if c == 'i' {
        'I'
    } else if c == 'j' {
        'J'
    } else if c == 'k' {
        'K'
    } else if c == 'l' {
        'L'
    } else if c == 'm' {
        'M'
    } else if c == 'n' {
        'N'
    } else if c == 'o' {
        'O'
    } else if c == 'p' {
        'P'
    } else if c == 'q' {
        'Q'
    } else if c == 'r' {
        'R'
    } else if c == 's' {
        'S'
    } else if c == 't' {
        'T'
    } else if c == 'u' {
        'U'
    } else if c == 'v' {
        'V'
    } else if c == 'w' {
        'W'
    } else if c == 'x' {
        'X'
    } else if c == 'y' {
        'Y'
    } else if c == 'z' {
        'Z'
    } else {
        c
    }
}

fn char_to_upper(c: char) -> (r: char)
    ensures
        r == upper_char(c),
{
    if c == 'a' {
        'A'
    } else if c == 'b' {
        'B'
    } else if c == 'c' {
        'C'
    } else if c == 'd' {
        'D'
    } else if c == 'e' {
        'E'
    } else if c == 'f' {
        'F'
    } else if c == 'g' {
        'G'
    } else if c == 'h' {
        'H'
    } else if c == 'i' {
        'I'
    } else if c == 'j' {
        'J'
    } else if c == 'k' {
        'K'
    } else if c == 'l' {
        'L'
    } else if c == 'm' {
        'M'
    } else if c == 'n' {
        'N'
    } else if c == 'o' {
        'O'
    } else if c == 'p' {
        'P'
    } else if c == 'q' {
        'Q'
    } else if c == 'r' {
        'R'
    } else if c == 's' {
        'S'
    } else if c == 't' {
        'T'
    } else if c == 'u' {
        'U'
    } else if c == 'v' {
        'V'
    } else if c == 'w' {
        'W'
    } else if c == 'x' {
        'X'
    } else if c == 'y' {
        'Y'
    } else if c == 'z' {
        'Z'
    } else {
        c
    }
}

/// A string with its lower case ASCII letters raised to upper case.
pub open spec fn spec_ascii_upper(s: Seq<char>) -> Seq<char> {
    s.map_values(|c: char| upper_char(c))
}

/// Raises the lower case ASCII letters of a string to upper case.
pub fn ascii_upper(s: &str) -> (r: String)
    ensures
        r@ == spec_ascii_upper(s@),
{
    let n: usize = s.unicode_len();
    let mut r = String::new();
    let mut i: usize = 0;
    while i < n
        invariant
            0 <= i <= n,
            n == s@.len(),
            r@.len() == i,
            forall|j: int| 0 <= j < i ==> r@[j] == upper_char(s@[j]),
        decreases n - i,
    {
        let c = s.get_char(i);
        let u = char_to_upper(c);
        push_char(&mut r, u);
        i = i + 1;
    }
    proof {
        assert(r@ =~= spec_ascii_upper(s@));
    }
    r
}

/// Builds the shell-integration snippet.  The load-guard name is derived
/// from the package name, sanitized and raised to upper case; the wrapped
/// function keeps the name under which the tool was invoked.
pub fn get_setup_script(pkg_name: &str, app_name: &str, app_path: &str, session_script_path: &str)
    -> (r: String)
    ensures
        r@ == spec_setup_script(
            spec_ascii_upper(spec_env_key(pkg_name@)) + "_LOADED"@,
            app_name@,
            app_path@,
            session_script_path@,
        ),
{
    let key = str2envkey(pkg_name);
    let mut flag = ascii_upper(key.as_str());
    flag.append("_LOADED");
    let mut s = String::new();
    s.append("if [ -z $");
    s.append(flag.as_str());
    s.append(" ]; then\n    export ");
    s.append(flag.as_str());
    s.append("=1\n    function git() {\n        source \"");
    s.append(session_script_path);
    s.append("\"\n        command git $@\n    }\n    function ");
    s.append(app_name);
    s.append("() {\n        command ");
    s.append(app_path);
    s.append(" $@\n        source \"");
    s.append(session_script_path);
    s.append("\"\n    }\nfi\n");
    s
}

} // verus!
