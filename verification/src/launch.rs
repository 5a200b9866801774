//! The compute half of the script launcher: resolving a script into an
//! executable and arguments, merging environments, and resolving the
//! configured identity through the system user database. Spawning the child
//! itself (fork, signal mask, process group, pipes) is the daemon's work;
//! everything it spawns is decided here.

use vstd::prelude::*;
use vstd::string::*;
use crate::types::{clone_string, Script, ScriptPrefix};

verus! {

/// Launching failed before any child existed.
#[derive(Debug)]
pub enum LaunchError {
    /// The configured user does not resolve to a uid.
    UserUnknown { user: String },
    /// The configured group does not resolve to a gid.
    GroupUnknown { group: String },
}

/// The whitespace that separates tokens of a `Path` command line.
pub open spec fn is_space(c: char) -> bool {
    c == ' ' || c == '\t' || c == '\n' || c == '\r'
}

/// The alphabetic characters the `Path` prefix accepts in an executable
/// name. Anything else in the first token - digits, slashes, dots - makes
/// the executable empty, which the kernel rejects at spawn time. This is a
/// known, deliberate quirk of the format, kept as it is.
pub open spec fn is_alpha(c: char) -> bool {
    ('a' <= c && c <= 'z') || ('A' <= c && c <= 'Z')
}

pub open spec fn all_alpha(s: Seq<char>) -> bool {
    forall|i: int| 0 <= i < s.len() ==> is_alpha(#[trigger] s[i])
}

/// The longest prefix of `s` without whitespace.
pub open spec fn take_token(s: Seq<char>) -> Seq<char>
    decreases s.len(),
{
    if s.len() == 0 || is_space(s[0]) {
        Seq::empty()
    } else {
        seq![s[0]] + take_token(s.drop_first())
    }
}

pub proof fn lemma_take_token_len(s: Seq<char>)
    ensures
        take_token(s).len() <= s.len(),
        s.len() > 0 && !is_space(s[0]) ==> take_token(s).len() >= 1,
    decreases s.len(),
{
    if s.len() > 0 && !is_space(s[0]) {
        lemma_take_token_len(s.drop_first());
    }
}

/// `s` split at whitespace, empty tokens dropped.
pub open spec fn split_ws(s: Seq<char>) -> Seq<Seq<char>>
    decreases s.len(),
    via split_ws_dec
{
    if s.len() == 0 {
        Seq::empty()
    } else if is_space(s[0]) {
        split_ws(s.drop_first())
    } else {
        seq![take_token(s)] + split_ws(s.skip(take_token(s).len() as int))
    }
}

#[via_fn]
proof fn split_ws_dec(s: Seq<char>) {
    if s.len() > 0 && !is_space(s[0]) {
        lemma_take_token_len(s);
    }
}

/// The token starting at `i` covers exactly the whitespace-free run
/// `s[i..j]`.
proof fn lemma_token_extent(s: Seq<char>, i: int, j: int)
    requires
        0 <= i < j <= s.len(),
        forall|m: int| i <= m < j ==> !is_space(#[trigger] s[m]),
        j == s.len() || is_space(s[j]),
    ensures
        take_token(s.skip(i)) =~= s.subrange(i, j),
    decreases j - i,
{
    assert(s.skip(i).drop_first() =~= s.skip(i + 1));
    if i + 1 == j {
        if j < s.len() {
            assert(is_space(s.skip(i + 1)[0]));
        }
        assert(take_token(s.skip(i + 1)) =~= Seq::<char>::empty());
    } else {
        lemma_token_extent(s, i + 1, j);
    }
}

fn is_space_exec(c: char) -> (r: bool)
    ensures
        r == is_space(c),
{
    c == ' ' || c == '\t' || c == '\n' || c == '\r'
}

/// Whether every character of `t` is alphabetic.
pub fn all_alpha_exec(t: &String) -> (r: bool)
    ensures
        r == all_alpha(t@),
{
    let s = t.as_str();
    let n = s.unicode_len();
    let mut i: usize = 0;
    while i < n
        invariant
            n == s@.len(),
            s@ == t@,
            i <= n,
            forall|m: int| 0 <= m < i ==> is_alpha(#[trigger] s@[m]),
        decreases n - i,
    {
        let c = s.get_char(i);
        if !(('a' <= c && c <= 'z') || ('A' <= c && c <= 'Z')) {
            return false;
        }
        i += 1;
    }
    true
}

/// Splits `s` at whitespace from position `i` on, dropping empty tokens.
fn split_from(s: &str, i: usize) -> (r: Vec<String>)
    requires
        i <= s@.len(),
    ensures
        r@.len() == split_ws(s@.skip(i as int)).len(),
        forall|m: int| 0 <= m < r@.len() ==> (#[trigger] r@[m])@ == split_ws(s@.skip(i as int))[m],
    decreases s@.len() - i,
{
    let n = s.unicode_len();
    if i == n {
        let r: Vec<String> = Vec::new();
        return r;
    }
    let c = s.get_char(i);
    if is_space_exec(c) {
        proof {
            assert(s@.skip(i as int).drop_first() =~= s@.skip(i as int + 1));
        }
        return split_from(s, i + 1);
    }
    let mut j: usize = i + 1;
    while j < n && !is_space_exec(s.get_char(j))
        invariant
            n == s@.len(),
            i < j <= n,
            forall|m: int| i <= m < j ==> !is_space(#[trigger] s@[m]),
        decreases n - j,
    {
        j += 1;
    }
    let token = s.substring_char(i, j).to_owned();
    proof {
        lemma_token_extent(s@, i as int, j as int);
        lemma_take_token_len(s@.skip(i as int));
        assert(take_token(s@.skip(i as int)).len() == j - i);
        assert(s@.skip(i as int).skip(j - i) =~= s@.skip(j as int));
    }
    let mut rest = split_from(s, j);
    let mut r: Vec<String> = Vec::new();
    r.push(token);
    r.append(&mut rest);
    proof {
        assert(split_ws(s@.skip(i as int)) == seq![take_token(s@.skip(i as int))] + split_ws(
            s@.skip(j as int),
        ));
    }
    r
}

/// What the `Path` prefix makes of an `execute` line: the first
/// whitespace-delimited token is the executable if it is entirely
/// alphabetic and empty otherwise; the remaining tokens are the arguments,
/// verbatim.
pub open spec fn path_command(execute: Seq<char>, exe: Seq<char>, args: Seq<String>) -> bool {
    let toks = split_ws(execute);
    &&& exe == if toks.len() > 0 && all_alpha(toks[0]) {
        toks[0]
    } else {
        Seq::<char>::empty()
    }
    &&& args.len() == if toks.len() > 0 {
        (toks.len() - 1) as nat
    } else {
        0nat
    }
    &&& forall|m: int| 0 <= m < args.len() ==> (#[trigger] args[m])@ == toks[m + 1]
}

/// Resolves a script into the executable and arguments the daemon spawns.
/// `Bash` and `Sh` run the shell with `-c` and the script text; `Path`
/// tokenizes the text itself.
pub fn exec_args(script: &Script) -> (r: (String, Vec<String>))
    ensures
        match script.prefix {
            ScriptPrefix::Bash => r.0@ == "bash"@ && r.1@.len() == 2 && r.1@[0]@ == "-c"@
                && r.1@[1]@ == script.execute@,
            ScriptPrefix::Sh => r.0@ == "sh"@ && r.1@.len() == 2 && r.1@[0]@ == "-c"@ && r.1@[1]@
                == script.execute@,
            ScriptPrefix::Path => path_command(script.execute@, r.0@, r.1@),
        },
{
    match script.prefix {
        ScriptPrefix::Bash => {
            let mut args: Vec<String> = Vec::new();
            args.push(String::from_str("-c"));
            args.push(clone_string(&script.execute));
            (String::from_str("bash"), args)
        },
        ScriptPrefix::Sh => {
            let mut args: Vec<String> = Vec::new();
            args.push(String::from_str("-c"));
            args.push(clone_string(&script.execute));
            (String::from_str("sh"), args)
        },
        ScriptPrefix::Path => {
            let mut toks = split_from(script.execute.as_str(), 0);
            proof {
                assert(script.execute@.skip(0) =~= script.execute@);
            }
            if toks.len() == 0 {
                (String::new(), Vec::new())
            } else {
                let first = toks.remove(0);
                let exe = if all_alpha_exec(&first) {
                    first
                } else {
                    String::new()
                };
                (exe, toks)
            }
        },
    }
}

/// Looking up an environment key: the last entry with that key wins, so
/// entries appended later override earlier ones.
pub open spec fn env_value(s: Seq<(String, String)>, k: Seq<char>) -> Option<Seq<char>>
    decreases s.len(),
{
    if s.len() == 0 {
        Option::None
    } else if s.last().0@ == k {
        Option::Some(s.last().1@)
    } else {
        env_value(s.drop_last(), k)
    }
}

/// The merged environment of a launch: the daemon's own variables first,
/// the service's entries after them, so that under [`env_value`] a service
/// entry overrides a daemon entry with the same key.
pub fn merge_env(process: &Vec<(String, String)>, service: &Vec<(String, String)>) -> (r: Vec<
    (String, String),
>)
    ensures
        r@ == process@ + service@,
{
    let mut r: Vec<(String, String)> = Vec::new();
    let mut i: usize = 0;
    while i < process.len()
        invariant
            i <= process@.len(),
            r@ =~= process@.subrange(0, i as int),
        decreases process@.len() - i,
    {
        r.push((process[i].0.clone(), process[i].1.clone()));
        proof {
            assert(r@ =~= process@.subrange(0, i + 1));
        }
        i += 1;
    }
    let mut j: usize = 0;
    while j < service.len()
        invariant
            j <= service@.len(),
            r@ =~= process@ + service@.subrange(0, j as int),
        decreases service@.len() - j,
    {
        r.push((service[j].0.clone(), service[j].1.clone()));
        proof {
            assert(r@ =~= process@ + service@.subrange(0, j + 1));
        }
        j += 1;
    }
    proof {
        assert(r@ =~= process@ + service@);
    }
    r
}

/// In a concatenated environment the later block decides: a key set by the
/// service is answered from the service's entries, any other key from the
/// daemon's.
pub proof fn lemma_env_override(a: Seq<(String, String)>, b: Seq<(String, String)>, k: Seq<char>)
    ensures
        env_value(a + b, k) == if env_value(b, k) is Some {
            env_value(b, k)
        } else {
            env_value(a, k)
        },
    decreases b.len(),
{
    if b.len() == 0 {
        assert(a + b =~= a);
    } else {
        assert((a + b).last() == b.last());
        assert((a + b).drop_last() =~= a + b.drop_last());
        lemma_env_override(a, b.drop_last(), k);
    }
}

/// Relies on nix's `User::from_name`, a lookup in the system password
/// database. The answer depends on the machine, so nothing is promised of
/// it; lookup errors and absent entries both come back as no uid.
#[verifier::external_body]
fn lookup_uid(name: &str) -> Option<u32> {
    match nix::unistd::User::from_name(name) {
        Ok(Some(user)) => Some(user.uid.as_raw()),
        _ => None,
    }
}

/// Relies on nix's `Group::from_name`, a lookup in the system group
/// database, under the same terms as the uid lookup.
#[verifier::external_body]
fn lookup_gid(name: &str) -> Option<u32> {
    match nix::unistd::Group::from_name(name) {
        Ok(Some(group)) => Some(group.gid.as_raw()),
        _ => None,
    }
}

/// Decides the identity of a launch from the configured names and the
/// database answers alone: a configured name without an answer is the
/// matching error, the user checked before the group; otherwise the launch
/// runs under whatever ids were configured.
pub fn identity_from_lookups(
    user: &Option<String>,
    uid: Option<u32>,
    group: &Option<String>,
    gid: Option<u32>,
) -> (r: Result<(Option<u32>, Option<u32>), LaunchError>)
    ensures
        match *user {
            Option::Some(ref u) => {
                if uid is None {
                    (match r {
                        Result::Err(LaunchError::UserUnknown { user: ru }) => ru@ == u@,
                        _ => false,
                    })
                } else {
                    group_outcome(group, gid, uid, r)
                }
            },
            Option::None => group_outcome(group, gid, Option::None, r),
        },
{
    match user {
        Option::Some(u) => {
            match uid {
                Option::None => Result::Err(
                    LaunchError::UserUnknown { user: clone_string(u) },
                ),
                Option::Some(x) => finish_identity(Option::Some(x), group, gid),
            }
        },
        Option::None => finish_identity(Option::None, group, gid),
    }
}

/// The group half of the identity decision, after the user half succeeded
/// with ids `uid`.
pub open spec fn group_outcome(
    group: &Option<String>,
    gid: Option<u32>,
    uid: Option<u32>,
    r: Result<(Option<u32>, Option<u32>), LaunchError>,
) -> bool {
    match *group {
        Option::Some(ref g) => {
            if gid is None {
                (match r {
                    Result::Err(LaunchError::GroupUnknown { group: rg }) => rg@ == g@,
                    _ => false,
                })
            } else {
                r == Result::<(Option<u32>, Option<u32>), LaunchError>::Ok((uid, gid))
            }
        },
        Option::None => r == Result::<(Option<u32>, Option<u32>), LaunchError>::Ok(
            (uid, Option::None),
        ),
    }
}

fn finish_identity(uid: Option<u32>, group: &Option<String>, gid: Option<u32>) -> (r: Result<
    (Option<u32>, Option<u32>),
    LaunchError,
>)
    ensures
        group_outcome(group, gid, uid, r),
{
    match group {
        Option::Some(g) => {
            match gid {
                Option::None => Result::Err(
                    LaunchError::GroupUnknown { group: clone_string(g) },
                ),
                Option::Some(y) => Result::Ok((uid, Option::Some(y))),
            }
        },
        Option::None => Result::Ok((uid, Option::None)),
    }
}

/// Resolves the configured identity of a script by asking the system
/// databases for the configured names and deciding from the answers. The
/// names decide which lookups happen; what the databases answer depends on
/// the machine, so only the shape of the outcome is stated here: an error
/// names a configured name, and a granted identity sets an id only where a
/// name was configured.
pub fn resolve_identity(script: &Script) -> (r: Result<(Option<u32>, Option<u32>), LaunchError>)
    ensures
        match r {
            Result::Ok((uid, gid)) => (script.user is None ==> uid is None) && (script.group
                is None ==> gid is None),
            Result::Err(LaunchError::UserUnknown { ref user }) => (match script.user {
                Option::Some(ref u) => user@ == u@,
                Option::None => false,
            }),
            Result::Err(LaunchError::GroupUnknown { ref group }) => (match script.group {
                Option::Some(ref g) => group@ == g@,
                Option::None => false,
            }),
        },
{
    let uid = match &script.user {
        Option::Some(u) => lookup_uid(u.as_str()),
        Option::None => Option::None,
    };
    let gid = match &script.group {
        Option::Some(g) => lookup_gid(g.as_str()),
        Option::None => Option::None,
    };
    identity_from_lookups(&script.user, uid, &script.group, gid)
}

} // verus!
