//! Locations of the application's data, all under `~/.opencomputer/`.
//!
//! Paths are kept as text and joined with Unix `Path::join` rules.
use vstd::prelude::*;
use crate::text::{chars_of, string_of};

verus! {

/// Why a data path could not be formed.
#[derive(Debug, Clone, Copy, PartialEq, Eq, Structural)]
pub enum PathError {
    /// The user's home directory is unknown.
    NoHomeDir,
}

/// The user's home directory as text: `dirs::home_dir`, its path converted
/// lossily to UTF-8. It comes from the environment, so nothing is stated of it.
#[verifier::external_body]
pub(crate) fn home_dir_text() -> Option<String> {
    match dirs::home_dir() {
        Some(h) => Some(h.to_string_lossy().into_owned()),
        None => None,
    }
}

/// `Path::join` on Unix: an absolute `part` replaces `base`; otherwise `part`
/// follows `base`, with one `/` between them unless `base` is empty or already
/// ends with `/`.
pub open spec fn path_join(base: Seq<char>, part: Seq<char>) -> Seq<char> {
    if part.len() > 0 && part[0] == '/' {
        part
    } else if base.len() == 0 || base.last() == '/' {
        base + part
    } else {
        base + seq!['/'] + part
    }
}

/// Joins `part` onto `base` (see `path_join`).
pub fn join_path(base: &str, part: &str) -> (r: String)
    ensures
        r@ == path_join(base@, part@),
{
    let b = chars_of(base);
    let p = chars_of(part);
    if p.len() > 0 && p[0] == '/' {
        return string_of(p.as_slice());
    }
    let mut out = b;
    if out.len() > 0 && out[out.len() - 1] != '/' {
        out.push('/');
    }
    let mut i: usize = 0;
    let ghost start = out@;
    while i < p.len()
        invariant
            i <= p@.len(),
            out@ == start + p@.take(i as int),
        decreases p@.len() - i,
    {
        assert(p@.take(i + 1) =~= p@.take(i as int).push(p@[i as int]));
        out.push(p[i]);
        assert(out@ =~= start + p@.take(i + 1));
        i += 1;
    }
    assert(p@.take(p@.len() as int) =~= p@);
    proof {
        if b@.len() > 0 && b@.last() != '/' {
            assert(start =~= b@ + seq!['/']);
        } else {
            assert(start =~= b@);
        }
    }
    string_of(out.as_slice())
}

/// `p` is the data root `<home>/.opencomputer` for some home directory.
pub open spec fn is_root(p: Seq<char>) -> bool {
    exists|h: Seq<char>| p == path_join(h, ".opencomputer"@)
}

/// `r` is, when `Ok`, `<root>/<a>` for a data root.
pub open spec fn at_root(r: Result<String, PathError>, a: Seq<char>) -> bool {
    match r {
        Ok(p) => exists|root: Seq<char>| #[trigger] is_root(root) && p@ == path_join(root, a),
        Err(_) => true,
    }
}

/// `r` is, when `Ok`, `<root>/<a>/<b>` for a data root.
pub open spec fn at_root2(r: Result<String, PathError>, a: Seq<char>, b: Seq<char>) -> bool {
    match r {
        Ok(p) => exists|root: Seq<char>|
            #[trigger] is_root(root) && p@ == path_join(path_join(root, a), b),
        Err(_) => true,
    }
}

/// The data root for a given home directory: `<home>/.opencomputer`.
pub fn root_dir_for(home: &Option<String>) -> (r: Result<String, PathError>)
    ensures
        match home {
            Some(h) => r matches Ok(p) && p@ == path_join(h@, ".opencomputer"@),
            None => r == Err::<String, PathError>(PathError::NoHomeDir),
        },
{
    match home {
        Some(h) => Ok(join_path(h.as_str(), ".opencomputer")),
        None => Err(PathError::NoHomeDir),
    }
}

/// `<home>/.opencomputer/<part>` for a known home directory.
pub open spec fn data_path(home: Seq<char>, part: Seq<char>) -> Seq<char> {
    path_join(path_join(home, ".opencomputer"@), part)
}

/// A data path for a given home directory: `<home>/.opencomputer/<part>`, or
/// `NoHomeDir` when the home directory is unknown.
pub fn data_path_for(home: &Option<String>, part: &str) -> (r: Result<String, PathError>)
    ensures
        match home {
            Some(h) => r matches Ok(p) && p@ == data_path(h@, part@),
            None => r == Err::<String, PathError>(PathError::NoHomeDir),
        },
{
    let root = root_dir_for(home)?;
    Ok(join_path(root.as_str(), part))
}

/// The data root `~/.opencomputer`.
pub fn root_dir() -> (r: Result<String, PathError>)
    ensures
        r matches Ok(p) ==> is_root(p@),
{
    let home = home_dir_text();
    let r = root_dir_for(&home);
    proof {
        if let Some(h) = home {
            assert(is_root(path_join(h@, ".opencomputer"@)));
        }
    }
    r
}

/// `<root>/<part>`.
fn under_root(part: &str) -> (r: Result<String, PathError>)
    ensures
        at_root(r, part@),
{
    let root = root_dir()?;
    let p = join_path(root.as_str(), part);
    assert(is_root(root@));
    Ok(p)
}

/// `<root>/<a>/<b>`.
fn under_root2(a: &str, b: &str) -> (r: Result<String, PathError>)
    ensures
        at_root2(r, a@, b@),
{
    let root = root_dir()?;
    let d = join_path(root.as_str(), a);
    let p = join_path(d.as_str(), b);
    assert(is_root(root@));
    Ok(p)
}

/// Global config file: `~/.opencomputer/config.json`.
pub fn config_path() -> (r: Result<String, PathError>)
    ensures
        at_root(r, "config.json"@),
{
    under_root("config.json")
}

/// Agents root directory: `~/.opencomputer/agents`.
pub fn agents_dir() -> (r: Result<String, PathError>)
    ensures
        at_root(r, "agents"@),
{
    under_root("agents")
}

/// One agent's directory: `~/.opencomputer/agents/<id>`.
pub fn agent_dir(id: &str) -> (r: Result<String, PathError>)
    ensures
        at_root2(r, "agents"@, id@),
{
    under_root2("agents", id)
}

/// User config file: `~/.opencomputer/user.json`.
pub fn user_config_path() -> (r: Result<String, PathError>)
    ensures
        at_root(r, "user.json"@),
{
    under_root("user.json")
}

/// Credentials directory: `~/.opencomputer/credentials`.
pub fn credentials_dir() -> (r: Result<String, PathError>)
    ensures
        at_root(r, "credentials"@),
{
    under_root("credentials")
}

/// OAuth token file: `~/.opencomputer/credentials/auth.json`.
pub fn auth_path() -> (r: Result<String, PathError>)
    ensures
        at_root2(r, "credentials"@, "auth.json"@),
{
    under_root2("credentials", "auth.json")
}

/// Skills directory: `~/.opencomputer/skills`.
pub fn skills_dir() -> (r: Result<String, PathError>)
    ensures
        at_root(r, "skills"@),
{
    under_root("skills")
}

/// Main agent home: `~/.opencomputer/home`.
pub fn home_dir() -> (r: Result<String, PathError>)
    ensures
        at_root(r, "home"@),
{
    under_root("home")
}

/// A named agent's home: `~/.opencomputer/<name>-home`.
pub fn agent_home_dir(name: &str) -> (r: Result<String, PathError>)
    ensures
        at_root(r, name@ + "-home"@),
{
    let mut dir = chars_of(name);
    let suffix = chars_of("-home");
    let mut i: usize = 0;
    let ghost start = dir@;
    while i < suffix.len()
        invariant
            i <= suffix@.len(),
            suffix@ == "-home"@,
            start == name@,
            dir@ == start + suffix@.take(i as int),
        decreases suffix@.len() - i,
    {
        assert(suffix@.take(i + 1) =~= suffix@.take(i as int).push(suffix@[i as int]));
        dir.push(suffix[i]);
        assert(dir@ =~= start + suffix@.take(i + 1));
        i += 1;
    }
    assert(suffix@.take(suffix@.len() as int) =~= suffix@);
    let d = string_of(dir.as_slice());
    under_root(d.as_str())
}

/// A session's attachments: `~/.opencomputer/attachments/<session_id>`.
pub fn attachments_dir(session_id: &str) -> (r: Result<String, PathError>)
    ensures
        at_root2(r, "attachments"@, session_id@),
{
    under_root2("attachments", session_id)
}

/// Avatars directory: `~/.opencomputer/avatars`.
pub fn avatars_dir() -> (r: Result<String, PathError>)
    ensures
        at_root(r, "avatars"@),
{
    under_root("avatars")
}

/// Log database: `~/.opencomputer/logs.db`.
pub fn logs_db_path() -> (r: Result<String, PathError>)
    ensures
        at_root(r, "logs.db"@),
{
    under_root("logs.db")
}

/// Plain-text log directory: `~/.opencomputer/logs`.
pub fn logs_dir() -> (r: Result<String, PathError>)
    ensures
        at_root(r, "logs"@),
{
    under_root("logs")
}

/// Directory shared between agents: `~/.opencomputer/share`.
pub fn share_dir() -> (r: Result<String, PathError>)
    ensures
        at_root(r, "share"@),
{
    under_root("share")
}

/// Cron database: `~/.opencomputer/cron.db`.
pub fn cron_db_path() -> (r: Result<String, PathError>)
    ensures
        at_root(r, "cron.db"@),
{
    under_root("cron.db")
}

/// Memory database: `~/.opencomputer/memory.db`.
pub fn memory_db_path() -> (r: Result<String, PathError>)
    ensures
        at_root(r, "memory.db"@),
{
    under_root("memory.db")
}

/// Embedding model cache: `~/.opencomputer/models`.
pub fn models_cache_dir() -> (r: Result<String, PathError>)
    ensures
        at_root(r, "models"@),
{
    under_root("models")
}

/// Browser profiles root: `~/.opencomputer/browser-profiles`.
pub fn browser_profiles_dir() -> (r: Result<String, PathError>)
    ensures
        at_root(r, "browser-profiles"@),
{
    under_root("browser-profiles")
}

/// One browser profile: `~/.opencomputer/browser-profiles/<profile_name>`.
pub fn browser_profile_dir(profile_name: &str) -> (r: Result<String, PathError>)
    ensures
        at_root2(r, "browser-profiles"@, profile_name@),
{
    under_root2("browser-profiles", profile_name)
}

/// Crash journal: `~/.opencomputer/crash_journal.json`.
pub fn crash_journal_path() -> (r: Result<String, PathError>)
    ensures
        at_root(r, "crash_journal.json"@),
{
    under_root("crash_journal.json")
}

/// Backups directory: `~/.opencomputer/backups`.
pub fn backups_dir() -> (r: Result<String, PathError>)
    ensures
        at_root(r, "backups"@),
{
    under_root("backups")
}

/// Plans directory: `~/.opencomputer/plans`.
pub fn plans_dir() -> (r: Result<String, PathError>)
    ensures
        at_root(r, "plans"@),
{
    under_root("plans")
}

} // verus!
