//! Command-line decisions of the desktop binary: which mode a launch runs in,
//! and the options of the `server` and `acp` subcommands.
use vstd::prelude::*;
use crate::text::{str_eq, strs_of};

verus! {

/// The flag that skips every tool approval for one launch.
pub open spec fn dangerous_flag() -> Seq<char> {
    "--dangerously-skip-all-approvals"@
}

/// Whether any argument is the dangerous-mode flag.
pub fn has_dangerous_flag(args: &[String]) -> (r: bool)
    ensures
        r == strs_of(args@).contains(dangerous_flag()),
{
    let mut i: usize = 0;
    while i < args.len()
        invariant
            i <= args@.len(),
            forall|j: int| 0 <= j < i ==> args@[j]@ != dangerous_flag(),
        decreases args@.len() - i,
    {
        if str_eq(args[i].as_str(), "--dangerously-skip-all-approvals") {
            assert(strs_of(args@)[i as int] == dangerous_flag());
            return true;
        }
        i += 1;
    }
    assert forall|j: int| 0 <= j < strs_of(args@).len() implies strs_of(args@)[j] != dangerous_flag() by {
        assert(strs_of(args@)[j] == args@[j]@);
    }
    false
}

/// What a launch of the binary runs.
#[derive(Debug, Clone, Copy, PartialEq, Eq, Structural)]
pub enum LaunchMode {
    /// The ACP stdio server (`acp` subcommand).
    Acp,
    /// The HTTP/WebSocket server (`server` subcommand).
    Server,
    /// The application itself.
    Child,
    /// The supervisor that restarts the application after a crash.
    Guardian,
}

/// The mode of a launch with arguments `args` (the program name first):
/// `acp` and `server` as first argument pick those modes; otherwise the
/// application runs directly when asked for by `--child-mode` or the
/// child environment variable, in a debug build, or with the guardian
/// switched off; else under the guardian.
pub open spec fn launch_mode_of(
    args: Seq<Seq<char>>,
    child_env: bool,
    debug_build: bool,
    guardian_enabled: bool,
) -> LaunchMode {
    if args.len() >= 2 && args[1] == "acp"@ {
        LaunchMode::Acp
    } else if args.len() >= 2 && args[1] == "server"@ {
        LaunchMode::Server
    } else if (args.len() >= 2 && args[1] == "--child-mode"@) || child_env {
        LaunchMode::Child
    } else if debug_build {
        LaunchMode::Child
    } else if guardian_enabled {
        LaunchMode::Guardian
    } else {
        LaunchMode::Child
    }
}

/// Picks the mode of a launch (see `launch_mode_of`).
pub fn launch_mode(args: &[String], child_env: bool, debug_build: bool, guardian_enabled: bool) -> (r:
    LaunchMode)
    ensures
        r == launch_mode_of(strs_of(args@), child_env, debug_build, guardian_enabled),
{
    let second = args.len() >= 2;
    if second && str_eq(args[1].as_str(), "acp") {
        LaunchMode::Acp
    } else if second && str_eq(args[1].as_str(), "server") {
        LaunchMode::Server
    } else if (second && str_eq(args[1].as_str(), "--child-mode")) || child_env {
        LaunchMode::Child
    } else if debug_build {
        LaunchMode::Child
    } else if guardian_enabled {
        LaunchMode::Guardian
    } else {
        LaunchMode::Child
    }
}

/// A service command of the `server` subcommand.
#[derive(Debug, Clone, Copy, PartialEq, Eq, Structural)]
pub enum ServiceCommand {
    Install,
    Uninstall,
    Status,
    Stop,
}

pub open spec fn service_command_of(args: Seq<Seq<char>>) -> Option<ServiceCommand> {
    if args.len() == 0 {
        None
    } else if args[0] == "install"@ {
        Some(ServiceCommand::Install)
    } else if args[0] == "uninstall"@ {
        Some(ServiceCommand::Uninstall)
    } else if args[0] == "status"@ {
        Some(ServiceCommand::Status)
    } else if args[0] == "stop"@ {
        Some(ServiceCommand::Stop)
    } else {
        None
    }
}

/// The service command named by the first argument after `server`, if any.
pub fn service_command(args: &[String]) -> (r: Option<ServiceCommand>)
    ensures
        r == service_command_of(strs_of(args@)),
{
    if args.len() == 0 {
        None
    } else if str_eq(args[0].as_str(), "install") {
        Some(ServiceCommand::Install)
    } else if str_eq(args[0].as_str(), "uninstall") {
        Some(ServiceCommand::Uninstall)
    } else if str_eq(args[0].as_str(), "status") {
        Some(ServiceCommand::Status)
    } else if str_eq(args[0].as_str(), "stop") {
        Some(ServiceCommand::Stop)
    } else {
        None
    }
}

/// How reading options ended.
#[derive(Debug, Clone, Copy, PartialEq, Eq, Structural)]
pub enum ArgsEnd {
    /// All arguments were read.
    Complete,
    /// `--help` or `-h`: print usage and stop.
    Help,
    /// `--version`: print the version and stop.
    Version,
}

/// Options of the `server` subcommand.
#[derive(Debug, Clone)]
pub struct ServerArgs {
    /// Address to listen on; `127.0.0.1:8420` unless `--bind`/`-b` gives one.
    pub bind: String,
    /// Key that clients must present (`--api-key`).
    pub api_key: Option<String>,
    pub end: ArgsEnd,
    /// Arguments that were not understood, in order, up to where reading ended.
    pub unknown: Vec<String>,
}

/// Server options as values: bind address, API key, how reading ended, unknown arguments.
pub type ServerArgsView = (Seq<char>, Option<Seq<char>>, ArgsEnd, Seq<Seq<char>>);

pub open spec fn opt_str(o: Option<String>) -> Option<Seq<char>> {
    match o {
        Some(s) => Some(s@),
        None => None,
    }
}

impl ServerArgs {
    pub open spec fn view_of(self) -> ServerArgsView {
        (self.bind@, opt_str(self.api_key), self.end, strs_of(self.unknown@))
    }
}

/// Reading the server options from position `i` on, with `acc` read so far.
/// An option that takes a value and comes last is ignored.
pub open spec fn scan_server(args: Seq<Seq<char>>, i: int, acc: ServerArgsView) -> ServerArgsView
    decreases args.len() - i,
{
    if i < 0 || i >= args.len() {
        acc
    } else {
        let a = args[i];
        if a == "--bind"@ || a == "-b"@ {
            if i + 1 < args.len() {
                scan_server(args, i + 2, (args[i + 1], acc.1, acc.2, acc.3))
            } else {
                acc
            }
        } else if a == "--api-key"@ {
            if i + 1 < args.len() {
                scan_server(args, i + 2, (acc.0, Some(args[i + 1]), acc.2, acc.3))
            } else {
                acc
            }
        } else if a == dangerous_flag() {
            scan_server(args, i + 1, acc)
        } else if a == "--version"@ {
            (acc.0, acc.1, ArgsEnd::Version, acc.3)
        } else if a == "--help"@ || a == "-h"@ {
            (acc.0, acc.1, ArgsEnd::Help, acc.3)
        } else {
            scan_server(args, i + 1, (acc.0, acc.1, acc.2, acc.3.push(a)))
        }
    }
}

/// The server options as read from the start.
pub open spec fn server_args_of(args: Seq<Seq<char>>) -> ServerArgsView {
    scan_server(args, 0, ("127.0.0.1:8420"@, None, ArgsEnd::Complete, seq![]))
}

/// Reads the options of the `server` subcommand (see `scan_server`).
pub fn parse_server_args(args: &[String]) -> (r: ServerArgs)
    ensures
        r.view_of() == server_args_of(strs_of(args@)),
{
    let ghost sa = strs_of(args@);
    let mut bind = crate::text::string_of(crate::text::chars_of("127.0.0.1:8420").as_slice());
    let mut api_key: Option<String> = None;
    let mut unknown: Vec<String> = Vec::new();
    let mut i: usize = 0;
    proof {
        reveal_strlit("127.0.0.1:8420");
    }
    assert(strs_of(unknown@) =~= Seq::<Seq<char>>::empty());
    while i < args.len()
        invariant
            i <= args@.len(),
            sa == strs_of(args@),
            scan_server(sa, i as int, (bind@, opt_str(api_key), ArgsEnd::Complete, strs_of(unknown@)))
                == server_args_of(sa),
        decreases args@.len() - i,
    {
        let a = args[i].as_str();
        assert(sa[i as int] == a@);
        if str_eq(a, "--bind") || str_eq(a, "-b") {
            if i + 1 < args.len() {
                bind = crate::text::owned_str(args[i + 1].as_str());
                assert(sa[i + 1] == bind@);
                i += 2;
            } else {
                let r = ServerArgs { bind, api_key, end: ArgsEnd::Complete, unknown };
                return r;
            }
        } else if str_eq(a, "--api-key") {
            if i + 1 < args.len() {
                api_key = Some(crate::text::owned_str(args[i + 1].as_str()));
                assert(sa[i + 1] == args@[i + 1]@);
                i += 2;
            } else {
                let r = ServerArgs { bind, api_key, end: ArgsEnd::Complete, unknown };
                return r;
            }
        } else if str_eq(a, "--dangerously-skip-all-approvals") {
            i += 1;
        } else if str_eq(a, "--version") {
            return ServerArgs { bind, api_key, end: ArgsEnd::Version, unknown };
        } else if str_eq(a, "--help") || str_eq(a, "-h") {
            return ServerArgs { bind, api_key, end: ArgsEnd::Help, unknown };
        } else {
            let ghost before = strs_of(unknown@);
            unknown.push(crate::text::owned_str(args[i].as_str()));
            assert(strs_of(unknown@) =~= before.push(a@));
            i += 1;
        }
    }
    ServerArgs { bind, api_key, end: ArgsEnd::Complete, unknown }
}

/// Options of the `acp` subcommand.
#[derive(Debug, Clone)]
pub struct AcpArgs {
    /// `--verbose`/`-v`: log to standard error.
    pub verbose: bool,
    /// Agent to serve; `default` unless `--agent-id`/`-a` gives one.
    pub agent_id: String,
    pub end: ArgsEnd,
    /// Arguments that were not understood, in order, up to where reading ended.
    pub unknown: Vec<String>,
}

/// ACP options as values: verbose, agent, how reading ended, unknown arguments.
pub type AcpArgsView = (bool, Seq<char>, ArgsEnd, Seq<Seq<char>>);

impl AcpArgs {
    pub open spec fn view_of(self) -> AcpArgsView {
        (self.verbose, self.agent_id@, self.end, strs_of(self.unknown@))
    }
}

/// Reading the ACP options from position `i` on, with `acc` read so far.
/// `--agent-id` as last argument is ignored.
pub open spec fn scan_acp(args: Seq<Seq<char>>, i: int, acc: AcpArgsView) -> AcpArgsView
    decreases args.len() - i,
{
    if i < 0 || i >= args.len() {
        acc
    } else {
        let a = args[i];
        if a == "--verbose"@ || a == "-v"@ {
            scan_acp(args, i + 1, (true, acc.1, acc.2, acc.3))
        } else if a == "--agent-id"@ || a == "-a"@ {
            if i + 1 < args.len() {
                scan_acp(args, i + 2, (acc.0, args[i + 1], acc.2, acc.3))
            } else {
                acc
            }
        } else if a == dangerous_flag() {
            scan_acp(args, i + 1, acc)
        } else if a == "--version"@ {
            (acc.0, acc.1, ArgsEnd::Version, acc.3)
        } else if a == "--help"@ || a == "-h"@ {
            (acc.0, acc.1, ArgsEnd::Help, acc.3)
        } else {
            scan_acp(args, i + 1, (acc.0, acc.1, acc.2, acc.3.push(a)))
        }
    }
}

/// The ACP options as read from the start.
pub open spec fn acp_args_of(args: Seq<Seq<char>>) -> AcpArgsView {
    scan_acp(args, 0, (false, "default"@, ArgsEnd::Complete, seq![]))
}

/// Reads the options of the `acp` subcommand (see `scan_acp`).
pub fn parse_acp_args(args: &[String]) -> (r: AcpArgs)
    ensures
        r.view_of() == acp_args_of(strs_of(args@)),
{
    let ghost sa = strs_of(args@);
    let mut verbose = false;
    let mut agent_id = crate::text::string_of(crate::text::chars_of("default").as_slice());
    let mut unknown: Vec<String> = Vec::new();
    let mut i: usize = 0;
    assert(strs_of(unknown@) =~= Seq::<Seq<char>>::empty());
    while i < args.len()
        invariant
            i <= args@.len(),
            sa == strs_of(args@),
            scan_acp(sa, i as int, (verbose, agent_id@, ArgsEnd::Complete, strs_of(unknown@)))
                == acp_args_of(sa),
        decreases args@.len() - i,
    {
        let a = args[i].as_str();
        assert(sa[i as int] == a@);
        if str_eq(a, "--verbose") || str_eq(a, "-v") {
            verbose = true;
            i += 1;
        } else if str_eq(a, "--agent-id") || str_eq(a, "-a") {
            if i + 1 < args.len() {
                agent_id = crate::text::owned_str(args[i + 1].as_str());
                assert(sa[i + 1] == agent_id@);
                i += 2;
            } else {
                return AcpArgs { verbose, agent_id, end: ArgsEnd::Complete, unknown };
            }
        } else if str_eq(a, "--dangerously-skip-all-approvals") {
            i += 1;
        } else if str_eq(a, "--version") {
            return AcpArgs { verbose, agent_id, end: ArgsEnd::Version, unknown };
        } else if str_eq(a, "--help") || str_eq(a, "-h") {
            return AcpArgs { verbose, agent_id, end: ArgsEnd::Help, unknown };
        } else {
            let ghost before = strs_of(unknown@);
            unknown.push(crate::text::owned_str(args[i].as_str()));
            assert(strs_of(unknown@) =~= before.push(a@));
            i += 1;
        }
    }
    AcpArgs { verbose, agent_id, end: ArgsEnd::Complete, unknown }
}

} // verus!
