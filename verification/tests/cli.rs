use hope_core::cli::{
    has_dangerous_flag, launch_mode, parse_acp_args, parse_server_args, service_command, ArgsEnd,
    LaunchMode, ServiceCommand,
};

fn args(v: &[&str]) -> Vec<String> {
    v.iter().map(|s| s.to_string()).collect()
}

#[test]
fn server_args_defaults() {
    let a = parse_server_args(&args(&[]));
    assert_eq!(a.bind, "127.0.0.1:8420");
    assert_eq!(a.api_key, None);
    assert_eq!(a.end, ArgsEnd::Complete);
    assert!(a.unknown.is_empty());
}

#[test]
fn server_args_bind_key_and_unknown() {
    let a = parse_server_args(&args(&["-b", "0.0.0.0:9000", "--weird", "--api-key", "k1", "--dangerously-skip-all-approvals"]));
    assert_eq!(a.bind, "0.0.0.0:9000");
    assert_eq!(a.api_key, Some("k1".to_string()));
    assert_eq!(a.end, ArgsEnd::Complete);
    assert_eq!(a.unknown, vec!["--weird".to_string()]);
}

#[test]
fn server_args_help_and_version_stop_reading() {
    let a = parse_server_args(&args(&["--bind", "x:1", "--help", "--api-key", "k"]));
    assert_eq!(a.end, ArgsEnd::Help);
    assert_eq!(a.bind, "x:1");
    assert_eq!(a.api_key, None);
    let b = parse_server_args(&args(&["--version", "--bind", "y:2"]));
    assert_eq!(b.end, ArgsEnd::Version);
    assert_eq!(b.bind, "127.0.0.1:8420");
    let c = parse_server_args(&args(&["--bind"]));
    assert_eq!(c.bind, "127.0.0.1:8420");
    assert_eq!(c.end, ArgsEnd::Complete);
}

#[test]
fn acp_args() {
    let a = parse_acp_args(&args(&["-v", "-a", "coder", "extra"]));
    assert!(a.verbose);
    assert_eq!(a.agent_id, "coder");
    assert_eq!(a.unknown, vec!["extra".to_string()]);
    assert_eq!(a.end, ArgsEnd::Complete);
    let b = parse_acp_args(&args(&[]));
    assert!(!b.verbose);
    assert_eq!(b.agent_id, "default");
    assert_eq!(parse_acp_args(&args(&["-h"])).end, ArgsEnd::Help);
}

#[test]
fn launch_modes() {
    assert_eq!(launch_mode(&args(&["app", "acp"]), false, false, true), LaunchMode::Acp);
    assert_eq!(launch_mode(&args(&["app", "server"]), false, false, true), LaunchMode::Server);
    assert_eq!(launch_mode(&args(&["app", "--child-mode"]), false, false, true), LaunchMode::Child);
    assert_eq!(launch_mode(&args(&["app"]), true, false, true), LaunchMode::Child);
    assert_eq!(launch_mode(&args(&["app"]), false, true, true), LaunchMode::Child);
    assert_eq!(launch_mode(&args(&["app"]), false, false, true), LaunchMode::Guardian);
    assert_eq!(launch_mode(&args(&["app"]), false, false, false), LaunchMode::Child);
}

#[test]
fn service_commands_and_dangerous_flag() {
    assert_eq!(service_command(&args(&["install", "--bind", "x"])), Some(ServiceCommand::Install));
    assert_eq!(service_command(&args(&["stop"])), Some(ServiceCommand::Stop));
    assert_eq!(service_command(&args(&["--bind", "x"])), None);
    assert_eq!(service_command(&args(&[])), None);
    assert!(has_dangerous_flag(&args(&["app", "server", "--dangerously-skip-all-approvals"])));
    assert!(!has_dangerous_flag(&args(&["app", "server"])));
}
