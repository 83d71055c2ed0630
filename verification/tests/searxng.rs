use hope_core::searxng::{
    auto_start_decision, choose_port, choose_secret_key, container_logs_text, deploy_next, docker_run_args, docker_status_report,
    existing_secret_key, generate_secret_key, health_step, lifecycle_check, port_from_inspect, progress_json,
    running_from_inspect, sandbox_bind, sandbox_command, sandbox_container_name, sandbox_container_name_of,
    sandbox_env, sandbox_user, secret_key_hex, settings_yaml, settle_wait, status_cache_fresh, AutoStart, ContainerProbe,
    DeployAction, DeployEvent, DeployPhase, DeployProgress, EngineReport, EnvEntry, HealthStep, ProgressNote,
    SearchTest, WaitOutcome,
};

fn s(x: &str) -> String {
    x.to_string()
}

#[test]
fn progress_messages_are_json() {
    assert_eq!(progress_json(&ProgressNote::Step(s("pulling_image"))), r#"{"step":"pulling_image"}"#);
    assert_eq!(progress_json(&ProgressNote::Log(s(r#"say "hi" \ bye"#))), r#"{"log":"say \"hi\" \\ bye"}"#);
}

#[test]
fn progress_keeps_last_hundred_lines() {
    let mut p = DeployProgress::new();
    p.record(ProgressNote::Step(s("checking_docker")));
    for i in 0..150 {
        p.record(ProgressNote::Log(format!("line {}", i)));
    }
    assert_eq!(p.step.as_deref(), Some("checking_docker"));
    assert_eq!(p.logs.len(), 100);
    assert_eq!(p.logs[0], "line 50");
    assert_eq!(p.logs[99], "line 149");
}

#[test]
fn settings_file_text() {
    let plain = settings_yaml("abc", &None);
    assert_eq!(
        plain,
        "use_default_settings: true\nserver:\n  secret_key: \"abc\"\n  limiter: false\nsearch:\n  formats:\n    - html\n    - json\n"
    );
    let proxied = settings_yaml("abc", &Some(s("http://host.docker.internal:7890")));
    assert!(proxied.starts_with(&plain));
    assert_eq!(
        &proxied[plain.len()..],
        "outgoing:\n  proxies:\n    all://:\n      - http://host.docker.internal:7890\n  request_timeout: 10.0\n"
    );
}

#[test]
fn secret_key_reused_from_settings() {
    let text = "use_default_settings: true\nserver:\n  secret_key: \"\"\n  secret_key: 'k-1'\n";
    assert_eq!(existing_secret_key(text).as_deref(), Some("k-1"));
    assert_eq!(existing_secret_key("server:\n  secret_key:   \"  abc \"  \n").as_deref(), Some("abc"));
    assert_eq!(existing_secret_key("server:\n  limiter: false\n"), None);
    let written = settings_yaml("0123", &None);
    assert_eq!(existing_secret_key(&written).as_deref(), Some("0123"));
    assert_eq!(choose_secret_key(&Some(written)), "0123");
}

#[test]
fn secret_key_hex_is_32_digits() {
    assert_eq!(secret_key_hex(255), "000000000000000000000000000000ff");
    assert_eq!(secret_key_hex(u128::MAX), "ffffffffffffffffffffffffffffffff");
    let k = generate_secret_key();
    assert_eq!(k.len(), 32);
    assert!(k.chars().all(|c| c.is_ascii_digit() || ('a'..='f').contains(&c)));
    let fresh = choose_secret_key(&Some(s("server:\n  limiter: false\n")));
    assert_eq!(fresh.len(), 32);
    assert_ne!(fresh, "server:\n  limiter: false\n");
}

#[test]
fn run_arguments() {
    let args = docker_run_args(8081, "/home/u/.opencomputer/searxng/settings.yml", &None);
    assert_eq!(
        args,
        vec![
            "run",
            "-d",
            "--name",
            "opencomputer-searxng",
            "-p",
            "8081:8080",
            "-v",
            "/home/u/.opencomputer/searxng/settings.yml:/etc/searxng/settings.yml:ro",
            "-e",
            "SEARXNG_BASE_URL=http://localhost:8080",
            "searxng/searxng",
        ]
    );
    let with_proxy = docker_run_args(8080, "/s.yml", &Some(s("http://p:1")));
    assert_eq!(with_proxy.len(), 19);
    assert_eq!(with_proxy[10..18], ["-e", "HTTP_PROXY=http://p:1", "-e", "HTTPS_PROXY=http://p:1", "-e", "http_proxy=http://p:1", "-e", "https_proxy=http://p:1"]);
    assert_eq!(with_proxy[18], "searxng/searxng");
}

#[test]
fn container_logs_for_reports() {
    assert_eq!(container_logs_text(" out \n", "\terr\n"), "[stdout]\nout\n[stderr]\nerr");
    assert_eq!(container_logs_text("", " err "), "err");
    assert_eq!(container_logs_text(" out ", ""), "out");
    assert_eq!(container_logs_text("", ""), "");
}

#[test]
fn port_choice() {
    assert_eq!(choose_port(&vec![true]), 8080);
    assert_eq!(choose_port(&vec![false, false, true]), 8082);
    assert_eq!(choose_port(&vec![false; 10]), 8080);
    assert_eq!(choose_port(&vec![]), 8080);
}

#[test]
fn health_check_moves() {
    assert_eq!(health_step(1, 30, true), HealthStep::Healthy);
    assert_eq!(health_step(1, 30, false), HealthStep::Retry(2));
    assert_eq!(health_step(30, 30, false), HealthStep::GiveUp);
    assert_eq!(health_step(2, 2, true), HealthStep::Healthy);
}

#[test]
fn search_test_summary() {
    let engines = vec![
        Some(EngineReport { engine: s("google"), reason: Some(s("access denied")) }),
        None,
        Some(EngineReport { engine: s("brave"), reason: None }),
    ];
    let t = SearchTest::from_answer(7, &engines);
    assert!(t.ok);
    assert_eq!(t.result_count, 7);
    assert_eq!(t.unresponsive, vec!["google: access denied", "brave: unknown"]);
    let none = SearchTest::from_answer(0, &vec![]);
    assert!(!none.ok);
    let failed = SearchTest::failed();
    assert!(!failed.ok && failed.result_count == 0 && failed.unresponsive.is_empty());
}

fn probe(installed: bool, daemon: bool, exists: bool, running: bool, port: Option<u16>, health: bool) -> ContainerProbe {
    ContainerProbe { installed, daemon_running: daemon, exists, running, port, health_ok: health }
}

#[test]
fn status_report_gates_probes() {
    let mut progress = DeployProgress::new();
    progress.record(ProgressNote::Step(s("pulling_image")));
    progress.record(ProgressNote::Log(s("docker pull searxng/searxng")));
    let search = SearchTest::from_answer(3, &vec![Some(EngineReport { engine: s("bing"), reason: None })]);

    let r = docker_status_report(&probe(false, true, true, true, Some(8080), true), true, &progress, &search);
    assert!(!r.docker_installed && !r.docker_not_running && !r.container_exists && r.port.is_none());
    assert!(r.deploying);
    assert_eq!(r.deploy_step.as_deref(), Some("pulling_image"));
    assert_eq!(r.deploy_logs, vec!["docker pull searxng/searxng"]);

    let r = docker_status_report(&probe(true, false, true, true, Some(8080), true), false, &progress, &search);
    assert!(r.docker_installed && r.docker_not_running && !r.health_ok);
    assert!(r.deploy_step.is_none() && r.deploy_logs.is_empty());

    let r = docker_status_report(&probe(true, true, true, true, Some(8080), true), false, &progress, &search);
    assert!(r.container_running && r.health_ok && r.search_ok);
    assert_eq!(r.port, Some(8080));
    assert_eq!(r.search_result_count, 3);
    assert_eq!(r.unresponsive_engines, vec!["bing: unknown"]);

    let r = docker_status_report(&probe(true, true, true, false, Some(8080), true), false, &progress, &search);
    assert!(!r.health_ok && !r.search_ok && r.search_result_count == 0);

    let r = docker_status_report(&probe(true, true, false, false, Some(8080), false), false, &progress, &search);
    assert!(r.port.is_none());
    assert!(status_cache_fresh(4) && !status_cache_fresh(5));
}

#[test]
fn inspect_output() {
    assert!(running_from_inspect("true\n"));
    assert!(!running_from_inspect("false\n"));
    assert_eq!(port_from_inspect(" 8081\n"), Some(8081));
    assert_eq!(port_from_inspect("70000"), None);
    assert_eq!(port_from_inspect("<no value>"), None);
    assert!(lifecycle_check(false).is_ok());
    assert_eq!(lifecycle_check(true).unwrap_err(), "A deploy operation is in progress");
}

fn logs_of(notes: &[ProgressNote]) -> Vec<String> {
    notes
        .iter()
        .map(|n| match n {
            ProgressNote::Step(x) => format!("step:{}", x),
            ProgressNote::Log(x) => format!("log:{}", x),
        })
        .collect()
}

#[test]
fn deployment_happy_path() {
    let st = deploy_next(&DeployPhase::Idle, &DeployEvent::Begin);
    assert!(matches!(st.action, DeployAction::CheckDocker));
    assert_eq!(logs_of(&st.notes), vec!["step:checking_docker"]);

    let st = deploy_next(&st.phase, &DeployEvent::DockerChecked(true));
    assert!(matches!(st.action, DeployAction::StartPull));
    assert_eq!(logs_of(&st.notes), vec!["log:Docker daemon is available", "step:pulling_image", "log:docker pull searxng/searxng"]);

    let st = deploy_next(&st.phase, &DeployEvent::PullOutput(s("  Pulling fs layer  ")));
    assert!(matches!(st.action, DeployAction::ReadPull));
    assert_eq!(logs_of(&st.notes), vec!["log:Pulling fs layer"]);
    let st = deploy_next(&st.phase, &DeployEvent::PullOutput(s("   ")));
    assert!(st.notes.is_empty());

    let st = deploy_next(&st.phase, &DeployEvent::PullFinished { ok: true, stderr: s("") });
    assert!(matches!(st.action, DeployAction::RemoveOld));
    let st = deploy_next(&st.phase, &DeployEvent::OldRemoved(true));
    assert_eq!(logs_of(&st.notes), vec!["log:Removed old container", "step:injecting_config"]);
    assert!(matches!(st.action, DeployAction::PrepareConfig));

    let st = deploy_next(&st.phase, &DeployEvent::ConfigPrepared(Ok((s("/cfg/settings.yml"), Some(s("http://p:1"))))));
    assert_eq!(logs_of(&st.notes), vec!["log:Config: /cfg/settings.yml"]);
    assert!(matches!(st.action, DeployAction::FindPort));

    let st = deploy_next(&st.phase, &DeployEvent::PortFound(8082));
    assert_eq!(
        logs_of(&st.notes),
        vec![
            "log:Selected port: 8082",
            "step:starting_container",
            "log:Proxy: http://p:1",
            "log:docker run -d --name opencomputer-searxng -p 8082:8080 ...",
        ]
    );
    match &st.action {
        DeployAction::RunContainer(args) => assert_eq!(args, &docker_run_args(8082, "/cfg/settings.yml", &Some(s("http://p:1")))),
        _ => panic!("expected a docker run"),
    }

    let st = deploy_next(
        &st.phase,
        &DeployEvent::RunFinished { ok: true, stdout: s("0123456789abcdef0123\n"), stderr: s("") },
    );
    assert_eq!(
        logs_of(&st.notes),
        vec!["log:Container started (0123456789ab)", "step:health_check", "log:Waiting for health check on port 8082..."]
    );
    assert!(matches!(st.action, DeployAction::HealthCheck(8082)));

    let st = deploy_next(&st.phase, &DeployEvent::HealthChecked(true));
    assert_eq!(logs_of(&st.notes), vec!["log:Health check passed", "step:done", "log:Deployed at http://127.0.0.1:8082"]);
    match &st.action {
        DeployAction::Finish(Ok(url)) => assert_eq!(url, "http://127.0.0.1:8082"),
        _ => panic!("expected the service URL"),
    }
    assert!(matches!(st.phase, DeployPhase::Finished));
    let after = deploy_next(&st.phase, &DeployEvent::Begin);
    assert!(matches!(after.action, DeployAction::Ignore));
}

#[test]
fn deployment_failures() {
    let st = deploy_next(&DeployPhase::CheckingDocker, &DeployEvent::DockerChecked(false));
    assert_eq!(logs_of(&st.notes), vec!["log:ERROR: Docker daemon is not running"]);
    match &st.action {
        DeployAction::Finish(Err(e)) => assert_eq!(e, "Docker daemon is not running. Please start Docker Desktop first."),
        _ => panic!("expected a failure"),
    }

    let st = deploy_next(&DeployPhase::Pulling, &DeployEvent::PullFinished { ok: false, stderr: s("denied") });
    match &st.action {
        DeployAction::Finish(Err(e)) => assert_eq!(e, "docker pull failed: denied"),
        _ => panic!("expected a failure"),
    }

    let st = deploy_next(&DeployPhase::PreparingConfig, &DeployEvent::ConfigPrepared(Err(s("Failed to write SearXNG settings.yml"))));
    assert!(st.notes.is_empty());
    assert!(matches!(st.action, DeployAction::Finish(Err(_))));

    let st = deploy_next(&DeployPhase::Starting { port: 8080 }, &DeployEvent::RunFinished { ok: false, stdout: s(""), stderr: s("port busy") });
    assert_eq!(logs_of(&st.notes), vec!["log:ERROR: port busy"]);
    match &st.action {
        DeployAction::Finish(Err(e)) => assert_eq!(e, "docker run failed: port busy"),
        _ => panic!("expected a failure"),
    }

    let st = deploy_next(&DeployPhase::HealthChecking { port: 8080 }, &DeployEvent::HealthChecked(false));
    assert!(matches!(st.action, DeployAction::FetchLogs));
    let st = deploy_next(&st.phase, &DeployEvent::LogsFetched(s("boom")));
    assert_eq!(logs_of(&st.notes), vec!["log:ERROR: Health check timed out. Logs:\nboom"]);
    match &st.action {
        DeployAction::Finish(Err(e)) => assert_eq!(e, "Health check timed out (30s). Container logs:\nboom"),
        _ => panic!("expected a failure"),
    }

    let st = deploy_next(&DeployPhase::Pulling, &DeployEvent::PortFound(1));
    assert!(matches!(st.action, DeployAction::Ignore));
    assert!(matches!(st.phase, DeployPhase::Pulling));
}

#[test]
fn sandbox_pieces() {
    let env = vec![
        EnvEntry { key: s("A"), text: Some(s("1")) },
        EnvEntry { key: s("B"), text: None },
        EnvEntry { key: s("C"), text: Some(s("x=y")) },
    ];
    assert_eq!(sandbox_env(&env), Some(vec![s("A=1"), s("C=x=y")]));
    assert_eq!(sandbox_env(&vec![EnvEntry { key: s("B"), text: None }]), None);
    assert_eq!(sandbox_command("ls -la"), vec!["sh", "-c", "ls -la"]);
    assert_eq!(sandbox_bind("/home/u/p"), "/home/u/p:/workspace");
    assert_eq!(sandbox_user(Some((501, 20))).as_deref(), Some("501:20"));
    assert_eq!(sandbox_user(None), None);
    assert_eq!(
        sandbox_container_name_of("1b4e28ba-2fa1-11d2-883f-0016d3cca427"),
        "opencomputer-sandbox-1b4e28ba"
    );
    let name = sandbox_container_name();
    assert!(name.starts_with("opencomputer-sandbox-"));
    let id = &name["opencomputer-sandbox-".len()..];
    assert_eq!(id.len(), 8);
    assert!(id.chars().all(|c| c.is_ascii_hexdigit()));
    assert_eq!(settle_wait(&WaitOutcome::Exited(3)), Ok((3, false)));
    assert_eq!(settle_wait(&WaitOutcome::TimedOut), Ok((-1, true)));
    assert_eq!(settle_wait(&WaitOutcome::Failed(s("gone"))), Err(s("Container execution failed: gone")));
}

#[test]
fn auto_start_at_launch() {
    let progress = DeployProgress::new();
    let stopped = docker_status_report(&probe(true, true, true, false, Some(8080), false), false, &progress, &SearchTest::failed());
    assert_eq!(auto_start_decision(Some(true), true, &stopped), AutoStart::StartContainer);
    assert_eq!(auto_start_decision(None, true, &stopped), AutoStart::NotWanted);
    assert_eq!(auto_start_decision(Some(true), false, &stopped), AutoStart::NotWanted);
    let healthy = docker_status_report(&probe(true, true, true, true, Some(8080), true), false, &progress, &SearchTest::failed());
    assert_eq!(auto_start_decision(Some(true), true, &healthy), AutoStart::AlreadyRunning);
    let no_daemon = docker_status_report(&probe(true, false, false, false, None, false), false, &progress, &SearchTest::failed());
    assert_eq!(auto_start_decision(Some(true), true, &no_daemon), AutoStart::DockerUnavailable);
    let missing = docker_status_report(&probe(true, true, false, false, None, false), false, &progress, &SearchTest::failed());
    assert_eq!(auto_start_decision(Some(true), true, &missing), AutoStart::Nothing);
}
