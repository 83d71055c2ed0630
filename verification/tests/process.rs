use hope_core::process::{
    create_session_id, derive_session_name, append_to_session, ProcessRegistry, ProcessSession,
    ProcessStatus,
};

fn session(id: &str, started_at: u64, max: usize) -> ProcessSession {
    ProcessSession {
        id: id.to_string(),
        command: "ls".to_string(),
        pid: Some(1),
        cwd: "/".to_string(),
        started_at,
        exited: false,
        exit_code: None,
        exit_signal: None,
        status: ProcessStatus::Running,
        backgrounded: false,
        aggregated_output: String::new(),
        tail: String::new(),
        truncated: false,
        max_output_chars: max,
        pending_stdout: String::new(),
        pending_stderr: String::new(),
    }
}

#[test]
fn add_get_remove() {
    let mut r = ProcessRegistry::new();
    r.add_session(session("a", 1, 100));
    r.add_session(session("b", 2, 100));
    assert_eq!(r.get_session("a").unwrap().started_at, 1);
    r.add_session(session("a", 9, 100));
    assert_eq!(r.get_session("a").unwrap().started_at, 9);
    assert_eq!(r.list_all().len(), 2);
    let removed = r.remove_session("a").unwrap();
    assert_eq!(removed.started_at, 9);
    assert!(r.get_session("a").is_none());
    assert!(r.remove_session("zzz").is_none());
}

#[test]
fn output_is_capped_tailed_and_drained() {
    let mut r = ProcessRegistry::new();
    r.add_session(session("p", 0, 5));
    r.append_output("p", "stdout", "abc");
    r.append_output("p", "stderr", "defg");
    let s = r.get_session("p").unwrap();
    assert_eq!(s.aggregated_output, "abcde");
    assert!(s.truncated);
    assert_eq!(s.tail, "abcdefg");
    let (out, err) = r.drain_output("p");
    assert_eq!(out, "abc");
    assert_eq!(err, "defg");
    let (out2, err2) = r.drain_output("p");
    assert_eq!(out2, "");
    assert_eq!(err2, "");
    let (x, y) = r.drain_output("missing");
    assert_eq!((x.as_str(), y.as_str()), ("", ""));
}

#[test]
fn tail_keeps_last_bytes() {
    let mut s = session("t", 0, 10);
    append_to_session(&mut s, "other", &"x".repeat(1500));
    append_to_session(&mut s, "other", &"y".repeat(1000));
    assert_eq!(s.tail.len(), 2000);
    assert!(s.tail.ends_with(&"y".repeat(1000)));
    assert!(s.tail.starts_with(&"x".repeat(1000)));
    assert_eq!(s.pending_stdout, "");
}

#[test]
fn exit_and_listing() {
    let mut r = ProcessRegistry::new();
    r.add_session(session("a", 100, 10));
    r.add_session(session("b", 100, 10));
    r.mark_exited("a", Some(0), None, ProcessStatus::Completed);
    assert_eq!(r.list_running().len(), 1);
    assert_eq!(r.list_finished()[0].id, "a");
    assert_eq!(r.get_session("a").unwrap().status.as_str(), "completed");
    r.cleanup_old_sessions_at(200, 50);
    assert!(r.get_session("a").is_none());
    assert!(r.get_session("b").is_some());
}

#[test]
fn mutable_access_changes_the_stored_session() {
    let mut r = ProcessRegistry::new();
    r.add_session(session("a", 1, 10));
    r.get_session_mut("a").unwrap().backgrounded = true;
    assert!(r.get_session("a").unwrap().backgrounded);
    assert!(r.get_session_mut("b").is_none());
}

#[test]
fn session_names_and_ids() {
    assert_eq!(derive_session_name("  npm run dev  "), "npm run dev");
    let long = "a".repeat(70);
    assert_eq!(derive_session_name(&long), format!("{}\u{2026}", "a".repeat(57)));
    let id = create_session_id();
    assert_eq!(id.len(), 8);
    assert!(id.chars().all(|c| c.is_ascii_hexdigit() || c == '-'));
}

#[test]
fn running_and_finished_make_up_all_sessions() {
    let mut r = ProcessRegistry::new();
    r.add_session(session("a", 1, 10));
    r.add_session(session("b", 2, 10));
    r.add_session(session("c", 3, 10));
    r.mark_exited("b", Some(1), None, ProcessStatus::Failed);
    assert_eq!(r.list_running().len() + r.list_finished().len(), r.list_all().len());
    assert_eq!(r.list_finished().len(), 1);
}

#[test]
fn drain_keeps_every_other_field() {
    let mut r = ProcessRegistry::new();
    r.add_session(session("p", 7, 100));
    r.append_output("p", "stdout", "out");
    r.append_output("p", "stderr", "err");
    let before = r.get_session("p").unwrap().clone();
    let (o, e) = r.drain_output("p");
    assert_eq!((o.as_str(), e.as_str()), ("out", "err"));
    let after = r.get_session("p").unwrap();
    assert_eq!(after.pending_stdout, "");
    assert_eq!(after.pending_stderr, "");
    assert_eq!(after.started_at, before.started_at);
    assert_eq!(after.truncated, before.truncated);
    assert_eq!(after.aggregated_output, before.aggregated_output);
    assert_eq!(after.tail, before.tail);
    assert_eq!(after.command, before.command);
    let (o2, e2) = r.drain_output("p");
    assert_eq!((o2.as_str(), e2.as_str()), ("", ""));
}
