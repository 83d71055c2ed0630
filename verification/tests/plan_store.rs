use hope_core::plan::{
    backup_file_name, backup_version, checkpoint_branch_name, parse_u32, plan_file_name,
    result_file_name, sort_versions, PlanModeState, PlanStepStatus, PlanStore, PlanVersionInfo,
};

#[test]
fn file_and_branch_names() {
    assert_eq!(plan_file_name("abcdef1234567", "20260321-103000"), "plan-abcdef12-20260321-103000.md");
    assert_eq!(result_file_name("xy", "20260321-103000"), "result-xy-20260321-103000.md");
    assert_eq!(
        checkpoint_branch_name("abcdef1234567", "20260321103000"),
        "opencomputer/checkpoint-abcdef12-20260321103000"
    );
    assert_eq!(plan_file_name("密钥🔑abc", "t"), "plan-密钥-t.md");
}

#[test]
fn backup_names_read_back() {
    assert_eq!(backup_file_name("plan-ab-1", 3), "plan-ab-1-v3.md");
    assert_eq!(backup_version("plan-ab-1-v3.md", "plan-ab-1"), Some(3));
    assert_eq!(backup_version("plan-ab-1-v12.md", "plan-ab-1"), Some(12));
    assert_eq!(backup_version("plan-ab-1.md", "plan-ab-1"), None);
    assert_eq!(backup_version("plan-ab-1-vx.md", "plan-ab-1"), None);
    assert_eq!(backup_version("other-v3.md", "plan-ab-1"), None);
    for v in [0u32, 1, 9, 10, 4294967295] {
        assert_eq!(backup_version(&backup_file_name("s", v), "s"), Some(v));
    }
}

#[test]
fn u32_parsing() {
    let p = |s: &str| parse_u32(&s.chars().collect::<Vec<char>>());
    assert_eq!(p("42"), Some(42));
    assert_eq!(p("+7"), Some(7));
    assert_eq!(p("4294967295"), Some(4294967295));
    assert_eq!(p("4294967296"), None);
    assert_eq!(p(""), None);
    assert_eq!(p("+"), None);
    assert_eq!(p("-1"), None);
    assert_eq!(p("1a"), None);
    for s in ["0", "+0", "00012", "99999999999", " 1"] {
        assert_eq!(p(s), s.parse::<u32>().ok());
    }
}

#[test]
fn versions_newest_first() {
    let v = |n: u32, cur: bool| PlanVersionInfo {
        version: n,
        file_path: format!("p{}", n),
        modified_at: String::new(),
        is_current: cur,
    };
    let sorted = sort_versions(vec![v(2, false), v(5, true), v(1, false), v(3, false)]);
    let got: Vec<u32> = sorted.iter().map(|x| x.version).collect();
    assert_eq!(got, vec![5, 3, 2, 1]);
    assert!(sorted[0].is_current);
}

#[test]
fn store_states_and_steps() {
    let mut s = PlanStore::new();
    assert_eq!(s.state("a"), PlanModeState::Off);
    s.set_state("a", PlanModeState::Planning, "/p/a.md".to_string(), "t1".to_string());
    assert_eq!(s.state("a"), PlanModeState::Planning);
    assert_eq!(s.state("b"), PlanModeState::Off);
    let m = s.meta("a").unwrap();
    assert_eq!(m.file_path, "/p/a.md");
    assert_eq!(m.version, 1);
    assert!(m.steps.is_empty());
    let steps = hope_core::plan::parse_plan_steps("### P\n- [ ] one\n- [x] two\n- [ ] three");
    assert!(s.update_steps("a", steps, "t2".to_string()));
    assert!(!s.update_steps("zz", vec![], "t2".to_string()));
    assert!(s.update_step_status("a", 0, PlanStepStatus::InProgress, Some(5), "t3".to_string()));
    s.set_state("a", PlanModeState::Paused, String::new(), "t4".to_string());
    assert_eq!(s.meta("a").unwrap().paused_at_step, Some(0));
    s.set_state("a", PlanModeState::Executing, String::new(), "t5".to_string());
    assert_eq!(s.meta("a").unwrap().paused_at_step, None);
    assert_eq!(s.meta("a").unwrap().updated_at, "t5");
    assert_eq!(s.meta("a").unwrap().steps[0].duration_ms, Some(5));
    s.bump_version("a");
    assert_eq!(s.version("a"), 2);
    assert_eq!(s.version("nobody"), 1);
    s.set_checkpoint("a", "opencomputer/checkpoint-a-1".to_string());
    assert_eq!(s.checkpoint("a"), Some("opencomputer/checkpoint-a-1".to_string()));
    s.set_file_path("a", "/p/a2.md".to_string());
    assert_eq!(s.meta("a").unwrap().file_path, "/p/a2.md");
    s.set_state("a", PlanModeState::Off, String::new(), "t6".to_string());
    assert_eq!(s.state("a"), PlanModeState::Off);
    assert!(s.meta("a").is_none());
}

#[test]
fn store_restore() {
    let mut s = PlanStore::new();
    s.restore("a", "off", vec![], Some("- [ ] x".to_string()), String::new(), "t".to_string());
    assert_eq!(s.state("a"), PlanModeState::Off);
    s.restore("a", "executing", vec![], Some("### P\n- [ ] x\n- [x] y".to_string()), "/p".to_string(), "t".to_string());
    let m = s.meta("a").unwrap();
    assert_eq!(m.state, PlanModeState::Executing);
    assert_eq!(m.steps.len(), 2);
    assert_eq!(m.steps[1].status, PlanStepStatus::Completed);
    let saved = hope_core::plan::parse_plan_steps("- [ ] only");
    s.restore("a", "paused", saved, Some("- [ ] x\n- [ ] y".to_string()), "/p".to_string(), "t".to_string());
    assert_eq!(s.meta("a").unwrap().steps.len(), 1);
    assert_eq!(s.state("a"), PlanModeState::Paused);
}
