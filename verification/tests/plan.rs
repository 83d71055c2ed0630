use hope_core::plan::{
    is_plan_mode_path_allowed, parse_plan_steps, plan_path_allowed_given, result_markdown,
    PlanMeta, PlanModeState, PlanStep, PlanStepStatus,
};

const PLAN_MD: &str = "\
### Phase 1: Analysis
- [ ] Read config files at src/config.ts
- [x] Analyze CSS variables in theme.css
### Phase 2: Implementation
- [ ] Add ThemeProvider component
- [ ] Create toggle button";

fn check_parsed_steps() {
    let steps = parse_plan_steps(PLAN_MD);
    assert_eq!(steps.len(), 4);
    assert_eq!(steps[0].phase, "Phase 1: Analysis");
    assert_eq!(steps[0].title, "Read config files at src/config.ts");
    assert_eq!(steps[0].status, PlanStepStatus::Pending);
    assert_eq!(steps[1].status, PlanStepStatus::Completed);
    assert_eq!(steps[2].phase, "Phase 2: Implementation");
    assert_eq!(steps[2].index, 2);
}

fn check_state_roundtrip() {
    assert_eq!(PlanModeState::from_str("planning"), PlanModeState::Planning);
    assert_eq!(PlanModeState::from_str("review"), PlanModeState::Review);
    assert_eq!(PlanModeState::from_str("executing"), PlanModeState::Executing);
    assert_eq!(PlanModeState::from_str("paused"), PlanModeState::Paused);
    assert_eq!(PlanModeState::from_str("completed"), PlanModeState::Completed);
    assert_eq!(PlanModeState::from_str("off"), PlanModeState::Off);
    assert_eq!(PlanModeState::from_str("unknown"), PlanModeState::Off);
    assert_eq!(PlanModeState::Planning.as_str(), "planning");
    assert_eq!(PlanModeState::Review.as_str(), "review");
    assert_eq!(PlanModeState::Paused.as_str(), "paused");
    assert_eq!(PlanModeState::Completed.as_str(), "completed");
}

#[test]
fn plan_test_parse_plan_steps() {
    check_parsed_steps();
}

#[test]
fn plan_test_plan_mode_state_roundtrip() {
    check_state_roundtrip();
}

#[test]
fn tests_test_parse_plan_steps() {
    check_parsed_steps();
}

#[test]
fn tests_test_plan_mode_state_roundtrip() {
    check_state_roundtrip();
}

fn step(index: usize, phase: &str, title: &str, status: PlanStepStatus, d: Option<u64>) -> PlanStep {
    PlanStep {
        index,
        phase: phase.to_string(),
        title: title.to_string(),
        description: String::new(),
        status,
        duration_ms: d,
    }
}

fn meta(steps: Vec<PlanStep>) -> PlanMeta {
    let mut m = PlanMeta::new_for("s1".to_string(), "/p.md".to_string(), PlanModeState::Executing, "t0".to_string());
    m.steps = steps;
    m
}

#[test]
fn step_status_names_round_trip() {
    for s in [
        PlanStepStatus::Pending,
        PlanStepStatus::InProgress,
        PlanStepStatus::Completed,
        PlanStepStatus::Skipped,
        PlanStepStatus::Failed,
    ] {
        assert_eq!(PlanStepStatus::from_str(s.as_str()), s);
    }
    assert_eq!(PlanStepStatus::from_str("bogus"), PlanStepStatus::Pending);
    assert!(PlanStepStatus::Skipped.is_terminal());
    assert!(!PlanStepStatus::InProgress.is_terminal());
}

#[test]
fn completed_count_and_all_terminal() {
    let m = meta(vec![
        step(0, "A", "a", PlanStepStatus::Completed, None),
        step(1, "A", "b", PlanStepStatus::Failed, None),
        step(2, "B", "c", PlanStepStatus::Pending, None),
    ]);
    assert_eq!(m.completed_count(), 2);
    assert!(!m.all_terminal());
    let done = meta(vec![step(0, "A", "a", PlanStepStatus::Skipped, None)]);
    assert!(done.all_terminal());
    assert!(!meta(vec![]).all_terminal());
}

#[test]
fn pausing_records_resume_point() {
    let mut m = meta(vec![
        step(0, "A", "a", PlanStepStatus::Completed, None),
        step(1, "A", "b", PlanStepStatus::Pending, None),
        step(2, "A", "c", PlanStepStatus::InProgress, None),
    ]);
    m.apply_state(PlanModeState::Paused, "t1".to_string());
    assert_eq!(m.paused_at_step, Some(2));
    assert_eq!(m.state, PlanModeState::Paused);
    m.apply_state(PlanModeState::Executing, "t2".to_string());
    assert_eq!(m.paused_at_step, None);
    assert_eq!(m.updated_at, "t2");
}

#[test]
fn set_step_status_updates_only_that_step() {
    let mut m = meta(vec![
        step(0, "A", "a", PlanStepStatus::Pending, Some(5)),
        step(1, "A", "b", PlanStepStatus::Pending, None),
    ]);
    assert!(m.set_step_status(0, PlanStepStatus::Completed, None, "t1".to_string()));
    assert_eq!(m.steps[0].status, PlanStepStatus::Completed);
    assert_eq!(m.steps[0].duration_ms, Some(5));
    assert_eq!(m.steps[1].status, PlanStepStatus::Pending);
    assert!(!m.set_step_status(7, PlanStepStatus::Failed, Some(1), "t2".to_string()));
    assert_eq!(m.updated_at, "t1");
}

#[test]
fn plan_paths_allowed_while_planning() {
    let md = Some("md".to_string());
    assert!(plan_path_allowed_given(&md, "/home/u/.opencomputer/plans/plan-1.md", &None));
    assert!(plan_path_allowed_given(&md, "C:\\Users\\u\\.opencomputer\\plans\\p.md", &None));
    assert!(plan_path_allowed_given(&md, "/data/plans/x.md", &Some("/data/plans".to_string())));
    assert!(!plan_path_allowed_given(&md, "/src/main.rs", &None));
    assert!(!plan_path_allowed_given(&Some("rs".to_string()), "/home/u/.opencomputer/plans/a.rs", &None));
    assert!(!plan_path_allowed_given(&None, "/home/u/.opencomputer/plans/README", &None));
    // The extension is read with Path::extension.
    assert!(is_plan_mode_path_allowed("/x/.opencomputer/plans/p.md"));
    assert!(!is_plan_mode_path_allowed("/x/.opencomputer/plans/p.txt"));
}

#[test]
fn result_report_lists_steps_and_counts() {
    let steps = vec![
        step(0, "P1", "first", PlanStepStatus::Completed, Some(12)),
        step(1, "P1", "second", PlanStepStatus::Failed, None),
        step(2, "P2", "third", PlanStepStatus::Skipped, None),
    ];
    let md = result_markdown("Title", "2024-01-02 03:04:05", &steps, "All good");
    let expected = "# 执行结果: Title\n\n> 执行时间: 2024-01-02 03:04:05\n\n## 步骤执行情况\n\n### P1\n\n- ✅ first (12ms)\n- ❌ second\n### P2\n\n- ⏭️ third\n\n## 统计\n\n- 完成: 1\n- 失败: 1\n- 跳过: 1\n- 总计: 3\n\n## 总结\n\nAll good\n";
    assert_eq!(md, expected);
}

#[test]
fn plan_paths_go_by_the_file_names_extension() {
    assert!(!is_plan_mode_path_allowed("/x/.opencomputer/plans/.md"));
    assert!(is_plan_mode_path_allowed("/x/.opencomputer/plans/..md"));
    assert!(is_plan_mode_path_allowed("/x/.opencomputer/plans/a.b.md"));
    assert!(!is_plan_mode_path_allowed("/x/.opencomputer/plans/md"));
    assert!(!is_plan_mode_path_allowed("/x/.opencomputer/plans/p.md.bak"));
}
