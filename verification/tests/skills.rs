use hope_core::skills::frontmatter_ok_exec;
use hope_core::catalog::{build_skills_prompt, check_all_skills_status, compact_path};
use hope_core::skills::{
    check_requirements, check_requirements_detail, is_masked_value, mask_value,
    normalize_skill_command_name, parse_bool_value, parse_frontmatter, parse_install_specs,
    parse_requires, requirement_facts, unquote, RequirementFacts, SkillEntry, SkillPromptBudget,
    SkillRequires, DEFAULT_MAX_CANDIDATES_PER_ROOT, DEFAULT_MAX_SKILL_FILE_BYTES,
};

fn make_skill(name: &str, desc: &str) -> SkillEntry {
    SkillEntry {
        name: name.to_string(),
        description: desc.to_string(),
        source: "managed".to_string(),
        file_path: format!("/tmp/{}/SKILL.md", name),
        base_dir: format!("/tmp/{}", name),
        requires: SkillRequires::default(),
        skill_key: None,
        user_invocable: None,
        disable_model_invocation: None,
        command_dispatch: None,
        command_tool: None,
        command_arg_mode: None,
        command_arg_placeholder: None,
        command_arg_options: None,
        command_prompt_template: None,
        install: vec![],
        allowed_tools: vec![],
        context_mode: None,
    }
}

fn make_skill_with_path(name: &str, desc: &str, path: &str) -> SkillEntry {
    let mut s = make_skill(name, desc);
    s.file_path = path.to_string();
    s
}

/// What the environment of these tests answers for a skill's requirements: the
/// OS, which binaries exist (only `sh` among those named here), and no env var set.
fn facts_for(req: &SkillRequires, configured: &Vec<(String, String)>) -> RequirementFacts {
    let os = "linux".to_string();
    let bins: Vec<bool> = req.bins.iter().map(|b| b == "sh").collect();
    let any: Vec<bool> = req.any_bins.iter().map(|b| b == "sh").collect();
    let sys: Vec<bool> = req.env.iter().map(|_| false).collect();
    requirement_facts(req, os, bins, any, configured, sys)
}

#[test]
fn test_parse_frontmatter_basic() {
    let content = r#"---
name: github
description: "GitHub operations via gh CLI"
---

# GitHub Skill

Use the gh CLI.
"#;
    let parsed = parse_frontmatter(content).unwrap();
    assert_eq!(parsed.name, "github");
    assert_eq!(parsed.description, "GitHub operations via gh CLI");
    assert!(parsed.body.contains("# GitHub Skill"));
    assert!(parsed.skill_key.is_none());
    assert!(parsed.user_invocable.is_none());
}

#[test]
fn test_parse_frontmatter_extended() {
    let content = r#"---
name: slack
description: "Slack messaging"
skillKey: slack-custom
user-invocable: true
disable-model-invocation: false
command-dispatch: tool
command-tool: slack_send
---

Body
"#;
    let parsed = parse_frontmatter(content).unwrap();
    assert_eq!(parsed.name, "slack");
    assert_eq!(parsed.skill_key.as_deref(), Some("slack-custom"));
    assert_eq!(parsed.user_invocable, Some(true));
    assert_eq!(parsed.disable_model_invocation, Some(false));
    assert_eq!(parsed.command_dispatch.as_deref(), Some("tool"));
    assert_eq!(parsed.command_tool.as_deref(), Some("slack_send"));
}

#[test]
fn test_parse_frontmatter_unquoted() {
    let content = "---\nname: my-skill\ndescription: A simple skill\n---\nBody here";
    let parsed = parse_frontmatter(content).unwrap();
    assert_eq!(parsed.name, "my-skill");
    assert_eq!(parsed.description, "A simple skill");
}

#[test]
fn test_parse_frontmatter_missing_name() {
    let content = "---\ndescription: No name\n---\nBody";
    assert!(parse_frontmatter(content).is_none());
}

#[test]
fn test_parse_frontmatter_no_frontmatter() {
    let content = "Just regular markdown";
    assert!(parse_frontmatter(content).is_none());
}

#[test]
fn test_parse_requires_inline() {
    let yaml = "name: git\ndescription: d\nrequires:\n  bins: [git, gh]\n  env: [GITHUB_TOKEN]\n  os: [darwin, linux]\n";
    let req = parse_requires(yaml);
    assert_eq!(req.bins, vec!["git", "gh"]);
    assert_eq!(req.env, vec!["GITHUB_TOKEN"]);
    assert_eq!(req.os, vec!["darwin", "linux"]);
}

#[test]
fn test_parse_requires_list_style() {
    let yaml = "name: git\ndescription: d\nrequires:\n  bins:\n    - git\n    - gh\n  env:\n    - GITHUB_TOKEN\n";
    let req = parse_requires(yaml);
    assert_eq!(req.bins, vec!["git", "gh"]);
    assert_eq!(req.env, vec!["GITHUB_TOKEN"]);
}

#[test]
fn test_parse_requires_any_bins() {
    let yaml = "name: test\ndescription: d\nrequires:\n  anyBins: [rg, grep]\n  bins: [git]\n";
    let req = parse_requires(yaml);
    assert_eq!(req.bins, vec!["git"]);
    assert_eq!(req.any_bins, vec!["rg", "grep"]);
}

#[test]
fn test_parse_requires_always() {
    let yaml = "name: test\ndescription: d\nalways: true\nrequires:\n  bins: [nonexistent_binary_xyz]\n";
    let req = parse_requires(yaml);
    assert!(req.always);
    assert_eq!(req.bins, vec!["nonexistent_binary_xyz"]);
}

#[test]
fn test_parse_requires_primary_env() {
    let yaml =
        "name: test\ndescription: d\nprimaryEnv: MY_API_KEY\nrequires:\n  env: [MY_API_KEY]\n";
    let req = parse_requires(yaml);
    assert_eq!(req.primary_env.as_deref(), Some("MY_API_KEY"));
    assert_eq!(req.env, vec!["MY_API_KEY"]);
}

#[test]
fn test_parse_requires_config() {
    let yaml = "name: test\ndescription: d\nrequires:\n  config: [webSearch.provider]\n";
    let req = parse_requires(yaml);
    assert_eq!(req.config, vec!["webSearch.provider"]);
}

#[test]
fn test_parse_install_specs() {
    let yaml = r#"name: test
description: d
install:
  - kind: brew
    formula: gh
    bins: [gh]
    label: "Install GitHub CLI"
  - kind: node
    package: "@anthropic-ai/sdk"
"#;
    let specs = parse_install_specs(yaml);
    assert_eq!(specs.len(), 2);
    assert_eq!(specs[0].kind, "brew");
    assert_eq!(specs[0].formula.as_deref(), Some("gh"));
    assert_eq!(specs[0].bins, vec!["gh"]);
    assert_eq!(specs[0].label.as_deref(), Some("Install GitHub CLI"));
    assert_eq!(specs[1].kind, "node");
    assert_eq!(specs[1].package.as_deref(), Some("@anthropic-ai/sdk"));
}

#[test]
fn test_build_skills_prompt_empty() {
    assert_eq!(
        build_skills_prompt(&vec![], &vec![], false, &vec![], &SkillPromptBudget::default(), &vec![]),
        ""
    );
}

#[test]
fn test_build_skills_prompt_full_format() {
    let skills = vec![make_skill_with_path(
        "github",
        "GitHub ops",
        "/home/user/skills/github/SKILL.md",
    )];
    let prompt = build_skills_prompt(
        &skills,
        &vec![],
        false,
        &vec![],
        &SkillPromptBudget::default(),
        &vec![],
    );
    assert!(prompt.contains("- github: GitHub ops (read:"));
    assert!(prompt.contains("SKILL.md"));
    assert!(prompt.contains("read"));
}

#[test]
fn test_build_skills_prompt_disabled() {
    let skills = vec![make_skill("github", "GitHub ops")];
    let prompt = build_skills_prompt(
        &skills,
        &vec!["github".to_string()],
        false,
        &vec![],
        &SkillPromptBudget::default(),
        &vec![],
    );
    assert_eq!(prompt, "");
}

#[test]
fn test_build_skills_prompt_disable_model_invocation() {
    let mut skill = make_skill("github", "GitHub ops");
    skill.disable_model_invocation = Some(true);
    let skills = vec![skill];
    let prompt = build_skills_prompt(
        &skills,
        &vec![],
        false,
        &vec![],
        &SkillPromptBudget::default(),
        &vec![],
    );
    assert_eq!(prompt, "");
}

#[test]
fn test_build_skills_prompt_compact_fallback() {
    let mut skills = Vec::new();
    for i in 0..50 {
        skills.push(make_skill_with_path(
            &format!("skill_{}", i),
            &format!("A very long description for skill number {} that takes up lots of space in the prompt", i),
            &format!("/home/user/skills/skill_{}/SKILL.md", i),
        ));
    }
    let budget = SkillPromptBudget {
        max_count: 150,
        max_chars: 2000,
        max_file_bytes: DEFAULT_MAX_SKILL_FILE_BYTES,
        max_candidates_per_root: DEFAULT_MAX_CANDIDATES_PER_ROOT,
    };
    let prompt = build_skills_prompt(&skills, &vec![], false, &vec![], &budget, &vec![]);
    assert!(prompt.contains("read:") || prompt.is_empty());
}

#[test]
fn test_build_skills_prompt_bundled_allowlist() {
    let mut skill1 = make_skill("github", "GitHub ops");
    skill1.source = "bundled".to_string();
    let mut skill2 = make_skill("slack", "Slack ops");
    skill2.source = "bundled".to_string();
    let skill3 = make_skill("custom", "Custom ops");
    let skills = vec![skill1, skill2, skill3];
    let prompt = build_skills_prompt(
        &skills,
        &vec![],
        false,
        &vec![],
        &SkillPromptBudget::default(),
        &vec!["github".to_string()],
    );
    assert!(prompt.contains("github"));
    assert!(!prompt.contains("slack"));
    assert!(prompt.contains("custom"));
}

#[test]
fn test_build_skills_prompt_env_check_no_requires() {
    let skills = vec![make_skill("basic", "A basic skill")];
    let facts: Vec<RequirementFacts> =
        skills.iter().map(|s| facts_for(&s.requires, &vec![])).collect();
    let prompt = build_skills_prompt(
        &skills,
        &vec![],
        true,
        &facts,
        &SkillPromptBudget::default(),
        &vec![],
    );
    assert!(prompt.contains("basic"));
}

#[test]
fn test_check_requirements_empty() {
    let req = SkillRequires::default();
    assert!(check_requirements(&req, &facts_for(&req, &vec![])));
}

#[test]
fn test_check_requirements_always() {
    let req = SkillRequires {
        always: true,
        bins: vec!["nonexistent_binary_abc_xyz".to_string()],
        ..Default::default()
    };
    assert!(check_requirements(&req, &facts_for(&req, &vec![])));
}

#[test]
fn test_check_requirements_any_bins_pass() {
    let req = SkillRequires {
        any_bins: vec!["nonexistent_abc_xyz".to_string(), "sh".to_string()],
        ..Default::default()
    };
    assert!(check_requirements(&req, &facts_for(&req, &vec![])));
}

#[test]
fn test_check_requirements_any_bins_fail() {
    let req = SkillRequires {
        any_bins: vec![
            "nonexistent_abc_1".to_string(),
            "nonexistent_abc_2".to_string(),
        ],
        ..Default::default()
    };
    assert!(!check_requirements(&req, &facts_for(&req, &vec![])));
}

#[test]
fn test_check_requirements_wrong_os() {
    let req = SkillRequires {
        os: vec!["nonexistent-os-xyz".to_string()],
        ..Default::default()
    };
    assert!(!check_requirements(&req, &facts_for(&req, &vec![])));
}

#[test]
fn test_check_requirements_with_configured_env() {
    let req = SkillRequires {
        env: vec!["MY_TEST_KEY_XYZ".to_string()],
        ..Default::default()
    };
    assert!(!check_requirements(&req, &facts_for(&req, &vec![])));
    let configured = vec![("MY_TEST_KEY_XYZ".to_string(), "some-value".to_string())];
    assert!(check_requirements(&req, &facts_for(&req, &configured)));
    let configured = vec![("MY_TEST_KEY_XYZ".to_string(), String::new())];
    assert!(!check_requirements(&req, &facts_for(&req, &configured)));
}

#[test]
fn test_check_requirements_primary_env() {
    let req = SkillRequires {
        env: vec!["MY_API_KEY".to_string()],
        primary_env: Some("MY_API_KEY".to_string()),
        ..Default::default()
    };
    let configured = vec![("__apiKey__".to_string(), "sk-test-123".to_string())];
    assert!(check_requirements(&req, &facts_for(&req, &configured)));
}

#[test]
fn test_compact_path() {
    assert_eq!(compact_path("/usr/local/bin/tool"), "/usr/local/bin/tool");
    assert_eq!(compact_path("/etc/config"), "/etc/config");
}

#[test]
fn test_normalize_skill_command_name() {
    assert_eq!(normalize_skill_command_name("github"), "github");
    assert_eq!(normalize_skill_command_name("my-skill"), "my_skill");
    assert_eq!(
        normalize_skill_command_name("My Cool Skill!"),
        "my_cool_skill"
    );
    assert_eq!(normalize_skill_command_name("---test---"), "test");
    assert_eq!(normalize_skill_command_name(""), "skill");
    let long = "a".repeat(50);
    assert_eq!(normalize_skill_command_name(&long).len(), 32);
}

#[test]
fn test_mask_value() {
    assert_eq!(mask_value(""), "");
    assert_eq!(mask_value("short"), "****");
    assert_eq!(mask_value("12345678"), "****");
    assert_eq!(mask_value("123456789"), "1234...6789");
    assert_eq!(mask_value("sk-abcdefghijklmnop"), "sk-a...mnop");
}

#[test]
fn test_is_masked_value() {
    assert!(is_masked_value("****"));
    assert!(is_masked_value("1234...6789"));
    assert!(!is_masked_value("real-value"));
    assert!(!is_masked_value(""));
}

#[test]
fn test_unquote() {
    assert_eq!(unquote("\"hello\""), "hello");
    assert_eq!(unquote("'world'"), "world");
    assert_eq!(unquote("plain"), "plain");
}

#[test]
fn test_check_requirements_detail() {
    let req = SkillRequires {
        bins: vec!["nonexistent_bin_xyz".to_string()],
        any_bins: vec!["nonexistent_a".to_string(), "nonexistent_b".to_string()],
        env: vec!["NONEXISTENT_ENV_XYZ".to_string()],
        ..Default::default()
    };
    let detail = check_requirements_detail(&req, &facts_for(&req, &vec![]));
    assert!(!detail.eligible);
    assert_eq!(detail.missing_bins, vec!["nonexistent_bin_xyz"]);
    assert_eq!(
        detail.missing_any_bins,
        vec!["nonexistent_a", "nonexistent_b"]
    );
    assert_eq!(detail.missing_env, vec!["NONEXISTENT_ENV_XYZ"]);
}

#[test]
fn test_check_requirements_detail_always() {
    let req = SkillRequires {
        always: true,
        bins: vec!["nonexistent_bin_xyz".to_string()],
        ..Default::default()
    };
    let detail = check_requirements_detail(&req, &facts_for(&req, &vec![]));
    assert!(detail.eligible);
    assert!(detail.missing_bins.is_empty());
}

#[test]
fn test_health_check() {
    let skills = vec![
        make_skill("ok-skill", "passes"),
        make_skill("disabled-skill", "disabled"),
    ];
    let disabled = vec!["disabled-skill".to_string()];
    let statuses = check_all_skills_status(&skills, &disabled, false, &vec![], &vec![]);
    assert_eq!(statuses.len(), 2);
    assert!(statuses[0].eligible);
    assert!(!statuses[0].disabled);
    assert!(!statuses[1].eligible);
    assert!(statuses[1].disabled);
}

#[test]
fn test_parse_bool_value() {
    assert_eq!(parse_bool_value("true"), Some(true));
    assert_eq!(parse_bool_value("yes"), Some(true));
    assert_eq!(parse_bool_value("false"), Some(false));
    assert_eq!(parse_bool_value("no"), Some(false));
    assert_eq!(parse_bool_value("invalid"), None);
}

#[test]
fn frontmatter_acceptance_check() {
    assert!(frontmatter_ok_exec("---\nname: demo\ndescription: \"quoted\"\n---\nBody"));
    assert!(!frontmatter_ok_exec("---\nname: \"\ndescription: d\n---\nBody"));
    assert!(!frontmatter_ok_exec("---\nname: x\nrequires:\n  bins: [\", git]\n---\n"));
    assert!(frontmatter_ok_exec("no frontmatter at all"));
}

#[test]
fn mask_value_counts_characters() {
    assert_eq!(mask_value("密钥🔑abcdef"), "密钥🔑a...cdef");
    assert_eq!(mask_value("ééééé"), "****");
    assert!(is_masked_value(&mask_value("密钥🔑abcdef")));
}

#[test]
fn command_names_hold_no_uppercase() {
    for name in ["ÀBC Déf", "KELVIN\u{212A}", "İstanbul Tool", "MiXeD-Case_Name"] {
        let r = normalize_skill_command_name(name);
        assert!(r.chars().all(|c| c.is_ascii_lowercase() || c.is_ascii_digit() || c == '_'), "{}", r);
        assert!(!r.starts_with('_') && !r.contains("__"));
    }
    assert_eq!(normalize_skill_command_name("MiXeD-Case_Name"), "mixed_case_name");
}
