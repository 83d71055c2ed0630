use hope_core::catalog::sort_skill_files;
use hope_core::skills::FileInfo;
use hope_core::catalog::{find_skill, skill_detail};
use hope_core::catalog::merge_skills;
use hope_core::catalog::load_single_skill_from;
use hope_core::catalog::{
    build_skills_prompt_with_home, check_all_skills_status, compact_path_with, get_invocable_skills,
};
use hope_core::skills::{SkillEntry, SkillPromptBudget, SkillRequires, RequirementFacts, requirement_facts};

fn skill(name: &str, desc: &str, path: &str) -> SkillEntry {
    SkillEntry {
        name: name.to_string(),
        description: desc.to_string(),
        source: "managed".to_string(),
        file_path: path.to_string(),
        base_dir: String::new(),
        requires: SkillRequires::default(),
        skill_key: None,
        user_invocable: None,
        disable_model_invocation: None,
        command_dispatch: None,
        command_tool: None,
        command_arg_mode: None,
        command_arg_placeholder: None,
        command_arg_options: None,
        command_prompt_template: None,
        install: vec![],
        allowed_tools: vec![],
        context_mode: None,
    }
}

const HEADER: &str = "\n\nThe following skills provide specialized instructions for specific tasks.\nUse the `read` tool to load a skill's file when the task matches its name.\nWhen a skill file references a relative path, resolve it against the skill directory (parent of SKILL.md) and use that absolute path in tool commands.\nOnly read the skill most relevant to the current task \u{2014} do not read more than one skill up front.";

fn budget(max_count: usize, max_chars: usize) -> SkillPromptBudget {
    SkillPromptBudget { max_count, max_chars, max_file_bytes: 1, max_candidates_per_root: 1 }
}

#[test]
fn home_prefix_becomes_tilde() {
    let home = Some("/home/u".to_string());
    assert_eq!(compact_path_with("/home/u/skills/a/SKILL.md", &home), "~/skills/a/SKILL.md");
    assert_eq!(compact_path_with("/home/user2/x", &home), "/home/user2/x");
    assert_eq!(compact_path_with("/home/u", &home), "/home/u");
    assert_eq!(compact_path_with("/etc/x", &None), "/etc/x");
}

#[test]
fn full_format_exact_text() {
    let skills = vec![skill("a", "does a", "/home/u/s/a/SKILL.md")];
    let p = build_skills_prompt_with_home(&skills, &vec![], false, &vec![], &budget(10, 100000), &vec![], &Some("/home/u".to_string()));
    assert_eq!(p, format!("{}\n- a: does a (read: ~/s/a/SKILL.md)", HEADER));
}

#[test]
fn compact_format_when_full_is_too_long() {
    let skills = vec![
        skill("a", &"x".repeat(300), "/s/a"),
        skill("b", &"y".repeat(300), "/s/b"),
    ];
    let compact = format!("{}\n- a (read: /s/a)\n- b (read: /s/b)", HEADER);
    let limit = compact.len() + 5;
    let p = build_skills_prompt_with_home(&skills, &vec![], false, &vec![], &budget(10, limit), &vec![], &None);
    assert_eq!(
        p,
        format!("{}\n\n\u{26a0}\u{fe0f} Skills catalog using compact format (descriptions omitted). 2 skills available.", compact)
    );
}

#[test]
fn truncated_prefix_when_compact_is_too_long() {
    let skills: Vec<SkillEntry> = (0..20).map(|i| skill(&format!("s{}", i), &"d".repeat(100), &format!("/p/{}", i))).collect();
    let two = format!("{}\n- s0 (read: /p/0)\n- s1 (read: /p/1)", HEADER);
    let limit = two.len() + 120;
    let p = build_skills_prompt_with_home(&skills, &vec![], false, &vec![], &budget(10, limit), &vec![], &None);
    assert_eq!(
        p,
        format!("{}\n\n\u{26a0}\u{fe0f} Skills truncated: showing 2 of 10 (compact format, descriptions omitted).", two)
    );
    let tiny = build_skills_prompt_with_home(&skills, &vec![], false, &vec![], &budget(10, 10), &vec![], &None);
    assert_eq!(tiny, HEADER);
}

#[test]
fn max_count_limits_listed_skills() {
    let skills: Vec<SkillEntry> = (0..3).map(|i| skill(&format!("s{}", i), "d", "/p")).collect();
    let p = build_skills_prompt_with_home(&skills, &vec![], false, &vec![], &budget(1, 100000), &vec![], &None);
    assert!(p.contains("- s0: d"));
    assert!(!p.contains("s1"));
}

#[test]
fn env_check_drops_unmet_skills() {
    let mut a = skill("needs-tool", "d", "/p");
    a.requires.bins = vec!["missing-tool".to_string()];
    let b = skill("plain", "d", "/q");
    let skills = vec![a, b];
    let facts: Vec<RequirementFacts> = skills
        .iter()
        .map(|s| {
            let bins = s.requires.bins.iter().map(|_| false).collect();
            requirement_facts(&s.requires, "linux".to_string(), bins, vec![], &vec![], vec![])
        })
        .collect();
    let p = build_skills_prompt_with_home(&skills, &vec![], true, &facts, &budget(10, 100000), &vec![], &None);
    assert!(!p.contains("needs-tool"));
    assert!(p.contains("plain"));
    let st = check_all_skills_status(&skills, &vec![], true, &facts, &vec![]);
    assert!(!st[0].eligible);
    assert_eq!(st[0].missing_bins, vec!["missing-tool".to_string()]);
    assert!(st[1].eligible);
}

#[test]
fn bundled_allowlist_blocks_in_status() {
    let mut a = skill("gh", "d", "/p");
    a.source = "bundled".to_string();
    a.skill_key = Some("github".to_string());
    let st = check_all_skills_status(&vec![a.clone()], &vec![], false, &vec![], &vec!["other".to_string()]);
    assert!(st[0].blocked_by_allowlist);
    assert!(!st[0].eligible);
    let st = check_all_skills_status(&vec![a], &vec![], false, &vec![], &vec!["github".to_string()]);
    assert!(!st[0].blocked_by_allowlist);
}

#[test]
fn invocable_skills_filter() {
    let mut a = skill("a", "d", "/p");
    a.user_invocable = Some(false);
    let b = skill("b", "d", "/p");
    let c = skill("c", "d", "/p");
    let d = skill("d", "d", "/p");
    let out = get_invocable_skills(vec![a, b, c, d], &vec!["c".to_string()]);
    let names: Vec<String> = out.iter().map(|s| s.name.clone()).collect();
    assert_eq!(names, vec!["b".to_string(), "d".to_string()]);
}

#[test]
fn skill_files_dirs_first_then_name() {
    let f = |n: &str, d: bool| FileInfo { name: n.to_string(), size: 0, is_dir: d };
    let sorted = sort_skill_files(vec![f("b.md", false), f("scripts", true), f("SKILL.md", false), f("assets", true)]);
    let names: Vec<String> = sorted.into_iter().map(|x| x.name).collect();
    assert_eq!(names, vec!["assets", "scripts", "SKILL.md", "b.md"]);
}

#[test]
fn skill_detail_and_lookup() {
    let skills = vec![skill("a", "A", "/a/SKILL.md"), skill("b", "B", "/b/SKILL.md")];
    let b = find_skill(skills, "b").unwrap();
    assert_eq!(b.description, "B");
    assert!(find_skill(vec![skill("a", "A", "/a")], "zz").is_none());
    let d = skill_detail(b, "# B".to_string(), vec![], &vec!["b".to_string()]);
    assert_eq!(d.name, "b");
    assert_eq!(d.content, "# B");
    assert!(!d.enabled);
}

#[test]
fn skills_merge_by_precedence() {
    let mut low = skill("x", "low", "/low/x");
    low.source = "extra".to_string();
    let high = skill("x", "high", "/high/x");
    let merged = merge_skills(vec![skill("c", "C", "/c"), low, skill("a", "A", "/a"), high]);
    let got: Vec<(String, String)> = merged.into_iter().map(|s| (s.name, s.description)).collect();
    assert_eq!(
        got,
        vec![("a".to_string(), "A".to_string()), ("c".to_string(), "C".to_string()), ("x".to_string(), "high".to_string())]
    );
}

#[test]
fn single_skill_loading() {
    let content = "---\nname: demo\ndescription: Demo skill\n---\nBody";
    let s = load_single_skill_from(content, Some(40), 1000, "managed", "/s/demo/SKILL.md", "/s/demo").unwrap();
    assert_eq!(s.name, "demo");
    assert_eq!(s.file_path, "/s/demo/SKILL.md");
    assert_eq!(s.source, "managed");
    assert!(load_single_skill_from(content, Some(2000), 1000, "managed", "/p", "/d").is_none());
    assert!(load_single_skill_from("no frontmatter", None, 1000, "managed", "/p", "/d").is_none());
}

#[test]
fn test_skill_cache_version() {
    let mut v = hope_core::catalog::SkillCacheVersion::new();
    let v1 = v.current();
    v.bump();
    let v2 = v.current();
    assert!(v2 > v1);
}

fn cache_at(version: u64, dirs: &[&str]) -> hope_core::catalog::SkillCache {
    hope_core::catalog::SkillCache {
        entries: Vec::new(),
        version,
        loaded_at: std::time::Instant::now(),
        extra_dirs: dirs.iter().map(|d| d.to_string()).collect(),
    }
}

#[test]
fn skill_cache_lives_thirty_seconds() {
    let c = cache_at(3, &["/a"]);
    let dirs = vec!["/a".to_string()];
    assert!(c.is_valid_after(0, &dirs, 3));
    assert!(c.is_valid_after(29_999, &dirs, 3));
    assert!(!c.is_valid_after(30_000, &dirs, 3));
    assert!(!c.is_valid_after(45_000, &dirs, 3));
    assert!(!c.is_valid_after(10, &dirs, 4));
    assert!(!c.is_valid_after(10, &vec!["/b".to_string()], 3));
    assert!(!c.is_valid_after(10, &Vec::new(), 3));
    assert!(c.is_valid(&dirs, 3));
    assert!(!c.is_valid(&dirs, 2));
}
