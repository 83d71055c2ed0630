use hope_core::memory::{import_items, ImportError, ImportItem};
use hope_core::memory::{is_cjk, parse_import_markdown, tokenize, MemoryScope, MemoryType};
use hope_core::memory_export::{export_markdown, ExportEntry};
use hope_core::memory_prompt::{format_prompt_summary, SummaryEntry};

fn entry(t: MemoryType, content: &str, tags: &[&str]) -> ExportEntry {
    ExportEntry {
        memory_type: t,
        scope: MemoryScope::Global,
        content: content.to_string(),
        tags: tags.iter().map(|s| s.to_string()).collect(),
        source: "user".to_string(),
        updated_at: "2026-01-02T03:04:05Z".to_string(),
    }
}

#[test]
fn export_empty_notes_no_memories() {
    assert_eq!(export_markdown(&vec![]), "# Memories\n\nNo memories stored.\n");
}

#[test]
fn export_exact_text() {
    let es = vec![
        entry(MemoryType::Project, "Uses Rust\nand Tauri", &["stack", "lang"]),
        ExportEntry {
            scope: MemoryScope::Agent { id: "coder".to_string() },
            ..entry(MemoryType::User, "Name is Ada", &[])
        },
    ];
    let md = export_markdown(&es);
    assert_eq!(
        md,
        "# Memories\n\n## About the User\n\n### Name is Ada\nScope: agent:coder | Source: user | Updated: 2026-01-02T03:04:05Z\n\nName is Ada\n\n---\n\n## Project Context\n\n### Uses Rust\nTags: stack, lang\nScope: global | Source: user | Updated: 2026-01-02T03:04:05Z\n\nUses Rust\nand Tauri\n\n---\n\n"
    );
}

#[test]
fn export_then_import_gives_memories_back() {
    let es = vec![
        entry(MemoryType::Reference, "See docs.rs", &["docs"]),
        entry(MemoryType::User, "Likes tea", &["drink", "habit"]),
        entry(MemoryType::Feedback, "Answer briefly\n\nno emojis", &[]),
        entry(MemoryType::User, "Lives in Paris", &[]),
    ];
    let back = parse_import_markdown(&export_markdown(&es));
    let got: Vec<(MemoryType, String, Vec<String>)> =
        back.into_iter().map(|m| (m.memory_type, m.content, m.tags)).collect();
    assert_eq!(
        got,
        vec![
            (MemoryType::User, "Likes tea".to_string(), vec!["drink".to_string(), "habit".to_string()]),
            (MemoryType::User, "Lives in Paris".to_string(), vec![]),
            (MemoryType::Feedback, "Answer briefly\n\nno emojis".to_string(), vec![]),
            (MemoryType::Reference, "See docs.rs".to_string(), vec!["docs".to_string()]),
        ]
    );
}

#[test]
fn tokens_of_words_and_cjk() {
    let mut t = tokenize("Hello, hello WORLD a x-y 你好世");
    t.sort();
    let mut want: Vec<String> = ["hello", "world", "x-y", "你", "好", "世", "你好", "好世"]
        .iter()
        .map(|s| s.to_string())
        .collect();
    want.sort();
    assert_eq!(t, want);
    assert!(is_cjk('の') && is_cjk('한') && !is_cjk('a'));
}

fn summary(t: MemoryType, pinned: bool, at: &str, content: &str) -> SummaryEntry {
    SummaryEntry {
        memory_type: t,
        pinned,
        updated_at: at.to_string(),
        attachment_path: None,
        attachment_mime: None,
        content: content.to_string(),
    }
}

#[test]
fn prompt_summary_orders_and_formats() {
    let es = vec![
        summary(MemoryType::User, false, "2026-01-01", "old fact\nsecond line"),
        summary(MemoryType::User, false, "2026-02-01", "new fact"),
        summary(MemoryType::User, true, "2025-01-01", "pinned fact"),
        summary(MemoryType::Project, false, "2026-01-01", "uses rust"),
    ];
    let s = format_prompt_summary(&es, 2000);
    assert_eq!(
        s,
        "# Memory\n\n## About the User\n- \u{2605} pinned fact\n- new fact\n- old fact\n\n## Project Context\n- uses rust\n\n"
    );
    assert_eq!(format_prompt_summary(&vec![], 2000), "");
}

#[test]
fn prompt_summary_truncates() {
    let es = vec![
        summary(MemoryType::User, false, "2026-01-01", "aaaaaaaaaa"),
        summary(MemoryType::User, false, "2026-01-02", "bbbbbbbbbb"),
    ];
    let s = format_prompt_summary(&es, 31 + 18 + 13);
    assert_eq!(s, "# Memory\n\n## About the User\n- bbbbbbbbbb\n\n\n[... truncated ...]");
}

#[test]
fn json_import_items() {
    let items = vec![
        ImportItem {
            content: Some("Likes tea".to_string()),
            memory_type: None,
            scope: Some("agent".to_string()),
            agent_id: None,
            tags: Some(vec![Some("a".to_string()), None, Some("b".to_string())]),
        },
        ImportItem {
            content: Some("Ref".to_string()),
            memory_type: Some("reference".to_string()),
            scope: Some("global".to_string()),
            agent_id: Some("x".to_string()),
            tags: None,
        },
    ];
    let ms = import_items(&items).unwrap();
    assert_eq!(ms.len(), 2);
    assert_eq!(ms[0].memory_type, MemoryType::User);
    assert_eq!(ms[0].scope, MemoryScope::Agent { id: "default".to_string() });
    assert_eq!(ms[0].tags, vec!["a".to_string(), "b".to_string()]);
    assert_eq!(ms[0].source, "import");
    assert_eq!(ms[1].memory_type, MemoryType::Reference);
    assert_eq!(ms[1].scope, MemoryScope::Global);
    let bad = vec![ImportItem { content: None, memory_type: None, scope: None, agent_id: None, tags: None }];
    assert_eq!(import_items(&bad).err(), Some(ImportError::MissingContent));
}
