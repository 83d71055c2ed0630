use hope_core::session::{auto_title, MessageRole, NewMessage};
use hope_core::paths::{agent_home_dir, config_path, join_path, attachments_dir};
use hope_core::text::truncate_utf8;

#[test]
fn titles() {
    assert_eq!(auto_title("   "), "New Chat");
    assert_eq!(auto_title("  Hello there\nsecond line"), "Hello there");
    let long = "字".repeat(60);
    assert_eq!(auto_title(&long), format!("{}...", "字".repeat(47)));
    assert_eq!(auto_title(&"b".repeat(50)), "b".repeat(50));
}

#[test]
fn roles_round_trip() {
    for r in [MessageRole::User, MessageRole::Assistant, MessageRole::Event, MessageRole::Tool, MessageRole::TextBlock] {
        assert_eq!(MessageRole::from_str(r.as_str()), r);
    }
    assert_eq!(MessageRole::from_str("system"), MessageRole::User);
    let m = NewMessage::tool("c1", "read", "{}", "ok", Some(3), false);
    assert_eq!(m.role, MessageRole::Tool);
    assert_eq!(m.tool_name.as_deref(), Some("read"));
    assert_eq!(m.content, "");
    assert_eq!(NewMessage::user("hi").content, "hi");
}

#[test]
fn paths_join_like_unix() {
    assert_eq!(join_path("/a", "b"), "/a/b");
    assert_eq!(join_path("/a/", "b"), "/a/b");
    assert_eq!(join_path("/a", "/abs"), "/abs");
    assert_eq!(join_path("", "b"), "b");
    if let Ok(p) = config_path() {
        assert!(p.ends_with("/.opencomputer/config.json"));
    }
    if let Ok(p) = agent_home_dir("bot") {
        assert!(p.ends_with("/.opencomputer/bot-home"));
    }
    if let Ok(p) = attachments_dir("s1") {
        assert!(p.ends_with("/.opencomputer/attachments/s1"));
    }
}

#[test]
fn utf8_truncation() {
    assert_eq!(truncate_utf8("héllo", 2), "h");
    assert_eq!(truncate_utf8("héllo", 3), "hé");
    assert_eq!(truncate_utf8("abc", 10), "abc");
}

#[test]
fn stored_message_time() {
    assert_eq!(hope_core::session::stored_timestamp("", "2026-01-01T00:00:00Z"), "2026-01-01T00:00:00Z");
    assert_eq!(hope_core::session::stored_timestamp("2025-12-31T23:59:59Z", "2026-01-01T00:00:00Z"), "2025-12-31T23:59:59Z");
}
