use hope_core::logging::{build_log_query, writer_next, LogFilter, QueueNews, WriterStep};
use hope_core::logging::{ file_max_bytes, is_expired_log_name, log_date, log_line, needs_new_file, pick_log_file, sort_log_files, LogFileInfo, PendingLog, };
use hope_core::logging::{
    is_plain_file_name, level_priority, log_file_name, redact_sensitive, should_log, tail_lines,
    LogConfig,
};

#[test]
fn levels() {
    assert_eq!(level_priority("error"), 0);
    assert_eq!(level_priority("debug"), 3);
    assert_eq!(level_priority("trace"), 4);
    assert!(should_log("warn", "info"));
    assert!(!should_log("debug", "info"));
    assert!(should_log("info", "info"));
    assert_eq!(LogConfig::default().level, "info");
}

#[test]
fn secrets_are_redacted() {
    assert_eq!(
        redact_sensitive(r#"{"api_key":"sk-123","model":"x"}"#),
        r#"{"api_key":"[REDACTED]","model":"x"}"#
    );
    assert_eq!(
        redact_sensitive(r#"{"password": "hunter2", "user": "bob"}"#),
        r#"{"password": "[REDACTED]", "user": "bob"}"#
    );
    assert_eq!(
        redact_sensitive("GET /v1?key=1&access_token=abc&x=2"),
        "GET /v1?key=1&access_token=[REDACTED]&x=2"
    );
    assert_eq!(redact_sensitive("https://h/?secret=zz"), "https://h/?secret=[REDACTED]");
    assert_eq!(redact_sensitive(r#"{"apiKey":"unterminated"#), r#"{"apiKey":"unterminated"#);
    assert_eq!(redact_sensitive("nothing here"), "nothing here");
}

#[test]
fn log_files() {
    assert!(is_plain_file_name("opencomputer-2024-01-01.log"));
    assert!(!is_plain_file_name("../etc/passwd"));
    assert!(!is_plain_file_name("a\\b.log"));
    assert_eq!(tail_lines("a\nb\nc\n", 2), "b\nc");
    assert_eq!(tail_lines("a\nb", 5), "a\nb");
    assert_eq!(tail_lines("", 3), "");
    assert_eq!(log_file_name("2024-05-06"), "opencomputer-2024-05-06.log");
}

#[test]
fn log_query_sql_and_params() {
    let f = LogFilter {
        levels: Some(vec!["error".to_string(), "warn".to_string()]),
        categories: Some(vec![]),
        keyword: Some("boom".to_string()),
        session_id: Some(String::new()),
        start_time: Some("2026-01-01".to_string()),
        end_time: None,
    };
    let q = build_log_query(&f, 3, 50);
    assert_eq!(
        q.count_sql,
        "SELECT COUNT(*) FROM logs WHERE level IN (?,?) AND message LIKE ? AND timestamp >= ?"
    );
    assert!(q.page_sql.ends_with(
        "FROM logs WHERE level IN (?,?) AND message LIKE ? AND timestamp >= ? ORDER BY id DESC LIMIT ? OFFSET ?"
    ));
    assert_eq!(q.params, vec!["error", "warn", "%boom%", "2026-01-01"]);
    assert_eq!(q.limit, 50);
    assert_eq!(q.offset, 100);
    let all = build_log_query(&LogFilter::default(), 0, 10);
    assert_eq!(all.count_sql, "SELECT COUNT(*) FROM logs ");
    assert!(all.params.is_empty());
    assert_eq!(all.offset, 0);
}

#[test]
fn log_lines_and_files() {
    let e = PendingLog {
        timestamp: "2026-03-21T10:30:00Z".to_string(),
        level: "info".to_string(),
        category: "agent".to_string(),
        source: "agent::run".to_string(),
        message: "Starting".to_string(),
        details: Some("d=1".to_string()),
        session_id: None,
        agent_id: None,
    };
    assert_eq!(log_line(&e), "[2026-03-21T10:30:00Z] INFO [agent] agent::run \u{2014} Starting | d=1\n");
    assert_eq!(log_date(&e.timestamp), "2026-03-21");
    assert_eq!(file_max_bytes(10), 10 * 1024 * 1024);
    assert!(needs_new_file("2026-03-21", "2026-03-20", 0, 100));
    assert!(needs_new_file("2026-03-21", "2026-03-21", 100, 100));
    assert!(!needs_new_file("2026-03-21", "2026-03-21", 99, 100));
    assert_eq!(pick_log_file("2026-03-21", 100, None, &vec![]), ("opencomputer-2026-03-21.log".to_string(), 0));
    assert_eq!(pick_log_file("2026-03-21", 100, Some(40), &vec![]), ("opencomputer-2026-03-21.log".to_string(), 40));
    assert_eq!(
        pick_log_file("2026-03-21", 100, Some(100), &vec![Some(100), Some(7)]),
        ("opencomputer-2026-03-21.2.log".to_string(), 7)
    );
    assert_eq!(
        pick_log_file("2026-03-21", 100, Some(100), &vec![Some(120)]),
        ("opencomputer-2026-03-21.2.log".to_string(), 0)
    );
    assert!(is_expired_log_name("opencomputer-2026-01-01.log", "2026-02-01"));
    assert!(is_expired_log_name("opencomputer-2026-01-01.3.log", "2026-02-01"));
    assert!(!is_expired_log_name("opencomputer-2026-03-01.log", "2026-02-01"));
    assert!(!is_expired_log_name("other.log", "2026-02-01"));
    let files = vec![
        LogFileInfo { name: "opencomputer-2026-01-01.log".to_string(), size_bytes: 1, modified: String::new() },
        LogFileInfo { name: "opencomputer-2026-03-01.log".to_string(), size_bytes: 2, modified: String::new() },
        LogFileInfo { name: "opencomputer-2026-02-01.log".to_string(), size_bytes: 3, modified: String::new() },
    ];
    let names: Vec<String> = sort_log_files(files).into_iter().map(|f| f.name).collect();
    assert_eq!(names, vec!["opencomputer-2026-03-01.log", "opencomputer-2026-02-01.log", "opencomputer-2026-01-01.log"]);
    let mut cfg = LogConfig::default();
    assert!(cfg.admits("warn") && !cfg.admits("debug"));
    cfg.enabled = false;
    assert!(!cfg.admits("error"));
}

#[test]
fn background_writer_batches() {
    assert_eq!(writer_next(1, true, QueueNews::Record), WriterStep::TakeReady);
    assert_eq!(writer_next(99, false, QueueNews::Record), WriterStep::TakeReady);
    assert_eq!(writer_next(100, false, QueueNews::Record), WriterStep::Flush);
    assert_eq!(writer_next(7, false, QueueNews::NothingReady), WriterStep::Flush);
    assert_eq!(writer_next(7, false, QueueNews::Closed), WriterStep::Flush);
    assert_eq!(writer_next(0, true, QueueNews::TimedOut), WriterStep::Wait);
    assert_eq!(writer_next(3, true, QueueNews::Closed), WriterStep::FlushAndStop);
    assert_eq!(writer_next(0, true, QueueNews::Closed), WriterStep::Stop);
}
