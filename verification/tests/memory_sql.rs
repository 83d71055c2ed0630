use hope_core::memory::{MemoryScope, MemoryType};
use hope_core::memory_sql::{list_query, scope_from_row, search_fetch_query, stats_queries, SqlParam};

fn texts(ps: &[SqlParam]) -> Vec<String> {
    ps.iter()
        .map(|p| match p {
            SqlParam::Text(t) => format!("t:{}", t),
            SqlParam::Int(i) => format!("i:{}", i),
        })
        .collect()
}

#[test]
fn list_query_for_agent_and_types() {
    let (sql, params) = list_query(
        &Some(MemoryScope::Agent { id: "a1".to_string() }),
        &Some(vec![MemoryType::User, MemoryType::Project]),
        20,
        40,
    );
    assert_eq!(
        sql,
        "SELECT id, memory_type, scope_type, scope_agent_id, content, tags, source, source_session_id, pinned, created_at, updated_at\n             FROM memories\n             WHERE scope_type = 'agent' AND scope_agent_id = ? AND memory_type IN (?, ?)\n             ORDER BY pinned DESC, updated_at DESC\n             LIMIT ? OFFSET ?"
    );
    assert_eq!(texts(&params), vec!["t:a1", "t:user", "t:project", "i:20", "i:40"]);
}

#[test]
fn list_query_without_filters() {
    let (sql, params) = list_query(&None, &Some(vec![]), 5, 0);
    assert!(sql.contains("WHERE 1=1 AND 1=1\n"));
    assert_eq!(texts(&params), vec!["i:5", "i:0"]);
    let (sql2, _) = list_query(&Some(MemoryScope::Global), &None, 5, 0);
    assert!(sql2.contains("WHERE scope_type = 'global' AND 1=1\n"));
}

#[test]
fn search_hits_fetch_query() {
    let (sql, params) = search_fetch_query(&vec![7, 3, 9], &None, &Some("main".to_string()), &Some(vec![MemoryType::Reference]));
    assert!(sql.ends_with(
        "WHERE id IN (?,?,?) AND (scope_type = 'global' OR (scope_type = 'agent' AND scope_agent_id = ?)) AND memory_type IN (?)"
    ));
    assert_eq!(texts(&params), vec!["i:7", "i:3", "i:9", "t:main", "t:reference"]);
}

#[test]
fn statistics_queries() {
    let q = stats_queries(&Some(MemoryScope::Agent { id: "x".to_string() }));
    assert_eq!(q.total, "SELECT COUNT(*) FROM memories WHERE scope_type = 'agent' AND scope_agent_id = ?");
    assert_eq!(q.by_type, "SELECT memory_type, COUNT(*) FROM memories WHERE scope_type = 'agent' AND scope_agent_id = ? GROUP BY memory_type");
    assert_eq!(q.with_embedding, "SELECT COUNT(*) FROM memories WHERE scope_type = 'agent' AND scope_agent_id = ? AND id IN (SELECT rowid FROM memory_vec)");
    assert_eq!(q.oldest, "SELECT MIN(created_at) FROM memories WHERE scope_type = 'agent' AND scope_agent_id = ?");
    assert_eq!(q.newest, "SELECT MAX(created_at) FROM memories WHERE scope_type = 'agent' AND scope_agent_id = ?");
    assert_eq!(texts(&q.params), vec!["t:x"]);
    let g = stats_queries(&None);
    assert_eq!(g.total, "SELECT COUNT(*) FROM memories WHERE 1=1");
    assert!(g.params.is_empty());
}

#[test]
fn row_scopes() {
    assert!(matches!(scope_from_row("agent", Some("a".to_string())), MemoryScope::Agent { id } if id == "a"));
    assert!(matches!(scope_from_row("agent", None), MemoryScope::Agent { id } if id.is_empty()));
    assert!(matches!(scope_from_row("global", Some("a".to_string())), MemoryScope::Global));
}
