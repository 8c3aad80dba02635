use memcontext::sql::{keyword_search_sql, like_pattern, messages_from_rows, messages_from_rows_oldest_first, MessageRow};
use memcontext::{Role, Timestamp};

fn row(id: i64, role: &str, content: &str, tokens: Option<i32>) -> MessageRow {
    MessageRow {
        id,
        session_id: "s".to_string(),
        role: role.to_string(),
        content: content.to_string(),
        timestamp: Timestamp { secs: id, nanos: 0 },
        tokens,
    }
}

#[test]
fn keyword_sql_has_one_condition_per_keyword() {
    let two = keyword_search_sql(2);
    assert_eq!(
        two,
        format!(
            "SELECT id, session_id, role, content, timestamp, tokens FROM messages \n             WHERE session_id = ? AND ({}) \n             ORDER BY id DESC LIMIT ?",
            ["content LIKE ?".to_string(), "content LIKE ?".to_string()].join(" OR ")
        )
    );
    assert!(keyword_search_sql(1).contains("AND (content LIKE ?) "));
    assert!(keyword_search_sql(0).contains("AND () "));
    assert_eq!(keyword_search_sql(3).matches('?').count(), 5);
}

#[test]
fn like_pattern_wraps_keyword() {
    assert_eq!(like_pattern("Shanghai"), "%Shanghai%");
    assert_eq!(like_pattern(""), "%%");
}

#[test]
fn rows_become_messages() {
    let rows = vec![row(3, "assistant", "c", Some(7)), row(2, "user", "b", None), row(1, "x", "a", Some(-1))];
    let same = messages_from_rows(&rows);
    assert_eq!(same.len(), 3);
    assert_eq!(same[0].id, Some(3));
    assert_eq!(same[0].role, Role::LLM);
    assert_eq!(same[0].tokens, Some(7));
    assert_eq!(same[2].role, Role::User);
    assert_eq!(same[2].tokens, Some(-1i32 as usize));
    let oldest_first = messages_from_rows_oldest_first(&rows);
    let contents: Vec<&str> = oldest_first.iter().map(|m| m.content.as_str()).collect();
    assert_eq!(contents, vec!["a", "b", "c"]);
    assert_eq!(oldest_first[0].timestamp, Timestamp { secs: 1, nanos: 0 });
}

#[test]
fn connection_string_names_the_file() {
    assert_eq!(memcontext::sql::sqlite_connection_string("./a.db"), "sqlite:./a.db?mode=rwc");
}
