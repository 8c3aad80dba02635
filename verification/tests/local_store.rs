use memcontext::local::{session_file_name, session_id_from_file_name, without_message};
use memcontext::{LocalDatabase, Message, RecallResult, Role, Timestamp};

fn ts(secs: i64) -> Timestamp {
    Timestamp { secs, nanos: 0 }
}

#[test]
fn test_local_storage() {
    let mut db = LocalDatabase::new();
    let session_id = "test_session";
    db.save_message(session_id, "user", "My name is Zhang San").unwrap();
    db.save_message(session_id, "assistant", "Hello Zhang San, nice to meet you").unwrap();
    db.save_message(session_id, "user", "I like Rust programming language").unwrap();
    let time_result = RecallResult::time_series(db.get_recent_messages(session_id, 2));
    assert_eq!(time_result.len(), 2);
    assert!(time_result.to_context_string().contains("Rust"));
    let keyword_result = RecallResult::keywords(db.search_keywords(session_id, "Zhang San", 5));
    assert!(keyword_result.len() >= 1);
    assert!(keyword_result.to_context_string().contains("Zhang San"));
    let semantic_result = RecallResult::vec_semantic(db.search_semantic(session_id, "my name", 5));
    assert!(semantic_result.len() >= 1);
    let size = db.get_message_count(session_id);
    assert_eq!(size, 3);
    db.clear_session(session_id);
    let size_after_clear = db.get_message_count(session_id);
    assert_eq!(size_after_clear, 0);
}

#[test]
fn save_assigns_ids_and_roles() {
    let mut db = LocalDatabase::new();
    db.save_message_at("s", "user", "one", ts(10));
    db.save_message_at("s", "assistant", "two", ts(11));
    db.save_message_at("s", "system", "three", ts(12));
    let all = db.get_recent_messages("s", 10);
    assert_eq!(all.len(), 3);
    assert_eq!(all[0].id, Some(1));
    assert_eq!(all[1].id, Some(2));
    assert_eq!(all[2].id, Some(3));
    assert_eq!(all[0].role, Role::User);
    assert_eq!(all[1].role, Role::LLM);
    assert_eq!(all[2].role, Role::User);
    assert_eq!(all[1].content, "two");
    assert_eq!(all[1].session_id, "s");
    assert_eq!(all[1].timestamp, ts(11));
    assert_eq!(all[1].tokens, None);
}

#[test]
fn sessions_are_independent() {
    let mut db = LocalDatabase::new();
    db.save_message("a", "user", "alpha").unwrap();
    db.save_message("b", "user", "beta").unwrap();
    db.save_message("a", "user", "gamma").unwrap();
    assert_eq!(db.get_message_count("a"), 2);
    assert_eq!(db.get_message_count("b"), 1);
    assert_eq!(db.get_message_count("c"), 0);
    assert_eq!(db.get_all_sessions(), vec!["a".to_string(), "b".to_string()]);
    db.clear_session("a");
    assert_eq!(db.get_message_count("a"), 0);
    assert_eq!(db.get_message_count("b"), 1);
    assert_eq!(db.get_all_sessions(), vec!["b".to_string()]);
}

#[test]
fn recent_messages_are_the_last_ones_oldest_first() {
    let mut db = LocalDatabase::new();
    for i in 0..5 {
        db.save_message_at("s", "user", &format!("m{}", i), ts(i));
    }
    let recent = db.get_recent_messages("s", 2);
    let contents: Vec<&str> = recent.iter().map(|m| m.content.as_str()).collect();
    assert_eq!(contents, vec!["m3", "m4"]);
    assert_eq!(db.get_recent_messages("s", 0).len(), 0);
    assert_eq!(db.get_recent_messages("s", 100).len(), 5);
    assert_eq!(db.get_recent_messages("nobody", 3).len(), 0);
    let latest = db.get_recent_messages("s", 1);
    assert_eq!(latest[0].content, "m4");
}

#[test]
fn keyword_search_ranks_by_matches_then_order() {
    let mut db = LocalDatabase::new();
    db.save_message_at("s", "user", "apple pie", ts(1));
    db.save_message_at("s", "user", "banana split", ts(2));
    db.save_message_at("s", "user", "Apple and BANANA", ts(3));
    db.save_message_at("s", "user", "cherry", ts(4));
    db.save_message_at("s", "user", "banana bread", ts(5));
    let r = db.search_keywords("s", "banana apple", 10);
    let contents: Vec<&str> = r.iter().map(|m| m.content.as_str()).collect();
    assert_eq!(contents, vec!["Apple and BANANA", "apple pie", "banana split", "banana bread"]);
    let top2 = db.search_keywords("s", "banana apple", 2);
    let contents: Vec<&str> = top2.iter().map(|m| m.content.as_str()).collect();
    assert_eq!(contents, vec!["Apple and BANANA", "apple pie"]);
    assert_eq!(db.search_keywords("s", "durian", 10).len(), 0);
    assert_eq!(db.search_keywords("s", "   ", 10).len(), 0);
    assert_eq!(db.search_keywords("other", "apple", 10).len(), 0);
}

#[test]
fn keyword_search_splits_cjk_characters() {
    let mut db = LocalDatabase::new();
    db.save_message_at("s", "user", "我叫张三", ts(1));
    db.save_message_at("s", "user", "你好", ts(2));
    db.save_message_at("s", "user", "张老师", ts(3));
    let r = db.search_keywords("s", "张三", 5);
    let contents: Vec<&str> = r.iter().map(|m| m.content.as_str()).collect();
    assert_eq!(contents, vec!["我叫张三", "张老师"]);
}

#[test]
fn semantic_search_falls_back_to_keywords() {
    let mut db = LocalDatabase::new();
    db.save_message_at("s", "user", "I work in Shanghai", ts(1));
    db.save_message_at("s", "user", "I like eating apples", ts(2));
    let a = db.search_semantic("s", "shanghai", 3);
    let b = db.search_keywords("s", "shanghai", 3);
    assert_eq!(a.len(), 1);
    assert_eq!(a[0].content, b[0].content);
}

#[test]
fn delete_message_removes_every_copy_of_an_id() {
    let mut db = LocalDatabase::new();
    db.save_message_at("a", "user", "a1", ts(1));
    db.save_message_at("a", "user", "a2", ts(2));
    db.save_message_at("b", "user", "b1", ts(3));
    let persist = db.delete_message(1);
    assert_eq!(persist, vec!["a".to_string(), "b".to_string()]);
    assert_eq!(db.get_message_count("a"), 1);
    assert_eq!(db.get_message_count("b"), 0);
    assert_eq!(db.get_all_sessions(), vec!["a".to_string(), "b".to_string()]);
    let left = db.get_recent_messages("a", 5);
    assert_eq!(left[0].content, "a2");
    assert_eq!(db.delete_message(42), Vec::<String>::new());
    assert_eq!(db.delete_message(2), vec!["a".to_string()]);
    assert_eq!(db.get_message_count("a"), 0);
}

#[test]
fn update_message_changes_the_first_match() {
    let mut db = LocalDatabase::new();
    db.save_message_at("a", "user", "a1", ts(1));
    db.save_message_at("b", "user", "b1", ts(2));
    assert_eq!(db.update_message(1, "changed"), Some("a".to_string()));
    assert_eq!(db.get_recent_messages("a", 1)[0].content, "changed");
    assert_eq!(db.get_recent_messages("b", 1)[0].content, "b1");
    assert_eq!(db.update_message(9, "nothing"), None);
    assert_eq!(db.get_message_count("a"), 1);
}

#[test]
fn load_session_replaces_or_adds() {
    let mut db = LocalDatabase::new();
    db.save_message_at("a", "user", "old", ts(1));
    let mut m = Message::with_timestamp("a".to_string(), Role::LLM, "new".to_string(), ts(5));
    m.id = Some(7);
    db.load_session("a".to_string(), vec![m]);
    let msgs = db.get_recent_messages("a", 5);
    assert_eq!(msgs.len(), 1);
    assert_eq!(msgs[0].content, "new");
    assert_eq!(msgs[0].id, Some(7));
    db.load_session("z".to_string(), Vec::new());
    assert_eq!(db.get_all_sessions(), vec!["a".to_string(), "z".to_string()]);
}

#[test]
fn without_message_filters_by_id() {
    let mut a = Message::with_timestamp("s".to_string(), Role::User, "x".to_string(), ts(1));
    a.id = Some(1);
    let mut b = Message::with_timestamp("s".to_string(), Role::User, "y".to_string(), ts(2));
    b.id = Some(2);
    let kept = without_message(&vec![a, b], 1);
    assert_eq!(kept.len(), 1);
    assert_eq!(kept[0].content, "y");
}

#[test]
fn session_file_names_round_trip() {
    assert_eq!(session_file_name("abc"), "abc.json");
    assert_eq!(session_id_from_file_name("abc.json"), Some("abc".to_string()));
    assert_eq!(session_id_from_file_name("a.b.json"), Some("a.b".to_string()));
    assert_eq!(session_id_from_file_name(".json"), None);
    assert_eq!(session_id_from_file_name("abc.txt"), None);
    assert_eq!(session_id_from_file_name("abc"), None);
    assert_eq!(session_id_from_file_name("abc.JSON"), None);
    assert_eq!(session_id_from_file_name("..json"), Some(".".to_string()));
    assert_eq!(session_id_from_file_name(&session_file_name("x y")), Some("x y".to_string()));
}
