use vstd::prelude::*;
use crate::types::{Message, MessageView, Timestamp, messages_view};
use crate::local::{role_from_label, role_of_label};

verus! {

/// The query text before the keyword conditions.
pub open spec fn keyword_sql_head() -> Seq<char> {
    "SELECT id, session_id, role, content, timestamp, tokens FROM messages \n             WHERE session_id = ? AND ("@
}

/// The query text after the keyword conditions.
pub open spec fn keyword_sql_tail() -> Seq<char> {
    ") \n             ORDER BY id DESC LIMIT ?"@
}

/// The condition that one keyword adds.
pub open spec fn like_condition() -> Seq<char> {
    "content LIKE ?"@
}

/// What separates two conditions.
pub open spec fn or_separator() -> Seq<char> {
    " OR "@
}

/// `n` keyword conditions joined by " OR ".
pub open spec fn or_conditions(n: nat) -> Seq<char>
    decreases n,
{
    if n == 0 {
        Seq::empty()
    } else if n == 1 {
        like_condition()
    } else {
        or_conditions((n - 1) as nat) + or_separator() + like_condition()
    }
}

/// The query that searches a session for messages matching any of
/// `keyword_count` LIKE patterns, newest first, with a limit; its parameters
/// are the session id, one pattern per keyword, then the limit. With no
/// keywords the condition list is empty.
pub fn keyword_search_sql(keyword_count: usize) -> (sql: String)
    ensures
        sql@ == keyword_sql_head() + or_conditions(keyword_count as nat) + keyword_sql_tail(),
{
    let mut sql = String::from_str(
        "SELECT id, session_id, role, content, timestamp, tokens FROM messages \n             WHERE session_id = ? AND (",
    );
    let ghost head = sql@;
    let mut i: usize = 0;
    while i < keyword_count
        invariant
            i <= keyword_count,
            head == keyword_sql_head(),
            sql@ == head + or_conditions(i as nat),
        decreases keyword_count - i,
    {
        let ghost before = sql@;
        if i > 0 {
            sql.append(" OR ");
        }
        sql.append("content LIKE ?");
        proof {
            if i == 0 {
                assert(or_conditions(0) =~= Seq::<char>::empty());
                assert(sql@ =~= head + or_conditions(1));
            } else {
                assert(sql@ =~= head + or_conditions((i + 1) as nat));
            }
        }
        i += 1;
    }
    sql.append(") \n             ORDER BY id DESC LIMIT ?");
    sql
}

/// The LIKE pattern that matches text containing `keyword`: the keyword
/// between two '%'.
pub fn like_pattern(keyword: &str) -> (p: String)
    ensures
        p@ == seq!['%'] + keyword@ + seq!['%'],
{
    let mut p = String::from_str("%");
    p.append(keyword);
    p.append("%");
    proof {
        reveal_strlit("%");
    }
    p
}

/// The address that opens (creating it if needed) the SQLite file at `path`.
pub fn sqlite_connection_string(path: &str) -> (url: String)
    ensures
        url@ == "sqlite:"@ + path@ + "?mode=rwc"@,
{
    let mut url = String::from_str("sqlite:");
    url.append(path);
    url.append("?mode=rwc");
    url
}

/// A row of the messages table.
pub struct MessageRow {
    pub id: i64,
    pub session_id: String,
    pub role: String,
    pub content: String,
    pub timestamp: Timestamp,
    pub tokens: Option<i32>,
}

/// The message that a row stores.
pub open spec fn row_message(row: MessageRow) -> MessageView {
    MessageView {
        id: Some(row.id as u64),
        session_id: row.session_id@,
        role: role_of_label(row.role@),
        content: row.content@,
        timestamp: row.timestamp,
        tokens: match row.tokens {
            Some(t) => Some(t as usize),
            None => None,
        },
    }
}

/// The messages that the rows store, in the same order.
pub open spec fn rows_messages(rows: Seq<MessageRow>) -> Seq<MessageView> {
    rows.map_values(|r: MessageRow| row_message(r))
}

/// The message that a row stores.
pub fn message_from_row(row: &MessageRow) -> (m: Message)
    ensures
        m@ == row_message(*row),
{
    let tokens: Option<usize> = match row.tokens {
        Some(t) => Some(t as usize),
        None => None,
    };
    Message {
        id: Some(row.id as u64),
        session_id: row.session_id.clone(),
        role: role_from_label(row.role.as_str()),
        content: row.content.clone(),
        timestamp: row.timestamp,
        tokens,
    }
}

/// The messages that the rows store, in the same order.
pub fn messages_from_rows(rows: &Vec<MessageRow>) -> (ms: Vec<Message>)
    ensures
        messages_view(ms@) == rows_messages(rows@),
{
    let mut ms: Vec<Message> = Vec::new();
    let mut i: usize = 0;
    while i < rows.len()
        invariant
            i <= rows@.len(),
            messages_view(ms@) =~= rows_messages(rows@.take(i as int)),
        decreases rows@.len() - i,
    {
        let ghost before = ms@;
        ms.push(message_from_row(&rows[i]));
        proof {
            assert(messages_view(ms@) =~= messages_view(before).push(row_message(rows@[i as int])));
            assert(rows@.take(i + 1) =~= rows@.take(i as int).push(rows@[i as int]));
        }
        i += 1;
    }
    proof {
        assert(rows@.take(i as int) =~= rows@);
    }
    ms
}

/// The messages that rows fetched newest first store, oldest first.
pub fn messages_from_rows_oldest_first(rows: &Vec<MessageRow>) -> (ms: Vec<Message>)
    ensures
        messages_view(ms@) == rows_messages(rows@).reverse(),
{
    let mut ms: Vec<Message> = Vec::new();
    let mut i: usize = rows.len();
    while i > 0
        invariant
            i <= rows@.len(),
            messages_view(ms@) =~= rows_messages(rows@.skip(i as int)).reverse(),
        decreases i,
    {
        let ghost before = ms@;
        ms.push(message_from_row(&rows[i - 1]));
        proof {
            assert(messages_view(ms@) =~= messages_view(before).push(row_message(rows@[i - 1])));
            assert(rows@.skip(i - 1) =~= seq![rows@[i - 1]] + rows@.skip(i as int));
            assert(rows_messages(rows@.skip(i - 1)) =~= seq![row_message(rows@[i - 1])] + rows_messages(
                rows@.skip(i as int),
            ));
        }
        i -= 1;
    }
    proof {
        assert(rows@.skip(0) =~= rows@);
    }
    ms
}

} // verus!
